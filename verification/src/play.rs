//! One turn of the game: the player's move, the points it earns and the new tile.

use crate::board::{
    game_score_horizontal, game_score_vertical, horizontal_score, is_down_move, is_left_move,
    is_right_move, is_up_move, lemma_moves_unique, move_down, move_left, move_right, move_up,
    vertical_score,
};
use crate::spawn::{spawn_new_random_tile, spawn_outcome, spawned_with};
use vstd::prelude::*;

verus! {

/// The direction of a move.
#[derive(Clone, Copy, PartialEq, Eq, Debug)]
pub enum Direction {
    Up,
    Down,
    Left,
    Right,
}

/// No move changes the board: the game is over.
pub open spec fn game_over(state: u64) -> bool {
    is_left_move(state, state) && is_right_move(state, state) && is_up_move(state, state)
        && is_down_move(state, state)
}

/// Whether the game is over, given the boards that the four moves leave: none of them
/// differs from the board.
pub fn no_move_changes(state: u64, up: u64, down: u64, left: u64, right: u64) -> (over: bool)
    requires
        is_up_move(state, up),
        is_down_move(state, down),
        is_left_move(state, left),
        is_right_move(state, right),
    ensures
        over == game_over(state),
{
    proof {
        lemma_moves_unique(state, up, state);
        lemma_moves_unique(state, down, state);
        lemma_moves_unique(state, left, state);
        lemma_moves_unique(state, right, state);
    }
    up == state && down == state && left == state && right == state
}

/// `after` is the board that a move in `direction` leaves; with no direction it is the board itself.
pub open spec fn moved(state: u64, direction: Option<Direction>, after: u64) -> bool {
    match direction {
        Some(Direction::Up) => is_up_move(state, after),
        Some(Direction::Down) => is_down_move(state, after),
        Some(Direction::Left) => is_left_move(state, after),
        Some(Direction::Right) => is_right_move(state, after),
        None => after == state,
    }
}

/// `next` is the board after a move in `direction` and a new tile placed for some draws.
pub open spec fn turn_with_draws(state: u64, direction: Option<Direction>, next: u64) -> bool {
    exists|after: u64, common: bool, draw: u32|
        #![trigger spawned_with(after, next, common, draw)]
        moved(state, direction, after) && spawned_with(after, next, common, draw)
}

/// The points a move in `direction` earns; none without a direction.
pub open spec fn move_points(state: u64, direction: Option<Direction>) -> int {
    match direction {
        Some(Direction::Up) | Some(Direction::Down) => vertical_score(state),
        Some(Direction::Left) | Some(Direction::Right) => horizontal_score(state),
        None => 0,
    }
}

/// Plays one turn: when no move changes the board, gives the board back with -1 points;
/// otherwise moves in `direction` (stays put without one), spawns a new tile on the
/// result and gives the new board with the points that the move earns.
pub fn make_move(state: u64, direction: Option<Direction>) -> (res: (u64, i64))
    ensures
        game_over(state) ==> res == (state, -1i64),
        !game_over(state) ==> res.1 == move_points(state, direction) && exists|after: u64|
            moved(state, direction, after) && spawn_outcome(after, res.0),
        !game_over(state) ==> turn_with_draws(state, direction, res.0),
        !game_over(state) && (direction == Some(Direction::Left) || direction == Some(
            Direction::Right,
        )) ==> res.1 == horizontal_score(state),
        !game_over(state) && (direction == Some(Direction::Up) || direction == Some(
            Direction::Down,
        )) ==> res.1 == vertical_score(state),
        !game_over(state) && direction is None ==> res.1 == 0,
{
    let up = move_up(state);
    let down = move_down(state);
    let left = move_left(state);
    let right = move_right(state);
    if no_move_changes(state, up, down, left, right) {
        return (state, -1);
    }
    let after = match direction {
        Some(Direction::Up) => up,
        Some(Direction::Down) => down,
        Some(Direction::Left) => left,
        Some(Direction::Right) => right,
        None => state,
    };
    let new_state = spawn_new_random_tile(after);
    let score = match direction {
        Some(Direction::Up) | Some(Direction::Down) => game_score_vertical(state),
        Some(Direction::Left) | Some(Direction::Right) => game_score_horizontal(state),
        None => 0,
    };
    proof {
        assert(moved(state, direction, after));
        let (common, draw) = choose|common: bool, draw: u32|
            spawned_with(after, new_state, common, draw);
        assert(spawned_with(after, new_state, common, draw));
        assert(turn_with_draws(state, direction, new_state));
    }
    (new_state, score as i64)
}

} // verus!
