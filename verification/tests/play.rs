use game2048::board::{move_down, move_left, move_right, move_up};
use game2048::counts::count_empty;
use game2048::play::{make_move, no_move_changes, Direction};
use game2048::search::{empty_cell_indices, search_depth_limit, with_tile};
use game2048::spawn::{place_tile, spawn_new_random_tile, spawn_tile_with};

fn cell(board: u64, i: u32) -> u64 {
    (board >> (4 * i)) & 0xF
}

#[test]
fn place_tile_fills_the_chosen_empty_cell() {
    assert_eq!(place_tile(0, 2, 5), 0x0020_0000);
    assert_eq!(place_tile(0x0F0F, 1, 1), 0x1F0F);
    assert_eq!(place_tile(0x0F0F, 1, 0), 0x0F1F);
    assert_eq!(place_tile(0x1111_1111_1111_1110, 2, 0), 0x1111_1111_1111_1112);
}

#[test]
fn spawn_puts_a_two_or_four_into_an_empty_cell() {
    let state = 0x1111_1111_0000_1111u64;
    for _ in 0..200 {
        let after = spawn_new_random_tile(state);
        let mut changed = 0;
        for i in 0..16 {
            if cell(after, i) != cell(state, i) {
                changed += 1;
                assert_eq!(cell(state, i), 0);
                assert!(cell(after, i) == 1 || cell(after, i) == 2);
            }
        }
        assert_eq!(changed, 1);
        assert_eq!(count_empty(after), count_empty(state) - 1);
    }
}

#[test]
fn spawn_on_full_or_empty_board_changes_nothing() {
    let full = 0x1212_2121_1212_2121u64;
    assert_eq!(spawn_new_random_tile(full), full);
    assert_eq!(spawn_new_random_tile(0), 0);
}

#[test]
fn spawn_draws_both_tiles() {
    let mut twos = 0;
    let mut fours = 0;
    for _ in 0..2000 {
        let after = spawn_new_random_tile(0x1111_1111_1111_1110);
        match cell(after, 0) {
            1 => twos += 1,
            2 => fours += 1,
            _ => panic!("unexpected tile"),
        }
    }
    assert!(twos > fours);
    assert!(fours > 0);
}

#[test]
fn make_move_on_stuck_board_reports_minus_one() {
    let stuck = 0x1212_2121_1212_2121u64;
    assert_eq!(make_move(stuck, Some(Direction::Up)), (stuck, -1));
    assert_eq!(make_move(stuck, None), (stuck, -1));
}

#[test]
fn stuck_board_is_full() {
    let stuck = 0x1212_2121_1212_2121u64;
    assert_eq!(move_left(stuck), stuck);
    assert_eq!(move_right(stuck), stuck);
    assert_eq!(move_up(stuck), stuck);
    assert_eq!(move_down(stuck), stuck);
    assert_eq!(count_empty(stuck), 0);
}

#[test]
fn make_move_moves_scores_and_spawns() {
    let (after, score) = make_move(0x0011, Some(Direction::Left));
    assert_eq!(score, 4);
    assert_eq!(cell(after, 0), 2);
    let spawned: Vec<u32> = (1..16).filter(|&i| cell(after, i) != 0).collect();
    assert_eq!(spawned.len(), 1);
    assert!(cell(after, spawned[0]) == 1 || cell(after, spawned[0]) == 2);

    let (after, score) = make_move(0x0001_0001, Some(Direction::Down));
    assert_eq!(score, 4);
    assert_eq!(cell(after, 12), 2);

    let (_, score) = make_move(0x0011, Some(Direction::Right));
    assert_eq!(score, 4);
    let (_, score) = make_move(0x0011, Some(Direction::Up));
    assert_eq!(score, 0);
}

#[test]
fn make_move_without_direction_spawns_on_the_board() {
    let (after, score) = make_move(0x0011, None);
    assert_eq!(score, 0);
    assert_eq!(after & 0xFF, 0x11);
    assert_eq!(count_empty(after), 13);
}

#[test]
fn depth_limit_follows_distinct_tiles() {
    assert_eq!(search_depth_limit(0), 3);
    assert_eq!(search_depth_limit(0x0000_00A9_8765_4321), 5);
    assert_eq!(search_depth_limit(0x0FED_CBA9_8765_4321), 6);
    assert_eq!(search_depth_limit(0x0000_0000_8765_4321), 3);
}

#[test]
fn empty_cells_are_listed_in_order() {
    assert_eq!(empty_cell_indices(0x1111_1111_1111_1011), vec![2]);
    assert_eq!(empty_cell_indices(0x1111_1111_1111_1111), Vec::<u32>::new());
    assert_eq!(empty_cell_indices(0xFFFF_FFFF_FFFF_0F0F), vec![1, 3]);
    assert_eq!(empty_cell_indices(0).len(), 16);
}

#[test]
fn empty_list_matches_empty_count() {
    for s in [0x1u64, 0x1111, 0x1111_1111_1111_1011, 0xFFFF_FFFF_FFFF_0F0F] {
        assert_eq!(empty_cell_indices(s).len() as u32 % 16, count_empty(s));
    }
}

#[test]
fn with_tile_sets_one_cell() {
    assert_eq!(with_tile(0, 3, 1), 0x1000);
    assert_eq!(with_tile(0x0F0F, 1, 2), 0x0F2F);
}

#[test]
fn spawn_tile_with_places_by_the_draws() {
    assert_eq!(spawn_tile_with(0x1, true, 1), 0x101);
    assert_eq!(spawn_tile_with(0x1, false, 16), 0x201);
    assert_eq!(spawn_tile_with(0x1, true, 0), 0x11);
    assert_eq!(spawn_tile_with(0x0F0F, false, 1), 0x2F0F);
    assert_eq!(spawn_tile_with(0, true, 5), 0);
    let full = 0x1212_2121_1212_2121u64;
    assert_eq!(spawn_tile_with(full, true, 3), full);
}

#[test]
fn no_move_changes_tells_a_stuck_board() {
    let stuck = 0x1212_2121_1212_2121u64;
    assert!(no_move_changes(stuck, move_up(stuck), move_down(stuck), move_left(stuck), move_right(stuck)));
    let open = 0x0011u64;
    assert!(!no_move_changes(open, move_up(open), move_down(open), move_left(open), move_right(open)));
    let column = 0x0001_0001u64;
    assert!(!no_move_changes(
        column,
        move_up(column),
        move_down(column),
        move_left(column),
        move_right(column),
    ));
}
