//! A new tile on the board: where it goes is decided by chance, which `rand` supplies;
//! placing it is verified for every draw.

use crate::bits::{cell, lemma_nibble_bound, lemma_scan_step, nibble};
use crate::counts::{count_empty, empty_cells, empty_cells_below};
use vstd::prelude::*;

verus! {

/// Cell `i` is the `k`-th empty cell of the board, counting from 0 in cell order.
pub open spec fn is_kth_empty(board: u64, i: int, k: int) -> bool {
    0 <= i < 16 && cell(board, i) == 0 && empty_cells_below(board, i) == k
}

/// `after` is `board` with a tile of rank `rank` put into its `k`-th empty cell.
pub open spec fn placed(board: u64, after: u64, rank: int, k: int) -> bool {
    exists|i: int|
        is_kth_empty(board, i, k) && forall|j: int|
            0 <= j < 16 ==> #[trigger] cell(after, j) == (if j == i {
                rank
            } else {
                cell(board, j)
            })
}

/// `after` is a board that `spawn_new_random_tile` can make of `board`.
pub open spec fn spawn_outcome(board: u64, after: u64) -> bool {
    if empty_cells(board) % 16 == 0 {
        after == board
    } else {
        exists|rank: int, k: int|
            (rank == 1 || rank == 2) && 0 <= k < empty_cells(board) && placed(board, after, rank, k)
    }
}

proof fn lemma_empty_below_bounds(board: u64, p: int)
    requires
        0 <= p <= 16,
    ensures
        0 <= empty_cells_below(board, p) <= p,
        empty_cells_below(board, p) <= empty_cells(board),
        empty_cells(board) - empty_cells_below(board, p) <= 16 - p,
    decreases 16 - p,
{
    reveal_with_fuel(empty_cells_below, 2);
    lemma_empty_below_upto(board, p);
    if p < 16 {
        lemma_empty_below_bounds(board, p + 1);
    }
}

proof fn lemma_empty_below_upto(board: u64, p: int)
    requires
        0 <= p,
    ensures
        0 <= empty_cells_below(board, p) <= p,
    decreases p,
{
    if p > 0 {
        lemma_empty_below_upto(board, p - 1);
    }
}

pub proof fn lemma_put_nibble(state: u64, t: u64, i: u64, j: u64)
    requires
        t < 16,
        i < 16,
        j < 16,
        nibble(state, i) == 0,
    ensures
        nibble(state | (t << ((i * 4) as u64)), j) == (if j == i {
            t
        } else {
            nibble(state, j)
        }),
{
    assert(nibble(state | (t << ((i * 4) as u64)), j) == (if j == i {
        t
    } else {
        nibble(state, j)
    })) by (bit_vector)
        requires
            t < 16,
            i < 16,
            j < 16,
            nibble(state, i) == 0,
    ;
}

proof fn lemma_shift_tile(t: u64, p: u64)
    requires
        p < 15,
    ensures
        t << 0u64 == t,
        (t << ((p * 4) as u64)) << 4u64 == t << (((p + 1) * 4) as u64),
{
    assert(t << 0u64 == t && (t << ((p * 4) as u64)) << 4u64 == t << (((p + 1) * 4) as u64))
        by (bit_vector)
        requires
            p < 15,
    ;
}

/// Puts a tile of rank `tile` into the `idx`-th empty cell of the board (counting from 0,
/// in cell order).
pub fn place_tile(state: u64, tile: u64, idx: u32) -> (res: u64)
    requires
        1 <= tile <= 15,
        idx < empty_cells(state),
    ensures
        placed(state, res, tile as int, idx as int),
{
    let ghost t0 = tile;
    let ghost idx0 = idx;
    let ghost mut p: u64 = 0;
    let mut tile = tile;
    let mut idx = idx;
    let mut tmp = state;
    proof {
        lemma_scan_step(state, 0);
        lemma_shift_tile(t0, 0);
        assert(empty_cells_below(state, 0) == 0);
    }
    loop
        invariant_except_break
            p < 16,
            tmp == state >> ((p * 4) as u64),
            tile == t0 << ((p * 4) as u64),
            empty_cells_below(state, p as int) + idx == idx0,
            empty_cells(state) - empty_cells_below(state, p as int) > idx,
            1 <= t0 <= 15,
            idx0 < empty_cells(state),
        ensures
            p < 16,
            tile == t0 << ((p * 4) as u64),
            is_kth_empty(state, p as int, idx0 as int),
        decreases 16 - p,
    {
        let ghost p_start = p;
        while (tmp & 0xF) != 0
            invariant
                p_start <= p < 16,
                tmp == state >> ((p * 4) as u64),
                tile == t0 << ((p * 4) as u64),
                empty_cells_below(state, p as int) + idx == idx0,
                empty_cells(state) - empty_cells_below(state, p as int) > idx,
            decreases 16 - p,
        {
            proof {
                lemma_scan_step(state, p);
                reveal_with_fuel(empty_cells_below, 2);
                assert(cell(state, p as int) == nibble(state, p));
                lemma_empty_below_bounds(state, (p + 1) as int);
                lemma_shift_tile(t0, p);
            }
            tmp >>= 4;
            tile <<= 4;
            proof {
                p = (p + 1) as u64;
            }
        }
        proof {
            lemma_scan_step(state, p);
            assert(cell(state, p as int) == nibble(state, p));
        }
        if idx == 0 {
            break;
        }
        proof {
            reveal_with_fuel(empty_cells_below, 2);
            lemma_empty_below_bounds(state, (p + 1) as int);
            lemma_shift_tile(t0, p);
        }
        idx -= 1;
        tmp >>= 4;
        tile <<= 4;
        proof {
            p = (p + 1) as u64;
        }
    }
    let res = state | tile;
    proof {
        assert forall|j: int| 0 <= j < 16 implies #[trigger] cell(res, j) == (if j == p as int {
            t0 as int
        } else {
            cell(state, j)
        }) by {
            lemma_put_nibble(state, t0, p, j as u64);
        }
        assert(is_kth_empty(state, p as int, idx0 as int));
    }
    res
}

/// Calls `rand::random::<u32>()`, a uniformly drawn `u32` from the thread-local generator.
/// Nothing is stated of the value: it is chance.
#[verifier::external_body]
fn random_u32() -> u32 {
    rand::random::<u32>()
}

/// Calls `rand::random_ratio(numerator, denominator)`, which is `true` with probability
/// `numerator / denominator`. Stated: what its documentation guarantees, `true` when
/// `numerator == denominator` and `false` when `numerator == 0`; any other outcome is chance.
/// It panics when `denominator == 0` or `numerator > denominator`, which `requires` rules out.
#[verifier::external_body]
fn random_ratio(numerator: u32, denominator: u32) -> (b: bool)
    requires
        0 < denominator,
        numerator <= denominator,
    ensures
        numerator == denominator ==> b,
        numerator == 0 ==> !b,
{
    rand::random_ratio(numerator, denominator)
}

/// `after` is what the draws `common` (the 9-in-10 draw) and `draw` (the cell draw) make of
/// `board`: unchanged when `count_empty` counts 0, else a tile of rank 1 when `common`
/// holds (rank 2 otherwise) in the empty cell numbered `draw` modulo the count.
pub open spec fn spawned_with(board: u64, after: u64, common: bool, draw: u32) -> bool {
    if empty_cells(board) % 16 == 0 {
        after == board
    } else {
        placed(
            board,
            after,
            if common {
                1int
            } else {
                2int
            },
            (draw as int) % (empty_cells(board) % 16),
        )
    }
}

/// Puts a new tile on the board for given draws: rank 1 (a 2) when `common` holds, else
/// rank 2 (a 4), into the empty cell numbered `draw` modulo the number of empty cells. A
/// board that `count_empty` counts as 0 is given back unchanged.
pub fn spawn_tile_with(state: u64, common: bool, draw: u32) -> (res: u64)
    ensures
        spawned_with(state, res, common, draw),
        spawn_outcome(state, res),
{
    let empty_count = count_empty(state);
    if empty_count == 0 {
        return state;
    }
    let tile: u64 = if common {
        1
    } else {
        2
    };
    let idx = draw % empty_count;
    proof {
        lemma_empty_below_bounds(state, 16);
    }
    let res = place_tile(state, tile, idx);
    proof {
        assert((tile == 1 || tile == 2) && 0 <= idx < empty_cells(state) && placed(
            state,
            res,
            tile as int,
            idx as int,
        ));
    }
    res
}

/// Puts a new tile into a random empty cell: rank 1 (a 2) nine times in ten, else rank 2
/// (a 4). A board that `count_empty` counts as 0 is given back unchanged, with nothing drawn.
pub fn spawn_new_random_tile(state: u64) -> (res: u64)
    ensures
        spawn_outcome(state, res),
        exists|common: bool, draw: u32| spawned_with(state, res, common, draw),
{
    if count_empty(state) == 0 {
        proof {
            assert(spawned_with(state, state, true, 0));
        }
        return state;
    }
    let common = random_ratio(9, 10);
    let draw = random_u32();
    spawn_tile_with(state, common, draw)
}

} // verus!
