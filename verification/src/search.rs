//! The integer side of the move search: how deep to search, which cells a new tile can
//! take, and the boards with such a tile.

use crate::bits::{cell, lemma_nibble_mask, lemma_nibble_bound, nibble};
use crate::counts::{count_distinct_tiles, distinct_tiles};
use crate::spawn::lemma_put_nibble;
use vstd::prelude::*;

verus! {

/// The smallest search depth.
pub const DEPTH_MIN: u8 = 3;

/// The largest search depth.
pub const DEPTH_MAX: u8 = 6;

/// How many distinct tiles the search depth lags behind.
pub const DEPTH_DISCOUNT: u8 = 5;

/// The search depth for a board: its number of distinct tiles less `DEPTH_DISCOUNT`,
/// kept within `DEPTH_MIN ..= DEPTH_MAX`.
pub open spec fn depth_for(distinct: int) -> int {
    let d = distinct - DEPTH_DISCOUNT;
    if d < DEPTH_MIN {
        DEPTH_MIN as int
    } else if d > DEPTH_MAX {
        DEPTH_MAX as int
    } else {
        d
    }
}

/// How deep the search looks ahead from a board.
pub fn search_depth_limit(state: u64) -> (depth: u8)
    ensures
        depth == depth_for(distinct_tiles(state)),
        DEPTH_MIN <= depth <= DEPTH_MAX,
        DEPTH_MIN <= distinct_tiles(state) - DEPTH_DISCOUNT <= DEPTH_MAX ==> depth == distinct_tiles(
            state,
        ) - DEPTH_DISCOUNT,
        distinct_tiles(state) - DEPTH_DISCOUNT < DEPTH_MIN ==> depth == DEPTH_MIN,
        distinct_tiles(state) - DEPTH_DISCOUNT > DEPTH_MAX ==> depth == DEPTH_MAX,
{
    let distinct = count_distinct_tiles(state);
    let lowered: i8 = distinct as i8 - DEPTH_DISCOUNT as i8;
    let at_least: i8 = if (DEPTH_MIN as i8) < lowered {
        lowered
    } else {
        DEPTH_MIN as i8
    };
    let at_least = at_least as u8;
    if DEPTH_MAX < at_least {
        DEPTH_MAX
    } else {
        at_least
    }
}

/// The empty cells among cells `0 .. n` of a board, in increasing order.
pub open spec fn empty_cells_list(board: u64, n: int) -> Seq<int>
    decreases n,
{
    if n <= 0 {
        Seq::empty()
    } else if cell(board, n - 1) == 0 {
        empty_cells_list(board, n - 1).push(n - 1)
    } else {
        empty_cells_list(board, n - 1)
    }
}

/// The empty cells of a board, in increasing order.
pub fn empty_cell_indices(state: u64) -> (cells: Vec<u32>)
    ensures
        cells@.len() == empty_cells_list(state, 16).len(),
        forall|k: int| 0 <= k < cells@.len() ==> cells@[k] == empty_cells_list(state, 16)[k],
{
    let mut cells: Vec<u32> = Vec::new();
    let mut i: u32 = 0;
    while i < 16
        invariant
            i <= 16,
            cells@.len() == empty_cells_list(state, i as int).len(),
            forall|k: int|
                0 <= k < cells@.len() ==> cells@[k] == empty_cells_list(state, i as int)[k],
        decreases 16 - i,
    {
        proof {
            lemma_nibble_mask(state, i as u64);
            assert(cell(state, i as int) == nibble(state, i as u64));
        }
        if state & (0xF << (i * 4)) == 0 {
            cells.push(i);
        }
        i += 1;
    }
    cells
}

/// The board with a tile of rank `rank` put into its empty cell `i`.
pub fn with_tile(state: u64, i: u32, rank: u64) -> (res: u64)
    requires
        i < 16,
        cell(state, i as int) == 0,
        1 <= rank <= 15,
    ensures
        forall|j: int| 0 <= j < 16 ==> #[trigger] cell(res, j) == (if j == i {
            rank as int
        } else {
            cell(state, j)
        }),
{
    let res = state | (rank << (i * 4));
    proof {
        assert forall|j: int| 0 <= j < 16 implies #[trigger] cell(res, j) == (if j == i {
            rank as int
        } else {
            cell(state, j)
        }) by {
            lemma_put_nibble(state, rank, i as u64, j as u64);
        }
    }
    res
}

} // verus!
