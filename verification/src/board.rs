//! The board: moves in the four directions, their points, transposition and counts.

use crate::bits::{
    board_col, board_row, cell_at, lemma_board_row, lemma_cols_eq, lemma_is_transpose_bits,
    lemma_line_bits, lemma_line_bits_cells, lemma_pack_rows, lemma_rows_eq,
    lemma_transpose_bits_cells, lemma_transpose_lines, lemma_transpose_unique, lemma_xor_cols,
    lemma_xor_rows, lemma_xor_small, lemma_xor_solve, line_bits, line_cells, pack_rows, row_bits,
    transpose_bits,
};
use crate::line::{lemma_moved_line_ranks, line_after_move, line_move_score};
use crate::row::{game_score_row, reverse_row, row_move_left};
use vstd::prelude::*;

verus! {

/// `t` is `state` transposed: its cell in row `r`, column `c` is the cell of `state` in row
/// `c`, column `r`.
pub open spec fn is_transpose(state: u64, t: u64) -> bool {
    forall|r: int, c: int| 0 <= r < 4 && 0 <= c < 4 ==> #[trigger] cell_at(t, r, c) == cell_at(state, c, r)
}

/// Transposes the board: the cell in row `r`, column `c` trades places with the cell in
/// row `c`, column `r`.
pub fn transpose(state: u64) -> (t: u64)
    ensures
        is_transpose(state, t),
{
    let a1: u64 = state & 0xF0F0_0F0F_F0F0_0F0F;
    let a2: u64 = state & 0x0000_F0F0_0000_F0F0;
    let a3: u64 = state & 0x0F0F_0000_0F0F_0000;
    let a: u64 = a1 | (a2 << 12) | (a3 >> 12);
    let b1: u64 = a & 0xFF00_FF00_00FF_00FF;
    let b2: u64 = a & 0x00FF_00FF_0000_0000;
    let b3: u64 = a & 0x0000_0000_FF00_FF00;
    let t = b1 | (b2 >> 24) | (b3 << 24);
    proof {
        assert(t == transpose_bits(state));
        assert forall|r: int, c: int| 0 <= r < 4 && 0 <= c < 4 implies #[trigger] cell_at(t, r, c)
            == cell_at(state, c, r) by {
            lemma_transpose_bits_cells(state, r as u64, c as u64);
        }
    }
    t
}

/// `after` is `state` with every row moved toward its cell 0 (to the left).
pub open spec fn is_left_move(state: u64, after: u64) -> bool {
    forall|r: int| 0 <= r < 4 ==> #[trigger] board_row(after, r) == line_after_move(board_row(state, r))
}

/// `after` is `state` with every row moved toward its cell 3 (to the right).
pub open spec fn is_right_move(state: u64, after: u64) -> bool {
    forall|r: int|
        0 <= r < 4 ==> #[trigger] board_row(after, r) == line_after_move(
            board_row(state, r).reverse(),
        ).reverse()
}

/// `after` is `state` with every column moved toward its row 0 (up).
pub open spec fn is_up_move(state: u64, after: u64) -> bool {
    forall|c: int| 0 <= c < 4 ==> #[trigger] board_col(after, c) == line_after_move(board_col(state, c))
}

/// `after` is `state` with every column moved toward its row 3 (down).
pub open spec fn is_down_move(state: u64, after: u64) -> bool {
    forall|c: int|
        0 <= c < 4 ==> #[trigger] board_col(after, c) == line_after_move(
            board_col(state, c).reverse(),
        ).reverse()
}

/// The row of 16 bits that row `r` becomes in a move toward cell 0.
pub open spec fn row_after_left(r: u64) -> u64 {
    line_bits(line_after_move(line_cells(r)))
}

/// The row of 16 bits that row `r` becomes in a move toward cell 3.
pub open spec fn row_after_right(r: u64) -> u64 {
    line_bits(line_after_move(line_cells(r).reverse()).reverse())
}

/// The bits that a move toward cell 0 flips in row `r`.
pub open spec fn left_flip(r: u64) -> u64 {
    r ^ row_after_left(r)
}

/// The bits that a move toward cell 3 flips in row `r`.
pub open spec fn right_flip(r: u64) -> u64 {
    r ^ row_after_right(r)
}

/// `e` turns the column that row `r` holds into the column that row `m` holds, both placed
/// in column 0 of a board: flipping by `e` the transposed row gives the transposed new row.
pub open spec fn is_column_flip(r: u64, m: u64, e: u64) -> bool {
    forall|a: u64| #[trigger] is_transpose(r, a) ==> is_transpose(m, e ^ a)
}

/// `e` is what a move up (toward row 0) flips in a column given as row `r`.
pub open spec fn is_up_flip(r: u64, e: u64) -> bool {
    is_column_flip(r, row_after_left(r), e)
}

/// `e` is what a move down (toward row 3) flips in a column given as row `r`.
pub open spec fn is_down_flip(r: u64, e: u64) -> bool {
    is_column_flip(r, row_after_right(r), e)
}

/// The rows after a move are rows of 16 bits with the moved cells.
proof fn lemma_row_after(r: u64)
    requires
        r < 0x10000,
    ensures
        row_after_left(r) < 0x10000,
        line_cells(row_after_left(r)) == line_after_move(line_cells(r)),
        row_after_right(r) < 0x10000,
        line_cells(row_after_right(r)) == line_after_move(line_cells(r).reverse()).reverse(),
{
    let x = line_cells(r);
    assert forall|k: int| 0 <= k < 4 implies 0 <= #[trigger] x[k] <= 15 by {
        crate::bits::lemma_nibble_bound(r, k as u64);
    }
    lemma_moved_line_ranks(x);
    lemma_line_bits_cells(line_after_move(x));
    let y = x.reverse();
    assert forall|k: int| 0 <= k < 4 implies 0 <= #[trigger] y[k] <= 15 by {
        assert(y[k] == x[3 - k]);
    }
    lemma_moved_line_ranks(y);
    let z = line_after_move(y).reverse();
    assert forall|k: int| 0 <= k < 4 implies 0 <= #[trigger] z[k] <= 15 by {
        assert(z[k] == line_after_move(y)[3 - k]);
    }
    lemma_line_bits_cells(z);
}

/// A column flip, said over cells, is the difference of the transposed rows.
proof fn lemma_column_flip(r: u64, m: u64, e: u64)
    ensures
        is_column_flip(r, m, e) == (e == transpose_bits(r) ^ transpose_bits(m)),
{
    lemma_is_transpose_bits(r);
    lemma_is_transpose_bits(m);
    let a0 = transpose_bits(r);
    lemma_xor_solve(e, a0, transpose_bits(m));
    if is_column_flip(r, m, e) {
        assert(is_transpose(r, a0));
        assert(is_transpose(m, e ^ a0));
        lemma_transpose_unique(m, e ^ a0);
    }
    if e == transpose_bits(r) ^ transpose_bits(m) {
        assert forall|a: u64| #[trigger] is_transpose(r, a) implies is_transpose(m, e ^ a) by {
            lemma_transpose_unique(r, a);
        }
    }
}

/// The bits that turn a row into the row after a move toward cell 0.
fn left_entry(row: u64) -> (e: u64)
    requires
        row < 0x10000,
    ensures
        e == left_flip(row),
{
    let m = row_move_left(row);
    proof {
        lemma_line_bits(m);
    }
    row ^ m
}

/// The bits that turn a row into the row after a move toward cell 3.
fn right_entry(row: u64) -> (e: u64)
    requires
        row < 0x10000,
    ensures
        e == right_flip(row),
{
    let m = reverse_row(row_move_left(reverse_row(row)));
    proof {
        lemma_line_bits(m);
    }
    row ^ m
}

/// The bits that turn a column (given as a row) into the column after a move toward row 0,
/// placed in column 0 of a board.
fn up_entry(row: u64) -> (e: u64)
    requires
        row < 0x10000,
    ensures
        is_up_flip(row, e),
{
    let m = row_move_left(row);
    let a = transpose(row);
    let b = transpose(m);
    proof {
        lemma_line_bits(m);
        lemma_transpose_unique(row, a);
        lemma_transpose_unique(m, b);
        lemma_column_flip(row, m, a ^ b);
    }
    a ^ b
}

/// The bits that turn a column (given as a row) into the column after a move toward row 3,
/// placed in column 0 of a board.
fn down_entry(row: u64) -> (e: u64)
    requires
        row < 0x10000,
    ensures
        is_down_flip(row, e),
{
    let m = reverse_row(row_move_left(reverse_row(row)));
    let a = transpose(row);
    let b = transpose(m);
    proof {
        lemma_line_bits(m);
        lemma_transpose_unique(row, a);
        lemma_transpose_unique(m, b);
        lemma_column_flip(row, m, a ^ b);
    }
    a ^ b
}

/// Rows of the board made by `lemma_xor_rows`, read back.
proof fn lemma_rows_after(res: u64, m0: u64, m1: u64, m2: u64, m3: u64)
    requires
        m0 < 0x10000,
        m1 < 0x10000,
        m2 < 0x10000,
        m3 < 0x10000,
        res == pack_rows(m0, m1, m2, m3),
    ensures
        board_row(res, 0) == line_cells(m0),
        board_row(res, 1) == line_cells(m1),
        board_row(res, 2) == line_cells(m2),
        board_row(res, 3) == line_cells(m3),
{
    lemma_pack_rows(m0, m1, m2, m3);
    lemma_board_row(res, 0);
    lemma_board_row(res, 1);
    lemma_board_row(res, 2);
    lemma_board_row(res, 3);
}

/// Flipping each row of a board by its flip for a move toward cell 0 moves the board left.
proof fn lemma_left_assembly(state: u64, e0: u64, e1: u64, e2: u64, e3: u64)
    requires
        e0 == left_flip(row_bits(state, 0)),
        e1 == left_flip(row_bits(state, 1)),
        e2 == left_flip(row_bits(state, 2)),
        e3 == left_flip(row_bits(state, 3)),
    ensures
        is_left_move(state, state ^ (e0 | (e1 << 16u64) | (e2 << 32u64) | (e3 << 48u64))),
{
    let res = state ^ (e0 | (e1 << 16u64) | (e2 << 32u64) | (e3 << 48u64));
    lemma_board_row(state, 0);
    lemma_board_row(state, 1);
    lemma_board_row(state, 2);
    lemma_board_row(state, 3);
    let r0 = row_bits(state, 0);
    let r1 = row_bits(state, 1);
    let r2 = row_bits(state, 2);
    let r3 = row_bits(state, 3);
    lemma_row_after(r0);
    lemma_row_after(r1);
    lemma_row_after(r2);
    lemma_row_after(r3);
    lemma_xor_small(r0, row_after_left(r0));
    lemma_xor_small(r1, row_after_left(r1));
    lemma_xor_small(r2, row_after_left(r2));
    lemma_xor_small(r3, row_after_left(r3));
    lemma_xor_rows(state, e0, e1, e2, e3);
    lemma_rows_after(
        res,
        row_after_left(r0),
        row_after_left(r1),
        row_after_left(r2),
        row_after_left(r3),
    );
}

/// Flipping each row of a board by its flip for a move toward cell 3 moves the board right.
proof fn lemma_right_assembly(state: u64, e0: u64, e1: u64, e2: u64, e3: u64)
    requires
        e0 == right_flip(row_bits(state, 0)),
        e1 == right_flip(row_bits(state, 1)),
        e2 == right_flip(row_bits(state, 2)),
        e3 == right_flip(row_bits(state, 3)),
    ensures
        is_right_move(state, state ^ (e0 | (e1 << 16u64) | (e2 << 32u64) | (e3 << 48u64))),
{
    let res = state ^ (e0 | (e1 << 16u64) | (e2 << 32u64) | (e3 << 48u64));
    lemma_board_row(state, 0);
    lemma_board_row(state, 1);
    lemma_board_row(state, 2);
    lemma_board_row(state, 3);
    let r0 = row_bits(state, 0);
    let r1 = row_bits(state, 1);
    let r2 = row_bits(state, 2);
    let r3 = row_bits(state, 3);
    lemma_row_after(r0);
    lemma_row_after(r1);
    lemma_row_after(r2);
    lemma_row_after(r3);
    lemma_xor_small(r0, row_after_right(r0));
    lemma_xor_small(r1, row_after_right(r1));
    lemma_xor_small(r2, row_after_right(r2));
    lemma_xor_small(r3, row_after_right(r3));
    lemma_xor_rows(state, e0, e1, e2, e3);
    lemma_rows_after(
        res,
        row_after_right(r0),
        row_after_right(r1),
        row_after_right(r2),
        row_after_right(r3),
    );
}

/// Flipping column 0 to 3 of a board by the up flips of its transposed rows moves it up.
proof fn lemma_up_assembly(state: u64, e0: u64, e1: u64, e2: u64, e3: u64)
    requires
        is_up_flip(row_bits(transpose_bits(state), 0), e0),
        is_up_flip(row_bits(transpose_bits(state), 1), e1),
        is_up_flip(row_bits(transpose_bits(state), 2), e2),
        is_up_flip(row_bits(transpose_bits(state), 3), e3),
    ensures
        is_up_move(state, state ^ (e0 | (e1 << 4u64) | (e2 << 8u64) | (e3 << 12u64))),
{
    let t = transpose_bits(state);
    let res = state ^ (e0 | (e1 << 4u64) | (e2 << 8u64) | (e3 << 12u64));
    lemma_transpose_lines(state, t);
    lemma_board_row(t, 0);
    lemma_board_row(t, 1);
    lemma_board_row(t, 2);
    lemma_board_row(t, 3);
    let x0 = row_bits(t, 0);
    let x1 = row_bits(t, 1);
    let x2 = row_bits(t, 2);
    let x3 = row_bits(t, 3);
    lemma_row_after(x0);
    lemma_row_after(x1);
    lemma_row_after(x2);
    lemma_row_after(x3);
    lemma_column_flip(x0, row_after_left(x0), e0);
    lemma_column_flip(x1, row_after_left(x1), e1);
    lemma_column_flip(x2, row_after_left(x2), e2);
    lemma_column_flip(x3, row_after_left(x3), e3);
    let m0 = row_after_left(x0);
    let m1 = row_after_left(x1);
    let m2 = row_after_left(x2);
    let m3 = row_after_left(x3);
    lemma_xor_cols(state, m0, m1, m2, m3);
    let p = pack_rows(m0, m1, m2, m3);
    lemma_rows_after(p, m0, m1, m2, m3);
    lemma_transpose_lines(p, res);
}

/// Flipping column 0 to 3 of a board by the down flips of its transposed rows moves it down.
proof fn lemma_down_assembly(state: u64, e0: u64, e1: u64, e2: u64, e3: u64)
    requires
        is_down_flip(row_bits(transpose_bits(state), 0), e0),
        is_down_flip(row_bits(transpose_bits(state), 1), e1),
        is_down_flip(row_bits(transpose_bits(state), 2), e2),
        is_down_flip(row_bits(transpose_bits(state), 3), e3),
    ensures
        is_down_move(state, state ^ (e0 | (e1 << 4u64) | (e2 << 8u64) | (e3 << 12u64))),
{
    let t = transpose_bits(state);
    let res = state ^ (e0 | (e1 << 4u64) | (e2 << 8u64) | (e3 << 12u64));
    lemma_transpose_lines(state, t);
    lemma_board_row(t, 0);
    lemma_board_row(t, 1);
    lemma_board_row(t, 2);
    lemma_board_row(t, 3);
    let x0 = row_bits(t, 0);
    let x1 = row_bits(t, 1);
    let x2 = row_bits(t, 2);
    let x3 = row_bits(t, 3);
    lemma_row_after(x0);
    lemma_row_after(x1);
    lemma_row_after(x2);
    lemma_row_after(x3);
    lemma_column_flip(x0, row_after_right(x0), e0);
    lemma_column_flip(x1, row_after_right(x1), e1);
    lemma_column_flip(x2, row_after_right(x2), e2);
    lemma_column_flip(x3, row_after_right(x3), e3);
    let m0 = row_after_right(x0);
    let m1 = row_after_right(x1);
    let m2 = row_after_right(x2);
    let m3 = row_after_right(x3);
    lemma_xor_cols(state, m0, m1, m2, m3);
    let p = pack_rows(m0, m1, m2, m3);
    lemma_rows_after(p, m0, m1, m2, m3);
    lemma_transpose_lines(p, res);
}

/// Moves every row toward its cell 0 (to the left).
pub fn move_left(state: u64) -> (res: u64)
    ensures
        is_left_move(state, res),
{
    let row0 = state & 0xFFFF;
    let row1 = (state >> 16) & 0xFFFF;
    let row2 = (state >> 32) & 0xFFFF;
    let row3 = (state >> 48) & 0xFFFF;
    proof {
        lemma_board_row(state, 0);
        lemma_board_row(state, 1);
        lemma_board_row(state, 2);
        lemma_board_row(state, 3);
    }
    let e0 = left_entry(row0);
    let e1 = left_entry(row1);
    let e2 = left_entry(row2);
    let e3 = left_entry(row3);
    proof {
        lemma_left_assembly(state, e0, e1, e2, e3);
    }
    state ^ (e0 | (e1 << 16) | (e2 << 32) | (e3 << 48))
}

/// Moves every row toward its cell 3 (to the right).
pub fn move_right(state: u64) -> (res: u64)
    ensures
        is_right_move(state, res),
{
    let row0 = state & 0xFFFF;
    let row1 = (state >> 16) & 0xFFFF;
    let row2 = (state >> 32) & 0xFFFF;
    let row3 = (state >> 48) & 0xFFFF;
    proof {
        lemma_board_row(state, 0);
        lemma_board_row(state, 1);
        lemma_board_row(state, 2);
        lemma_board_row(state, 3);
    }
    let e0 = right_entry(row0);
    let e1 = right_entry(row1);
    let e2 = right_entry(row2);
    let e3 = right_entry(row3);
    proof {
        lemma_right_assembly(state, e0, e1, e2, e3);
    }
    state ^ (e0 | (e1 << 16) | (e2 << 32) | (e3 << 48))
}

/// Moves every column toward its row 0 (up).
pub fn move_up(state: u64) -> (res: u64)
    ensures
        is_up_move(state, res),
{
    let state_t = transpose(state);
    let row0 = state_t & 0xFFFF;
    let row1 = (state_t >> 16) & 0xFFFF;
    let row2 = (state_t >> 32) & 0xFFFF;
    let row3 = (state_t >> 48) & 0xFFFF;
    proof {
        lemma_transpose_unique(state, state_t);
        lemma_board_row(state_t, 0);
        lemma_board_row(state_t, 1);
        lemma_board_row(state_t, 2);
        lemma_board_row(state_t, 3);
    }
    let e0 = up_entry(row0);
    let e1 = up_entry(row1);
    let e2 = up_entry(row2);
    let e3 = up_entry(row3);
    proof {
        lemma_up_assembly(state, e0, e1, e2, e3);
    }
    state ^ (e0 | (e1 << 4) | (e2 << 8) | (e3 << 12))
}

/// Moves every column toward its row 3 (down).
pub fn move_down(state: u64) -> (res: u64)
    ensures
        is_down_move(state, res),
{
    let state_t = transpose(state);
    let row0 = state_t & 0xFFFF;
    let row1 = (state_t >> 16) & 0xFFFF;
    let row2 = (state_t >> 32) & 0xFFFF;
    let row3 = (state_t >> 48) & 0xFFFF;
    proof {
        lemma_transpose_unique(state, state_t);
        lemma_board_row(state_t, 0);
        lemma_board_row(state_t, 1);
        lemma_board_row(state_t, 2);
        lemma_board_row(state_t, 3);
    }
    let e0 = down_entry(row0);
    let e1 = down_entry(row1);
    let e2 = down_entry(row2);
    let e3 = down_entry(row3);
    proof {
        lemma_down_assembly(state, e0, e1, e2, e3);
    }
    state ^ (e0 | (e1 << 4) | (e2 << 8) | (e3 << 12))
}

/// The points earned by moving the rows: the sum over the rows of what a move toward
/// cell 0 earns (a move toward cell 3 earns the same, see `law_score_either_way`).
pub open spec fn horizontal_score(state: u64) -> int {
    line_move_score(board_row(state, 0)) + line_move_score(board_row(state, 1)) + line_move_score(
        board_row(state, 2),
    ) + line_move_score(board_row(state, 3))
}

/// The points earned by moving the columns, summed over the columns.
pub open spec fn vertical_score(state: u64) -> int {
    line_move_score(board_col(state, 0)) + line_move_score(board_col(state, 1)) + line_move_score(
        board_col(state, 2),
    ) + line_move_score(board_col(state, 3))
}

/// The points that a horizontal move of the board earns.
pub fn game_score_horizontal(state: u64) -> (score: u64)
    ensures
        score == horizontal_score(state),
        score <= 0x80000,
        score % 4 == 0,
{
    let row0 = state & 0xFFFF;
    let row1 = (state >> 16) & 0xFFFF;
    let row2 = (state >> 32) & 0xFFFF;
    let row3 = (state >> 48) & 0xFFFF;
    proof {
        lemma_board_row(state, 0);
        lemma_board_row(state, 1);
        lemma_board_row(state, 2);
        lemma_board_row(state, 3);
    }
    game_score_row(row0) + game_score_row(row1) + game_score_row(row2) + game_score_row(row3)
}

/// The points that a vertical move of the board earns.
pub fn game_score_vertical(state: u64) -> (score: u64)
    ensures
        score == vertical_score(state),
        score <= 0x80000,
        score % 4 == 0,
{
    let state_t = transpose(state);
    let row0 = state_t & 0xFFFF;
    let row1 = (state_t >> 16) & 0xFFFF;
    let row2 = (state_t >> 32) & 0xFFFF;
    let row3 = (state_t >> 48) & 0xFFFF;
    proof {
        lemma_transpose_unique(state, state_t);
        lemma_transpose_lines(state, state_t);
        lemma_board_row(state_t, 0);
        lemma_board_row(state_t, 1);
        lemma_board_row(state_t, 2);
        lemma_board_row(state_t, 3);
    }
    game_score_row(row0) + game_score_row(row1) + game_score_row(row2) + game_score_row(row3)
}

/// A move determines the board it leaves.
pub proof fn lemma_moves_unique(state: u64, a: u64, b: u64)
    ensures
        is_left_move(state, a) && is_left_move(state, b) ==> a == b,
        is_right_move(state, a) && is_right_move(state, b) ==> a == b,
        is_up_move(state, a) && is_up_move(state, b) ==> a == b,
        is_down_move(state, a) && is_down_move(state, b) ==> a == b,
{
    if (is_left_move(state, a) && is_left_move(state, b)) || (is_right_move(state, a)
        && is_right_move(state, b)) {
        assert forall|r: int| 0 <= r < 4 implies #[trigger] board_row(a, r) == board_row(b, r) by {
            assert(board_row(a, r) == board_row(b, r));
        }
        lemma_rows_eq(a, b);
    }
    if (is_up_move(state, a) && is_up_move(state, b)) || (is_down_move(state, a) && is_down_move(
        state,
        b,
    )) {
        assert forall|c: int| 0 <= c < 4 implies #[trigger] board_col(a, c) == board_col(b, c) by {
            assert(board_col(a, c) == board_col(b, c));
        }
        lemma_cols_eq(a, b);
    }
}

/// The bits that a move to the left flips in each row of 16 bits, indexed by the row.
pub fn make_move_left_table() -> (table: Vec<u64>)
    ensures
        table@.len() == 0x10000,
        forall|r: int| 0 <= r < 0x10000 ==> #[trigger] table@[r] == left_flip(r as u64),
{
    let mut table: Vec<u64> = Vec::new();
    let mut row: u64 = 0;
    while row < 0x10000
        invariant
            row <= 0x10000,
            table@.len() == row,
            forall|r: int| 0 <= r < row ==> #[trigger] table@[r] == left_flip(r as u64),
        decreases 0x10000 - row,
    {
        let e = left_entry(row);
        table.push(e);
        row += 1;
    }
    table
}

/// The bits that a move to the right flips in each row of 16 bits, indexed by the row.
pub fn make_move_right_table() -> (table: Vec<u64>)
    ensures
        table@.len() == 0x10000,
        forall|r: int| 0 <= r < 0x10000 ==> #[trigger] table@[r] == right_flip(r as u64),
{
    let mut table: Vec<u64> = Vec::new();
    let mut row: u64 = 0;
    while row < 0x10000
        invariant
            row <= 0x10000,
            table@.len() == row,
            forall|r: int| 0 <= r < row ==> #[trigger] table@[r] == right_flip(r as u64),
        decreases 0x10000 - row,
    {
        let e = right_entry(row);
        table.push(e);
        row += 1;
    }
    table
}

/// For each column given as a row of 16 bits, the bits that a move up flips in it once
/// placed in column 0 of a board, indexed by the row.
pub fn make_move_up_table() -> (table: Vec<u64>)
    ensures
        table@.len() == 0x10000,
        forall|r: int| 0 <= r < 0x10000 ==> #[trigger] is_up_flip(r as u64, table@[r]),
{
    let mut table: Vec<u64> = Vec::new();
    let mut row: u64 = 0;
    while row < 0x10000
        invariant
            row <= 0x10000,
            table@.len() == row,
            forall|r: int| 0 <= r < row ==> #[trigger] is_up_flip(r as u64, table@[r]),
        decreases 0x10000 - row,
    {
        let e = up_entry(row);
        table.push(e);
        row += 1;
    }
    table
}

/// For each column given as a row of 16 bits, the bits that a move down flips in it once
/// placed in column 0 of a board, indexed by the row.
pub fn make_move_down_table() -> (table: Vec<u64>)
    ensures
        table@.len() == 0x10000,
        forall|r: int| 0 <= r < 0x10000 ==> #[trigger] is_down_flip(r as u64, table@[r]),
{
    let mut table: Vec<u64> = Vec::new();
    let mut row: u64 = 0;
    while row < 0x10000
        invariant
            row <= 0x10000,
            table@.len() == row,
            forall|r: int| 0 <= r < row ==> #[trigger] is_down_flip(r as u64, table@[r]),
        decreases 0x10000 - row,
    {
        let e = down_entry(row);
        table.push(e);
        row += 1;
    }
    table
}

/// The points that a move toward cell 0 earns in each row of 16 bits, indexed by the row.
pub fn make_game_score_table() -> (table: Vec<u64>)
    ensures
        table@.len() == 0x10000,
        forall|r: int|
            0 <= r < 0x10000 ==> #[trigger] table@[r] == line_move_score(line_cells(r as u64)) as u64,
{
    let mut table: Vec<u64> = Vec::new();
    let mut row: u64 = 0;
    while row < 0x10000
        invariant
            row <= 0x10000,
            table@.len() == row,
            forall|r: int|
                0 <= r < row ==> #[trigger] table@[r] == line_move_score(line_cells(r as u64)) as u64,
        decreases 0x10000 - row,
    {
        let e = game_score_row(row);
        table.push(e);
        row += 1;
    }
    table
}

/// The four move tables: for every row of 16 bits, the bits that a move flips in it, so
/// that a move of the board is four lookups.
pub struct MoveTables {
    left: Vec<u64>,
    right: Vec<u64>,
    up: Vec<u64>,
    down: Vec<u64>,
}

impl MoveTables {
    /// Each table holds, at every row of 16 bits, the flip of that row for its move.
    #[verifier::type_invariant]
    spec fn holds_flips(&self) -> bool {
        &&& self.left@.len() == 0x10000
        &&& self.right@.len() == 0x10000
        &&& self.up@.len() == 0x10000
        &&& self.down@.len() == 0x10000
        &&& forall|r: int| 0 <= r < 0x10000 ==> #[trigger] self.left@[r] == left_flip(r as u64)
        &&& forall|r: int| 0 <= r < 0x10000 ==> #[trigger] self.right@[r] == right_flip(r as u64)
        &&& forall|r: int| 0 <= r < 0x10000 ==> is_up_flip(r as u64, #[trigger] self.up@[r])
        &&& forall|r: int| 0 <= r < 0x10000 ==> is_down_flip(r as u64, #[trigger] self.down@[r])
    }

    /// Builds the four tables.
    pub fn new() -> (tables: Self) {
        MoveTables {
            left: make_move_left_table(),
            right: make_move_right_table(),
            up: make_move_up_table(),
            down: make_move_down_table(),
        }
    }

    /// Moves every row toward its cell 0 (to the left), by looking up each row in its table.
    pub fn move_left(&self, state: u64) -> (res: u64)
        ensures
            is_left_move(state, res),
    {
        proof {
            use_type_invariant(self);
        }
        let row0 = state & 0xFFFF;
        let row1 = (state >> 16) & 0xFFFF;
        let row2 = (state >> 32) & 0xFFFF;
        let row3 = (state >> 48) & 0xFFFF;
        proof {
            lemma_board_row(state, 0);
            lemma_board_row(state, 1);
            lemma_board_row(state, 2);
            lemma_board_row(state, 3);
        }
        let e0 = self.left[row0 as usize];
        let e1 = self.left[row1 as usize];
        let e2 = self.left[row2 as usize];
        let e3 = self.left[row3 as usize];
        proof {
            lemma_left_assembly(state, e0, e1, e2, e3);
        }
        state ^ (e0 | (e1 << 16) | (e2 << 32) | (e3 << 48))
    }

    /// Moves every row toward its cell 3 (to the right), by looking up each row in its table.
    pub fn move_right(&self, state: u64) -> (res: u64)
        ensures
            is_right_move(state, res),
    {
        proof {
            use_type_invariant(self);
        }
        let row0 = state & 0xFFFF;
        let row1 = (state >> 16) & 0xFFFF;
        let row2 = (state >> 32) & 0xFFFF;
        let row3 = (state >> 48) & 0xFFFF;
        proof {
            lemma_board_row(state, 0);
            lemma_board_row(state, 1);
            lemma_board_row(state, 2);
            lemma_board_row(state, 3);
        }
        let e0 = self.right[row0 as usize];
        let e1 = self.right[row1 as usize];
        let e2 = self.right[row2 as usize];
        let e3 = self.right[row3 as usize];
        proof {
            lemma_right_assembly(state, e0, e1, e2, e3);
        }
        state ^ (e0 | (e1 << 16) | (e2 << 32) | (e3 << 48))
    }

    /// Moves every column toward its row 0 (up), by looking up each row in its table.
    pub fn move_up(&self, state: u64) -> (res: u64)
        ensures
            is_up_move(state, res),
    {
        proof {
            use_type_invariant(self);
        }
        let state_t = transpose(state);
        proof {
            lemma_transpose_unique(state, state_t);
        }
        let row0 = state_t & 0xFFFF;
        let row1 = (state_t >> 16) & 0xFFFF;
        let row2 = (state_t >> 32) & 0xFFFF;
        let row3 = (state_t >> 48) & 0xFFFF;
        proof {
            lemma_board_row(state_t, 0);
            lemma_board_row(state_t, 1);
            lemma_board_row(state_t, 2);
            lemma_board_row(state_t, 3);
        }
        let e0 = self.up[row0 as usize];
        let e1 = self.up[row1 as usize];
        let e2 = self.up[row2 as usize];
        let e3 = self.up[row3 as usize];
        proof {
            lemma_up_assembly(state, e0, e1, e2, e3);
        }
        state ^ (e0 | (e1 << 4) | (e2 << 8) | (e3 << 12))
    }

    /// Moves every column toward its row 3 (down), by looking up each row in its table.
    pub fn move_down(&self, state: u64) -> (res: u64)
        ensures
            is_down_move(state, res),
    {
        proof {
            use_type_invariant(self);
        }
        let state_t = transpose(state);
        proof {
            lemma_transpose_unique(state, state_t);
        }
        let row0 = state_t & 0xFFFF;
        let row1 = (state_t >> 16) & 0xFFFF;
        let row2 = (state_t >> 32) & 0xFFFF;
        let row3 = (state_t >> 48) & 0xFFFF;
        proof {
            lemma_board_row(state_t, 0);
            lemma_board_row(state_t, 1);
            lemma_board_row(state_t, 2);
            lemma_board_row(state_t, 3);
        }
        let e0 = self.down[row0 as usize];
        let e1 = self.down[row1 as usize];
        let e2 = self.down[row2 as usize];
        let e3 = self.down[row3 as usize];
        proof {
            lemma_down_assembly(state, e0, e1, e2, e3);
        }
        state ^ (e0 | (e1 << 4) | (e2 << 8) | (e3 << 12))
    }
}

} // verus!
