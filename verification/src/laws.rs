//! Properties of the library as a whole: how the moves, the scores and the counts relate.

use crate::bits::{board_col, board_row, cell, cell_at, lemma_cells_eq, line_cells};
use crate::board::{
    horizontal_score, is_down_move, is_left_move, is_right_move, is_transpose, is_up_move,
    vertical_score,
};
use crate::counts::{empty_cells, empty_cells_below};
use crate::heuristic::{
    falls, has_twin, heuristic, is_score_table, merge_candidates, position_score, power_sum, rises,
    twins, zeros,
};
use crate::line::{
    compact, lemma_merge_pairs_len, lemma_padded_is_compact, lemma_tiles_basic, lemma_tiles_concat,
    lemma_merge_pairs_ranks, lemma_tiles_cons, line_after_move, line_move_score, merge_gain, merge_pairs, merged_rank, tiles,
};
use crate::play::{game_over, move_points, moved, Direction};
use crate::spawn::{is_kth_empty, placed, spawned_with};
use crate::search::{depth_for, empty_cells_list, DEPTH_DISCOUNT, DEPTH_MAX, DEPTH_MIN};
use vstd::arithmetic::power2::pow2;
use vstd::prelude::*;

verus! {

/// Reading a transposed board by rows reads the board by columns, and the other way round.
pub proof fn lemma_transpose_reads(s: u64, t: u64)
    requires
        is_transpose(s, t),
    ensures
        forall|k: int| 0 <= k < 4 ==> #[trigger] board_row(t, k) == board_col(s, k),
        forall|k: int| 0 <= k < 4 ==> #[trigger] board_col(t, k) == board_row(s, k),
{
    assert forall|k: int| 0 <= k < 4 implies #[trigger] board_row(t, k) == board_col(s, k) by {
        assert(board_row(t, k) =~= board_col(s, k));
    }
    assert forall|k: int| 0 <= k < 4 implies #[trigger] board_col(t, k) == board_row(s, k) by {
        assert forall|j: int| 0 <= j < 4 implies board_col(t, k)[j] == board_row(s, k)[j] by {
            assert(cell_at(t, j, k) == cell_at(s, k, j));
        }
        assert(board_col(t, k) =~= board_row(s, k));
    }
}

/// Transposing twice gives the board back.
pub proof fn law_transpose_twice(s: u64, t: u64, u: u64)
    requires
        is_transpose(s, t),
        is_transpose(t, u),
    ensures
        u == s,
{
    assert forall|i: int| 0 <= i < 16 implies cell(u, i) == cell(s, i) by {
        let r = i / 4;
        let c = i % 4;
        assert(cell_at(u, r, c) == cell_at(t, c, r));
        assert(cell_at(t, c, r) == cell_at(s, r, c));
    }
    lemma_cells_eq(u, s);
}

/// A move up is a move left of the transposed board, transposed back.
pub proof fn law_up_is_transposed_left(s: u64, t: u64, l: u64, u: u64)
    requires
        is_transpose(s, t),
        is_left_move(t, l),
        is_transpose(l, u),
    ensures
        is_up_move(s, u),
{
    lemma_transpose_reads(s, t);
    lemma_transpose_reads(l, u);
    assert forall|c: int| 0 <= c < 4 implies #[trigger] board_col(u, c) == line_after_move(
        board_col(s, c),
    ) by {
        assert(board_col(u, c) == board_row(l, c));
        assert(board_row(t, c) == board_col(s, c));
    }
}

/// A move down is a move right of the transposed board, transposed back.
pub proof fn law_down_is_transposed_right(s: u64, t: u64, l: u64, u: u64)
    requires
        is_transpose(s, t),
        is_right_move(t, l),
        is_transpose(l, u),
    ensures
        is_down_move(s, u),
{
    lemma_transpose_reads(s, t);
    lemma_transpose_reads(l, u);
    assert forall|c: int| 0 <= c < 4 implies #[trigger] board_col(u, c) == line_after_move(
        board_col(s, c).reverse(),
    ).reverse() by {
        assert(board_col(u, c) == board_row(l, c));
        assert(board_row(t, c) == board_col(s, c));
    }
}

/// The points of a vertical move are those of a horizontal move of the transposed board.
pub proof fn law_vertical_score_is_transposed(s: u64, t: u64)
    requires
        is_transpose(s, t),
    ensures
        vertical_score(s) == horizontal_score(t),
{
    lemma_transpose_reads(s, t);
    assert(board_row(t, 0) == board_col(s, 0));
    assert(board_row(t, 1) == board_col(s, 1));
    assert(board_row(t, 2) == board_col(s, 2));
    assert(board_row(t, 3) == board_col(s, 3));
}

/// The list of empty cells is as long as the count of empty cells says.
pub proof fn law_empty_list_counts(s: u64, n: int)
    requires
        0 <= n <= 16,
    ensures
        empty_cells_list(s, n).len() == empty_cells_below(s, n),
    decreases n,
{
    if n > 0 {
        law_empty_list_counts(s, n - 1);
    }
}

/// The tiles of a reversed line are its tiles reversed.
pub proof fn lemma_tiles_reverse(s: Seq<int>)
    ensures
        tiles(s.reverse()) == tiles(s).reverse(),
    decreases s.len(),
{
    if s.len() > 0 {
        let rest = s.drop_first();
        lemma_tiles_reverse(rest);
        assert(s.reverse() =~= rest.reverse() + seq![s[0]]);
        lemma_tiles_concat(rest.reverse(), seq![s[0]]);
        lemma_tiles_cons(s[0], Seq::empty());
        assert(seq![s[0]] + Seq::<int>::empty() =~= seq![s[0]]);
        assert(s =~= seq![s[0]] + rest);
        lemma_tiles_cons(s[0], rest);
        if s[0] == 0 {
            assert(tiles(rest).reverse() + Seq::<int>::empty() =~= tiles(rest).reverse());
        } else {
            assert((seq![s[0]] + tiles(rest)).reverse() =~= tiles(rest).reverse() + seq![s[0]]);
        }
    }
}

/// Points of merging a sequence of at most four tiles do not depend on the end it is merged from.
pub proof fn lemma_gain_reverse(t: Seq<int>)
    requires
        t.len() <= 4,
    ensures
        merge_gain(t.reverse()) == merge_gain(t),
{
    if t.len() == 2 {
        lemma_gain2(t);
        lemma_gain2(t.reverse());
    } else if t.len() == 3 {
        lemma_gain3(t);
        lemma_gain3(t.reverse());
    } else if t.len() == 4 {
        lemma_gain4(t);
        lemma_gain4(t.reverse());
    }
}

/// The points of merging two tiles.
proof fn lemma_gain2(t: Seq<int>)
    requires
        t.len() == 2,
    ensures
        merge_gain(t) == (if t[0] == t[1] {
            vstd::arithmetic::power2::pow2((t[0] + 1) as nat) as int
        } else {
            0
        }),
{
    reveal_with_fuel(merge_gain, 2);
    assert(t.subrange(2, 2).len() == 0);
    assert(t.drop_first().len() == 1);
}

/// The points of merging three tiles.
proof fn lemma_gain3(t: Seq<int>)
    requires
        t.len() == 3,
    ensures
        merge_gain(t) == (if t[0] == t[1] {
            vstd::arithmetic::power2::pow2((t[0] + 1) as nat) as int
        } else if t[1] == t[2] {
            vstd::arithmetic::power2::pow2((t[1] + 1) as nat) as int
        } else {
            0
        }),
{
    reveal_with_fuel(merge_gain, 2);
    assert(t.subrange(2, 3).len() == 1);
    let t1 = t.drop_first();
    assert(t1 =~= seq![t[1], t[2]]);
    lemma_gain2(t1);
}

/// The points of merging four tiles.
proof fn lemma_gain4(t: Seq<int>)
    requires
        t.len() == 4,
    ensures
        merge_gain(t) == (if t[0] == t[1] {
            vstd::arithmetic::power2::pow2((t[0] + 1) as nat) as int + (if t[2] == t[3] {
                vstd::arithmetic::power2::pow2((t[2] + 1) as nat) as int
            } else {
                0
            })
        } else if t[1] == t[2] {
            vstd::arithmetic::power2::pow2((t[1] + 1) as nat) as int
        } else if t[2] == t[3] {
            vstd::arithmetic::power2::pow2((t[2] + 1) as nat) as int
        } else {
            0
        }),
{
    let t2 = t.subrange(2, 4);
    assert(t2 =~= seq![t[2], t[3]]);
    lemma_gain2(t2);
    let t1 = t.drop_first();
    assert(t1 =~= seq![t[1], t[2], t[3]]);
    lemma_gain3(t1);
}

/// A line of four earns the same points whichever end it moves toward.
pub proof fn law_line_score_either_way(s: Seq<int>)
    requires
        s.len() == 4,
    ensures
        line_move_score(s.reverse()) == line_move_score(s),
{
    lemma_tiles_reverse(s);
    crate::line::lemma_tiles_basic(s);
    lemma_gain_reverse(tiles(s));
}

/// The points of a horizontal move are the same whether the rows move left or right, and
/// those of a vertical move whether the columns move up or down.
pub proof fn law_score_either_way(state: u64)
    ensures
        horizontal_score(state) == line_move_score(board_row(state, 0).reverse()) + line_move_score(
            board_row(state, 1).reverse(),
        ) + line_move_score(board_row(state, 2).reverse()) + line_move_score(
            board_row(state, 3).reverse(),
        ),
        vertical_score(state) == line_move_score(board_col(state, 0).reverse()) + line_move_score(
            board_col(state, 1).reverse(),
        ) + line_move_score(board_col(state, 2).reverse()) + line_move_score(
            board_col(state, 3).reverse(),
        ),
{
    law_line_score_either_way(board_row(state, 0));
    law_line_score_either_way(board_row(state, 1));
    law_line_score_either_way(board_row(state, 2));
    law_line_score_either_way(board_row(state, 3));
    law_line_score_either_way(board_col(state, 0));
    law_line_score_either_way(board_col(state, 1));
    law_line_score_either_way(board_col(state, 2));
    law_line_score_either_way(board_col(state, 3));
}

/// A line of ranks that a move leaves as it is has no tile behind an empty cell.
proof fn lemma_unmoved_is_compact(x: Seq<int>)
    requires
        x.len() == 4,
        forall|k: int| 0 <= k < 4 ==> 0 <= #[trigger] x[k] <= 15,
        line_after_move(x) == x,
    ensures
        compact(x),
{
    lemma_tiles_basic(x);
    let t = tiles(x);
    lemma_merge_pairs_ranks(t);
    lemma_merge_pairs_len(t);
    lemma_padded_is_compact(merge_pairs(t), 4);
}

/// A line compact from both ends with an empty cell is empty.
proof fn lemma_compact_both_ways(x: Seq<int>, j: int)
    requires
        x.len() == 4,
        0 <= j < 4,
        x[j] == 0,
        compact(x),
        compact(x.reverse()),
    ensures
        all_empty(x),
{
    assert forall|k: int| 0 <= k < 4 implies x[k] == 0 by {
        if k < j {
            assert(x.reverse()[3 - j] == x[j]);
            assert(x.reverse()[3 - k] == x[k]);
        }
    }
}

/// The ranks of a line of the board are ranks.
proof fn lemma_line_ranks(s: u64, k: int)
    requires
        0 <= k < 4,
    ensures
        forall|j: int| 0 <= j < 4 ==> 0 <= #[trigger] board_row(s, k)[j] <= 15,
        forall|j: int| 0 <= j < 4 ==> 0 <= #[trigger] board_col(s, k)[j] <= 15,
{
    assert forall|j: int| 0 <= j < 4 implies 0 <= #[trigger] board_row(s, k)[j] <= 15 by {
        crate::bits::lemma_nibble_bound(s, (4 * k + j) as u64);
    }
    assert forall|j: int| 0 <= j < 4 implies 0 <= #[trigger] board_col(s, k)[j] <= 15 by {
        crate::bits::lemma_nibble_bound(s, (4 * j + k) as u64);
    }
}

/// A board that no move changes is full or empty.
pub proof fn law_stuck_board_is_full(s: u64)
    requires
        game_over(s),
    ensures
        s == 0 || empty_cells(s) == 0,
{
    if empty_cells(s) != 0 {
        let i = lemma_find_empty(s, 16);
        let r = i / 4;
        let c = i % 4;
        assert forall|k: int| 0 <= k < 4 implies compact(#[trigger] board_row(s, k)) && compact(
            board_row(s, k).reverse(),
        ) && compact(board_col(s, k)) && compact(board_col(s, k).reverse()) by {
            lemma_line_ranks(s, k);
            let row = board_row(s, k);
            let col = board_col(s, k);
            lemma_unmoved_is_compact(row);
            lemma_unmoved_is_compact(col);
            assert(line_after_move(row.reverse()).reverse().reverse() == row.reverse());
            assert(line_after_move(row.reverse()).reverse().reverse() =~= line_after_move(
                row.reverse(),
            ));
            assert forall|j: int| 0 <= j < 4 implies 0 <= #[trigger] row.reverse()[j] <= 15 by {
                assert(row.reverse()[j] == row[3 - j]);
            }
            lemma_unmoved_is_compact(row.reverse());
            assert(line_after_move(col.reverse()).reverse().reverse() == col.reverse());
            assert(line_after_move(col.reverse()).reverse().reverse() =~= line_after_move(
                col.reverse(),
            ));
            assert forall|j: int| 0 <= j < 4 implies 0 <= #[trigger] col.reverse()[j] <= 15 by {
                assert(col.reverse()[j] == col[3 - j]);
            }
            lemma_unmoved_is_compact(col.reverse());
        }
        assert(board_row(s, r)[c] == 0);
        lemma_compact_both_ways(board_row(s, r), c);
        assert forall|k: int| 0 <= k < 4 implies #[trigger] all_empty(board_col(s, k)) by {
            assert(board_row(s, r)[k] == 0);
            assert(compact(board_row(s, k)));
            assert(board_col(s, k)[r] == 0);
            lemma_compact_both_ways(board_col(s, k), r);
        }
        assert forall|m: int| 0 <= m < 16 implies cell(s, m) == cell(0, m) by {
            let rr = m / 4;
            let cc = m % 4;
            assert(all_empty(board_col(s, cc)));
            assert(board_col(s, cc)[rr] == 0);
            crate::bits::lemma_nibble_zero(m as u64);
        }
        lemma_cells_eq(s, 0);
    }
}

/// Every cell of the line is empty.
pub open spec fn all_empty(x: Seq<int>) -> bool {
    forall|k: int| 0 <= k < x.len() ==> x[k] == 0
}

/// A board with an empty cell among cells `0 .. n` has one there.
proof fn lemma_find_empty(s: u64, n: int) -> (i: int)
    requires
        0 <= n,
        empty_cells_below(s, n) != 0,
    ensures
        0 <= i < n,
        cell(s, i) == 0,
    decreases n,
{
    if n <= 0 {
        0
    } else if cell(s, n - 1) == 0 {
        n - 1
    } else {
        lemma_find_empty(s, n - 1)
    }
}

/// The heuristic score of a board is that of its transpose: rows and columns trade places.
pub proof fn law_position_score_transposed(s: u64, t: u64)
    requires
        is_transpose(s, t),
    ensures
        position_score(s) == position_score(t),
{
    lemma_transpose_reads(s, t);
    assert(board_row(t, 0) == board_col(s, 0) && board_col(t, 0) == board_row(s, 0));
    assert(board_row(t, 1) == board_col(s, 1) && board_col(t, 1) == board_row(s, 1));
    assert(board_row(t, 2) == board_col(s, 2) && board_col(t, 2) == board_row(s, 2));
    assert(board_row(t, 3) == board_col(s, 3) && board_col(t, 3) == board_row(s, 3));
}

/// Counting the tiles with an equal neighbour does not depend on the end one reads from.
proof fn lemma_twins_reverse(t: Seq<int>)
    requires
        t.len() <= 4,
    ensures
        twins(t.reverse(), t.len() as int) == twins(t, t.len() as int),
{
    let n = t.len() as int;
    let r = t.reverse();
    reveal_with_fuel(twins, 5);
    assert forall|j: int| 0 <= j < n implies has_twin(r, j) == has_twin(t, n - 1 - j) by {
        assert(r[j] == t[n - 1 - j]);
        if j > 0 {
            assert(r[j - 1] == t[n - j]);
        }
        if j + 1 < n {
            assert(r[j + 1] == t[n - 2 - j]);
        }
    }
    if n >= 1 {
        assert(has_twin(r, 0) == has_twin(t, n - 1));
    }
    if n >= 2 {
        assert(has_twin(r, 1) == has_twin(t, n - 2));
    }
    if n >= 3 {
        assert(has_twin(r, 2) == has_twin(t, n - 3));
    }
    if n >= 4 {
        assert(has_twin(r, 3) == has_twin(t, n - 4));
    }
}

/// A line of four and its mirror image get the same heuristic score: the falls of one are
/// the rises of the other, and the empty cells, cubes and tiles with a twin are the same.
pub proof fn law_heuristic_mirror(s: Seq<int>)
    requires
        s.len() == 4,
    ensures
        heuristic(s.reverse()) == heuristic(s),
{
    let r = s.reverse();
    assert(r[0] == s[3] && r[1] == s[2] && r[2] == s[1] && r[3] == s[0]);
    reveal_with_fuel(falls, 4);
    reveal_with_fuel(rises, 4);
    reveal_with_fuel(zeros, 5);
    reveal_with_fuel(power_sum, 5);
    assert(falls(r, 4) == rises(s, 4));
    assert(rises(r, 4) == falls(s, 4));
    assert(zeros(r, 4) == zeros(s, 4));
    assert(power_sum(r, 4) == power_sum(s, 4));
    lemma_tiles_reverse(s);
    lemma_tiles_basic(s);
    lemma_twins_reverse(tiles(s));
    assert(merge_candidates(r) == merge_candidates(s));
}

/// `m` is `s` with every row mirrored: cell `c` of a row trades places with cell `3 - c`.
pub open spec fn is_mirror(s: u64, m: u64) -> bool {
    forall|r: int, c: int| 0 <= r < 4 && 0 <= c < 4 ==> #[trigger] cell_at(m, r, c) == cell_at(s, r, 3 - c)
}

/// Mirroring every row of a board leaves its heuristic score unchanged.
pub proof fn law_position_score_mirror(s: u64, m: u64)
    requires
        is_mirror(s, m),
    ensures
        position_score(m) == position_score(s),
{
    assert forall|k: int| 0 <= k < 4 implies #[trigger] board_row(m, k) == board_row(s, k).reverse() by {
        assert(board_row(m, k) =~= board_row(s, k).reverse());
    }
    assert forall|k: int| 0 <= k < 4 implies #[trigger] board_col(m, k) == board_col(s, 3 - k) by {
        assert(board_col(m, k) =~= board_col(s, 3 - k));
    }
    law_heuristic_mirror(board_row(s, 0));
    law_heuristic_mirror(board_row(s, 1));
    law_heuristic_mirror(board_row(s, 2));
    law_heuristic_mirror(board_row(s, 3));
    assert(board_row(m, 0) == board_row(s, 0).reverse());
    assert(board_row(m, 1) == board_row(s, 1).reverse());
    assert(board_row(m, 2) == board_row(s, 2).reverse());
    assert(board_row(m, 3) == board_row(s, 3).reverse());
    assert(board_col(m, 0) == board_col(s, 3));
    assert(board_col(m, 1) == board_col(s, 2));
    assert(board_col(m, 2) == board_col(s, 1));
    assert(board_col(m, 3) == board_col(s, 0));
}

/// A row of the table's mirror image has the score of the row.
pub proof fn law_score_table_mirror(table: Seq<i64>, row: u64, mirrored: u64)
    requires
        is_score_table(table),
        row < 0x10000,
        mirrored < 0x10000,
        line_cells(mirrored) == line_cells(row).reverse(),
    ensures
        table[mirrored as int] == table[row as int],
{
    law_heuristic_mirror(line_cells(row));
    assert(table[mirrored as int] == heuristic(line_cells(mirrored)));
    assert(table[row as int] == heuristic(line_cells(row)));
}

/// The value of a tile of rank `r`: `2^r`, and nothing for an empty cell.
pub open spec fn tile_value(r: int) -> int {
    if r == 0 {
        0
    } else {
        pow2(r as nat) as int
    }
}

/// The total value of the tiles of a line.
pub open spec fn line_value(s: Seq<int>) -> int
    decreases s.len(),
{
    if s.len() == 0 {
        0
    } else {
        tile_value(s[0]) + line_value(s.drop_first())
    }
}

/// The total value of the tiles on a board.
pub open spec fn board_value(b: u64) -> int {
    line_value(board_row(b, 0)) + line_value(board_row(b, 1)) + line_value(board_row(b, 2))
        + line_value(board_row(b, 3))
}

proof fn lemma_value_concat(a: Seq<int>, b: Seq<int>)
    ensures
        line_value(a + b) == line_value(a) + line_value(b),
    decreases a.len(),
{
    if a.len() == 0 {
        assert(a + b =~= b);
    } else {
        assert((a + b).drop_first() =~= a.drop_first() + b);
        lemma_value_concat(a.drop_first(), b);
    }
}

proof fn lemma_value_tiles(s: Seq<int>)
    ensures
        line_value(tiles(s)) == line_value(s),
    decreases s.len(),
{
    if s.len() > 0 {
        lemma_value_tiles(s.drop_first());
        if s[0] != 0 {
            let t = seq![s[0]] + tiles(s.drop_first());
            assert(t.drop_first() =~= tiles(s.drop_first()));
        }
    }
}

proof fn lemma_value_zeros(z: Seq<int>)
    requires
        forall|k: int| 0 <= k < z.len() ==> z[k] == 0,
    ensures
        line_value(z) == 0,
    decreases z.len(),
{
    if z.len() > 0 {
        lemma_value_zeros(z.drop_first());
    }
}

/// Merging tiles of ranks below 15 keeps their total value.
proof fn lemma_value_merge(t: Seq<int>)
    requires
        forall|k: int| 0 <= k < t.len() ==> 1 <= #[trigger] t[k] <= 14,
    ensures
        line_value(merge_pairs(t)) == line_value(t),
    decreases t.len(),
{
    if t.len() >= 2 {
        if t[0] == t[1] {
            let rest = t.subrange(2, t.len() as int);
            assert forall|k: int| 0 <= k < rest.len() implies 1 <= #[trigger] rest[k] <= 14 by {
                assert(rest[k] == t[k + 2]);
            }
            lemma_value_merge(rest);
            assert(t.drop_first().drop_first() =~= rest);
            let m = seq![merged_rank(t[0])] + merge_pairs(rest);
            assert(m.drop_first() =~= merge_pairs(rest));
            vstd::arithmetic::power2::lemma_pow2_unfold((t[0] + 1) as nat);
            assert(t.drop_first()[0] == t[1]);
            assert(line_value(t.drop_first()) == tile_value(t[1]) + line_value(rest));
            assert(line_value(t) == tile_value(t[0]) + line_value(t.drop_first()));
            assert(line_value(m) == tile_value(merged_rank(t[0])) + line_value(merge_pairs(rest)));
        } else {
            let rest = t.drop_first();
            assert forall|k: int| 0 <= k < rest.len() implies 1 <= #[trigger] rest[k] <= 14 by {
                assert(rest[k] == t[k + 1]);
            }
            lemma_value_merge(rest);
            let m = seq![t[0]] + merge_pairs(rest);
            assert(m.drop_first() =~= merge_pairs(rest));
        }
    }
}

/// A move of a line that holds no tile of rank 15 keeps the total value of its tiles.
pub proof fn law_line_move_keeps_value(s: Seq<int>)
    requires
        forall|k: int| 0 <= k < s.len() ==> 0 <= #[trigger] s[k] <= 14,
    ensures
        line_value(line_after_move(s)) == line_value(s),
{
    lemma_tiles_basic(s);
    let t = tiles(s);
    assert forall|k: int| 0 <= k < t.len() implies 1 <= #[trigger] t[k] <= 14 by {
        lemma_tiles_values(s, 14);
    }
    lemma_value_merge(t);
    lemma_value_tiles(s);
    lemma_merge_pairs_len(t);
    let m = merge_pairs(t);
    let z = Seq::new((s.len() - m.len()) as nat, |k: int| 0int);
    lemma_value_concat(m, z);
    lemma_value_zeros(z);
}

/// The tiles of a line with ranks at most `top` have ranks at most `top`.
proof fn lemma_tiles_values(s: Seq<int>, top: int)
    requires
        forall|k: int| 0 <= k < s.len() ==> 0 <= #[trigger] s[k] <= top,
    ensures
        forall|k: int| 0 <= k < tiles(s).len() ==> 1 <= #[trigger] tiles(s)[k] <= top,
    decreases s.len(),
{
    lemma_tiles_basic(s);
    if s.len() > 0 {
        let rest = s.drop_first();
        assert forall|k: int| 0 <= k < rest.len() implies 0 <= #[trigger] rest[k] <= top by {
            assert(rest[k] == s[k + 1]);
        }
        lemma_tiles_values(rest, top);
        if s[0] != 0 {
            assert forall|k: int| 0 <= k < tiles(s).len() implies 1 <= #[trigger] tiles(s)[k]
                <= top by {
                if k > 0 {
                    assert(tiles(s)[k] == tiles(rest)[k - 1]);
                }
            }
        }
    }
}

/// A move to the left keeps the total value of the tiles on a board with no tile of rank 15.
pub proof fn law_left_move_keeps_value(s: u64, l: u64)
    requires
        is_left_move(s, l),
        forall|i: int| 0 <= i < 16 ==> cell(s, i) != 15,
    ensures
        board_value(l) == board_value(s),
{
    assert forall|k: int| 0 <= k < 4 implies line_value(#[trigger] board_row(l, k)) == line_value(
        board_row(s, k),
    ) by {
        lemma_line_ranks(s, k);
        assert forall|j: int| 0 <= j < 4 implies 0 <= #[trigger] board_row(s, k)[j] <= 14 by {
            assert(board_row(s, k)[j] == cell(s, 4 * k + j));
        }
        law_line_move_keeps_value(board_row(s, k));
    }
}

/// Merging never lengthens a sequence of tiles, keeps a non-empty one non-empty, and earns
/// points exactly when it shortens it.
proof fn lemma_merge_len_gain(t: Seq<int>)
    requires
        forall|k: int| 0 <= k < t.len() ==> 1 <= #[trigger] t[k] <= 15,
    ensures
        merge_pairs(t).len() <= t.len(),
        t.len() > 0 ==> merge_pairs(t).len() > 0,
        (merge_gain(t) == 0) == (merge_pairs(t).len() == t.len()),
    decreases t.len(),
{
    crate::line::lemma_gain_bounds(t);
    if t.len() >= 2 {
        if t[0] == t[1] {
            let rest = t.subrange(2, t.len() as int);
            assert forall|k: int| 0 <= k < rest.len() implies 1 <= #[trigger] rest[k] <= 15 by {
                assert(rest[k] == t[k + 2]);
            }
            lemma_merge_len_gain(rest);
            crate::line::lemma_gain_bounds(rest);
            crate::line::lemma_merge_points(t[0]);
        } else {
            let rest = t.drop_first();
            assert forall|k: int| 0 <= k < rest.len() implies 1 <= #[trigger] rest[k] <= 15 by {
                assert(rest[k] == t[k + 1]);
            }
            lemma_merge_len_gain(rest);
        }
    }
}

/// The empty cells of a line are those that hold no tile.
proof fn lemma_zeros_tiles(x: Seq<int>, n: int)
    requires
        0 <= n <= x.len(),
    ensures
        zeros(x, n) + tiles(x.take(n)).len() == n,
    decreases n,
{
    if n == 0 {
        assert(x.take(0) =~= Seq::<int>::empty());
    } else {
        lemma_zeros_tiles(x, n - 1);
        assert(x.take(n) =~= x.take(n - 1) + seq![x[n - 1]]);
        lemma_tiles_concat(x.take(n - 1), seq![x[n - 1]]);
        lemma_tiles_cons(x[n - 1], Seq::empty());
        assert(seq![x[n - 1]] + Seq::<int>::empty() =~= seq![x[n - 1]]);
    }
}

/// The empty cells of a board, counted row by row.
#[verifier::rlimit(60)]
proof fn lemma_empty_by_rows(b: u64)
    ensures
        empty_cells(b) == zeros(board_row(b, 0), 4) + zeros(board_row(b, 1), 4) + zeros(
            board_row(b, 2),
            4,
        ) + zeros(board_row(b, 3), 4),
{
    reveal_with_fuel(empty_cells_below, 17);
    reveal_with_fuel(zeros, 5);
    assert forall|r: int, c: int| 0 <= r < 4 && 0 <= c < 4 implies #[trigger] board_row(b, r)[c]
        == cell(b, 4 * r + c) by {}
    assert(board_row(b, 0)[0] == cell(b, 0) && board_row(b, 0)[1] == cell(b, 1));
    assert(board_row(b, 0)[2] == cell(b, 2) && board_row(b, 0)[3] == cell(b, 3));
    assert(board_row(b, 1)[0] == cell(b, 4) && board_row(b, 1)[1] == cell(b, 5));
    assert(board_row(b, 1)[2] == cell(b, 6) && board_row(b, 1)[3] == cell(b, 7));
    assert(board_row(b, 2)[0] == cell(b, 8) && board_row(b, 2)[1] == cell(b, 9));
    assert(board_row(b, 2)[2] == cell(b, 10) && board_row(b, 2)[3] == cell(b, 11));
    assert(board_row(b, 3)[0] == cell(b, 12) && board_row(b, 3)[1] == cell(b, 13));
    assert(board_row(b, 3)[2] == cell(b, 14) && board_row(b, 3)[3] == cell(b, 15));
}

/// What a move to the left does to the empty cells and the points of one row.
proof fn lemma_row_move_counts(x: Seq<int>)
    requires
        x.len() == 4,
        forall|k: int| 0 <= k < 4 ==> 0 <= #[trigger] x[k] <= 15,
    ensures
        tiles(x).len() <= 4,
        zeros(x, 4) == 4 - tiles(x).len(),
        zeros(line_after_move(x), 4) == 4 - merge_pairs(tiles(x)).len(),
        merge_pairs(tiles(x)).len() <= tiles(x).len(),
        tiles(x).len() > 0 ==> merge_pairs(tiles(x)).len() > 0,
        (line_move_score(x) == 0) == (merge_pairs(tiles(x)).len() == tiles(x).len()),
        line_move_score(x) >= 0,
{
    lemma_tiles_values(x, 15);
    lemma_tiles_basic(x);
    let t = tiles(x);
    lemma_merge_len_gain(t);
    crate::line::lemma_gain_bounds(t);
    lemma_merge_pairs_ranks(t);
    lemma_merge_pairs_len(t);
    let m = merge_pairs(t);
    lemma_padded_is_compact(m, 4);
    lemma_zeros_tiles(x, 4);
    assert(x.take(4) =~= x);
    let y = line_after_move(x);
    lemma_zeros_tiles(y, 4);
    assert(y.take(4) =~= y);
}

/// Unless the board is empty, a move to the left earns points exactly when it changes the
/// number of empty cells (that is, when some tiles merge).
pub proof fn law_points_iff_merge(s: u64, l: u64)
    requires
        is_left_move(s, l),
        s != 0,
    ensures
        (horizontal_score(s) == 0) == (empty_cells(l) % 16 == empty_cells(s) % 16),
{
    lemma_empty_by_rows(s);
    lemma_empty_by_rows(l);
    lemma_line_ranks(s, 0);
    lemma_line_ranks(s, 1);
    lemma_line_ranks(s, 2);
    lemma_line_ranks(s, 3);
    lemma_row_move_counts(board_row(s, 0));
    lemma_row_move_counts(board_row(s, 1));
    lemma_row_move_counts(board_row(s, 2));
    lemma_row_move_counts(board_row(s, 3));
    assert(board_row(l, 0) == line_after_move(board_row(s, 0)));
    assert(board_row(l, 1) == line_after_move(board_row(s, 1)));
    assert(board_row(l, 2) == line_after_move(board_row(s, 2)));
    assert(board_row(l, 3) == line_after_move(board_row(s, 3)));
    if empty_cells(s) == 16 {
        assert forall|k: int| 0 <= k < 4 implies #[trigger] all_empty(board_row(s, k)) by {
            lemma_tiles_of_line_empty(board_row(s, k));
        }
        assert forall|m: int| 0 <= m < 16 implies cell(s, m) == cell(0, m) by {
            let rr = m / 4;
            let cc = m % 4;
            assert(all_empty(board_row(s, rr)));
            assert(board_row(s, rr)[cc] == 0);
            crate::bits::lemma_nibble_zero(m as u64);
        }
        lemma_cells_eq(s, 0);
    }
    let t0 = tiles(board_row(s, 0)).len() as int;
    let t1 = tiles(board_row(s, 1)).len() as int;
    let t2 = tiles(board_row(s, 2)).len() as int;
    let t3 = tiles(board_row(s, 3)).len() as int;
    let m0 = merge_pairs(tiles(board_row(s, 0))).len() as int;
    let m1 = merge_pairs(tiles(board_row(s, 1))).len() as int;
    let m2 = merge_pairs(tiles(board_row(s, 2))).len() as int;
    let m3 = merge_pairs(tiles(board_row(s, 3))).len() as int;
    assert(empty_cells(s) == 16 - (t0 + t1 + t2 + t3));
    assert(empty_cells(l) == 16 - (m0 + m1 + m2 + m3));
    assert(0 <= empty_cells(s) < 16);
    assert(0 <= empty_cells(l) < 16);
    assert(empty_cells(l) % 16 == empty_cells(l));
    assert(empty_cells(s) % 16 == empty_cells(s));
}

/// A line without tiles is empty.
proof fn lemma_tiles_of_line_empty(x: Seq<int>)
    requires
        tiles(x).len() == 0,
    ensures
        all_empty(x),
    decreases x.len(),
{
    if x.len() > 0 {
        lemma_tiles_of_line_empty(x.drop_first());
        assert forall|k: int| 0 <= k < x.len() implies x[k] == 0 by {
            if k > 0 {
                assert(x[k] == x.drop_first()[k - 1]);
            }
        }
    }
}

/// The search depth is the number of distinct tiles less `DEPTH_DISCOUNT`, held within
/// `DEPTH_MIN ..= DEPTH_MAX`: inside that range it is exactly that number, below it
/// `DEPTH_MIN`, above it `DEPTH_MAX`; and more distinct tiles never give a shallower search.
pub proof fn law_search_depth(distinct: int, more: int)
    requires
        distinct <= more,
    ensures
        DEPTH_MIN <= depth_for(distinct) <= DEPTH_MAX,
        DEPTH_MIN <= distinct - DEPTH_DISCOUNT <= DEPTH_MAX ==> depth_for(distinct) == distinct
            - DEPTH_DISCOUNT,
        distinct - DEPTH_DISCOUNT <= DEPTH_MIN ==> depth_for(distinct) == DEPTH_MIN,
        distinct - DEPTH_DISCOUNT >= DEPTH_MAX ==> depth_for(distinct) == DEPTH_MAX,
        depth_for(distinct) <= depth_for(more),
{
}

/// Reversing a line of four keeps its number of empty cells.
proof fn lemma_zeros_reverse(x: Seq<int>)
    requires
        x.len() == 4,
    ensures
        zeros(x.reverse(), 4) == zeros(x, 4),
{
    reveal_with_fuel(zeros, 5);
    assert(x.reverse()[0] == x[3] && x.reverse()[1] == x[2]);
    assert(x.reverse()[2] == x[1] && x.reverse()[3] == x[0]);
}

/// What a move of one line (toward its front, or toward its back) does to its empty cells,
/// against the points that the line earns.
proof fn lemma_line_points(x: Seq<int>, y: Seq<int>, toward_back: bool)
    requires
        x.len() == 4,
        forall|k: int| 0 <= k < 4 ==> 0 <= #[trigger] x[k] <= 15,
        toward_back ==> y == line_after_move(x.reverse()).reverse(),
        !toward_back ==> y == line_after_move(x),
    ensures
        line_move_score(x) >= 0,
        0 <= zeros(x, 4) <= zeros(y, 4) <= 4,
        (line_move_score(x) == 0) == (zeros(y, 4) == zeros(x, 4)),
        zeros(y, 4) == 4 ==> zeros(x, 4) == 4,
{
    lemma_row_move_counts(x);
    if toward_back {
        let r = x.reverse();
        assert forall|k: int| 0 <= k < 4 implies 0 <= #[trigger] r[k] <= 15 by {
            assert(r[k] == x[3 - k]);
        }
        lemma_row_move_counts(r);
        law_line_score_either_way(x);
        lemma_zeros_reverse(x);
        crate::line::lemma_moved_line_ranks(r);
        lemma_zeros_reverse(line_after_move(r));
    }
}

/// The empty cells of a board, counted column by column.
#[verifier::rlimit(60)]
proof fn lemma_empty_by_cols(b: u64)
    ensures
        empty_cells(b) == zeros(board_col(b, 0), 4) + zeros(board_col(b, 1), 4) + zeros(
            board_col(b, 2),
            4,
        ) + zeros(board_col(b, 3), 4),
{
    reveal_with_fuel(empty_cells_below, 17);
    reveal_with_fuel(zeros, 5);
    assert(board_col(b, 0)[0] == cell(b, 0) && board_col(b, 0)[1] == cell(b, 4));
    assert(board_col(b, 0)[2] == cell(b, 8) && board_col(b, 0)[3] == cell(b, 12));
    assert(board_col(b, 1)[0] == cell(b, 1) && board_col(b, 1)[1] == cell(b, 5));
    assert(board_col(b, 1)[2] == cell(b, 9) && board_col(b, 1)[3] == cell(b, 13));
    assert(board_col(b, 2)[0] == cell(b, 2) && board_col(b, 2)[1] == cell(b, 6));
    assert(board_col(b, 2)[2] == cell(b, 10) && board_col(b, 2)[3] == cell(b, 14));
    assert(board_col(b, 3)[0] == cell(b, 3) && board_col(b, 3)[1] == cell(b, 7));
    assert(board_col(b, 3)[2] == cell(b, 11) && board_col(b, 3)[3] == cell(b, 15));
}

/// A board whose sixteen cells are all empty is the board 0.
proof fn lemma_all_empty_is_zero(s: u64)
    requires
        empty_cells(s) == 16,
    ensures
        s == 0,
{
    lemma_empty_by_rows(s);
    lemma_line_ranks(s, 0);
    lemma_line_ranks(s, 1);
    lemma_line_ranks(s, 2);
    lemma_line_ranks(s, 3);
    lemma_row_move_counts(board_row(s, 0));
    lemma_row_move_counts(board_row(s, 1));
    lemma_row_move_counts(board_row(s, 2));
    lemma_row_move_counts(board_row(s, 3));
    lemma_tiles_of_line_empty(board_row(s, 0));
    lemma_tiles_of_line_empty(board_row(s, 1));
    lemma_tiles_of_line_empty(board_row(s, 2));
    lemma_tiles_of_line_empty(board_row(s, 3));
    assert forall|m: int| 0 <= m < 16 implies cell(s, m) == cell(0, m) by {
        let rr = m / 4;
        let cc = m % 4;
        assert(all_empty(board_row(s, rr)));
        assert(board_row(s, rr)[cc] == 0);
        crate::bits::lemma_nibble_zero(m as u64);
    }
    lemma_cells_eq(s, 0);
}

/// Unless the board is empty, a move in any direction earns points exactly when it changes
/// the number of empty cells, that is, when some tiles of the lines it moves merge: the points
/// of a left or right move come from the rows alone, those of an up or down move from the
/// columns alone.
pub proof fn law_move_points_iff_merge(state: u64, direction: Option<Direction>, after: u64)
    requires
        state != 0,
        direction is Some,
        moved(state, direction, after),
    ensures
        move_points(state, direction) >= 0,
        (move_points(state, direction) == 0) == (empty_cells(after) % 16 == empty_cells(state) % 16),
{
    let d = direction->0;
    let horizontal = d == Direction::Left || d == Direction::Right;
    let back = d == Direction::Right || d == Direction::Down;
    if horizontal {
        lemma_empty_by_rows(state);
        lemma_empty_by_rows(after);
    } else {
        lemma_empty_by_cols(state);
        lemma_empty_by_cols(after);
    }
    assert forall|k: int| 0 <= k < 4 implies #[trigger] line_points_facts(state, after, horizontal, k)
        by {
        lemma_line_ranks(state, k);
        if horizontal {
            lemma_line_points(board_row(state, k), board_row(after, k), back);
        } else {
            lemma_line_points(board_col(state, k), board_col(after, k), back);
        }
    }
    assert(line_points_facts(state, after, horizontal, 0));
    assert(line_points_facts(state, after, horizontal, 1));
    assert(line_points_facts(state, after, horizontal, 2));
    assert(line_points_facts(state, after, horizontal, 3));
    if empty_cells(state) == 16 {
        lemma_all_empty_is_zero(state);
    }
}

/// Line `k` of `state` (a row, or a column when `!horizontal`) and the same line of `after`
/// satisfy what `lemma_line_points` says of a line and its move.
spec fn line_points_facts(state: u64, after: u64, horizontal: bool, k: int) -> bool {
    let x = if horizontal {
        board_row(state, k)
    } else {
        board_col(state, k)
    };
    let y = if horizontal {
        board_row(after, k)
    } else {
        board_col(after, k)
    };
    &&& line_move_score(x) >= 0
    &&& 0 <= zeros(x, 4) <= zeros(y, 4) <= 4
    &&& (line_move_score(x) == 0) == (zeros(y, 4) == zeros(x, 4))
    &&& zeros(y, 4) == 4 ==> zeros(x, 4) == 4
}

/// Counting empty cells over a longer prefix never gives fewer.
proof fn lemma_empty_below_monotone(b: u64, j: int, k: int)
    requires
        0 <= j <= k,
    ensures
        empty_cells_below(b, j) <= empty_cells_below(b, k),
    decreases k - j,
{
    if j < k {
        lemma_empty_below_monotone(b, j, k - 1);
    }
}

/// On a board with a tile, every empty cell can receive the new tile: the cell draw equal to
/// the number of empty cells before it puts the tile there, and changes no other cell. (On
/// the empty board nothing is placed, since `count_empty` counts it as 0.)
pub proof fn law_every_empty_cell_reachable(state: u64, i: int, common: bool, after: u64)
    requires
        state != 0,
        0 <= i < 16,
        cell(state, i) == 0,
        spawned_with(state, after, common, empty_cells_below(state, i) as u32),
    ensures
        cell(after, i) == (if common {
            1int
        } else {
            2int
        }),
        forall|j: int| 0 <= j < 16 && j != i ==> cell(after, j) == cell(state, j),
{
    let k = empty_cells_below(state, i);
    lemma_empty_below_monotone(state, i + 1, 16);
    lemma_empty_below_monotone(state, 0, i);
    assert(empty_cells_below(state, i + 1) == k + 1);
    assert(empty_cells(state) <= 16) by {
        lemma_empty_count_bound(state, 16);
    }
    let n = empty_cells(state) % 16;
    assert(0 <= k < empty_cells(state));
    if empty_cells(state) == 16 {
        lemma_all_empty_is_zero(state);
    }
    assert(n == empty_cells(state));
    assert((k as u32) as int == k);
    vstd::arithmetic::div_mod::lemma_small_mod(k as nat, n as nat);
    assert(k % n == k);
    let rank = if common {
        1int
    } else {
        2int
    };
    assert(placed(state, after, rank, k));
    let i2 = choose|i2: int|
        is_kth_empty(state, i2, k) && forall|j: int|
            0 <= j < 16 ==> #[trigger] cell(after, j) == (if j == i2 {
                rank
            } else {
                cell(state, j)
            });
    if i2 < i {
        lemma_empty_below_monotone(state, i2 + 1, i);
    } else if i < i2 {
        lemma_empty_below_monotone(state, i + 1, i2);
    }
    assert(i2 == i);
    assert(cell(after, i) == rank);
}

/// At most `n` of the first `n` cells are empty.
proof fn lemma_empty_count_bound(b: u64, n: int)
    requires
        0 <= n,
    ensures
        0 <= empty_cells_below(b, n) <= n,
    decreases n,
{
    if n > 0 {
        lemma_empty_count_bound(b, n - 1);
    }
}

} // verus!
