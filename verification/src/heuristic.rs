//! The search heuristic: a score for each row of 16 bits, and the score of a board as the
//! sum over its rows and columns.

use crate::bits::{
    board_col, board_row, cell, lemma_board_row, lemma_nibble_bound, lemma_transpose_lines,
    lemma_transpose_unique, line_cells, nibble,
};
use crate::board::transpose;
use crate::line::{lemma_tiles_basic, lemma_tiles_concat, lemma_tiles_cons, tiles};
use vstd::arithmetic::power::pow;
use vstd::prelude::*;

verus! {

/// Exponent of the ranks in the monotonicity penalty.
pub const SCORE_MONOTONE_POWER: i32 = 4;

/// Weight of the monotonicity penalty.
pub const SCORE_MONOTONE_WEIGHT: i32 = 47;

/// Weight of each empty cell.
pub const SCORE_EMPTY_WEIGHT: i32 = 270;

/// Weight of each tile that has an equal neighbour.
pub const SCORE_MERGE_WEIGHT: i32 = 700;

/// Weight of the sum of the powered ranks.
pub const SCORE_SUM_WEIGHT: i32 = 11;

/// Exponent of the ranks in the sum.
pub const SCORE_SUM_POWER: u32 = 3;

/// The constant that keeps every score positive before the search loses.
pub const SCORE_LOSS_PENALTY: u64 = 200000;

/// Sum of `s[k]^3` over the first `n` cells.
pub open spec fn power_sum(s: Seq<int>, n: int) -> int
    decreases n,
{
    if n <= 0 {
        0
    } else {
        power_sum(s, n - 1) + pow(s[n - 1], SCORE_SUM_POWER as nat)
    }
}

/// Number of empty cells among the first `n` cells.
pub open spec fn zeros(s: Seq<int>, n: int) -> int
    decreases n,
{
    if n <= 0 {
        0
    } else {
        zeros(s, n - 1) + (if s[n - 1] == 0 {
            1int
        } else {
            0int
        })
    }
}

/// Tile `j` of `t` has an equal tile right before or right after it.
pub open spec fn has_twin(t: Seq<int>, j: int) -> bool {
    (j > 0 && t[j - 1] == t[j]) || (j + 1 < t.len() && t[j + 1] == t[j])
}

/// The number of tiles among the first `n` of `t` that have an equal neighbour in `t`.
pub open spec fn twins(t: Seq<int>, n: int) -> int
    decreases n,
{
    if n <= 0 {
        0
    } else {
        twins(t, n - 1) + (if has_twin(t, n - 1) {
            1int
        } else {
            0int
        })
    }
}

/// The tiles of a line, the empty cells taken out, that have an equal tile next to them:
/// each run of two or more equal tiles counts its length.
pub open spec fn merge_candidates(s: Seq<int>) -> int {
    twins(tiles(s), tiles(s).len() as int)
}

/// The fourth power of a rank.
pub open spec fn pow4(r: int) -> int {
    pow(r, SCORE_MONOTONE_POWER as nat)
}

/// Sum, over the neighbours `k - 1, k` with `k < n`, of how much `pow4` falls from one to the next.
pub open spec fn falls(s: Seq<int>, n: int) -> int
    decreases n,
{
    if n <= 1 {
        0
    } else {
        falls(s, n - 1) + (if s[n - 2] > s[n - 1] {
            pow4(s[n - 2]) - pow4(s[n - 1])
        } else {
            0
        })
    }
}

/// Sum, over the neighbours `k - 1, k` with `k < n`, of how much `pow4` rises from one to the next.
pub open spec fn rises(s: Seq<int>, n: int) -> int
    decreases n,
{
    if n <= 1 {
        0
    } else {
        rises(s, n - 1) + (if s[n - 2] > s[n - 1] {
            0
        } else {
            pow4(s[n - 1]) - pow4(s[n - 2])
        })
    }
}

/// The heuristic score of a line of four ranks: it rewards empty cells and tiles with an
/// equal neighbour, and penalises the smaller of the total fall and the total rise of
/// the ranks along the line (so lines that are monotone in one direction cost nothing),
/// and the sum of the cubed ranks.
pub open spec fn heuristic(s: Seq<int>) -> int {
    let f = falls(s, 4);
    let r = rises(s, 4);
    let penalty = if f < r {
        f
    } else {
        r
    };
    (-penalty * SCORE_MONOTONE_WEIGHT + zeros(s, 4) * SCORE_EMPTY_WEIGHT + merge_candidates(s)
        * SCORE_MERGE_WEIGHT - power_sum(s, 4) * SCORE_SUM_WEIGHT + SCORE_LOSS_PENALTY) * 100
}

/// `base` to the power `exp`, for a rank and an exponent of at most 4.
fn rank_pow(base: u32, exp: u32) -> (p: u32)
    requires
        base <= 15,
        exp <= 4,
    ensures
        p == pow(base as int, exp as nat),
        p <= 50625,
{
    let mut acc: u32 = 1;
    let mut k: u32 = 0;
    proof {
        reveal_with_fuel(pow, 5);
        assert(pow(15, 4) == 50625);
    }
    while k < exp
        invariant
            k <= exp <= 4,
            base <= 15,
            acc == pow(base as int, k as nat),
            0 <= acc <= pow(15, k as nat),
            pow(15, 4) == 50625,
        decreases exp - k,
    {
        proof {
            reveal_with_fuel(pow, 5);
            assert(pow(15, (k + 1) as nat) == 15 * pow(15, k as nat));
            assert(pow(base as int, (k + 1) as nat) == base * pow(base as int, k as nat));
            assert(acc * base == base * acc) by (nonlinear_arith);
            assert(acc * base <= pow(15, k as nat) * 15) by (nonlinear_arith)
                requires
                    0 <= acc <= pow(15, k as nat),
                    0 <= base <= 15,
            ;
            assert(pow(15, (k + 1) as nat) <= 50625) by {
                if k + 1 == 1 {
                } else if k + 1 == 2 {
                } else if k + 1 == 3 {
                } else {
                }
            }
        }
        acc = acc * base;
        k = k + 1;
    }
    acc
}

proof fn lemma_row_nums(row: u32)
    requires
        row < 0x10000,
    ensures
        ((row >> 0u32) & 0xF) as u64 == nibble(row as u64, 0),
        ((row >> 4u32) & 0xF) as u64 == nibble(row as u64, 1),
        ((row >> 8u32) & 0xF) as u64 == nibble(row as u64, 2),
        ((row >> 12u32) & 0xF) as u64 == nibble(row as u64, 3),
{
    assert({
        &&& ((row >> 0u32) & 0xF) as u64 == nibble(row as u64, 0)
        &&& ((row >> 4u32) & 0xF) as u64 == nibble(row as u64, 1)
        &&& ((row >> 8u32) & 0xF) as u64 == nibble(row as u64, 2)
        &&& ((row >> 12u32) & 0xF) as u64 == nibble(row as u64, 3)
    }) by (bit_vector)
        requires
            row < 0x10000,
    ;
}

/// Tiles that agree on `0 .. m + 1` have the same twins among their first `m`.
proof fn lemma_twins_prefix(t: Seq<int>, u: Seq<int>, m: int)
    requires
        0 <= m,
        m < t.len(),
        m < u.len(),
        forall|j: int| 0 <= j <= m ==> t[j] == u[j],
    ensures
        twins(t, m) == twins(u, m),
    decreases m,
{
    if m > 0 {
        lemma_twins_prefix(t, u, m - 1);
        assert(has_twin(t, m - 1) == has_twin(u, m - 1));
    }
}

/// What a new tile at the end adds to the count of tiles with an equal neighbour.
proof fn lemma_twins_push(t: Seq<int>, x: int)
    ensures
        twins(t.push(x), t.len() + 1int) == twins(t, t.len() as int) + (if t.len() > 0 && t[t.len()
            - 1] == x {
            1 + (if t.len() >= 2 && t[t.len() - 2] == t[t.len() - 1] {
                0int
            } else {
                1int
            })
        } else {
            0int
        }),
{
    let n = t.len() as int;
    let u = t.push(x);
    assert(twins(u, n + 1) == twins(u, n) + (if has_twin(u, n) {
        1int
    } else {
        0int
    }));
    assert(has_twin(u, n) == (n > 0 && t[n - 1] == x));
    if n > 0 {
        lemma_twins_prefix(t, u, n - 1);
        assert(u[n - 1] == t[n - 1]);
        assert(n >= 2 ==> u[n - 2] == t[n - 2]);
        assert(has_twin(u, n - 1) == (has_twin(t, n - 1) || t[n - 1] == x));
        assert(has_twin(t, n - 1) == (n >= 2 && t[n - 2] == t[n - 1]));
        assert(twins(u, n) == twins(u, n - 1) + (if has_twin(u, n - 1) {
            1int
        } else {
            0int
        }));
        assert(twins(t, n) == twins(t, n - 1) + (if has_twin(t, n - 1) {
            1int
        } else {
            0int
        }));
    }
}

/// The heuristic score of a row of 16 bits.
pub fn row_heuristic(row: u32) -> (score: i64)
    requires
        row < 0x10000,
    ensures
        score == heuristic(line_cells(row as u64)),
        -1_000_000_000 <= score <= 100_000_000,
{
    let ghost s = line_cells(row as u64);
    let nums: [u32; 4] = [(row >> 0) & 0xF, (row >> 4) & 0xF, (row >> 8) & 0xF, (row >> 12) & 0xF];
    proof {
        lemma_row_nums(row);
        assert(s[0] == cell(row as u64, 0) && s[1] == cell(row as u64, 1));
        assert(s[2] == cell(row as u64, 2) && s[3] == cell(row as u64, 3));
        assert(forall|k: int| 0 <= k < 4 ==> nums@[k] == s[k]);
        lemma_nibble_bound(row as u64, 0);
        lemma_nibble_bound(row as u64, 1);
        lemma_nibble_bound(row as u64, 2);
        lemma_nibble_bound(row as u64, 3);
    }
    let mut merges: u32 = 0;
    let mut sum: u32 = 0;
    let mut empty: u32 = 0;
    let mut prev: u32 = 0;
    let mut counter: u32 = 0;
    proof {
        assert(s.take(0) =~= Seq::<int>::empty());
        reveal_with_fuel(tiles, 1);
    }
    for i in 0..4usize
        invariant
            s.len() == 4,
            forall|k: int| 0 <= k < 4 ==> nums@[k] == s[k],
            forall|k: int| 0 <= k < 4 ==> #[trigger] nums@[k] <= 15,
            sum == power_sum(s, i as int),
            sum <= i * 50625,
            empty == zeros(s, i as int),
            empty <= i,
            counter <= i,
            merges <= i,
            ({
                let p = tiles(s.take(i as int));
                &&& prev == (if p.len() == 0 {
                    0
                } else {
                    p[p.len() - 1]
                })
                &&& (counter > 0) == (p.len() >= 2 && p[p.len() - 2] == p[p.len() - 1])
                &&& merges + (if counter > 0 {
                    counter + 1
                } else {
                    0
                }) == twins(p, p.len() as int)
            }),
    {
        let rank = nums[i];
        let ghost p = tiles(s.take(i as int));
        let ghost old_counter = counter;
        proof {
            assert(s.take(i + 1) =~= s.take(i as int) + seq![s[i as int]]);
            lemma_tiles_concat(s.take(i as int), seq![s[i as int]]);
            lemma_tiles_cons(s[i as int], Seq::empty());
            assert(seq![s[i as int]] + Seq::<int>::empty() =~= seq![s[i as int]]);
            assert(p + Seq::<int>::empty() =~= p);
            lemma_twins_push(p, rank as int);
        }
        sum += rank_pow(rank, SCORE_SUM_POWER);
        if rank == 0 {
            empty += 1;
        } else {
            if rank == prev {
                counter += 1;
            } else if counter > 0 {
                merges += counter + 1;
                counter = 0;
            }
            prev = rank;
        }
        proof {
            if rank != 0 {
                assert(p + seq![rank as int] =~= p.push(rank as int));
            }
            lemma_tiles_basic(s.take(i + 1));
            let p2 = tiles(s.take(i + 1));
            lemma_twins_bound(p2, p2.len() as int);
        }
    }
    if counter > 0 {
        merges += counter + 1;
    }
    proof {
        assert(s.take(4) =~= s);
    }
    let mut monotone_left: i32 = 0;
    let mut monotone_right: i32 = 0;
    for i in 1..4usize
        invariant
            s.len() == 4,
            forall|k: int| 0 <= k < 4 ==> nums@[k] == s[k],
            forall|k: int| 0 <= k < 4 ==> #[trigger] nums@[k] <= 15,
            monotone_left == falls(s, i as int),
            monotone_right == rises(s, i as int),
            0 <= monotone_left <= (i - 1) * 50625,
            0 <= monotone_right <= (i - 1) * 50625,
    {
        let c_curr: u32 = nums[i];
        let c_prev: u32 = nums[i - 1];
        let p_curr = rank_pow(c_curr, SCORE_MONOTONE_POWER as u32);
        let p_prev = rank_pow(c_prev, SCORE_MONOTONE_POWER as u32);
        proof {
            lemma_pow4_monotone(c_prev as int, c_curr as int);
        }
        if c_prev > c_curr {
            monotone_left += p_prev as i32;
            monotone_left -= p_curr as i32;
        } else {
            monotone_right += p_curr as i32;
            monotone_right -= p_prev as i32;
        }
    }
    assert(monotone_left <= 151875 && monotone_right <= 151875);
    let mut value: i64 = if monotone_left < monotone_right {
        -(monotone_left as i64) * (SCORE_MONOTONE_WEIGHT as i64)
    } else {
        -(monotone_right as i64) * (SCORE_MONOTONE_WEIGHT as i64)
    };
    value += (empty as i64) * (SCORE_EMPTY_WEIGHT as i64);
    value += (merges as i64) * (SCORE_MERGE_WEIGHT as i64);
    value -= (sum as i64) * (SCORE_SUM_WEIGHT as i64);
    value += SCORE_LOSS_PENALTY as i64;
    value *= 100;
    value
}

proof fn lemma_twins_bound(t: Seq<int>, n: int)
    requires
        0 <= n,
    ensures
        0 <= twins(t, n) <= n,
    decreases n,
{
    if n > 0 {
        lemma_twins_bound(t, n - 1);
    }
}

/// `pow4` is monotone on ranks.
proof fn lemma_pow4_monotone(a: int, b: int)
    requires
        0 <= a <= 15,
        0 <= b <= 15,
    ensures
        a > b ==> pow4(a) >= pow4(b),
        a <= b ==> pow4(a) <= pow4(b),
        0 <= pow4(a) <= 50625,
        0 <= pow4(b) <= 50625,
{
    reveal_with_fuel(pow, 5);
    assert(pow4(a) == a * (a * (a * (a * 1))));
    assert(pow4(b) == b * (b * (b * (b * 1))));
    assert(a * (a * (a * (a * 1))) == a * a * a * a) by (nonlinear_arith);
    assert(b * (b * (b * (b * 1))) == b * b * b * b) by (nonlinear_arith);
    assert(a > b ==> a * a * a * a >= b * b * b * b) by (nonlinear_arith)
        requires
            0 <= a <= 15,
            0 <= b <= 15,
    ;
    assert(a <= b ==> a * a * a * a <= b * b * b * b) by (nonlinear_arith)
        requires
            0 <= a <= 15,
            0 <= b <= 15,
    ;
    assert(0 <= a * a * a * a <= 50625) by (nonlinear_arith)
        requires
            0 <= a <= 15,
    ;
    assert(0 <= b * b * b * b <= 50625) by (nonlinear_arith)
        requires
            0 <= b <= 15,
    ;
}

/// `table` holds the heuristic score of every row of 16 bits, indexed by the row.
pub open spec fn is_score_table(table: Seq<i64>) -> bool {
    &&& table.len() == 0x10000
    &&& forall|r: int|
        0 <= r < 0x10000 ==> #[trigger] table[r] == heuristic(line_cells(r as u64)) && -1_000_000_000
            <= table[r] <= 100_000_000
}

/// The heuristic score of every row of 16 bits, indexed by the row.
pub fn make_score_table() -> (table: Vec<i64>)
    ensures
        is_score_table(table@),
{
    let mut table: Vec<i64> = Vec::new();
    let mut row: u32 = 0;
    while row < 0x10000
        invariant
            row <= 0x10000,
            table@.len() == row,
            forall|r: int|
                0 <= r < row ==> #[trigger] table@[r] == heuristic(line_cells(r as u64))
                    && -1_000_000_000 <= table@[r] <= 100_000_000,
        decreases 0x10000 - row,
    {
        let v = row_heuristic(row);
        table.push(v);
        row += 1;
    }
    table
}

/// The heuristic score of a board: the sum of the scores of its four rows and four columns.
pub open spec fn position_score(state: u64) -> int {
    heuristic(board_row(state, 0)) + heuristic(board_row(state, 1)) + heuristic(board_row(state, 2))
        + heuristic(board_row(state, 3)) + heuristic(board_col(state, 0)) + heuristic(
        board_col(state, 1),
    ) + heuristic(board_col(state, 2)) + heuristic(board_col(state, 3))
}

/// Scores a board without searching further: the sum of the table scores of its rows and
/// of its columns.
pub fn score_position(score_table: &Vec<i64>, state: u64) -> (score: i64)
    requires
        is_score_table(score_table@),
    ensures
        score == position_score(state),
{
    let row0 = state & 0xFFFF;
    let row1 = (state >> 16) & 0xFFFF;
    let row2 = (state >> 32) & 0xFFFF;
    let row3 = (state >> 48) & 0xFFFF;
    let state_transposed = transpose(state);
    let col0 = state_transposed & 0xFFFF;
    let col1 = (state_transposed >> 16) & 0xFFFF;
    let col2 = (state_transposed >> 32) & 0xFFFF;
    let col3 = (state_transposed >> 48) & 0xFFFF;
    proof {
        lemma_board_row(state, 0);
        lemma_board_row(state, 1);
        lemma_board_row(state, 2);
        lemma_board_row(state, 3);
        lemma_transpose_unique(state, state_transposed);
        lemma_transpose_lines(state, state_transposed);
        lemma_board_row(state_transposed, 0);
        lemma_board_row(state_transposed, 1);
        lemma_board_row(state_transposed, 2);
        lemma_board_row(state_transposed, 3);
    }
    let t = score_table;
    let h0 = t[row0 as usize];
    let h1 = t[row1 as usize];
    let h2 = t[row2 as usize];
    let h3 = t[row3 as usize];
    let v0 = t[col0 as usize];
    let v1 = t[col1 as usize];
    let v2 = t[col2 as usize];
    let v3 = t[col3 as usize];
    h0 + h1 + h2 + h3 + v0 + v1 + v2 + v3
}

} // verus!
