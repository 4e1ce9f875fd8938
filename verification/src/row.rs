//! One row of 16 bits: the move of its tiles toward cell 0, its mirror image, and the
//! points a move earns.

use crate::bits::{lemma_nibble_bound, lemma_nibble_mask, line_cells, nibble};
use crate::line::{
    compact, lemma_compact_is_padded, lemma_gain_bounds, lemma_merge_done, lemma_merge_pairs_len, lemma_merge_step,
    lemma_padded_is_compact, lemma_tiles_basic, lemma_tiles_concat, lemma_tiles_cons,
    line_after_move, line_move_score, merge_gain, merge_pairs, merged_rank, pad_zeros, tiles,
};
use vstd::arithmetic::power2::pow2;
use vstd::prelude::*;

verus! {

/// The row after dropping its empty cell `i`: cells above `i` move down by one, cell 3 empties.
pub open spec fn drop_cell(row: u64, i: u64) -> u64 {
    let first_bits = row & ((1u64 << ((i * 4) as u64)) - 1) as u64;
    ((row & !first_bits) >> 4u64) | first_bits
}

proof fn lemma_drop_cell(row: u64, i: u64, j: u64)
    requires
        row < 0x10000,
        i < 3,
        j < 4,
        nibble(row, i) == 0,
    ensures
        (1u64 << ((i * 4) as u64)) >= 1,
        drop_cell(row, i) < 0x10000,
        drop_cell(row, i) <= row,
        nibble(drop_cell(row, i), j) == (if j < i {
            nibble(row, j)
        } else if j < 3 {
            nibble(row, (j + 1) as u64)
        } else {
            0
        }),
{
    assert({
        let first_bits = row & ((1u64 << ((i * 4) as u64)) - 1) as u64;
        let d = ((row & !first_bits) >> 4u64) | first_bits;
        &&& (1u64 << ((i * 4) as u64)) >= 1
        &&& d < 0x10000
        &&& d <= row
        &&& ((d >> ((j * 4) as u64)) & 0xF) == (if j < i {
            (row >> ((j * 4) as u64)) & 0xF
        } else if j < 3 {
            (row >> (((j + 1) * 4) as u64)) & 0xF
        } else {
            0
        })
    }) by (bit_vector)
        requires
            row < 0x10000,
            i < 3,
            j < 4,
            (row >> ((i * 4) as u64)) & 0xF == 0,
    ;
}

proof fn lemma_raise_cell(row: u64, i: u64, j: u64)
    requires
        row < 0x10000,
        i < 4,
        j < 4,
        nibble(row, i) < 15,
    ensures
        row + (1u64 << ((i * 4) as u64)) < 0x10000,
        nibble((row + (1u64 << ((i * 4) as u64))) as u64, j) == nibble(row, j) + (if j == i {
            1int
        } else {
            0int
        }),
{
    assert({
        let new = (row + (1u64 << ((i * 4) as u64))) as u64;
        &&& row + (1u64 << ((i * 4) as u64)) < 0x10000
        &&& ((new >> ((j * 4) as u64)) & 0xF) == ((row >> ((j * 4) as u64)) & 0xF) + (if j == i {
            1u64
        } else {
            0u64
        })
    }) by (bit_vector)
        requires
            row < 0x10000,
            i < 4,
            j < 4,
            (row >> ((i * 4) as u64)) & 0xF < 15,
    ;
}

/// `1 << k` is `2^k`; for `k <= 16` it is at most `0x10000`.
proof fn lemma_shl_one(k: u64)
    requires
        k <= 16,
    ensures
        (1u64 << k) == pow2(k as nat),
        (1u64 << k) <= 0x10000,
{
    assert((1u64 << k) <= 0x10000) by (bit_vector)
        requires
            k <= 16,
    ;
    vstd::bits::lemma_u64_pow2_no_overflow(k as nat);
    vstd::bits::lemma_u64_shl_is_mul(1, k);
}

proof fn lemma_clear_cell(row: u64, i: u64, new: u64, j: u64)
    requires
        row < 0x10000,
        i < 4,
        j < 4,
        new == row & !(0xFu64 << ((i * 4) as u64)),
    ensures
        new < 0x10000,
        nibble(new, j) == (if j == i {
            0
        } else {
            nibble(row, j)
        }),
{
    assert(new < 0x10000 && ((new >> ((j * 4) as u64)) & 0xF) == (if j == i {
        0
    } else {
        (row >> ((j * 4) as u64)) & 0xF
    })) by (bit_vector)
        requires
            row < 0x10000,
            i < 4,
            j < 4,
            new == row & !(0xFu64 << ((i * 4) as u64)),
    ;
}

/// Mirrors a row: cell 0 trades places with cell 3, and cell 1 with cell 2.
pub fn reverse_row(row: u64) -> (r: u64)
    requires
        row < 0x10000,
    ensures
        r < 0x10000,
        line_cells(r) == line_cells(row).reverse(),
{
    let r = ((row & 0xF) << 12) | ((row & 0xF0) << 4) | ((row & 0xF00) >> 4) | ((row & 0xF000)
        >> 12);
    proof {
        assert({
            &&& r < 0x10000
            &&& (r >> 0u64) & 0xF == (row >> 12u64) & 0xF
            &&& (r >> 4u64) & 0xF == (row >> 8u64) & 0xF
            &&& (r >> 8u64) & 0xF == (row >> 4u64) & 0xF
            &&& (r >> 12u64) & 0xF == (row >> 0u64) & 0xF
        }) by (bit_vector)
            requires
                r == ((row & 0xF) << 12u64) | ((row & 0xF0) << 4u64) | ((row & 0xF00) >> 4u64) | (
                (row & 0xF000) >> 12u64),
        ;
        assert(line_cells(r) =~= line_cells(row).reverse());
    }
    r
}

/// Slides the tiles of a row toward cell 0, keeping their order and leaving the empty
/// cells behind them.
fn flatten(row: u64) -> (flat: u64)
    requires
        row < 0x10000,
    ensures
        flat < 0x10000,
        line_cells(flat) == pad_zeros(tiles(line_cells(row)), 4),
{
    let ghost start = line_cells(row);
    let mut i: u64 = 0;
    let mut row = row;
    let mut old_row = row;
    while i < 3
        invariant
            i <= 3,
            row < 0x10000,
            old_row == row,
            tiles(line_cells(row)) == tiles(start),
            forall|j: int, k: int|
                0 <= j < i && j <= k < 4 && line_cells(row)[j] == 0 ==> line_cells(row)[k] == 0,
        decreases (3 - i) * 0x10000 + row,
    {
        let ghost s = line_cells(row);
        let cell = row & (0xF << i * 4);
        proof {
            lemma_nibble_mask(row, i);
        }
        if cell == 0 {
            proof {
                lemma_drop_cell(row, i, 0);
            }
            let first_bits = row & ((1 << (i * 4)) - 1);
            let new_row = (row & !first_bits) >> 4;
            row = new_row | first_bits;
            proof {
                assert(row == drop_cell(old_row, i));
                lemma_drop_cell(old_row, i, 0);
                lemma_drop_cell(old_row, i, 1);
                lemma_drop_cell(old_row, i, 2);
                lemma_drop_cell(old_row, i, 3);
                let t = line_cells(row);
                assert(t =~= s.remove(i as int).push(0));
                lemma_tiles_drop_empty(s, i as int);
            }
        }
        proof {
            let t = line_cells(row);
            if row == old_row {
                if s[i as int] == 0 {
                    assert(t[3] == 0);
                    assert(s[3] == 0);
                    assert(i < 3 ==> s[2] == t[2]);
                    assert(i < 2 ==> s[1] == t[1]);
                }
            }
        }
        if row == old_row {
            i += 1;
        } else {
            old_row = row;
        }
    }
    proof {
        let s = line_cells(row);
        assert(compact(s));
        lemma_compact_is_padded(s);
    }
    row
}

/// Moves the tiles of a row toward cell 0 and merges equal neighbours pairwise from
/// cell 0 on; gives the new row and the points that the merges earn.
pub fn combine(row: u64) -> (res: (u64, u64))
    requires
        row < 0x10000,
    ensures
        res.0 < 0x10000,
        line_cells(res.0) == line_after_move(line_cells(row)),
        res.1 == line_move_score(line_cells(row)),
        res.1 <= 0x20000,
        res.1 % 4 == 0,
{
    let ghost start = row;
    let ghost t0 = tiles(line_cells(row));
    let ghost m0 = merge_pairs(t0);
    proof {
        lemma_tiles_basic(line_cells(row));
        lemma_padded_is_compact(t0, 4);
    }
    let mut row = flatten(row);
    let mut score = 0u64;
    proof {
        let s = line_cells(row);
        assert(s.skip(0) =~= s);
        assert(s.take(0) =~= Seq::<int>::empty());
        assert(tiles(Seq::<int>::empty()) + m0 =~= m0);
    }
    for i in 0..3u64
        invariant
            row < 0x10000,
            score <= i * 0x10000,
            tiles(line_cells(row).take(i as int)) + merge_pairs(
                tiles(line_cells(row).skip(i as int)),
            ) == m0,
            score + merge_gain(tiles(line_cells(row).skip(i as int))) == merge_gain(t0),
            compact(line_cells(row).skip(i as int)) || (line_cells(row)[i as int] == 0 && compact(
                line_cells(row).skip(i as int + 1),
            )),
    {
        let ghost s = line_cells(row);
        let ghost old_row = row;
        let cell = (row >> (i * 4)) & 0xF;
        let next_cell = (row >> ((i + 1) * 4)) & 0xF;
        proof {
            assert(cell == nibble(row, i) && s[i as int] == cell);
            assert(next_cell == nibble(row, (i + 1) as u64) && s[i + 1] == next_cell);
            assert forall|k: int| 0 <= k < 4 implies 0 <= #[trigger] s[k] <= 15 by {
                lemma_nibble_bound(old_row, k as u64);
            }
        }
        let merged = cell != 0 && cell == next_cell;
        if merged {
            if cell != 0xF {
                proof {
                    lemma_raise_cell(row, i, 0);
                }
                row += 1 << (i * 4);
                proof {
                    lemma_raise_cell(old_row, i, 0);
                    lemma_raise_cell(old_row, i, 1);
                    lemma_raise_cell(old_row, i, 2);
                    lemma_raise_cell(old_row, i, 3);
                    assert(line_cells(row) =~= s.update(i as int, merged_rank(s[i as int])));
                }
            } else {
                proof {
                    assert(s.update(i as int, merged_rank(s[i as int])) =~= s);
                }
            }
            let ghost before_clear = row;
            row &= !(0xF << ((i + 1) * 4));
            proof {
                lemma_clear_cell(before_clear, (i + 1) as u64, row, 0);
                lemma_clear_cell(before_clear, (i + 1) as u64, row, 1);
                lemma_clear_cell(before_clear, (i + 1) as u64, row, 2);
                lemma_clear_cell(before_clear, (i + 1) as u64, row, 3);
                assert(line_cells(row) =~= line_cells(before_clear).update(i + 1, 0));
                lemma_shl_one((cell + 1) as u64);
            }
            score += 1u64 << (cell + 1);
        }
        proof {
            lemma_merge_step(s, line_cells(row), i as int, merged);
        }
    }
    proof {
        lemma_merge_done(line_cells(row), m0);
    }
    let flat = flatten(row);
    proof {
        lemma_merge_pairs_len(t0);
        assert forall|k: int| 0 <= k < 4 implies 0 <= #[trigger] line_cells(start)[k] <= 15 by {
            lemma_nibble_bound(start, k as u64);
        }
        lemma_tiles_basic(line_cells(start));
        lemma_gain_bounds(t0);
    }
    (flat, score)
}

/// The row after a move toward cell 0.
pub fn row_move_left(row: u64) -> (moved: u64)
    requires
        row < 0x10000,
    ensures
        moved < 0x10000,
        line_cells(moved) == line_after_move(line_cells(row)),
{
    let (new_row, _score) = combine(row);
    new_row
}

/// The points that a move of the row toward cell 0 earns.
pub fn game_score_row(row: u64) -> (score: u64)
    requires
        row < 0x10000,
    ensures
        score == line_move_score(line_cells(row)),
        score <= 0x20000,
        score % 4 == 0,
{
    let (_new_row, score) = combine(row);
    score
}

/// Dropping an empty cell and adding one at the end keeps the tiles of a line.
proof fn lemma_tiles_drop_empty(s: Seq<int>, i: int)
    requires
        0 <= i < s.len(),
        s[i] == 0,
    ensures
        tiles(s.remove(i).push(0)) == tiles(s),
{
    let a = s.take(i);
    let b = s.skip(i + 1);
    assert(s =~= a + (seq![0int] + b));
    assert(s.remove(i).push(0) =~= a + (b + seq![0int]));
    lemma_tiles_concat(a, seq![0int] + b);
    lemma_tiles_cons(0, b);
    lemma_tiles_concat(a, b + seq![0int]);
    lemma_tiles_concat(b, seq![0int]);
    lemma_tiles_cons(0, Seq::empty());
    assert(seq![0int] + Seq::<int>::empty() =~= seq![0int]);
    assert(tiles(b) + Seq::<int>::empty() =~= tiles(b));
}

} // verus!
