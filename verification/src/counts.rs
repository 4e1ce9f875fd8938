//! Counting on the board: its empty cells and the distinct ranks of its tiles.

use crate::bits::{cell, lemma_nibble_bound, lemma_scan_step, nibble};
use vstd::prelude::*;

verus! {

/// The number of empty cells among cells `0 .. n` of a board.
pub open spec fn empty_cells_below(board: u64, n: int) -> int
    decreases n,
{
    if n <= 0 {
        0
    } else {
        empty_cells_below(board, n - 1) + (if cell(board, n - 1) == 0 {
            1int
        } else {
            0int
        })
    }
}

/// The number of empty cells of a board.
pub open spec fn empty_cells(board: u64) -> int {
    empty_cells_below(board, 16)
}

/// Whether some cell of a board holds rank `v`.
pub open spec fn holds_rank(board: u64, v: int) -> bool {
    exists|i: int| 0 <= i < 16 && cell(board, i) == v
}

/// The number of ranks in `1 .. n` that some cell of a board holds.
pub open spec fn ranks_below(board: u64, n: int) -> int
    decreases n,
{
    if n <= 1 {
        0
    } else {
        ranks_below(board, n - 1) + (if holds_rank(board, n - 1) {
            1int
        } else {
            0int
        })
    }
}

/// The number of distinct tiles on a board: the ranks `1 ..= 15` that some cell holds.
pub open spec fn distinct_tiles(board: u64) -> int {
    ranks_below(board, 16)
}

/// The number of one bits among bits `0 .. n` of `x`.
pub open spec fn ones_below(x: u32, n: nat) -> nat
    decreases n,
{
    if n == 0 {
        0
    } else {
        ones_below(x, (n - 1) as nat) + ((x >> ((n - 1) as u32)) & 1) as nat
    }
}

/// 1 when nibble `k` of `x` is zero, else 0.
spec fn zero_flag(x: u64, k: u64) -> u64 {
    if nibble(x, k) == 0 {
        1u64
    } else {
        0u64
    }
}

spec fn zero_flags(x: u64) -> int {
    zero_flag(x, 0) + zero_flag(x, 1) + zero_flag(x, 2) + zero_flag(x, 3) + zero_flag(x, 4)
        + zero_flag(x, 5) + zero_flag(x, 6) + zero_flag(x, 7) + zero_flag(x, 8) + zero_flag(x, 9)
        + zero_flag(x, 10) + zero_flag(x, 11) + zero_flag(x, 12) + zero_flag(x, 13) + zero_flag(
        x,
        14,
    ) + zero_flag(x, 15)
}

spec fn empty_marks(state: u64) -> u64 {
    let a = state | (state >> 2u64);
    let b = a | (a >> 1u64);
    !b & 0x1111_1111_1111_1111u64
}

proof fn lemma_empty_marks_sum(state: u64)
    ensures
        ({
            let r0 = empty_marks(state);
            let r1 = (r0 + (r0 >> 32u64)) as u64;
            let r2 = (r1 + (r1 >> 16u64)) as u64;
            let r3 = (r2 + (r2 >> 8u64)) as u64;
            &&& r0 + (r0 >> 32u64) <= u64::MAX
            &&& r1 + (r1 >> 16u64) <= u64::MAX
            &&& r2 + (r2 >> 8u64) <= u64::MAX
            &&& r3 + (r3 >> 4u64) <= u64::MAX
            &&& ((r3 + (r3 >> 4u64)) as u64) & 0xF == zero_flags(state) % 16
        }),
{
    assert({
        let r0 = empty_marks(state);
        let r1 = (r0 + (r0 >> 32u64)) as u64;
        let r2 = (r1 + (r1 >> 16u64)) as u64;
        let r3 = (r2 + (r2 >> 8u64)) as u64;
        &&& r0 + (r0 >> 32u64) <= u64::MAX
        &&& r1 + (r1 >> 16u64) <= u64::MAX
        &&& r2 + (r2 >> 8u64) <= u64::MAX
        &&& r3 + (r3 >> 4u64) <= u64::MAX
        &&& ((r3 + (r3 >> 4u64)) as u64) & 0xF == zero_flags(state) % 16
    }) by (bit_vector);
}

/// The number of empty cells, modulo 16: a board with all sixteen cells empty counts 0.
pub fn count_empty(state: u64) -> (n: u32)
    ensures
        n == empty_cells(state) % 16,
{
    let mut res = state;
    res |= res >> 2;
    res |= res >> 1;
    res = !res & 0x1111_1111_1111_1111;
    proof {
        assert(res == empty_marks(state));
        lemma_empty_marks_sum(state);
        reveal_with_fuel(empty_cells_below, 17);
        assert(zero_flags(state) == empty_cells(state));
    }
    res += res >> 32;
    res += res >> 16;
    res += res >> 8;
    res += res >> 4;
    (res & 0xFu64) as u32
}

/// Calls `u32::count_ones`, which std documents as the number of ones in the binary
/// representation of `x`; stated as the number of one bits among its 32 bits.
#[verifier::external_body]
fn count_ones(x: u32) -> (n: u32)
    ensures
        n == ones_below(x, 32),
{
    x.count_ones()
}

proof fn lemma_set_bit(bitset: u32, n: u64, v: u32)
    requires
        n < 16,
        v < 32,
        bitset < 0x10000,
    ensures
        (0u32 >> v) & 1 == 0,
        (bitset | (1u32 << (n as u32))) < 0x10000,
        ((bitset | (1u32 << (n as u32))) >> v) & 1 == (if v as u64 == n {
            1u32
        } else {
            (bitset >> v) & 1
        }),
{
    assert((0u32 >> v) & 1 == 0 && (bitset | (1u32 << (n as u32))) < 0x10000 && ((bitset | (1u32 << (n as u32))) >> v) & 1
        == (if v as u64 == n {
        1u32
    } else {
        (bitset >> v) & 1
    })) by (bit_vector)
        requires
            n < 16,
            v < 32,
            bitset < 0x10000,
    ;
}

proof fn lemma_shift_bits(bitset: u32, v: u32)
    requires
        v < 32,
        bitset < 0x10000,
    ensures
        ((bitset >> 1u32) >> v) & 1 == (if v < 15 {
            (bitset >> ((v + 1) as u32)) & 1
        } else {
            0
        }),
{
    assert(((bitset >> 1u32) >> v) & 1 == (if v < 15 {
        (bitset >> ((v + 1) as u32)) & 1
    } else {
        0
    })) by (bit_vector)
        requires
            v < 32,
            bitset < 0x10000,
    ;
}

proof fn lemma_ones_ranks(x: u32, board: u64, n: nat)
    requires
        forall|b: u32|
            b < 32 ==> #[trigger] ((x >> b) & 1) == (if b < 15 && holds_rank(board, b + 1) {
                1u32
            } else {
                0u32
            }),
        n <= 32,
    ensures
        ones_below(x, n) == ranks_below(board, if n < 15 {
            (n + 1) as int
        } else {
            16
        }),
    decreases n,
{
    if n > 0 {
        lemma_ones_ranks(x, board, (n - 1) as nat);
        let b = (n - 1) as u32;
        assert(((x >> b) & 1) == (if b < 15 && holds_rank(board, b + 1) {
            1u32
        } else {
            0u32
        }));
    }
}

proof fn lemma_ranks_bound(board: u64, n: int)
    ensures
        0 <= ranks_below(board, n),
        n >= 1 ==> ranks_below(board, n) <= n - 1,
    decreases n,
{
    if n > 1 {
        lemma_ranks_bound(board, n - 1);
    }
}

/// The number of distinct tile ranks on the board (empty cells not counted).
pub fn count_distinct_tiles(state: u64) -> (n: u8)
    ensures
        n == distinct_tiles(state),
        n <= 15,
{
    let ghost orig = state;
    let ghost mut k: u64 = 0;
    let mut bitset = 0u32;
    let mut state = state;
    proof {
        lemma_scan_step(orig, 0);
        assert forall|v: u32| v < 32 implies #[trigger] ((bitset >> v) & 1) == 0 by {
            lemma_set_bit(0, 0, v);
        }
    }
    while state != 0
        invariant
            k <= 16,
            k == 16 ==> state == 0,
            k < 16 ==> state == orig >> ((k * 4) as u64),
            bitset < 0x10000,
            forall|v: u32|
                1 <= v < 16 ==> (#[trigger] ((bitset >> v) & 1) == 1 <==> exists|j: int|
                    0 <= j < k && cell(orig, j) == v),
            forall|v: u32| 16 <= v < 32 ==> #[trigger] ((bitset >> v) & 1) == 0,
            forall|v: u32| v < 32 ==> #[trigger] ((bitset >> v) & 1) <= 1,
        decreases 16 - k,
    {
        proof {
            lemma_scan_step(orig, k);
            lemma_nibble_bound(orig, k);
        }
        let ghost old_bitset = bitset;
        bitset |= 1 << (state & 0xF);
        proof {
            let n = nibble(orig, k);
            assert forall|v: u32| v < 32 implies #[trigger] ((bitset >> v) & 1) == (if v as u64 == n {
                1u32
            } else {
                (old_bitset >> v) & 1
            }) by {
                lemma_set_bit(old_bitset, n, v);
            }
            lemma_set_bit(old_bitset, n, 0);
        }
        state >>= 4;
        proof {
            let k0 = k;
            let n = nibble(orig, k0);
            assert(cell(orig, k0 as int) == n as int);
            k = (k + 1) as u64;
            assert forall|v: u32| 1 <= v < 16 implies (#[trigger] ((bitset >> v) & 1) == 1 <==> exists|
                j: int,
            | 0 <= j < k && cell(orig, j) == v) by {
                if v as u64 == n {
                    assert(0 <= k0 < k && cell(orig, k0 as int) == v);
                } else {
                    if exists|j: int| 0 <= j < k && cell(orig, j) == v {
                        let j = choose|j: int| 0 <= j < k && cell(orig, j) == v;
                        assert(j != k0);
                        assert(0 <= j < k0 && cell(orig, j) == v);
                    }
                    if ((old_bitset >> v) & 1) == 1 {
                        let j = choose|j: int| 0 <= j < k0 && cell(orig, j) == v;
                        assert(0 <= j < k && cell(orig, j) == v);
                    }
                }
            }
        }
    }
    proof {
        if k < 16 {
            lemma_scan_step(orig, k);
        }
    }
    let ghost full = bitset;
    bitset >>= 1;
    proof {
        assert forall|b: u32| b < 32 implies #[trigger] ((bitset >> b) & 1) == (if b < 15 && holds_rank(
            orig,
            b + 1,
        ) {
            1u32
        } else {
            0u32
        }) by {
            lemma_shift_bits(full, b);
            if b < 15 {
                let v = (b + 1) as u32;
                if holds_rank(orig, v as int) {
                    let i = choose|i: int| 0 <= i < 16 && cell(orig, i) == v;
                    if i >= k {
                        assert(nibble(orig, i as u64) == 0);
                    }
                }
                assert(((full >> v) & 1) <= 1);
            }
        }
        lemma_ones_ranks(bitset, orig, 32);
        lemma_ranks_bound(orig, 16);
    }
    count_ones(bitset) as u8
}

} // verus!
