//! The board as bits: cell `i` is the nibble at bits `4 * i .. 4 * i + 4`, rows are
//! the four 16-bit quarters, and a rank `r > 0` stands for a tile of value `2^r`.

use vstd::prelude::*;

verus! {

/// Nibble `i` of `x` (nibble 0 holds the lowest four bits).
pub open spec fn nibble(x: u64, i: u64) -> u64 {
    (x >> ((i * 4) as u64)) & 0xF
}

/// The rank in cell `i` of a board or a row: 0 for an empty cell, else the tile is worth `2^rank`.
pub open spec fn cell(board: u64, i: int) -> int {
    nibble(board, i as u64) as int
}

/// The cell in row `r`, column `c` of a board.
pub open spec fn cell_at(board: u64, r: int, c: int) -> int {
    cell(board, 4 * r + c)
}

/// The four cells of a 16-bit row, cell 0 first.
pub open spec fn line_cells(row: u64) -> Seq<int> {
    Seq::new(4, |c: int| cell(row, c))
}

/// Row `r` of a board (cells `4r .. 4r + 4`), read from cell 0 of the row to cell 3.
pub open spec fn board_row(board: u64, r: int) -> Seq<int> {
    Seq::new(4, |c: int| cell_at(board, r, c))
}

/// Column `c` of a board (cells `c, c + 4, c + 8, c + 12`), read from row 0 to row 3.
pub open spec fn board_col(board: u64, c: int) -> Seq<int> {
    Seq::new(4, |r: int| cell_at(board, r, c))
}

/// The 16 bits of row `r` of a board.
pub open spec fn row_bits(board: u64, r: u64) -> u64 {
    (board >> ((r * 16) as u64)) & 0xFFFF
}

/// A board made of four 16-bit rows, row 0 in the lowest bits.
pub open spec fn pack_rows(m0: u64, m1: u64, m2: u64, m3: u64) -> u64 {
    m0 | (m1 << 16u64) | (m2 << 32u64) | (m3 << 48u64)
}

pub proof fn lemma_nibble_bound(x: u64, i: u64)
    ensures
        nibble(x, i) <= 15,
{
    assert(((x >> ((i * 4) as u64)) & 0xF) <= 15) by (bit_vector);
}

/// A masked test of nibble `i` is a test of the nibble itself.
pub proof fn lemma_nibble_mask(x: u64, i: u64)
    requires
        i < 16,
    ensures
        (x & (0xFu64 << ((i * 4) as u64)) == 0) == (nibble(x, i) == 0),
{
    assert((x & (0xFu64 << ((i * 4) as u64)) == 0) == (((x >> ((i * 4) as u64)) & 0xF) == 0))
        by (bit_vector)
        requires
            i < 16,
    ;
}

/// Two boards with the same sixteen cells are the same board.
pub proof fn lemma_cells_eq(a: u64, b: u64)
    requires
        forall|i: int| 0 <= i < 16 ==> cell(a, i) == cell(b, i),
    ensures
        a == b,
{
    assert(cell(a, 0) == cell(b, 0) && cell(a, 1) == cell(b, 1) && cell(a, 2) == cell(b, 2));
    assert(cell(a, 3) == cell(b, 3) && cell(a, 4) == cell(b, 4) && cell(a, 5) == cell(b, 5));
    assert(cell(a, 6) == cell(b, 6) && cell(a, 7) == cell(b, 7) && cell(a, 8) == cell(b, 8));
    assert(cell(a, 9) == cell(b, 9) && cell(a, 10) == cell(b, 10) && cell(a, 11) == cell(b, 11));
    assert(cell(a, 12) == cell(b, 12) && cell(a, 13) == cell(b, 13));
    assert(cell(a, 14) == cell(b, 14) && cell(a, 15) == cell(b, 15));
    assert(a == b) by (bit_vector)
        requires
            nibble(a, 0) == nibble(b, 0),
            nibble(a, 1) == nibble(b, 1),
            nibble(a, 2) == nibble(b, 2),
            nibble(a, 3) == nibble(b, 3),
            nibble(a, 4) == nibble(b, 4),
            nibble(a, 5) == nibble(b, 5),
            nibble(a, 6) == nibble(b, 6),
            nibble(a, 7) == nibble(b, 7),
            nibble(a, 8) == nibble(b, 8),
            nibble(a, 9) == nibble(b, 9),
            nibble(a, 10) == nibble(b, 10),
            nibble(a, 11) == nibble(b, 11),
            nibble(a, 12) == nibble(b, 12),
            nibble(a, 13) == nibble(b, 13),
            nibble(a, 14) == nibble(b, 14),
            nibble(a, 15) == nibble(b, 15),
    ;
}

/// The 16-bit row whose cells are the first four ranks of `s`.
pub open spec fn line_bits(s: Seq<int>) -> u64 {
    (s[0] as u64) | ((s[1] as u64) << 4u64) | ((s[2] as u64) << 8u64) | ((s[3] as u64) << 12u64)
}

/// The board whose rows are the transposed columns of `state`, as bits.
pub open spec fn transpose_bits(state: u64) -> u64 {
    let a1: u64 = state & 0xF0F0_0F0F_F0F0_0F0F;
    let a2: u64 = state & 0x0000_F0F0_0000_F0F0;
    let a3: u64 = state & 0x0F0F_0000_0F0F_0000;
    let a: u64 = a1 | (a2 << 12u64) | (a3 >> 12u64);
    let b1: u64 = a & 0xFF00_FF00_00FF_00FF;
    let b2: u64 = a & 0x00FF_00FF_0000_0000;
    let b3: u64 = a & 0x0000_0000_FF00_FF00;
    b1 | (b2 >> 24u64) | (b3 << 24u64)
}

pub proof fn lemma_line_bits(m: u64)
    requires
        m < 0x10000,
    ensures
        line_bits(line_cells(m)) == m,
{
    let s = line_cells(m);
    assert(s[0] == cell(m, 0) && cell(m, 0) == nibble(m, 0) as int);
    assert(s[1] == cell(m, 1) && cell(m, 1) == nibble(m, 1) as int);
    assert(s[2] == cell(m, 2) && cell(m, 2) == nibble(m, 2) as int);
    assert(s[3] == cell(m, 3) && cell(m, 3) == nibble(m, 3) as int);
    assert(nibble(m, 0) | (nibble(m, 1) << 4u64) | (nibble(m, 2) << 8u64) | (nibble(m, 3) << 12u64)
        == m) by (bit_vector)
        requires
            m < 0x10000,
    ;
}

pub proof fn lemma_transpose_bits_cells(s: u64, r: u64, c: u64)
    requires
        r < 4,
        c < 4,
    ensures
        nibble(transpose_bits(s), (r * 4 + c) as u64) == nibble(s, (c * 4 + r) as u64),
{
    assert(nibble(transpose_bits(s), (r * 4 + c) as u64) == nibble(s, (c * 4 + r) as u64)) by (bit_vector)
        requires
            r < 4,
            c < 4,
    ;
}

pub proof fn lemma_row_bits_cells(b: u64, r: u64, c: u64)
    requires
        r < 4,
        c < 4,
    ensures
        row_bits(b, r) < 0x10000,
        nibble(row_bits(b, r), c) == nibble(b, (r * 4 + c) as u64),
        row_bits(b, 0) == b & 0xFFFF,
{
    assert(row_bits(b, r) < 0x10000 && nibble(row_bits(b, r), c) == nibble(b, (r * 4 + c) as u64)
        && row_bits(b, 0) == b & 0xFFFF)
        by (bit_vector)
        requires
            r < 4,
            c < 4,
    ;
}

/// Row `r` of a board is the row held by its 16 bits `16r .. 16r + 16`.
pub proof fn lemma_board_row(b: u64, r: int)
    requires
        0 <= r < 4,
    ensures
        row_bits(b, r as u64) < 0x10000,
        row_bits(b, 0) == b & 0xFFFF,
        board_row(b, r) == line_cells(row_bits(b, r as u64)),
{
    let x = row_bits(b, r as u64);
    lemma_row_bits_cells(b, r as u64, 0);
    lemma_row_bits_cells(b, r as u64, 1);
    lemma_row_bits_cells(b, r as u64, 2);
    lemma_row_bits_cells(b, r as u64, 3);
    assert(board_row(b, r) =~= line_cells(x));
}

/// The rows of a board made of four rows are those rows.
pub proof fn lemma_pack_rows(m0: u64, m1: u64, m2: u64, m3: u64)
    requires
        m0 < 0x10000,
        m1 < 0x10000,
        m2 < 0x10000,
        m3 < 0x10000,
    ensures
        row_bits(pack_rows(m0, m1, m2, m3), 0) == m0,
        row_bits(pack_rows(m0, m1, m2, m3), 1) == m1,
        row_bits(pack_rows(m0, m1, m2, m3), 2) == m2,
        row_bits(pack_rows(m0, m1, m2, m3), 3) == m3,
{
    assert({
        &&& row_bits(pack_rows(m0, m1, m2, m3), 0) == m0
        &&& row_bits(pack_rows(m0, m1, m2, m3), 1) == m1
        &&& row_bits(pack_rows(m0, m1, m2, m3), 2) == m2
        &&& row_bits(pack_rows(m0, m1, m2, m3), 3) == m3
    }) by (bit_vector)
        requires
            m0 < 0x10000,
            m1 < 0x10000,
            m2 < 0x10000,
            m3 < 0x10000,
    ;
}

/// Flipping the bits of each row of `s` by a 16-bit mask gives the board of the flipped rows.
pub proof fn lemma_xor_rows(s: u64, e0: u64, e1: u64, e2: u64, e3: u64)
    requires
        e0 < 0x10000,
        e1 < 0x10000,
        e2 < 0x10000,
        e3 < 0x10000,
    ensures
        s ^ (e0 | (e1 << 16u64) | (e2 << 32u64) | (e3 << 48u64)) == pack_rows(
            row_bits(s, 0) ^ e0,
            row_bits(s, 1) ^ e1,
            row_bits(s, 2) ^ e2,
            row_bits(s, 3) ^ e3,
        ),
{
    assert(s ^ (e0 | (e1 << 16u64) | (e2 << 32u64) | (e3 << 48u64)) == pack_rows(
        row_bits(s, 0) ^ e0,
        row_bits(s, 1) ^ e1,
        row_bits(s, 2) ^ e2,
        row_bits(s, 3) ^ e3,
    )) by (bit_vector)
        requires
            e0 < 0x10000,
            e1 < 0x10000,
            e2 < 0x10000,
            e3 < 0x10000,
    ;
}

/// The column counterpart of `lemma_xor_rows`: replacing each row of the transposed board
/// by a new row, through differences of transposed rows, transposes the new rows back.
pub proof fn lemma_xor_cols(s: u64, m0: u64, m1: u64, m2: u64, m3: u64)
    requires
        m0 < 0x10000,
        m1 < 0x10000,
        m2 < 0x10000,
        m3 < 0x10000,
    ensures
        ({
            let t = transpose_bits(s);
            let u0 = transpose_bits(row_bits(t, 0)) ^ transpose_bits(m0);
            let u1 = transpose_bits(row_bits(t, 1)) ^ transpose_bits(m1);
            let u2 = transpose_bits(row_bits(t, 2)) ^ transpose_bits(m2);
            let u3 = transpose_bits(row_bits(t, 3)) ^ transpose_bits(m3);
            s ^ (u0 | (u1 << 4u64) | (u2 << 8u64) | (u3 << 12u64)) == transpose_bits(
                pack_rows(m0, m1, m2, m3),
            )
        }),
{
    assert({
        let t = transpose_bits(s);
        let u0 = transpose_bits(row_bits(t, 0)) ^ transpose_bits(m0);
        let u1 = transpose_bits(row_bits(t, 1)) ^ transpose_bits(m1);
        let u2 = transpose_bits(row_bits(t, 2)) ^ transpose_bits(m2);
        let u3 = transpose_bits(row_bits(t, 3)) ^ transpose_bits(m3);
        s ^ (u0 | (u1 << 4u64) | (u2 << 8u64) | (u3 << 12u64)) == transpose_bits(
            pack_rows(m0, m1, m2, m3),
        )
    }) by (bit_vector)
        requires
            m0 < 0x10000,
            m1 < 0x10000,
            m2 < 0x10000,
            m3 < 0x10000,
    ;
}

pub proof fn lemma_xor_small(a: u64, b: u64)
    requires
        a < 0x10000,
        b < 0x10000,
    ensures
        a ^ b < 0x10000,
        a ^ (a ^ b) == b,
{
    assert(a ^ b < 0x10000 && a ^ (a ^ b) == b) by (bit_vector)
        requires
            a < 0x10000,
            b < 0x10000,
    ;
}

/// The cells of a transposed board, read by rows, are the cells of the board read by columns.
pub proof fn lemma_transpose_lines(b: u64, t: u64)
    requires
        t == transpose_bits(b),
    ensures
        forall|k: int| 0 <= k < 4 ==> #[trigger] board_row(t, k) == board_col(b, k),
        forall|k: int| 0 <= k < 4 ==> #[trigger] board_col(t, k) == board_row(b, k),
{
    assert forall|k: int| 0 <= k < 4 implies #[trigger] board_row(t, k) == board_col(b, k) by {
        assert forall|j: int| 0 <= j < 4 implies #[trigger] cell_at(t, k, j) == cell_at(b, j, k) by {
            lemma_transpose_bits_cells(b, k as u64, j as u64);
        }
        assert(board_row(t, k) =~= board_col(b, k));
    }
    assert forall|k: int| 0 <= k < 4 implies #[trigger] board_col(t, k) == board_row(b, k) by {
        assert forall|j: int| 0 <= j < 4 implies #[trigger] cell_at(t, j, k) == cell_at(b, k, j) by {
            lemma_transpose_bits_cells(b, j as u64, k as u64);
        }
        assert(board_col(t, k) =~= board_row(b, k));
    }
}

/// A board whose cells are those of `b` transposed is `transpose_bits(b)`.
pub proof fn lemma_transpose_unique(b: u64, t: u64)
    requires
        forall|r: int, c: int|
            0 <= r < 4 && 0 <= c < 4 ==> #[trigger] cell_at(t, r, c) == cell_at(b, c, r),
    ensures
        t == transpose_bits(b),
{
    let u = transpose_bits(b);
    assert forall|i: int| 0 <= i < 16 implies cell(t, i) == cell(u, i) by {
        let r = i / 4;
        let c = i % 4;
        assert(i == 4 * r + c);
        assert(cell_at(t, r, c) == cell_at(b, c, r));
        lemma_transpose_bits_cells(b, r as u64, c as u64);
    }
    lemma_cells_eq(t, u);
}

/// Reading a board nibble by nibble from the low end.
pub proof fn lemma_scan_step(orig: u64, k: u64)
    requires
        k < 16,
    ensures
        orig >> 0u64 == orig,
        (orig >> ((k * 4) as u64)) & 0xF == nibble(orig, k),
        (orig >> ((k * 4) as u64)) >> 4u64 == (if k < 15 {
            orig >> (((k + 1) * 4) as u64)
        } else {
            0
        }),
        (orig >> ((k * 4) as u64)) == 0 ==> forall|j: u64| k <= j < 16 ==> nibble(orig, j) == 0,
{
    assert(orig >> 0u64 == orig && (orig >> ((k * 4) as u64)) >> 4u64 == (if k < 15 {
        orig >> (((k + 1) * 4) as u64)
    } else {
        0
    })) by (bit_vector)
        requires
            k < 16,
    ;
    assert forall|j: u64| k <= j < 16 && (orig >> ((k * 4) as u64)) == 0 implies nibble(orig, j) == 0 by {
        assert(nibble(orig, j) == 0) by (bit_vector)
            requires
                k <= j < 16,
                (orig >> ((k * 4) as u64)) == 0,
        ;
    }
}

/// Two boards with the same four rows are the same board.
pub proof fn lemma_rows_eq(a: u64, b: u64)
    requires
        forall|r: int| 0 <= r < 4 ==> #[trigger] board_row(a, r) == board_row(b, r),
    ensures
        a == b,
{
    assert forall|i: int| 0 <= i < 16 implies cell(a, i) == cell(b, i) by {
        let r = i / 4;
        let c = i % 4;
        assert(board_row(a, r)[c] == board_row(b, r)[c]);
        assert(i == 4 * r + c);
    }
    lemma_cells_eq(a, b);
}

/// Two boards with the same four columns are the same board.
pub proof fn lemma_cols_eq(a: u64, b: u64)
    requires
        forall|c: int| 0 <= c < 4 ==> #[trigger] board_col(a, c) == board_col(b, c),
    ensures
        a == b,
{
    assert forall|i: int| 0 <= i < 16 implies cell(a, i) == cell(b, i) by {
        let r = i / 4;
        let c = i % 4;
        assert(board_col(a, c)[r] == board_col(b, c)[r]);
        assert(i == 4 * r + c);
    }
    lemma_cells_eq(a, b);
}

/// Every cell of the board 0 is empty.
pub proof fn lemma_nibble_zero(i: u64)
    ensures
        nibble(0, i) == 0,
{
    assert(nibble(0, i) == 0) by (bit_vector);
}

/// A line of four ranks written as a row of 16 bits reads back as the same line.
pub proof fn lemma_line_bits_cells(l: Seq<int>)
    requires
        l.len() == 4,
        forall|k: int| 0 <= k < 4 ==> 0 <= #[trigger] l[k] <= 15,
    ensures
        line_bits(l) < 0x10000,
        line_cells(line_bits(l)) == l,
{
    let a = l[0] as u64;
    let b = l[1] as u64;
    let c = l[2] as u64;
    let d = l[3] as u64;
    assert(l[0] == a && l[1] == b && l[2] == c && l[3] == d);
    let x = line_bits(l);
    assert(x == a | (b << 4u64) | (c << 8u64) | (d << 12u64));
    assert({
        &&& x < 0x10000
        &&& nibble(x, 0) == a
        &&& nibble(x, 1) == b
        &&& nibble(x, 2) == c
        &&& nibble(x, 3) == d
    }) by (bit_vector)
        requires
            a < 16,
            b < 16,
            c < 16,
            d < 16,
            x == a | (b << 4u64) | (c << 8u64) | (d << 12u64),
    ;
    assert(line_cells(x)[0] == cell(x, 0) && cell(x, 0) == nibble(x, 0) as int);
    assert(line_cells(x)[1] == cell(x, 1) && cell(x, 1) == nibble(x, 1) as int);
    assert(line_cells(x)[2] == cell(x, 2) && cell(x, 2) == nibble(x, 2) as int);
    assert(line_cells(x)[3] == cell(x, 3) && cell(x, 3) == nibble(x, 3) as int);
    assert(line_cells(x) =~= l);
}

/// `transpose_bits` transposes.
pub proof fn lemma_is_transpose_bits(x: u64)
    ensures
        forall|r: int, c: int|
            0 <= r < 4 && 0 <= c < 4 ==> #[trigger] cell_at(transpose_bits(x), r, c) == cell_at(
                x,
                c,
                r,
            ),
{
    assert forall|r: int, c: int| 0 <= r < 4 && 0 <= c < 4 implies #[trigger] cell_at(
        transpose_bits(x),
        r,
        c,
    ) == cell_at(x, c, r) by {
        lemma_transpose_bits_cells(x, r as u64, c as u64);
    }
}

/// Flipping `a` by `e` gives `b` exactly when `e` is `a ^ b`.
pub proof fn lemma_xor_solve(e: u64, a: u64, b: u64)
    ensures
        (e ^ a == b) == (e == a ^ b),
{
    assert((e ^ a == b) == (e == a ^ b)) by (bit_vector);
}

} // verus!
