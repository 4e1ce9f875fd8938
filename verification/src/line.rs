//! A line of four cells (a row or a column, read toward the edge the tiles move to)
//! and what one move does to it in the game of 2048: the tiles slide to the front,
//! then equal neighbours merge pairwise from the front, each tile at most once.

use vstd::arithmetic::power2::pow2;
use vstd::prelude::*;

verus! {

/// The tiles of a line in order, the empty cells (rank 0) left out.
pub open spec fn tiles(s: Seq<int>) -> Seq<int>
    decreases s.len(),
{
    if s.len() == 0 {
        Seq::empty()
    } else if s[0] == 0 {
        tiles(s.drop_first())
    } else {
        seq![s[0]] + tiles(s.drop_first())
    }
}

/// The rank of the tile that two tiles of rank `r` merge into. A cell holds at most
/// rank 15, so two tiles of rank 15 merge into one of rank 15.
pub open spec fn merged_rank(r: int) -> int {
    if r < 15 {
        r + 1
    } else {
        15
    }
}

/// Merges equal neighbours of a sequence of tiles pairwise, from the front.
pub open spec fn merge_pairs(t: Seq<int>) -> Seq<int>
    decreases t.len(),
{
    if t.len() < 2 {
        t
    } else if t[0] == t[1] {
        seq![merged_rank(t[0])] + merge_pairs(t.subrange(2, t.len() as int))
    } else {
        seq![t[0]] + merge_pairs(t.drop_first())
    }
}

/// The points that `merge_pairs` earns: each merge of two tiles of rank `r` is worth `2^(r + 1)`.
pub open spec fn merge_gain(t: Seq<int>) -> int
    decreases t.len(),
{
    if t.len() < 2 {
        0
    } else if t[0] == t[1] {
        pow2((t[0] + 1) as nat) + merge_gain(t.subrange(2, t.len() as int))
    } else {
        merge_gain(t.drop_first())
    }
}

/// `t` followed by empty cells up to length `n`.
pub open spec fn pad_zeros(t: Seq<int>, n: int) -> Seq<int> {
    t + Seq::new((n - t.len()) as nat, |k: int| 0int)
}

/// The line after a move toward its front.
pub open spec fn line_after_move(s: Seq<int>) -> Seq<int> {
    pad_zeros(merge_pairs(tiles(s)), s.len() as int)
}

/// The points earned by a move of the line toward its front.
pub open spec fn line_move_score(s: Seq<int>) -> int {
    merge_gain(tiles(s))
}

/// No tile stands behind an empty cell.
pub open spec fn compact(s: Seq<int>) -> bool {
    forall|j: int, k: int| 0 <= j <= k < s.len() && s[j] == 0 ==> s[k] == 0
}

pub proof fn lemma_tiles_cons(x: int, r: Seq<int>)
    ensures
        tiles(seq![x] + r) == (if x == 0 {
            tiles(r)
        } else {
            seq![x] + tiles(r)
        }),
{
    assert((seq![x] + r).drop_first() =~= r);
}

pub proof fn lemma_tiles_basic(s: Seq<int>)
    ensures
        tiles(s).len() <= s.len(),
        forall|k: int| 0 <= k < tiles(s).len() ==> tiles(s)[k] != 0,
        (forall|k: int| 0 <= k < s.len() ==> 0 <= #[trigger] s[k] <= 15) ==> (forall|k: int|
            0 <= k < tiles(s).len() ==> 1 <= #[trigger] tiles(s)[k] <= 15),
    decreases s.len(),
{
    if s.len() > 0 {
        lemma_tiles_basic(s.drop_first());
        let r = tiles(s.drop_first());
        if s[0] != 0 {
            assert forall|k: int| 0 <= k < tiles(s).len() implies tiles(s)[k] != 0 by {
                if k > 0 {
                    assert(tiles(s)[k] == r[k - 1]);
                }
            }
            if forall|k: int| 0 <= k < s.len() ==> 0 <= #[trigger] s[k] <= 15 {
                assert forall|k: int| 0 <= k < tiles(s).len() implies 1 <= #[trigger] tiles(
                    s,
                )[k] <= 15 by {
                    if k > 0 {
                        assert(tiles(s)[k] == r[k - 1]);
                        assert(s[k] == s.drop_first()[k - 1]);
                    }
                }
            }
        } else {
            if forall|k: int| 0 <= k < s.len() ==> 0 <= #[trigger] s[k] <= 15 {
                assert forall|k: int| 0 <= k < s.drop_first().len() implies 0 <= #[trigger] s.drop_first()[k] <= 15 by {
                    assert(s.drop_first()[k] == s[k + 1]);
                }
            }
        }
        if forall|k: int| 0 <= k < s.len() ==> 0 <= #[trigger] s[k] <= 15 {
            assert forall|k: int| 0 <= k < s.drop_first().len() implies 0 <= #[trigger] s.drop_first()[k] <= 15 by {
                assert(s.drop_first()[k] == s[k + 1]);
            }
        }
    }
}

pub proof fn lemma_tiles_concat(a: Seq<int>, b: Seq<int>)
    ensures
        tiles(a + b) == tiles(a) + tiles(b),
    decreases a.len(),
{
    if a.len() == 0 {
        assert(a + b =~= b);
        assert(tiles(a) + tiles(b) =~= tiles(b));
    } else {
        assert((a + b).drop_first() =~= a.drop_first() + b);
        lemma_tiles_concat(a.drop_first(), b);
        if a[0] != 0 {
            assert(tiles(a + b) =~= tiles(a) + tiles(b));
        }
    }
}

/// A line that holds no empty cell is its own sequence of tiles.
pub proof fn lemma_tiles_of_tiles(t: Seq<int>)
    requires
        forall|k: int| 0 <= k < t.len() ==> t[k] != 0,
    ensures
        tiles(t) == t,
    decreases t.len(),
{
    if t.len() > 0 {
        lemma_tiles_of_tiles(t.drop_first());
        assert(seq![t[0]] + t.drop_first() =~= t);
    }
}

/// A line of empty cells holds no tile.
pub proof fn lemma_tiles_of_empty(z: Seq<int>)
    requires
        forall|k: int| 0 <= k < z.len() ==> z[k] == 0,
    ensures
        tiles(z) == Seq::<int>::empty(),
    decreases z.len(),
{
    if z.len() > 0 {
        lemma_tiles_of_empty(z.drop_first());
    }
}

/// A compact line is its tiles followed by empty cells.
pub proof fn lemma_compact_is_padded(s: Seq<int>)
    requires
        compact(s),
    ensures
        s == pad_zeros(tiles(s), s.len() as int),
    decreases s.len(),
{
    if s.len() > 0 {
        if s[0] == 0 {
            lemma_tiles_of_empty(s);
            assert(s =~= pad_zeros(tiles(s), s.len() as int));
        } else {
            let r = s.drop_first();
            assert(compact(r));
            lemma_compact_is_padded(r);
            lemma_tiles_basic(r);
            assert(s =~= seq![s[0]] + r);
            lemma_tiles_cons(s[0], r);
            assert(s =~= pad_zeros(tiles(s), s.len() as int));
        }
    }
}

/// Tiles followed by empty cells make a compact line with the same tiles.
pub proof fn lemma_padded_is_compact(t: Seq<int>, n: int)
    requires
        forall|k: int| 0 <= k < t.len() ==> t[k] != 0,
        t.len() <= n,
    ensures
        compact(pad_zeros(t, n)),
        tiles(pad_zeros(t, n)) == t,
        pad_zeros(t, n).len() == n,
{
    let z = Seq::new((n - t.len()) as nat, |k: int| 0int);
    lemma_tiles_concat(t, z);
    lemma_tiles_of_tiles(t);
    lemma_tiles_of_empty(z);
    assert(t + Seq::<int>::empty() =~= t);
}

pub proof fn lemma_merge_pairs_len(t: Seq<int>)
    ensures
        merge_pairs(t).len() <= t.len(),
    decreases t.len(),
{
    if t.len() >= 2 {
        if t[0] == t[1] {
            lemma_merge_pairs_len(t.subrange(2, t.len() as int));
        } else {
            lemma_merge_pairs_len(t.drop_first());
        }
    }
}

} // verus!

verus! {

/// Merging leaves a tile alone when the next tile differs from it.
pub proof fn lemma_merge_pairs_single(a: int, r: Seq<int>)
    requires
        r.len() == 0 || r[0] != a,
    ensures
        merge_pairs(seq![a] + r) == seq![a] + merge_pairs(r),
        merge_gain(seq![a] + r) == merge_gain(r),
{
    let t = seq![a] + r;
    assert(t.drop_first() =~= r);
    if r.len() == 0 {
        assert(t =~= seq![a]);
        assert(seq![a] + r =~= seq![a]);
    }
}

/// Two equal tiles in front merge into one.
pub proof fn lemma_merge_pairs_double(a: int, r: Seq<int>)
    ensures
        merge_pairs(seq![a, a] + r) == seq![merged_rank(a)] + merge_pairs(r),
        merge_gain(seq![a, a] + r) == pow2((a + 1) as nat) + merge_gain(r),
{
    let t = seq![a, a] + r;
    assert(t.subrange(2, t.len() as int) =~= r);
}

/// The one step of the merge pass at position `i` of a line of four: a tile there merges
/// with an equal tile right behind it.
pub proof fn lemma_merge_step(s: Seq<int>, s2: Seq<int>, i: int, merged: bool)
    requires
        s.len() == 4,
        0 <= i < 3,
        forall|k: int| 0 <= k < 4 ==> 0 <= #[trigger] s[k] <= 15,
        compact(s.skip(i)) || (s[i] == 0 && compact(s.skip(i + 1))),
        merged == (s[i] != 0 && s[i] == s[i + 1]),
        merged ==> s2 == s.update(i, merged_rank(s[i])).update(i + 1, 0),
        !merged ==> s2 == s,
    ensures
        tiles(s2.take(i + 1)) + merge_pairs(tiles(s2.skip(i + 1))) == tiles(s.take(i))
            + merge_pairs(tiles(s.skip(i))),
        merge_gain(tiles(s.skip(i))) == (if merged {
            pow2((s[i] + 1) as nat) as int
        } else {
            0int
        }) + merge_gain(tiles(s2.skip(i + 1))),
        compact(s2.skip(i + 1)) || (s2[i + 1] == 0 && compact(s2.skip(i + 2))),
{
    let a = s[i];
    let x = s.take(i);
    let r1 = s.skip(i + 1);
    assert(s.skip(i) =~= seq![a] + r1);
    assert(s.take(i + 1) =~= x + seq![a]);
    lemma_tiles_cons(a, r1);
    lemma_tiles_concat(x, seq![a]);
    lemma_tiles_cons(a, Seq::empty());
    assert(seq![a] + Seq::<int>::empty() =~= seq![a]);
    if merged {
        let r2 = s.skip(i + 2);
        assert(r1 =~= seq![a] + r2);
        lemma_tiles_cons(a, r2);
        assert(tiles(s.skip(i)) =~= seq![a, a] + tiles(r2));
        lemma_merge_pairs_double(a, tiles(r2));
        let m = merged_rank(a);
        assert(s2.take(i + 1) =~= x + seq![m]);
        assert(s2.skip(i + 1) =~= seq![0int] + r2);
        lemma_tiles_cons(0, r2);
        lemma_tiles_concat(x, seq![m]);
        lemma_tiles_cons(m, Seq::empty());
        assert(seq![m] + Seq::<int>::empty() =~= seq![m]);
        assert(tiles(x) + seq![m] + merge_pairs(tiles(r2)) =~= tiles(x) + (seq![m] + merge_pairs(
            tiles(r2),
        )));
        assert(s2.skip(i + 2) =~= r2);
        assert(compact(r2)) by {
            assert forall|j: int, k: int|
                0 <= j <= k < r2.len() && r2[j] == 0 implies r2[k] == 0 by {
                assert(r2[j] == s.skip(i)[j + 2]);
                assert(r2[k] == s.skip(i)[k + 2]);
            }
        }
    } else {
        assert(compact(r1)) by {
            assert forall|j: int, k: int|
                0 <= j <= k < r1.len() && r1[j] == 0 implies r1[k] == 0 by {
                if compact(s.skip(i)) {
                    assert(r1[j] == s.skip(i)[j + 1]);
                    assert(r1[k] == s.skip(i)[k + 1]);
                }
            }
        }
        if a == 0 {
            assert(tiles(seq![a]) =~= Seq::<int>::empty());
            assert(tiles(x) + Seq::<int>::empty() =~= tiles(x));
        } else {
            assert(compact(s.skip(i)));
            if r1[0] == 0 {
                assert forall|k: int| 0 <= k < r1.len() implies r1[k] == 0 by {
                    assert(r1[k] == s.skip(i)[k + 1]);
                    assert(r1[0] == s.skip(i)[1]);
                }
                lemma_tiles_of_empty(r1);
            } else {
                lemma_tiles_cons(r1[0], r1.drop_first());
                assert(r1 =~= seq![r1[0]] + r1.drop_first());
            }
            lemma_merge_pairs_single(a, tiles(r1));
            assert(tiles(x) + seq![a] + merge_pairs(tiles(r1)) =~= tiles(x) + (seq![a] + merge_pairs(
                tiles(r1),
            )));
        }
    }
}

/// Once the merge pass is done, the tiles of the line are the merged tiles.
pub proof fn lemma_merge_done(s: Seq<int>, m: Seq<int>)
    requires
        s.len() == 4,
        tiles(s.take(3)) + merge_pairs(tiles(s.skip(3))) == m,
    ensures
        tiles(s) == m,
        merge_gain(tiles(s.skip(3))) == 0,
{
    lemma_tiles_basic(s.skip(3));
    lemma_tiles_concat(s.take(3), s.skip(3));
    assert(s.take(3) + s.skip(3) =~= s);
}

/// One merge of two tiles of rank `r` earns a multiple of 4 between 4 and `0x10000`.
pub proof fn lemma_merge_points(r: int)
    requires
        1 <= r <= 15,
    ensures
        pow2((r + 1) as nat) % 4 == 0,
        4 <= pow2((r + 1) as nat) <= 0x10000,
{
    let e = (r + 1) as nat;
    vstd::arithmetic::power2::lemma_pow2_unfold(e);
    vstd::arithmetic::power2::lemma_pow2_unfold((e - 1) as nat);
    vstd::arithmetic::power2::lemma2_to64();
    if e < 16 {
        vstd::arithmetic::power2::lemma_pow2_strictly_increases(e, 16);
    }
    if e > 2 {
        vstd::arithmetic::power2::lemma_pow2_strictly_increases(2, e);
    }
}

/// The points of merging tiles of ranks `1 ..= 15`: a multiple of 4, at most `0x10000` for
/// each pair of tiles.
pub proof fn lemma_gain_bounds(t: Seq<int>)
    requires
        forall|k: int| 0 <= k < t.len() ==> 1 <= #[trigger] t[k] <= 15,
    ensures
        0 <= merge_gain(t),
        2 * merge_gain(t) <= t.len() * 0x10000,
        merge_gain(t) % 4 == 0,
    decreases t.len(),
{
    if t.len() >= 2 {
        if t[0] == t[1] {
            let rest = t.subrange(2, t.len() as int);
            assert forall|k: int| 0 <= k < rest.len() implies 1 <= #[trigger] rest[k] <= 15 by {
                assert(rest[k] == t[k + 2]);
            }
            lemma_gain_bounds(rest);
            lemma_merge_points(t[0]);
        } else {
            let rest = t.drop_first();
            assert forall|k: int| 0 <= k < rest.len() implies 1 <= #[trigger] rest[k] <= 15 by {
                assert(rest[k] == t[k + 1]);
            }
            lemma_gain_bounds(rest);
        }
    }
}

/// Merging tiles of ranks `1 ..= 15` gives tiles of ranks `1 ..= 15`.
pub proof fn lemma_merge_pairs_ranks(t: Seq<int>)
    requires
        forall|k: int| 0 <= k < t.len() ==> 1 <= #[trigger] t[k] <= 15,
    ensures
        forall|k: int| 0 <= k < merge_pairs(t).len() ==> 1 <= #[trigger] merge_pairs(t)[k] <= 15,
    decreases t.len(),
{
    if t.len() >= 2 {
        if t[0] == t[1] {
            let rest = t.subrange(2, t.len() as int);
            assert forall|k: int| 0 <= k < rest.len() implies 1 <= #[trigger] rest[k] <= 15 by {
                assert(rest[k] == t[k + 2]);
            }
            lemma_merge_pairs_ranks(rest);
            assert forall|k: int| 0 <= k < merge_pairs(t).len() implies 1 <= #[trigger] merge_pairs(
                t,
            )[k] <= 15 by {
                if k > 0 {
                    assert(merge_pairs(t)[k] == merge_pairs(rest)[k - 1]);
                }
            }
        } else {
            let rest = t.drop_first();
            assert forall|k: int| 0 <= k < rest.len() implies 1 <= #[trigger] rest[k] <= 15 by {
                assert(rest[k] == t[k + 1]);
            }
            lemma_merge_pairs_ranks(rest);
            assert forall|k: int| 0 <= k < merge_pairs(t).len() implies 1 <= #[trigger] merge_pairs(
                t,
            )[k] <= 15 by {
                if k > 0 {
                    assert(merge_pairs(t)[k] == merge_pairs(rest)[k - 1]);
                }
            }
        }
    }
}

/// The line after a move holds ranks when the line does.
pub proof fn lemma_moved_line_ranks(s: Seq<int>)
    requires
        s.len() == 4,
        forall|k: int| 0 <= k < 4 ==> 0 <= #[trigger] s[k] <= 15,
    ensures
        line_after_move(s).len() == 4,
        forall|k: int| 0 <= k < 4 ==> 0 <= #[trigger] line_after_move(s)[k] <= 15,
{
    lemma_tiles_basic(s);
    let t = tiles(s);
    lemma_merge_pairs_ranks(t);
    lemma_merge_pairs_len(t);
}

} // verus!
