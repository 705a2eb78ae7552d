//! One line of four cells: what sliding it toward its leading end yields
//! and scores, stated over mathematical integers.

use vstd::prelude::*;
use crate::grid::slid;

verus! {

/// The non-empty cells of a line, in order.
pub open spec fn compact(s: Seq<int>) -> Seq<int>
    decreases s.len(),
{
    if s.len() == 0 {
        s
    } else if s[0] == 0 {
        compact(s.drop_first())
    } else {
        seq![s[0]] + compact(s.drop_first())
    }
}

/// Merges equal neighbours pairwise from the leading end: each pair becomes
/// one tile of twice the value, and a merged tile does not merge again.
pub open spec fn merged(s: Seq<int>) -> Seq<int>
    decreases s.len(),
{
    if s.len() < 2 {
        s
    } else if s[0] == s[1] {
        seq![2 * s[0]] + merged(s.subrange(2, s.len() as int))
    } else {
        seq![s[0]] + merged(s.drop_first())
    }
}

/// Sum of the new values of the pairs that `merged` combines.
pub open spec fn merge_gain(s: Seq<int>) -> int
    decreases s.len(),
{
    if s.len() < 2 {
        0
    } else if s[0] == s[1] {
        2 * s[0] + merge_gain(s.subrange(2, s.len() as int))
    } else {
        merge_gain(s.drop_first())
    }
}

/// A line of four cells after sliding toward its leading end (index 0).
pub open spec fn slide(l: Seq<int>) -> Seq<int> {
    let m = merged(compact(l));
    Seq::new(4, |k: int| if k < m.len() { m[k] } else { 0 })
}

/// Score gained by sliding a line.
pub open spec fn line_gain(l: Seq<int>) -> int {
    merge_gain(compact(l))
}

/// A tile value: a power of two, at least 2.
pub open spec fn is_tile(v: int) -> bool
    decreases v,
{
    if v <= 2 {
        v == 2
    } else {
        v % 2 == 0 && is_tile(v / 2)
    }
}

/// Every cell of `s` is empty or holds a tile value.
pub open spec fn all_tiles_or_empty(s: Seq<int>) -> bool {
    forall|k: int| 0 <= k < s.len() ==> s[k] == 0 || is_tile(#[trigger] s[k])
}

/// Sum of a sequence.
pub open spec fn total(s: Seq<int>) -> int
    decreases s.len(),
{
    if s.len() == 0 {
        0
    } else {
        s[0] + total(s.drop_first())
    }
}

proof fn lemma_compact_append(x: Seq<int>, y: Seq<int>)
    ensures
        compact(x + y) == compact(x) + compact(y),
    decreases x.len(),
{
    if x.len() == 0 {
        assert(x + y =~= y);
    } else {
        assert((x + y).drop_first() =~= x.drop_first() + y);
        lemma_compact_append(x.drop_first(), y);
        assert(compact(x + y) =~= compact(x) + compact(y));
    }
}

proof fn lemma_compact_zeros(s: Seq<int>)
    requires
        forall|k: int| 0 <= k < s.len() ==> s[k] == 0,
    ensures
        compact(s) == Seq::<int>::empty(),
    decreases s.len(),
{
    if s.len() > 0 {
        lemma_compact_zeros(s.drop_first());
    }
}

/// Splits the compacted tail `c[a..4]` of a line around a run of empty cells.
pub(crate) proof fn lemma_compact_gap(c: Seq<int>, a: int, b: int)
    requires
        c.len() == 4,
        0 <= a < b <= 4,
        forall|k: int| a < k < b ==> c[k] == 0,
    ensures
        compact(c.subrange(a, 4)) == compact(seq![c[a]]) + compact(c.subrange(b, 4)),
{
    let gap = c.subrange(a + 1, b);
    assert(c.subrange(a, 4) =~= seq![c[a]] + gap + c.subrange(b, 4));
    lemma_compact_zeros(gap);
    lemma_compact_append(seq![c[a]] + gap, c.subrange(b, 4));
    lemma_compact_append(seq![c[a]], gap);
    assert(compact(seq![c[a]]) + compact(gap) =~= compact(seq![c[a]]));
}

pub(crate) proof fn lemma_compact_single(v: int)
    ensures
        v == 0 ==> compact(seq![v]) == Seq::<int>::empty(),
        v != 0 ==> compact(seq![v]) == seq![v],
{
    reveal_with_fuel(compact, 2);
    assert(seq![v].drop_first() =~= Seq::<int>::empty());
}

/// Compacting a non-empty head keeps it in front.
pub(crate) proof fn lemma_compact_cons(v: int, s: Seq<int>)
    requires
        v != 0,
    ensures
        compact(seq![v] + s) == seq![v] + compact(s),
{
    lemma_compact_append(seq![v], s);
    lemma_compact_single(v);
}

pub(crate) proof fn lemma_merged_cons2(u: int, v: int, s: Seq<int>)
    ensures
        u == v ==> merged(seq![u, v] + s) == seq![2 * u] + merged(s),
        u == v ==> merge_gain(seq![u, v] + s) == 2 * u + merge_gain(s),
        u != v ==> merged(seq![u, v] + s) == seq![u] + merged(seq![v] + s),
        u != v ==> merge_gain(seq![u, v] + s) == merge_gain(seq![v] + s),
{
    let t = seq![u, v] + s;
    assert(t.subrange(2, t.len() as int) =~= s);
    assert(t.drop_first() =~= seq![v] + s);
}

/// The first merged tile is the first tile, possibly doubled.
pub(crate) proof fn lemma_merged_head(s: Seq<int>)
    requires
        s.len() > 0,
    ensures
        merged(s).len() > 0,
        merged(s)[0] == s[0] || merged(s)[0] == 2 * s[0],
{
}

proof fn lemma_merged_len(s: Seq<int>)
    ensures
        merged(s).len() <= s.len(),
    decreases s.len(),
{
    if s.len() >= 2 {
        lemma_merged_len(s.subrange(2, s.len() as int));
        lemma_merged_len(s.drop_first());
    }
}

proof fn lemma_compact_nonneg(s: Seq<int>)
    requires
        forall|k: int| 0 <= k < s.len() ==> s[k] >= 0,
    ensures
        forall|k: int| 0 <= k < compact(s).len() ==> compact(s)[k] >= 0,
    decreases s.len(),
{
    if s.len() > 0 {
        lemma_compact_nonneg(s.drop_first());
        let t = compact(s.drop_first());
        assert forall|k: int| 0 <= k < compact(s).len() implies compact(s)[k] >= 0 by {
            if s[0] != 0 && k > 0 {
                assert(compact(s)[k] == t[k - 1]);
            }
        }
    }
}

proof fn lemma_merge_gain_nonneg(s: Seq<int>)
    requires
        forall|k: int| 0 <= k < s.len() ==> s[k] >= 0,
    ensures
        merge_gain(s) >= 0,
    decreases s.len(),
{
    if s.len() >= 2 {
        lemma_merge_gain_nonneg(s.subrange(2, s.len() as int));
        lemma_merge_gain_nonneg(s.drop_first());
    }
}

/// No merge gain is negative on a line of non-negative cells.
pub(crate) proof fn lemma_line_gain_nonneg(s: Seq<int>)
    requires
        forall|k: int| 0 <= k < s.len() ==> s[k] >= 0,
    ensures
        merge_gain(compact(s)) >= 0,
{
    lemma_compact_nonneg(s);
    lemma_merge_gain_nonneg(compact(s));
}

proof fn lemma_total_compact(s: Seq<int>)
    ensures
        total(compact(s)) == total(s),
    decreases s.len(),
{
    if s.len() > 0 {
        lemma_total_compact(s.drop_first());
        if s[0] != 0 {
            assert((seq![s[0]] + compact(s.drop_first())).drop_first() =~= compact(s.drop_first()));
        }
    }
}

proof fn lemma_merge_gain_le_total(s: Seq<int>)
    requires
        forall|k: int| 0 <= k < s.len() ==> s[k] >= 0,
    ensures
        merge_gain(s) <= total(s),
    decreases s.len(),
{
    if s.len() >= 2 {
        assert(s.drop_first().drop_first() =~= s.subrange(2, s.len() as int));
        lemma_merge_gain_le_total(s.subrange(2, s.len() as int));
        lemma_merge_gain_le_total(s.drop_first());
        lemma_total_nonneg(s.subrange(2, s.len() as int));
        let t = s.drop_first();
        assert(t[0] == s[1]);
        assert(total(s) == s[0] + total(t));
        assert(total(t) == t[0] + total(t.drop_first()));
        if s[0] == s[1] {
            assert(merge_gain(s) == 2 * s[0] + merge_gain(s.subrange(2, s.len() as int)));
        } else {
            assert(merge_gain(s) == merge_gain(t));
        }
    } else if s.len() == 1 {
        assert(s.drop_first() =~= Seq::<int>::empty());
        assert(total(s) == s[0] + total(s.drop_first()));
        assert(total(s) == s[0]);
    }
}

proof fn lemma_total_nonneg(s: Seq<int>)
    requires
        forall|k: int| 0 <= k < s.len() ==> s[k] >= 0,
    ensures
        total(s) >= 0,
    decreases s.len(),
{
    if s.len() > 0 {
        lemma_total_nonneg(s.drop_first());
    }
}

/// A line's gain is at most the sum of its cells.
pub(crate) proof fn lemma_line_gain_le_total(l: Seq<int>)
    requires
        forall|k: int| 0 <= k < l.len() ==> l[k] >= 0,
    ensures
        0 <= line_gain(l) <= total(l),
{
    lemma_line_gain_nonneg(l);
    lemma_compact_nonneg(l);
    lemma_merge_gain_le_total(compact(l));
    lemma_total_compact(l);
}

pub(crate) proof fn lemma_total4(l: Seq<int>)
    requires
        l.len() == 4,
    ensures
        total(l) == l[0] + l[1] + l[2] + l[3],
{
    reveal_with_fuel(total, 5);
    assert(l.drop_first().drop_first().drop_first().drop_first() =~= Seq::<int>::empty());
}

pub(crate) proof fn lemma_total_split(s: Seq<int>, n: int)
    requires
        0 <= n <= s.len(),
    ensures
        total(s.subrange(0, n)) + total(s.subrange(n, s.len() as int)) == total(s),
    decreases n,
{
    if n == 0 {
        assert(s.subrange(0, 0) =~= Seq::<int>::empty());
        assert(s.subrange(0, s.len() as int) =~= s);
    } else {
        lemma_total_split(s.drop_first(), n - 1);
        assert(s.subrange(0, n).drop_first() =~= s.drop_first().subrange(0, n - 1));
        assert(s.drop_first().subrange(n - 1, s.len() - 1) =~= s.subrange(n, s.len() as int));
    }
}

proof fn lemma_compact_len(s: Seq<int>)
    ensures
        compact(s).len() <= s.len(),
        compact(s).len() == s.len() ==> compact(s) == s,
    decreases s.len(),
{
    if s.len() > 0 {
        lemma_compact_len(s.drop_first());
        if s[0] != 0 && compact(s).len() == s.len() {
            assert(compact(s) =~= s);
        }
    }
}

/// A merge pass that shortens nothing changes nothing and gains nothing.
pub(crate) proof fn lemma_merged_full(s: Seq<int>)
    requires
        merged(s).len() == s.len(),
    ensures
        merged(s) == s,
        merge_gain(s) == 0,
    decreases s.len(),
{
    if s.len() >= 2 {
        lemma_merged_len(s.subrange(2, s.len() as int));
        if s[0] != s[1] {
            lemma_merged_full(s.drop_first());
            assert(merged(s) =~= s);
        }
    }
}

/// A line that changes when slid ends with an empty cell.
pub(crate) proof fn lemma_slide_leaves_room(l: Seq<int>)
    requires
        l.len() == 4,
        slide(l) != l,
    ensures
        slide(l)[3] == 0,
{
    let c = compact(l);
    lemma_compact_len(l);
    lemma_merged_len(c);
    if merged(c).len() >= 4 {
        lemma_merged_full(c);
        assert(slide(l) =~= l);
    }
}

proof fn lemma_compact_nonzero(s: Seq<int>)
    ensures
        forall|k: int| 0 <= k < compact(s).len() ==> compact(s)[k] != 0,
    decreases s.len(),
{
    if s.len() > 0 {
        lemma_compact_nonzero(s.drop_first());
        let t = compact(s.drop_first());
        assert forall|k: int| 0 <= k < compact(s).len() implies compact(s)[k] != 0 by {
            if s[0] != 0 && k > 0 {
                assert(compact(s)[k] == t[k - 1]);
            }
        }
    }
}

proof fn lemma_merged_nonzero(s: Seq<int>)
    requires
        forall|k: int| 0 <= k < s.len() ==> s[k] != 0,
    ensures
        forall|k: int| 0 <= k < merged(s).len() ==> merged(s)[k] != 0,
    decreases s.len(),
{
    if s.len() >= 2 {
        let t = if s[0] == s[1] { s.subrange(2, s.len() as int) } else { s.drop_first() };
        lemma_merged_nonzero(t);
        assert forall|k: int| 0 <= k < merged(s).len() implies merged(s)[k] != 0 by {
            if k > 0 {
                assert(merged(s)[k] == merged(t)[k - 1]);
            }
        }
    }
}

proof fn lemma_compact_of_nonzero(s: Seq<int>)
    requires
        forall|k: int| 0 <= k < s.len() ==> s[k] != 0,
    ensures
        compact(s) == s,
    decreases s.len(),
{
    if s.len() > 0 {
        lemma_compact_of_nonzero(s.drop_first());
        assert(compact(s) =~= s);
    }
}

/// A line that sliding leaves as it is gains no score.
pub(crate) proof fn lemma_still_line_no_gain(l: Seq<int>)
    requires
        l.len() == 4,
        slide(l) == l,
    ensures
        line_gain(l) == 0,
{
    let c = compact(l);
    let m = merged(c);
    lemma_compact_nonzero(l);
    lemma_merged_nonzero(c);
    lemma_merged_len(c);
    lemma_compact_len(l);
    let zeros = Seq::new((4 - m.len()) as nat, |k: int| 0int);
    assert(slide(l) =~= m + zeros);
    lemma_compact_append(m, zeros);
    lemma_compact_zeros(zeros);
    lemma_compact_of_nonzero(m);
    assert(m + Seq::<int>::empty() =~= m);
    lemma_merged_full(c);
}

proof fn lemma_double_tile(v: int)
    requires
        is_tile(v),
    ensures
        is_tile(2 * v),
{
    assert((2 * v) / 2 == v);
}

proof fn lemma_compact_tiles(s: Seq<int>)
    requires
        all_tiles_or_empty(s),
    ensures
        forall|k: int| 0 <= k < compact(s).len() ==> is_tile(#[trigger] compact(s)[k]),
    decreases s.len(),
{
    if s.len() > 0 {
        lemma_compact_tiles(s.drop_first());
        let t = compact(s.drop_first());
        assert(s[0] == 0 || is_tile(s[0]));
        assert forall|k: int| 0 <= k < compact(s).len() implies is_tile(#[trigger] compact(s)[k]) by {
            if s[0] != 0 && k > 0 {
                assert(compact(s)[k] == t[k - 1]);
            }
        }
    }
}

proof fn lemma_merged_tiles(s: Seq<int>)
    requires
        forall|k: int| 0 <= k < s.len() ==> is_tile(#[trigger] s[k]),
    ensures
        forall|k: int| 0 <= k < merged(s).len() ==> is_tile(#[trigger] merged(s)[k]),
    decreases s.len(),
{
    if s.len() >= 2 {
        let t = if s[0] == s[1] {
            s.subrange(2, s.len() as int)
        } else {
            s.drop_first()
        };
        assert forall|k: int| 0 <= k < t.len() implies is_tile(#[trigger] t[k]) by {
            if s[0] == s[1] {
                assert(t[k] == s[k + 2]);
            } else {
                assert(t[k] == s[k + 1]);
            }
        }
        lemma_merged_tiles(t);
        assert(is_tile(s[0]));
        lemma_double_tile(s[0]);
        assert forall|k: int| 0 <= k < merged(s).len() implies is_tile(#[trigger] merged(s)[k]) by {
            if k > 0 {
                assert(merged(s)[k] == merged(t)[k - 1]);
            }
        }
    }
}

/// Sliding keeps every cell empty or a tile value.
pub(crate) proof fn lemma_slide_tiles(l: Seq<int>)
    requires
        l.len() == 4,
        all_tiles_or_empty(l),
    ensures
        all_tiles_or_empty(slide(l)),
{
    lemma_compact_tiles(l);
    lemma_merged_tiles(compact(l));
}

/// A sequence of cells between 0 and 4 sums to at most four per cell.
pub(crate) proof fn lemma_total_small(s: Seq<int>)
    requires
        forall|k: int| 0 <= k < s.len() ==> 0 <= #[trigger] s[k] <= 4,
    ensures
        total(s) <= 4 * s.len(),
    decreases s.len(),
{
    if s.len() > 0 {
        lemma_total_small(s.drop_first());
    }
}

} // verus!
