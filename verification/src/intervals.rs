//! Half-open byte intervals `[start, end)`: merging new intervals into a list
//! and asking whether a span is fully covered.

use vstd::prelude::*;

verus! {

/// `x` lies in the half-open interval `r`.
pub open spec fn in_span(r: (u64, u64), x: int) -> bool {
    r.0 <= x && x < r.1
}

/// Some interval of `s` holds `x`.
pub open spec fn covers_point(s: Seq<(u64, u64)>, x: int) -> bool {
    exists|i: int| 0 <= i < s.len() && #[trigger] in_span(s[i], x)
}

/// Every point of `[start, end)` is held by some interval of `s`.
pub open spec fn covers_span(s: Seq<(u64, u64)>, start: int, end: int) -> bool {
    forall|x: int| start <= x < end ==> #[trigger] covers_point(s, x)
}

/// The intervals appear in order of their start.
pub open spec fn starts_sorted(s: Seq<(u64, u64)>) -> bool {
    forall|i: int, j: int| 0 <= i <= j < s.len() ==> #[trigger] s[i].0 <= #[trigger] s[j].0
}

/// No interval is empty.
pub open spec fn all_nonempty(s: Seq<(u64, u64)>) -> bool {
    forall|i: int| 0 <= i < s.len() ==> #[trigger] s[i].0 < s[i].1
}

/// The canonical form: non-empty intervals in order, each separated from the
/// next by a gap of at least one point.
pub open spec fn normalized(s: Seq<(u64, u64)>) -> bool {
    &&& all_nonempty(s)
    &&& forall|i: int, j: int| 0 <= i < j < s.len() ==> #[trigger] s[i].1 < #[trigger] s[j].0
}

/// Each interval ends before the next one starts (empty or inverted
/// intervals allowed).
pub open spec fn separated(s: Seq<(u64, u64)>) -> bool {
    forall|i: int, j: int| 0 <= i < j < s.len() ==> #[trigger] s[i].1 < #[trigger] s[j].0
}

/// The larger of the last interval's two ends; 0 for an empty list.
pub open spec fn last_bound(s: Seq<(u64, u64)>) -> int {
    if s.len() == 0 {
        0
    } else if s.last().0 <= s.last().1 {
        s.last().1 as int
    } else {
        s.last().0 as int
    }
}

/// The bytes held by a list sorted by start whose intervals are separated
/// never exceed the larger end of its last interval, so they fit in a `u64`.
pub proof fn lemma_separated_total_len_bounded(s: Seq<(u64, u64)>)
    requires
        starts_sorted(s),
        separated(s),
    ensures
        0 <= total_len(s) <= last_bound(s),
        total_len(s) <= u64::MAX,
    decreases s.len(),
{
    if s.len() > 0 {
        let t = s.drop_last();
        assert(starts_sorted(t)) by {
            assert forall|i: int, j: int| 0 <= i <= j < t.len() implies #[trigger] t[i].0 <= #[trigger] t[j].0 by {
                assert(s[i].0 <= s[j].0);
            }
        }
        assert(separated(t)) by {
            assert forall|i: int, j: int| 0 <= i < j < t.len() implies #[trigger] t[i].1 < #[trigger] t[j].0 by {
                assert(s[i].1 < s[j].0);
            }
        }
        lemma_separated_total_len_bounded(t);
        if t.len() > 0 {
            assert(t.last() == s[s.len() - 2]);
            assert(s[s.len() - 2].1 < s[s.len() - 1].0);
            assert(s[s.len() - 2].0 <= s[s.len() - 1].0);
        }
    }
}

/// Sum of the lengths of the intervals (an empty or inverted interval counts 0).
pub open spec fn total_len(s: Seq<(u64, u64)>) -> int
    decreases s.len(),
{
    if s.len() == 0 {
        0
    } else {
        total_len(s.drop_last()) + if s.last().0 < s.last().1 {
            s.last().1 - s.last().0
        } else {
            0
        }
    }
}

pub proof fn lemma_normalized_sorted(s: Seq<(u64, u64)>)
    requires
        normalized(s),
    ensures
        starts_sorted(s),
{
    assert forall|i: int, j: int| 0 <= i <= j < s.len() implies #[trigger] s[i].0 <= #[trigger] s[j].0 by {
        if i < j {
            assert(s[i].0 < s[i].1);
        }
    }
}

proof fn lemma_first_interval(a: Seq<(u64, u64)>)
    requires
        normalized(a),
        a.len() > 0,
    ensures
        covers_point(a, a[0].0 as int),
        forall|x: int| x < a[0].0 ==> !#[trigger] covers_point(a, x),
        !covers_point(a, a[0].1 as int),
        forall|x: int| a[0].0 <= x < a[0].1 ==> #[trigger] covers_point(a, x),
        forall|x: int|
            x >= a[0].1 ==> (#[trigger] covers_point(a, x) == covers_point(a.drop_first(), x)),
        forall|x: int| x < a[0].1 ==> !#[trigger] covers_point(a.drop_first(), x),
{
    lemma_normalized_sorted(a);
    assert(in_span(a[0], a[0].0 as int));
    assert forall|x: int| x < a[0].0 implies !#[trigger] covers_point(a, x) by {
        if covers_point(a, x) {
            let i = choose|i: int| 0 <= i < a.len() && #[trigger] in_span(a[i], x);
            assert(a[0].0 <= a[i].0);
        }
    }
    assert(!covers_point(a, a[0].1 as int)) by {
        if covers_point(a, a[0].1 as int) {
            let i = choose|i: int| 0 <= i < a.len() && #[trigger] in_span(a[i], a[0].1 as int);
            if i > 0 {
                assert(a[0].1 < a[i].0);
            }
        }
    }
    assert forall|x: int| a[0].0 <= x < a[0].1 implies #[trigger] covers_point(a, x) by {
        assert(in_span(a[0], x));
    }
    let t = a.drop_first();
    assert forall|x: int| x >= a[0].1 implies (#[trigger] covers_point(a, x) == covers_point(t, x)) by {
        if covers_point(a, x) {
            let i = choose|i: int| 0 <= i < a.len() && #[trigger] in_span(a[i], x);
            assert(i != 0);
            assert(in_span(t[i - 1], x));
        }
        if covers_point(t, x) {
            let i = choose|i: int| 0 <= i < t.len() && #[trigger] in_span(t[i], x);
            assert(in_span(a[i + 1], x));
        }
    }
    assert forall|x: int| x < a[0].1 implies !#[trigger] covers_point(t, x) by {
        if covers_point(t, x) {
            let i = choose|i: int| 0 <= i < t.len() && #[trigger] in_span(t[i], x);
            assert(a[0].1 < a[i + 1].0);
        }
    }
}

/// Law: the canonical form is unique.  Two normalized interval lists that
/// hold the same points are the same list, so merging always yields the one
/// canonical description of the covered bytes.
pub proof fn lemma_normalized_unique(a: Seq<(u64, u64)>, b: Seq<(u64, u64)>)
    requires
        normalized(a),
        normalized(b),
        forall|x: int| #[trigger] covers_point(a, x) == covers_point(b, x),
    ensures
        a == b,
    decreases a.len() + b.len(),
{
    if a.len() == 0 || b.len() == 0 {
        if a.len() > 0 {
            assert(in_span(a[0], a[0].0 as int));
            assert(covers_point(a, a[0].0 as int));
            assert(!covers_point(b, a[0].0 as int));
        }
        if b.len() > 0 {
            assert(in_span(b[0], b[0].0 as int));
            assert(covers_point(b, b[0].0 as int));
            assert(covers_point(a, b[0].0 as int) == covers_point(b, b[0].0 as int));
            assert(!covers_point(a, b[0].0 as int));
        }
        assert(a =~= b);
        return;
    }
    lemma_first_interval(a);
    lemma_first_interval(b);
    if a[0].0 < b[0].0 {
        assert(covers_point(a, a[0].0 as int));
        assert(false);
    }
    if b[0].0 < a[0].0 {
        assert(covers_point(b, b[0].0 as int));
        assert(covers_point(a, b[0].0 as int) == covers_point(b, b[0].0 as int));
        assert(false);
    }
    if a[0].1 < b[0].1 {
        assert(covers_point(b, a[0].1 as int));
        assert(false);
    }
    if b[0].1 < a[0].1 {
        assert(covers_point(a, b[0].1 as int));
        assert(false);
    }
    let ta = a.drop_first();
    let tb = b.drop_first();
    assert forall|x: int| #[trigger] covers_point(ta, x) == covers_point(tb, x) by {
        if x >= a[0].1 {
            assert(covers_point(a, x) == covers_point(b, x));
        }
    }
    assert(normalized(ta));
    assert(normalized(tb));
    lemma_normalized_unique(ta, tb);
    assert(a =~= seq![a[0]] + ta);
    assert(b =~= seq![b[0]] + tb);
}

/// The bytes held by a normalized list never exceed the end of its last
/// interval, so they always fit in a `u64`.
pub proof fn lemma_normalized_total_len_bounded(s: Seq<(u64, u64)>)
    requires
        normalized(s),
    ensures
        0 <= total_len(s),
        s.len() > 0 ==> total_len(s) <= s.last().1,
        total_len(s) <= u64::MAX,
    decreases s.len(),
{
    if s.len() > 0 {
        let t = s.drop_last();
        assert(normalized(t)) by {
            assert forall|i: int, j: int| 0 <= i < j < t.len() implies #[trigger] t[i].1 < #[trigger] t[j].0 by {
                assert(s[i].1 < s[j].0);
            }
        }
        lemma_normalized_total_len_bounded(t);
        if t.len() > 0 {
            assert(t.last() == s[s.len() - 2]);
            assert(s[s.len() - 2].1 < s[s.len() - 1].0);
        }
        assert(s.last().0 < s.last().1);
    }
}

proof fn lemma_swap_keeps_points(s: Seq<(u64, u64)>, a: int, b: int)
    requires
        0 <= a < s.len(),
        0 <= b < s.len(),
    ensures
        forall|x: int|
            #[trigger] covers_point(s.update(a, s[b]).update(b, s[a]), x) == covers_point(s, x),
{
    let t = s.update(a, s[b]).update(b, s[a]);
    assert forall|x: int| #[trigger] covers_point(t, x) == covers_point(s, x) by {
        if covers_point(t, x) {
            let k = choose|k: int| 0 <= k < t.len() && #[trigger] in_span(t[k], x);
            if k == a {
                assert(in_span(s[b], x) || in_span(s[a], x));
            } else if k == b {
                assert(in_span(s[a], x));
            } else {
                assert(in_span(s[k], x));
            }
        }
        if covers_point(s, x) {
            let k = choose|k: int| 0 <= k < s.len() && #[trigger] in_span(s[k], x);
            if k == a {
                assert(in_span(t[b], x));
            } else if k == b {
                if a == b {
                    assert(in_span(t[b], x));
                } else {
                    assert(in_span(t[a], x));
                }
            } else {
                assert(in_span(t[k], x));
            }
        }
    }
}

/// Stable insertion sort of the intervals by their start.
fn sort_by_start(v: &mut Vec<(u64, u64)>)
    ensures
        final(v)@.len() == old(v)@.len(),
        starts_sorted(final(v)@),
        forall|x: int| #[trigger] covers_point(final(v)@, x) == covers_point(old(v)@, x),
        all_nonempty(old(v)@) ==> all_nonempty(final(v)@),
{
    let n = v.len();
    if n == 0 {
        return;
    }
    let ghost orig = v@;
    let mut i: usize = 1;
    while i < n
        invariant
            n == v@.len(),
            n == orig.len(),
            1 <= i <= n,
            forall|a: int, b: int| 0 <= a <= b < i ==> #[trigger] v@[a].0 <= #[trigger] v@[b].0,
            forall|x: int| #[trigger] covers_point(v@, x) == covers_point(orig, x),
            all_nonempty(orig) ==> all_nonempty(v@),
        decreases n - i,
    {
        let mut j: usize = i;
        while j > 0 && v[j - 1].0 > v[j].0
            invariant
                n == v@.len(),
                0 <= j <= i < n,
                forall|a: int, b: int|
                    0 <= a <= b <= i && a != j && b != j ==> #[trigger] v@[a].0 <= #[trigger] v@[b].0,
                forall|b: int| j < b <= i ==> v@[j as int].0 < #[trigger] v@[b].0,
                forall|x: int| #[trigger] covers_point(v@, x) == covers_point(orig, x),
                all_nonempty(orig) ==> all_nonempty(v@),
            decreases j,
        {
            let ghost before = v@;
            let lower = v[j - 1];
            let upper = v[j];
            v.set(j - 1, upper);
            v.set(j, lower);
            proof {
                lemma_swap_keeps_points(before, j - 1, j as int);
                assert(v@ == before.update(j - 1, before[j as int]).update(j as int, before[j - 1]));
            }
            j = j - 1;
        }
        i = i + 1;
    }
}

/// Merges intervals that overlap or touch; the input must be sorted by start.
fn merge_sorted(v: &Vec<(u64, u64)>) -> (res: Vec<(u64, u64)>)
    requires
        starts_sorted(v@),
    ensures
        forall|x: int| #[trigger] covers_point(res@, x) == covers_point(v@, x),
        starts_sorted(res@),
        all_nonempty(v@) ==> normalized(res@),
        separated(res@),
        v@.len() == 0 ==> res@.len() == 0,
{
    let mut merged: Vec<(u64, u64)> = Vec::with_capacity(v.len());
    let mut k: usize = 0;
    while k < v.len()
        invariant
            k <= v@.len(),
            starts_sorted(v@),
            starts_sorted(merged@),
            all_nonempty(v@) ==> normalized(merged@),
            separated(merged@),
            k == 0 <==> merged@.len() == 0,
            merged@.len() > 0 ==> merged@.last().0 <= v@[k - 1].0,
            forall|x: int|
                #[trigger] covers_point(merged@, x) == covers_point(v@.take(k as int), x),
        decreases v@.len() - k,
    {
        let cur = v[k];
        let ghost prev = merged@;
        let ghost taken = v@.take(k as int);
        let ghost next_taken = v@.take(k + 1);
        assert(next_taken == taken.push(cur));
        let n = merged.len();
        if n > 0 && cur.0 <= merged[n - 1].1 {
            let last = merged[n - 1];
            let new_end = if last.1 >= cur.1 {
                last.1
            } else {
                cur.1
            };
            merged.set(n - 1, (last.0, new_end));
            proof {
                assert forall|i: int, j: int| 0 <= i < j < merged@.len() implies #[trigger] merged@[i].1 < #[trigger] merged@[j].0 by {
                    assert(prev[i].1 < prev[j].0);
                }
                assert forall|x: int| #[trigger] covers_point(merged@, x) == covers_point(next_taken, x) by {
                    assert(covers_point(prev, x) == covers_point(taken, x));
                    if covers_point(merged@, x) {
                        let i = choose|i: int| 0 <= i < merged@.len() && #[trigger] in_span(merged@[i], x);
                        if i == n - 1 {
                            if x < last.1 {
                                assert(in_span(prev[i], x));
                                assert(covers_point(prev, x));
                                let w = choose|w: int| 0 <= w < taken.len() && #[trigger] in_span(taken[w], x);
                                assert(in_span(next_taken[w], x));
                            } else {
                                assert(in_span(next_taken[k as int], x));
                            }
                        } else {
                            assert(in_span(prev[i], x));
                            assert(covers_point(prev, x));
                            let w = choose|w: int| 0 <= w < taken.len() && #[trigger] in_span(taken[w], x);
                            assert(in_span(next_taken[w], x));
                        }
                    }
                    if covers_point(next_taken, x) {
                        let w = choose|w: int| 0 <= w < next_taken.len() && #[trigger] in_span(next_taken[w], x);
                        if w == k {
                            assert(v@[k - 1].0 <= cur.0);
                            assert(in_span(merged@[n - 1], x));
                        } else {
                            assert(in_span(taken[w], x));
                            assert(covers_point(taken, x));
                            let i = choose|i: int| 0 <= i < prev.len() && #[trigger] in_span(prev[i], x);
                            assert(in_span(merged@[i], x));
                        }
                    }
                }
                if all_nonempty(v@) {
                    assert(cur.0 < cur.1);
                    assert forall|i: int, j: int| 0 <= i < j < merged@.len() implies #[trigger] merged@[i].1 < #[trigger] merged@[j].0 by {
                        assert(prev[i].1 < prev[j].0);
                    }
                }
            }
        } else {
            merged.push(cur);
            proof {
                assert forall|x: int| #[trigger] covers_point(merged@, x) == covers_point(next_taken, x) by {
                    assert(covers_point(prev, x) == covers_point(taken, x));
                    if covers_point(merged@, x) {
                        let i = choose|i: int| 0 <= i < merged@.len() && #[trigger] in_span(merged@[i], x);
                        if i == n {
                            assert(in_span(next_taken[k as int], x));
                        } else {
                            assert(in_span(prev[i], x));
                            assert(covers_point(prev, x));
                            let w = choose|w: int| 0 <= w < taken.len() && #[trigger] in_span(taken[w], x);
                            assert(in_span(next_taken[w], x));
                        }
                    }
                    if covers_point(next_taken, x) {
                        let w = choose|w: int| 0 <= w < next_taken.len() && #[trigger] in_span(next_taken[w], x);
                        if w == k {
                            assert(in_span(merged@[n as int], x));
                        } else {
                            assert(in_span(taken[w], x));
                            assert(covers_point(taken, x));
                            let i = choose|i: int| 0 <= i < prev.len() && #[trigger] in_span(prev[i], x);
                            assert(in_span(merged@[i], x));
                        }
                    }
                }
                if n > 0 {
                    assert(prev.last().0 <= v@[k - 1].0);
                    assert(v@[k - 1].0 <= cur.0);
                }
                assert forall|i: int, j: int| 0 <= i < j < merged@.len() implies #[trigger] merged@[i].1 < #[trigger] merged@[j].0 by {
                    if j == n {
                        if i < n - 1 {
                            assert(prev[i].1 < prev[n - 1].0);
                        }
                    } else {
                        assert(prev[i].1 < prev[j].0);
                    }
                }
                assert forall|i: int, j: int| 0 <= i <= j < merged@.len() implies #[trigger] merged@[i].0 <= #[trigger] merged@[j].0 by {
                    if j == n && i < n {
                        assert(prev[i].0 <= prev[n - 1].0);
                    }
                }
                if all_nonempty(v@) {
                    assert(cur.0 < cur.1);
                    assert forall|i: int, j: int| 0 <= i < j < merged@.len() implies #[trigger] merged@[i].1 < #[trigger] merged@[j].0 by {
                        if j == n {
                            if i < n - 1 {
                                assert(prev[i].1 < prev[n - 1].0);
                                assert(prev[n - 1].0 < prev[n - 1].1);
                            }
                        } else {
                            assert(prev[i].1 < prev[j].0);
                        }
                    }
                }
            }
        }
        k = k + 1;
    }
    assert(v@.take(v@.len() as int) == v@);
    merged
}

/// Law: merging a range that is already held changes nothing.  When `b` is
/// `a` with `[s, e)` merged in and `c` is `b` with `[s, e)` merged in again,
/// both in canonical form, then `c` is `b`.
pub proof fn law_merge_idempotent(a: Seq<(u64, u64)>, b: Seq<(u64, u64)>, c: Seq<(u64, u64)>, s: int, e: int)
    requires
        normalized(b),
        normalized(c),
        forall|x: int| #[trigger] covers_point(b, x) == (covers_point(a, x) || (s <= x && x < e)),
        forall|x: int| #[trigger] covers_point(c, x) == (covers_point(b, x) || (s <= x && x < e)),
    ensures
        c == b,
{
    assert forall|x: int| #[trigger] covers_point(c, x) == covers_point(b, x) by {}
    lemma_normalized_unique(c, b);
}

/// Law: the order in which ranges are merged does not matter.  Merging
/// `[s1, e1)` then `[s2, e2)` into `a` gives the same canonical list as
/// merging them the other way round.
pub proof fn law_merge_order_irrelevant(
    a: Seq<(u64, u64)>,
    b1: Seq<(u64, u64)>,
    c1: Seq<(u64, u64)>,
    b2: Seq<(u64, u64)>,
    c2: Seq<(u64, u64)>,
    s1: int,
    e1: int,
    s2: int,
    e2: int,
)
    requires
        normalized(c1),
        normalized(c2),
        forall|x: int| #[trigger] covers_point(b1, x) == (covers_point(a, x) || (s1 <= x && x < e1)),
        forall|x: int| #[trigger] covers_point(c1, x) == (covers_point(b1, x) || (s2 <= x && x < e2)),
        forall|x: int| #[trigger] covers_point(b2, x) == (covers_point(a, x) || (s2 <= x && x < e2)),
        forall|x: int| #[trigger] covers_point(c2, x) == (covers_point(b2, x) || (s1 <= x && x < e1)),
    ensures
        c1 == c2,
{
    assert forall|x: int| #[trigger] covers_point(c1, x) == covers_point(c2, x) by {
        assert(covers_point(b1, x) == (covers_point(a, x) || (s1 <= x && x < e1)));
        assert(covers_point(b2, x) == (covers_point(a, x) || (s2 <= x && x < e2)));
    }
    lemma_normalized_unique(c1, c2);
}

/// Merges `[start, end)` into `ranges`: the interval is added, the list is
/// sorted by start, and intervals that overlap or touch are joined.  An empty
/// interval leaves the list unchanged.
pub fn insert_written_range(ranges: &mut Vec<(u64, u64)>, start: u64, end: u64)
    ensures
        end <= start ==> final(ranges)@ == old(ranges)@,
        forall|x: int|
            #[trigger] covers_point(final(ranges)@, x) == (covers_point(old(ranges)@, x) || (
            start <= x && x < end)),
        end > start ==> starts_sorted(final(ranges)@),
        end > start ==> separated(final(ranges)@),
        end > start && all_nonempty(old(ranges)@) ==> normalized(final(ranges)@),
{
    if end <= start {
        return;
    }
    let ghost before = ranges@;
    ranges.push((start, end));
    proof {
        assert forall|x: int| #[trigger] covers_point(ranges@, x) == (covers_point(before, x) || (
        start <= x && x < end)) by {
            if covers_point(ranges@, x) {
                let i = choose|i: int| 0 <= i < ranges@.len() && #[trigger] in_span(ranges@[i], x);
                if i < before.len() {
                    assert(in_span(before[i], x));
                }
            }
            if covers_point(before, x) {
                let i = choose|i: int| 0 <= i < before.len() && #[trigger] in_span(before[i], x);
                assert(in_span(ranges@[i], x));
            }
            if start <= x && x < end {
                assert(in_span(ranges@[before.len() as int], x));
            }
        }
    }
    sort_by_start(ranges);
    let merged = merge_sorted(ranges);
    *ranges = merged;
}

/// Whether the intervals, sorted by start, hold every point of `[start, end)`.
pub fn ranges_cover(ranges: &[(u64, u64)], start: u64, end: u64) -> (res: bool)
    requires
        starts_sorted(ranges@),
    ensures
        res == covers_span(ranges@, start as int, end as int),
{
    if end <= start {
        return true;
    }
    let mut cursor = start;
    let mut k: usize = 0;
    while k < ranges.len()
        invariant
            k <= ranges@.len(),
            starts_sorted(ranges@),
            start <= cursor < end,
            covers_span(ranges@, start as int, cursor as int),
            forall|i: int| 0 <= i < k ==> #[trigger] ranges@[i].1 <= cursor,
        decreases ranges@.len() - k,
    {
        let (range_start, range_end) = ranges[k];
        if range_end <= cursor {
            k = k + 1;
            continue;
        }
        if range_start > cursor {
            proof {
                assert(!covers_point(ranges@, cursor as int)) by {
                    if covers_point(ranges@, cursor as int) {
                        let i = choose|i: int| 0 <= i < ranges@.len() && #[trigger] in_span(ranges@[i], cursor as int);
                        if i >= k {
                            assert(ranges@[k as int].0 <= ranges@[i].0);
                        }
                    }
                }
            }
            return false;
        }
        let ghost old_cursor = cursor;
        cursor = range_end;
        proof {
            assert forall|x: int| start <= x < cursor implies #[trigger] covers_point(ranges@, x) by {
                if x >= old_cursor {
                    assert(in_span(ranges@[k as int], x));
                }
            }
        }
        if cursor >= end {
            return true;
        }
        k = k + 1;
    }
    proof {
        assert(!covers_point(ranges@, cursor as int)) by {
            if covers_point(ranges@, cursor as int) {
                let i = choose|i: int| 0 <= i < ranges@.len() && #[trigger] in_span(ranges@[i], cursor as int);
            }
        }
    }
    false
}

} // verus!
