//! Which entries to evict when the cache is over its size limit.

use vstd::prelude::*;

use crate::cache::catalog::keys_distinct;
use crate::cache::types::{now_unix_secs, CacheEntry};

verus! {

/// `a` (at index `ia`) is evicted before `b` (at index `ib`): expired entries
/// first, then least recently accessed, then oldest, then input order.
pub open spec fn ranks_before(a: CacheEntry, ia: int, b: CacheEntry, ib: int, now: u64) -> bool {
    let ea = a.expired_at(now);
    let eb = b.expired_at(now);
    if ea != eb {
        ea
    } else if a.accessed_at != b.accessed_at {
        a.accessed_at < b.accessed_at
    } else if a.created_at != b.created_at {
        a.created_at < b.created_at
    } else {
        ia < ib
    }
}

/// `order` lists every index of `es` once, in eviction order.
pub open spec fn is_eviction_order(es: Seq<(String, CacheEntry)>, now: u64, order: Seq<int>) -> bool {
    &&& order.len() == es.len()
    &&& forall|p: int| 0 <= p < order.len() ==> 0 <= #[trigger] order[p] < es.len()
    &&& forall|i: int| 0 <= i < es.len() ==> #[trigger] order.contains(i)
    &&& forall|p: int, q: int|
        0 <= p < q < order.len() ==> ranks_before(
            es[#[trigger] order[p]].1,
            order[p],
            es[#[trigger] order[q]].1,
            order[q],
            now,
        )
}

/// Bytes left after evicting the first `k` entries of `order`, never below 0.
pub open spec fn remaining_after(es: Seq<(String, CacheEntry)>, order: Seq<int>, current: u64, k: int) -> int
    decreases k,
{
    if k <= 0 {
        current as int
    } else {
        let r = remaining_after(es, order, current, k - 1);
        let size = es[order[k - 1]].1.size_bytes as int;
        if r > size {
            r - size
        } else {
            0
        }
    }
}

/// The first count `k >= from` of evictions that brings the size within `max`,
/// or the number of entries if none does.
pub open spec fn first_fit(es: Seq<(String, CacheEntry)>, order: Seq<int>, current: u64, max: u64, from: int) -> int
    decreases es.len() - from,
{
    if from >= es.len() || remaining_after(es, order, current, from) <= max {
        from
    } else {
        first_fit(es, order, current, max, from + 1)
    }
}

/// Keys of the expired entries, in input order.
pub open spec fn expired_keys(es: Seq<(String, CacheEntry)>, now: u64) -> Seq<String>
    decreases es.len(),
{
    if es.len() == 0 {
        Seq::empty()
    } else {
        expired_keys(es.drop_last(), now) + if es.last().1.expired_at(now) {
            seq![es.last().0]
        } else {
            Seq::empty()
        }
    }
}

/// The victims chosen at time `now`.  Within the limit (or with no limit)
/// only expired entries go; over the limit, entries go in eviction order until
/// the remaining size fits.
pub open spec fn is_victim_plan(
    es: Seq<(String, CacheEntry)>,
    current: u64,
    max: u64,
    now: u64,
    victims: Seq<String>,
) -> bool {
    if max == 0 || current <= max {
        victims == expired_keys(es, now)
    } else {
        exists|order: Seq<int>|
            #[trigger] is_eviction_order(es, now, order) && victims.len() == first_fit(
                es,
                order,
                current,
                max,
                0,
            ) && forall|p: int| 0 <= p < victims.len() ==> victims[p] == es[#[trigger] order[p]].0
    }
}

/// Bytes held by the entries at positions below `n` that are not in `ex`.
pub open spec fn kept_bytes(es: Seq<(String, CacheEntry)>, ex: Set<int>, n: int) -> int
    decreases n,
{
    if n <= 0 {
        0
    } else {
        kept_bytes(es, ex, n - 1) + if ex.contains(n - 1) {
            0
        } else {
            es[n - 1].1.size_bytes as int
        }
    }
}

/// Bytes held by all the entries.
pub open spec fn total_bytes(es: Seq<(String, CacheEntry)>) -> int {
    kept_bytes(es, Set::empty(), es.len() as int)
}

/// The positions of the entries whose key is among `keys`.
pub open spec fn positions_of_keys(es: Seq<(String, CacheEntry)>, keys: Seq<String>) -> Set<int> {
    Set::new(|i: int| 0 <= i < es.len() && exists|p: int| 0 <= p < keys.len() && #[trigger] keys[p]@ == es[i].0@)
}

proof fn lemma_kept_bounds(es: Seq<(String, CacheEntry)>, ex: Set<int>, n: int)
    ensures
        0 <= kept_bytes(es, ex, n) <= kept_bytes(es, Set::empty(), n),
    decreases n,
{
    if n > 0 {
        lemma_kept_bounds(es, ex, n - 1);
    }
}

proof fn lemma_kept_agree(es: Seq<(String, CacheEntry)>, a: Set<int>, b: Set<int>, n: int)
    requires
        forall|i: int| 0 <= i < n ==> (a.contains(i) <==> b.contains(i)),
    ensures
        kept_bytes(es, a, n) == kept_bytes(es, b, n),
    decreases n,
{
    if n > 0 {
        lemma_kept_agree(es, a, b, n - 1);
    }
}

proof fn lemma_kept_drop_one(es: Seq<(String, CacheEntry)>, ex: Set<int>, j: int, n: int)
    requires
        0 <= j < n,
        !ex.contains(j),
    ensures
        kept_bytes(es, ex.insert(j), n) == kept_bytes(es, ex, n) - es[j].1.size_bytes,
    decreases n,
{
    if n - 1 == j {
        lemma_kept_agree(es, ex.insert(j), ex, n - 1);
    } else {
        lemma_kept_drop_one(es, ex, j, n - 1);
    }
}

/// Evicting the first `k` entries of an eviction order from a cache that
/// holds exactly its entries leaves the bytes of the other entries.
proof fn lemma_remaining_is_kept(es: Seq<(String, CacheEntry)>, now: u64, order: Seq<int>, k: int)
    requires
        is_eviction_order(es, now, order),
        0 <= k <= order.len(),
        total_bytes(es) <= u64::MAX,
    ensures
        remaining_after(es, order, total_bytes(es) as u64, k) == kept_bytes(es, order.take(k).to_set(), es.len() as int),
    decreases k,
{
    let n = es.len() as int;
    lemma_kept_bounds(es, Set::empty(), n);
    if k == 0 {
        lemma_kept_agree(es, order.take(0).to_set(), Set::empty(), n);
    } else {
        lemma_remaining_is_kept(es, now, order, k - 1);
        let t0 = order.take(k - 1);
        let j = order[k - 1];
        assert(0 <= j < n);
        assert(!t0.to_set().contains(j)) by {
            if t0.contains(j) {
                let p = choose|p: int| 0 <= p < t0.len() && t0[p] == j;
                assert(order[p] == order[k - 1]);
                assert(ranks_before(es[order[p]].1, order[p], es[order[k - 1]].1, order[k - 1], now));
            }
        }
        assert(order.take(k).to_set() =~= t0.to_set().insert(j)) by {
            assert forall|x: int| order.take(k).to_set().contains(x) == t0.to_set().insert(j).contains(x) by {
                let t1 = order.take(k);
                if t1.contains(x) {
                    let p = choose|p: int| 0 <= p < t1.len() && t1[p] == x;
                    if p < k - 1 {
                        assert(t0[p] == x);
                    }
                }
                if t0.contains(x) {
                    let p = choose|p: int| 0 <= p < t0.len() && t0[p] == x;
                    assert(t1[p] == x);
                }
                if x == j {
                    assert(t1[k - 1] == x);
                }
            }
        }
        lemma_kept_drop_one(es, t0.to_set(), j, n);
        lemma_kept_bounds(es, t0.to_set().insert(j), n);
        let r = remaining_after(es, order, total_bytes(es) as u64, k - 1);
        assert(r == kept_bytes(es, t0.to_set(), n));
        assert(r >= es[j].1.size_bytes);
        assert(remaining_after(es, order, total_bytes(es) as u64, k) == (if r > es[order[k - 1]].1.size_bytes as int {
            r - es[order[k - 1]].1.size_bytes as int
        } else {
            0
        }));
    }
}

proof fn lemma_first_fit(es: Seq<(String, CacheEntry)>, order: Seq<int>, current: u64, max: u64, from: int)
    requires
        0 <= from <= es.len(),
    ensures
        from <= first_fit(es, order, current, max, from) <= es.len(),
        first_fit(es, order, current, max, from) == es.len() || remaining_after(
            es,
            order,
            current,
            first_fit(es, order, current, max, from),
        ) <= max,
    decreases es.len() - from,
{
    if !(from >= es.len() || remaining_after(es, order, current, from) <= max) {
        lemma_first_fit(es, order, current, max, from + 1);
    }
}

/// Law: enforcing the size limit leaves the cache within it.  When the
/// size handed to the planner is the bytes the (distinctly keyed) entries
/// hold and there is a limit, the entries whose keys are not among the
/// victims hold at most `max` bytes, unless every entry was evicted.
pub proof fn law_eviction_fits_limit(
    es: Seq<(String, CacheEntry)>,
    max: u64,
    now: u64,
    victims: Seq<String>,
)
    requires
        keys_distinct(es),
        total_bytes(es) <= u64::MAX,
        max > 0,
        is_victim_plan(es, total_bytes(es) as u64, max, now, victims),
    ensures
        kept_bytes(es, positions_of_keys(es, victims), es.len() as int) <= max || victims.len() == es.len(),
{
    let n = es.len() as int;
    let current = total_bytes(es) as u64;
    lemma_kept_bounds(es, positions_of_keys(es, victims), n);
    if current > max {
        let order = choose|order: Seq<int>|
            #[trigger] is_eviction_order(es, now, order) && victims.len() == first_fit(es, order, current, max, 0)
                && forall|p: int| 0 <= p < victims.len() ==> victims[p] == es[#[trigger] order[p]].0;
        let k = victims.len() as int;
        lemma_first_fit(es, order, current, max, 0);
        lemma_remaining_is_kept(es, now, order, k);
        let t = order.take(k);
        assert forall|i: int| 0 <= i < n implies (positions_of_keys(es, victims).contains(i) <==> t.to_set().contains(i)) by {
            if positions_of_keys(es, victims).contains(i) {
                let p = choose|p: int| 0 <= p < victims.len() && #[trigger] victims[p]@ == es[i].0@;
                assert(victims[p] == es[order[p]].0);
                let j = order[p];
                if j != i {
                    if i < j {
                        assert(es[i].0@ != es[j].0@);
                    } else {
                        assert(es[j].0@ != es[i].0@);
                    }
                }
                assert(t[p] == i);
            }
            if t.to_set().contains(i) {
                let p = choose|p: int| 0 <= p < t.len() && t[p] == i;
                assert(victims[p] == es[order[p]].0);
                assert(victims[p]@ == es[i].0@);
            }
        }
        lemma_kept_agree(es, positions_of_keys(es, victims), t.to_set(), n);
    }
}

/// Entry `a` has a stronger claim to eviction than entry `b` at time
/// `now`: it has expired and `b` has not; or, both alike in that, it was
/// accessed earlier; or, accessed at the same time, it was created earlier.
pub open spec fn evicts_before(a: CacheEntry, b: CacheEntry, now: u64) -> bool {
    ||| a.expired_at(now) && !b.expired_at(now)
    ||| a.expired_at(now) == b.expired_at(now) && a.accessed_at < b.accessed_at
    ||| a.expired_at(now) == b.expired_at(now) && a.accessed_at == b.accessed_at && a.created_at < b.created_at
}

/// Law: an eviction order puts expired entries first, then the least
/// recently accessed, then, among entries accessed at the same time, the
/// oldest.
pub proof fn law_eviction_order_priorities(es: Seq<(String, CacheEntry)>, now: u64, order: Seq<int>, p: int, q: int)
    requires
        is_eviction_order(es, now, order),
        0 <= p < order.len(),
        0 <= q < order.len(),
        evicts_before(es[order[p]].1, es[order[q]].1, now),
    ensures
        p < q,
{
    if q < p {
        assert(ranks_before(es[order[q]].1, order[q], es[order[p]].1, order[p], now));
    }
}

/// Law: over the limit, an entry is evicted only after every entry with a
/// stronger claim to eviction (see `evicts_before`): when an entry is
/// among the victims, so is every such entry; so of two unexpired entries
/// accessed at the same time, the newer is never evicted without the older.
pub proof fn law_victims_take_stronger_claims_first(
    es: Seq<(String, CacheEntry)>,
    current: u64,
    max: u64,
    now: u64,
    victims: Seq<String>,
    i: int,
    j: int,
)
    requires
        keys_distinct(es),
        max > 0,
        current > max,
        is_victim_plan(es, current, max, now, victims),
        0 <= i < es.len(),
        0 <= j < es.len(),
        victims.contains(es[j].0),
        evicts_before(es[i].1, es[j].1, now),
    ensures
        victims.contains(es[i].0),
{
    let order = choose|order: Seq<int>|
        #[trigger] is_eviction_order(es, now, order) && victims.len() == first_fit(es, order, current, max, 0)
            && forall|p: int| 0 <= p < victims.len() ==> victims[p] == es[#[trigger] order[p]].0;
    let pj = choose|p: int| 0 <= p < victims.len() && victims[p] == es[j].0;
    lemma_first_fit(es, order, current, max, 0);
    assert(victims[pj] == es[order[pj]].0);
    let oj = order[pj];
    if oj != j {
        if oj < j {
            assert(es[oj].0@ != es[j].0@);
        } else {
            assert(es[j].0@ != es[oj].0@);
        }
    }
    assert(order.contains(i));
    let pi = choose|p: int| 0 <= p < order.len() && order[p] == i;
    law_eviction_order_priorities(es, now, order, pi, pj);
    assert(victims[pi] == es[order[pi]].0);
}

/// Law: the eviction order is unique, since `ranks_before` orders all
/// entries strictly; so the victims chosen at a given time are determined.
pub proof fn lemma_eviction_order_unique(
    es: Seq<(String, CacheEntry)>,
    now: u64,
    o1: Seq<int>,
    o2: Seq<int>,
)
    requires
        is_eviction_order(es, now, o1),
        is_eviction_order(es, now, o2),
    ensures
        o1 == o2,
{
    if exists|k: int| 0 <= k < o1.len() && o1[k] != o2[k] {
        let k0 = choose|k: int| 0 <= k < o1.len() && o1[k] != o2[k];
        let p = lemma_least_difference(o1, o2, k0);
        let a = o1[p];
        let b = o2[p];
        assert(o2.contains(a));
        let q = choose|q: int| 0 <= q < o2.len() && o2[q] == a;
        assert(o1.contains(b));
        let r = choose|r: int| 0 <= r < o1.len() && o1[r] == b;
        if q < p {
            assert(o1[q] == o2[q]);
            assert(ranks_before(es[o1[q]].1, o1[q], es[o1[p]].1, o1[p], now));
        }
        if r < p {
            assert(o1[r] == o2[r]);
            assert(ranks_before(es[o2[r]].1, o2[r], es[o2[p]].1, o2[p], now));
        }
        assert(ranks_before(es[o2[p]].1, o2[p], es[o2[q]].1, o2[q], now));
        assert(ranks_before(es[o1[p]].1, o1[p], es[o1[r]].1, o1[r], now));
    }
    assert(o1 =~= o2);
}

proof fn lemma_least_difference(o1: Seq<int>, o2: Seq<int>, k: int) -> (p: int)
    requires
        o1.len() == o2.len(),
        0 <= k < o1.len(),
        o1[k] != o2[k],
    ensures
        0 <= p <= k,
        o1[p] != o2[p],
        forall|j: int| 0 <= j < p ==> o1[j] == o2[j],
    decreases k,
{
    if exists|j: int| 0 <= j < k && o1[j] != o2[j] {
        let j = choose|j: int| 0 <= j < k && o1[j] != o2[j];
        lemma_least_difference(o1, o2, j)
    } else {
        k
    }
}

fn is_expired(entry: &CacheEntry, now: u64) -> (res: bool)
    ensures
        res == entry.expired_at(now),
{
    entry.is_expired_at(now)
}

fn ranks_before_exec(entries: &[(String, CacheEntry)], i: usize, j: usize, now: u64) -> (res: bool)
    requires
        i < entries@.len(),
        j < entries@.len(),
    ensures
        res == ranks_before(entries@[i as int].1, i as int, entries@[j as int].1, j as int, now),
{
    let a = &entries[i].1;
    let b = &entries[j].1;
    let ea = is_expired(a, now);
    let eb = is_expired(b, now);
    if ea != eb {
        ea
    } else if a.accessed_at != b.accessed_at {
        a.accessed_at < b.accessed_at
    } else if a.created_at != b.created_at {
        a.created_at < b.created_at
    } else {
        i < j
    }
}

proof fn lemma_ranks_total(a: CacheEntry, ia: int, b: CacheEntry, ib: int, now: u64)
    requires
        ia != ib,
    ensures
        ranks_before(a, ia, b, ib, now) != ranks_before(b, ib, a, ia, now),
{
}

proof fn lemma_ranks_transitive(
    a: CacheEntry,
    ia: int,
    b: CacheEntry,
    ib: int,
    c: CacheEntry,
    ic: int,
    now: u64,
)
    requires
        ranks_before(a, ia, b, ib, now),
        ranks_before(b, ib, c, ic, now),
    ensures
        ranks_before(a, ia, c, ic, now),
{
}

pub open spec fn as_ints(v: Seq<usize>) -> Seq<int> {
    Seq::new(v.len(), |i: int| v[i] as int)
}

/// Indices of `entries` in eviction order.
fn eviction_order(entries: &[(String, CacheEntry)], now: u64) -> (order: Vec<usize>)
    ensures
        is_eviction_order(entries@, now, as_ints(order@)),
{
    let n = entries.len();
    let mut order: Vec<usize> = Vec::new();
    let mut k: usize = 0;
    while k < n
        invariant
            k <= n == entries@.len(),
            order@.len() == k,
            forall|p: int| 0 <= p < k ==> order@[p] == p,
        decreases n - k,
    {
        order.push(k);
        k = k + 1;
    }
    let ghost es = entries@;
    assert forall|x: int| 0 <= x < n implies #[trigger] as_ints(order@).contains(x) by {
        assert(as_ints(order@)[x] == x);
    }
    let mut i: usize = 1;
    while i < n
        invariant
            n == es.len(),
            es == entries@,
            order@.len() == n,
            forall|p: int| 0 <= p < n ==> #[trigger] order@[p] < n,
            forall|x: int| 0 <= x < n ==> #[trigger] as_ints(order@).contains(x),
            forall|p: int, q: int| 0 <= p < q < n ==> order@[p] != order@[q],
            n == 0 || 1 <= i <= n,
            forall|p: int, q: int|
                0 <= p < q < i ==> ranks_before(
                    es[#[trigger] order@[p] as int].1,
                    order@[p] as int,
                    es[#[trigger] order@[q] as int].1,
                    order@[q] as int,
                    now,
                ),
        decreases n - i,
    {
        let mut j: usize = i;
        while j > 0 && ranks_before_exec(entries, order[j], order[j - 1], now)
            invariant
                n == es.len(),
                es == entries@,
                order@.len() == n,
                0 <= j <= i < n,
                forall|p: int| 0 <= p < n ==> #[trigger] order@[p] < n,
                forall|x: int| 0 <= x < n ==> #[trigger] as_ints(order@).contains(x),
                forall|p: int, q: int| 0 <= p < q < n ==> order@[p] != order@[q],
                forall|p: int, q: int|
                    0 <= p < q <= i && p != j && q != j ==> ranks_before(
                        es[#[trigger] order@[p] as int].1,
                        order@[p] as int,
                        es[#[trigger] order@[q] as int].1,
                        order@[q] as int,
                        now,
                    ),
                forall|q: int|
                    j < q <= i ==> ranks_before(
                        es[order@[j as int] as int].1,
                        order@[j as int] as int,
                        es[#[trigger] order@[q] as int].1,
                        order@[q] as int,
                        now,
                    ),
            decreases j,
        {
            let ghost before = order@;
            let lower = order[j - 1];
            let upper = order[j];
            order.set(j - 1, upper);
            order.set(j, lower);
            proof {
                let mb = as_ints(before);
                let ma = as_ints(order@);
                assert forall|x: int| 0 <= x < n implies #[trigger] ma.contains(x) by {
                    assert(mb.contains(x));
                    let w = choose|w: int| 0 <= w < mb.len() && mb[w] == x;
                    if w == j - 1 {
                        assert(ma[j as int] == x);
                    } else if w == j {
                        assert(ma[j - 1] == x);
                    } else {
                        assert(ma[w] == x);
                    }
                }
                assert forall|q: int| j - 1 < q <= i implies ranks_before(
                    es[order@[j - 1] as int].1,
                    order@[j - 1] as int,
                    es[#[trigger] order@[q] as int].1,
                    order@[q] as int,
                    now,
                ) by {
                    if q > j {
                        lemma_ranks_transitive(
                            es[upper as int].1,
                            upper as int,
                            es[lower as int].1,
                            lower as int,
                            es[order@[q] as int].1,
                            order@[q] as int,
                            now,
                        );
                        assert(ranks_before(
                            es[before[j - 1] as int].1,
                            before[j - 1] as int,
                            es[before[q] as int].1,
                            before[q] as int,
                            now,
                        ));
                    }
                }
                assert forall|p: int, q: int|
                    0 <= p < q <= i && p != j - 1 && q != j - 1 implies ranks_before(
                    es[#[trigger] order@[p] as int].1,
                    order@[p] as int,
                    es[#[trigger] order@[q] as int].1,
                    order@[q] as int,
                    now,
                ) by {
                    if q == j {
                        assert(ranks_before(
                            es[before[p] as int].1,
                            before[p] as int,
                            es[before[j - 1] as int].1,
                            before[j - 1] as int,
                            now,
                        ));
                    } else if p == j {
                        assert(ranks_before(
                            es[before[j - 1] as int].1,
                            before[j - 1] as int,
                            es[before[q] as int].1,
                            before[q] as int,
                            now,
                        ));
                    } else {
                        assert(ranks_before(
                            es[before[p] as int].1,
                            before[p] as int,
                            es[before[q] as int].1,
                            before[q] as int,
                            now,
                        ));
                    }
                }
            }
            j = j - 1;
        }
        proof {
            if j > 0 {
                lemma_ranks_total(
                    es[order@[j as int] as int].1,
                    order@[j as int] as int,
                    es[order@[j - 1] as int].1,
                    order@[j - 1] as int,
                    now,
                );
            }
            assert forall|p: int, q: int| 0 <= p < q < i + 1 implies ranks_before(
                es[#[trigger] order@[p] as int].1,
                order@[p] as int,
                es[#[trigger] order@[q] as int].1,
                order@[q] as int,
                now,
            ) by {
                if p < j && q == j {
                    if p < j - 1 {
                        lemma_ranks_transitive(
                            es[order@[p] as int].1,
                            order@[p] as int,
                            es[order@[j - 1] as int].1,
                            order@[j - 1] as int,
                            es[order@[j as int] as int].1,
                            order@[j as int] as int,
                            now,
                        );
                    }
                }
            }
        }
        i = i + 1;
    }
    let ghost m = as_ints(order@);
    assert forall|p: int, q: int| 0 <= p < q < m.len() implies ranks_before(
        es[#[trigger] m[p]].1,
        m[p],
        es[#[trigger] m[q]].1,
        m[q],
        now,
    ) by {
        assert(ranks_before(
            es[order@[p] as int].1,
            order@[p] as int,
            es[order@[q] as int].1,
            order@[q] as int,
            now,
        ));
    }
    order
}

/// Keys of the entries that have expired at `now`, in input order.
pub fn collect_expired_victims(entries: &[(String, CacheEntry)], now: u64) -> (res: Vec<String>)
    ensures
        res@ == expired_keys(entries@, now),
{
    let mut res: Vec<String> = Vec::new();
    let mut i: usize = 0;
    while i < entries.len()
        invariant
            i <= entries@.len(),
            res@ == expired_keys(entries@.take(i as int), now),
        decreases entries@.len() - i,
    {
        let ghost prefix = entries@.take(i + 1);
        assert(prefix.drop_last() == entries@.take(i as int));
        if is_expired(&entries[i].1, now) {
            res.push(entries[i].0.clone());
        }
        i = i + 1;
    }
    assert(entries@.take(entries@.len() as int) == entries@);
    res
}

pub struct EvictionPlanner;

impl EvictionPlanner {
    /// The victims at time `now`.  If there is no limit or the cache is
    /// within it, the expired entries go.  Otherwise entries go in eviction
    /// order until the size left is within the limit; afterwards the size is
    /// within the limit unless every entry was chosen.
    pub fn select_victims_at(
        entries: &[(String, CacheEntry)],
        current_size_bytes: u64,
        max_size_bytes: u64,
        now: u64,
    ) -> (res: Vec<String>)
        ensures
            is_victim_plan(entries@, current_size_bytes, max_size_bytes, now, res@),
            !(max_size_bytes == 0 || current_size_bytes <= max_size_bytes) ==> (forall|order: Seq<int>|
                #[trigger] is_eviction_order(entries@, now, order) ==> (remaining_after(
                    entries@,
                    order,
                    current_size_bytes,
                    res@.len() as int,
                ) <= max_size_bytes || res@.len() == entries@.len())),
    {
        if max_size_bytes == 0 || current_size_bytes <= max_size_bytes {
            return collect_expired_victims(entries, now);
        }
        let order = eviction_order(entries, now);
        let ghost es = entries@;
        let ghost o = as_ints(order@);
        let mut remaining = current_size_bytes;
        let mut victims: Vec<String> = Vec::new();
        let mut p: usize = 0;
        while p < order.len() && remaining > max_size_bytes
            invariant
                es == entries@,
                o == as_ints(order@),
                is_eviction_order(es, now, o),
                p <= order@.len(),
                remaining == remaining_after(es, o, current_size_bytes, p as int),
                first_fit(es, o, current_size_bytes, max_size_bytes, 0) == first_fit(
                    es,
                    o,
                    current_size_bytes,
                    max_size_bytes,
                    p as int,
                ),
                victims@.len() == p,
                forall|q: int| 0 <= q < p ==> victims@[q] == es[#[trigger] o[q]].0,
            decreases order@.len() - p,
        {
            let idx = order[p];
            assert(o[p as int] == idx as int);
            assert(0 <= o[p as int] < es.len());
            victims.push(entries[idx].0.clone());
            remaining = remaining.saturating_sub(entries[idx].1.size_bytes);
            p = p + 1;
        }
        proof {
            assert(o.len() == es.len());
            assert(first_fit(es, o, current_size_bytes, max_size_bytes, p as int) == p);
            assert(is_eviction_order(es, now, o));
            assert forall|order2: Seq<int>| #[trigger] is_eviction_order(es, now, order2) implies (
            remaining_after(es, order2, current_size_bytes, victims@.len() as int) <= max_size_bytes
                || victims@.len() == es.len()) by {
                lemma_eviction_order_unique(es, now, o, order2);
            }
        }
        victims
    }

    /// The victims at the current time; see [`EvictionPlanner::select_victims_at`].
    pub fn select_victims(
        entries: &[(String, CacheEntry)],
        current_size_bytes: u64,
        max_size_bytes: u64,
    ) -> (res: Vec<String>)
        ensures
            exists|now: u64| is_victim_plan(entries@, current_size_bytes, max_size_bytes, now, res@),
    {
        let now = now_unix_secs();
        Self::select_victims_at(entries, current_size_bytes, max_size_bytes, now)
    }
}

} // verus!
