//! What other devices offer, from the local network and from beyond: never more than three offers in
//! all, the newest.

use vstd::prelude::*;

use crate::server_conn::conn::CrossLanOffer;
use crate::text::same;

verus! {

/// How many offers are kept, from the local network and from beyond together.
pub const MAX_RECEIVED_OFFERS: usize = 3;

/// How many offers from beyond the local network are kept.
pub const MAX_CROSS_LAN_OFFERS: usize = 3;

// ---------------------------------------------------------------------------
// Newest first
// ---------------------------------------------------------------------------

/// `order` with position `p` in it: behind every position that is at least as new.
pub open spec fn placed(order: Seq<int>, times: Seq<u64>, p: int) -> Seq<int>
    decreases order.len(),
{
    if order.len() == 0 || times[order.last()] >= times[p] {
        order.push(p)
    } else {
        placed(order.drop_last(), times, p).push(order.last())
    }
}

/// The first `n` positions, the newest first; those of one time stay in their order.
pub open spec fn ranked(times: Seq<u64>, n: nat) -> Seq<int>
    decreases n,
{
    if n == 0 {
        seq![]
    } else {
        placed(ranked(times, (n - 1) as nat), times, n - 1)
    }
}

/// Each of the first `n` positions stands in `order` once, and no later one is newer.
pub open spec fn is_newest_first(order: Seq<int>, times: Seq<u64>, n: int) -> bool {
    &&& order.len() == n
    &&& order.no_duplicates()
    &&& forall|i: int| 0 <= i < order.len() ==> 0 <= #[trigger] order[i] < n
    &&& forall|i: int, j: int|
        0 <= i <= j < order.len() ==> times[#[trigger] order[i]] >= times[#[trigger] order[j]]
}

proof fn lemma_placed(order: Seq<int>, times: Seq<u64>, p: int)
    requires
        order.no_duplicates(),
        !order.contains(p),
        forall|i: int, j: int|
            0 <= i <= j < order.len() ==> times[#[trigger] order[i]] >= times[#[trigger] order[j]],
    ensures
        ({
            let r = placed(order, times, p);
            &&& r.len() == order.len() + 1
            &&& r.no_duplicates()
            &&& forall|x: int| #[trigger] r.contains(x) <==> order.contains(x) || x == p
            &&& forall|i: int, j: int|
                0 <= i <= j < r.len() ==> times[#[trigger] r[i]] >= times[#[trigger] r[j]]
        }),
    decreases order.len(),
{
    let r = placed(order, times, p);
    if order.len() == 0 || times[order.last()] >= times[p] {
        assert forall|x: int| #[trigger] r.contains(x) <==> order.contains(x) || x == p by {
            if order.contains(x) {
                let i = choose|i: int| 0 <= i < order.len() && order[i] == x;
                assert(r[i] == x);
            }
            assert(r[order.len() as int] == p);
            if r.contains(x) {
                let i = choose|i: int| 0 <= i < r.len() && r[i] == x;
                if i < order.len() {
                    assert(order[i] == x);
                }
            }
        }
        assert forall|i: int, j: int| 0 <= i <= j < r.len() implies times[#[trigger] r[i]]
            >= times[#[trigger] r[j]] by {
            if j == order.len() && i < j {
                assert(times[order[i]] >= times[order[order.len() - 1]]);
            }
        }
    } else {
        let init = order.drop_last();
        let last = order.last();
        assert(!init.contains(p)) by {
            if init.contains(p) {
                let i = choose|i: int| 0 <= i < init.len() && init[i] == p;
                assert(order[i] == p);
            }
        }
        assert forall|i: int, j: int| 0 <= i <= j < init.len() implies times[#[trigger] init[i]]
            >= times[#[trigger] init[j]] by {
            assert(init[i] == order[i] && init[j] == order[j]);
        }
        lemma_placed(init, times, p);
        let t = placed(init, times, p);
        assert(r == t.push(last));
        assert(order[order.len() - 1] == last);
        assert(!t.contains(last)) by {
            if init.contains(last) {
                let i = choose|i: int| 0 <= i < init.len() && init[i] == last;
                assert(order[i] == order[order.len() - 1]);
            }
            assert(order.contains(last));
        }
        assert forall|x: int| #[trigger] r.contains(x) <==> order.contains(x) || x == p by {
            if r.contains(x) {
                let i = choose|i: int| 0 <= i < r.len() && r[i] == x;
                if i < t.len() {
                    assert(t[i] == x);
                    assert(t.contains(x));
                    if x != p {
                        let k = choose|k: int| 0 <= k < init.len() && init[k] == x;
                        assert(order[k] == x);
                    }
                }
            }
            if order.contains(x) {
                let k = choose|k: int| 0 <= k < order.len() && order[k] == x;
                if k < init.len() {
                    assert(init[k] == x);
                    assert(t.contains(x));
                    let i = choose|i: int| 0 <= i < t.len() && t[i] == x;
                    assert(r[i] == x);
                } else {
                    assert(r[t.len() as int] == x);
                }
            }
            if x == p {
                assert(t.contains(p));
                let i = choose|i: int| 0 <= i < t.len() && t[i] == p;
                assert(r[i] == p);
            }
        }
        assert forall|i: int, j: int| 0 <= i < r.len() && 0 <= j < r.len() && i != j implies r[i]
            != r[j] by {
            if i == t.len() {
                assert(t.contains(t[j]));
            } else if j == t.len() {
                assert(t.contains(t[i]));
            }
        }
        assert forall|i: int, j: int| 0 <= i <= j < r.len() implies times[#[trigger] r[i]]
            >= times[#[trigger] r[j]] by {
            if j == t.len() && i < j {
                let x = t[i];
                assert(t.contains(x));
                if x != p {
                    let k = choose|k: int| 0 <= k < init.len() && init[k] == x;
                    assert(order[k] == x);
                }
            }
        }
    }
}

/// The positions, newest first, hold each position once, and no later one is newer.
pub proof fn law_ranking_is_newest_first(times: Seq<u64>, n: nat)
    ensures
        is_newest_first(ranked(times, n), times, n as int),
    decreases n,
{
    if n > 0 {
        let m = (n - 1) as nat;
        law_ranking_is_newest_first(times, m);
        let o = ranked(times, m);
        assert(!o.contains(m as int)) by {
            if o.contains(m as int) {
                let i = choose|i: int| 0 <= i < o.len() && o[i] == m as int;
                assert(0 <= o[i] < m);
            }
        }
        lemma_placed(o, times, m as int);
        let r = ranked(times, n);
        assert forall|i: int| 0 <= i < r.len() implies 0 <= #[trigger] r[i] < n by {
            assert(r.contains(r[i]));
            if r[i] != m {
                let k = choose|k: int| 0 <= k < o.len() && o[k] == r[i];
                assert(0 <= o[k] < m);
            }
        }
    }
}

/// The positions as they are held.
pub open spec fn positions(v: Seq<usize>) -> Seq<int> {
    Seq::new(v.len(), |i: int| v[i] as int)
}

proof fn lemma_placed_at(order: Seq<int>, times: Seq<u64>, p: int, k: int)
    requires
        0 <= k <= order.len(),
        k > 0 ==> times[order[k - 1]] >= times[p],
        forall|i: int| k <= i < order.len() ==> times[#[trigger] order[i]] < times[p],
    ensures
        placed(order, times, p) == order.insert(k, p),
    decreases order.len(),
{
    if k < order.len() {
        assert(times[order[order.len() - 1]] < times[p]);
        let init = order.drop_last();
        assert forall|i: int| k <= i < init.len() implies times[#[trigger] init[i]] < times[p] by {
            assert(init[i] == order[i]);
        }
        lemma_placed_at(init, times, p, k);
        assert(init.insert(k, p).push(order.last()) =~= order.insert(k, p));
    } else {
        assert(order.insert(k, p) =~= order.push(p));
    }
}

fn rank(times: &[u64]) -> (r: Vec<usize>)
    ensures
        positions(r@) == ranked(times@, times@.len()),
{
    let n: usize = times.len();
    let mut out: Vec<usize> = Vec::new();
    let mut p: usize = 0;
    assert(positions(out@) =~= ranked(times@, 0));
    while p < n
        invariant
            n == times@.len(),
            p <= n,
            positions(out@) == ranked(times@, p as nat),
        decreases n - p,
    {
        let ghost o = positions(out@);
        proof {
            law_ranking_is_newest_first(times@, p as nat);
            assert(o.len() == p);
            assert forall|i: int| 0 <= i < out@.len() implies #[trigger] out@[i] < n by {
                assert(0 <= o[i] < p);
            }
        }
        let mut k: usize = out.len();
        while k > 0 && times[out[k - 1]] < times[p]
            invariant
                n == times@.len(),
                p < n,
                k <= out@.len(),
                o == positions(out@),
                is_newest_first(o, times@, p as int),
                forall|i: int| 0 <= i < out@.len() ==> #[trigger] out@[i] < n,
                forall|i: int| k <= i < o.len() ==> times@[#[trigger] o[i]] < times@[p as int],
            decreases k,
        {
            assert(o[k - 1] == out@[k - 1]);
            k -= 1;
        }
        proof {
            if k > 0 {
                assert(o[k - 1] == out@[k - 1]);
            }
            lemma_placed_at(o, times@, p as int, k as int);
        }
        out.insert(k, p);
        assert(positions(out@) =~= o.insert(k as int, p as int));
        p += 1;
    }
    out
}

/// The numbers, the largest first.
pub open spec fn descending(v: Seq<usize>) -> Seq<usize> {
    let keys = Seq::new(v.len(), |i: int| v[i] as u64);
    let order = ranked(keys, v.len());
    Seq::new(order.len(), |i: int| v[order[i]])
}

fn sort_descending(v: &[usize]) -> (r: Vec<usize>)
    ensures
        r@ == descending(v@),
{
    let n: usize = v.len();
    let mut keys: Vec<u64> = Vec::new();
    let mut i: usize = 0;
    while i < n
        invariant
            n == v@.len(),
            i <= n,
            keys@.len() == i,
            forall|k: int| 0 <= k < i ==> #[trigger] keys@[k] == v@[k] as u64,
        decreases n - i,
    {
        keys.push(v[i] as u64);
        i += 1;
    }
    let ghost want = Seq::new(v@.len(), |i: int| v@[i] as u64);
    assert(keys@ =~= want);
    let order = rank(&keys);
    let ghost o = ranked(want, v@.len());
    proof {
        law_ranking_is_newest_first(want, v@.len());
        assert(positions(order@) == o);
        assert(order@.len() == n);
    }
    let mut out: Vec<usize> = Vec::new();
    i = 0;
    while i < n
        invariant
            n == v@.len(),
            order@.len() == n,
            i <= n,
            o == positions(order@),
            forall|k: int| 0 <= k < n ==> 0 <= #[trigger] o[k] < n,
            out@.len() == i,
            forall|k: int| 0 <= k < i ==> #[trigger] out@[k] == v@[o[k]],
        decreases n - i,
    {
        assert(o[i as int] == order@[i as int]);
        out.push(v[order[i]]);
        i += 1;
    }
    assert(out@ =~= descending(v@));
    out
}

// ---------------------------------------------------------------------------
// What is dropped
// ---------------------------------------------------------------------------

/// When each offer came: those of the local network, then those from beyond.
pub open spec fn arrival_times(pending: Seq<(String, u64)>, cross: Seq<(usize, u64)>) -> Seq<u64> {
    Seq::new(pending.len(), |i: int| pending[i].1) + Seq::new(cross.len(), |i: int| cross[i].1)
}

/// The positions of the offers beyond the `max` newest, the newest of them first.
pub open spec fn over_cap(times: Seq<u64>, max: nat) -> Seq<int> {
    if times.len() <= max {
        seq![]
    } else {
        ranked(times, times.len()).skip(max as int)
    }
}

/// The offers of the local network among the positions `d`.
pub open spec fn pending_among(d: Seq<int>, pending: Seq<(String, u64)>) -> Seq<Seq<char>>
    decreases d.len(),
{
    if d.len() == 0 {
        seq![]
    } else {
        let init = pending_among(d.drop_last(), pending);
        if d.last() < pending.len() {
            init.push(pending[d.last()].0@)
        } else {
            init
        }
    }
}

/// The offers from beyond among the positions `d`, of which `m` are of the local network.
pub open spec fn cross_among(d: Seq<int>, m: int, cross: Seq<(usize, u64)>) -> Seq<usize>
    decreases d.len(),
{
    if d.len() == 0 {
        seq![]
    } else {
        let init = cross_among(d.drop_last(), m, cross);
        if d.last() < m {
            init
        } else {
            init.push(cross[d.last() - m].0)
        }
    }
}

/// Which offers are dropped so that `max` stay in all: the older ones, wherever they come from.
/// Returns the identifiers of those of the local network, and the positions of those from beyond, the
/// last first, so that they can be taken out one after the other.
pub fn select_over_cap(pending: &[(String, u64)], cross: &[(usize, u64)], max: usize) -> (r: (
    Vec<String>,
    Vec<usize>,
))
    requires
        pending@.len() + cross@.len() <= usize::MAX,
    ensures
        ({
            let d = over_cap(arrival_times(pending@, cross@), max as nat);
            &&& crate::text::views(r.0@) == pending_among(d, pending@)
            &&& r.1@ == descending(cross_among(d, pending@.len() as int, cross@))
        }),
{
    let m: usize = pending.len();
    let c: usize = cross.len();
    let n: usize = m + c;
    let ghost times = arrival_times(pending@, cross@);
    let mut ids: Vec<String> = Vec::new();
    let mut spots: Vec<usize> = Vec::new();
    if n <= max {
        proof {
            assert(crate::text::views(ids@) =~= pending_among(seq![], pending@));
            law_ranking_is_newest_first(Seq::new(0, |i: int| 0u64), 0);
            assert(spots@ =~= descending(cross_among(seq![], m as int, cross@)));
        }
        return (ids, spots);
    }
    let mut all: Vec<u64> = Vec::new();
    let mut i: usize = 0;
    while i < m
        invariant
            m == pending@.len(),
            i <= m,
            all@.len() == i,
            forall|k: int| 0 <= k < i ==> #[trigger] all@[k] == pending@[k].1,
        decreases m - i,
    {
        all.push(pending[i].1);
        i += 1;
    }
    i = 0;
    while i < c
        invariant
            m == pending@.len(),
            c == cross@.len(),
            i <= c,
            all@.len() == m + i,
            forall|k: int| 0 <= k < m ==> #[trigger] all@[k] == pending@[k].1,
            forall|k: int| m <= k < m + i ==> #[trigger] all@[k] == cross@[k - m].1,
        decreases c - i,
    {
        all.push(cross[i].1);
        i += 1;
    }
    assert(all@ =~= times);
    let order = rank(&all);
    let ghost o = ranked(times, n as nat);
    let ghost d = over_cap(times, max as nat);
    proof {
        law_ranking_is_newest_first(times, n as nat);
        assert(order@.len() == n);
    }
    i = max;
    assert(d.take(0) =~= Seq::<int>::empty());
    assert(crate::text::views(ids@) =~= pending_among(d.take(0), pending@));
    assert(spots@ =~= cross_among(d.take(0), m as int, cross@));
    while i < n
        invariant
            m == pending@.len(),
            c == cross@.len(),
            n == m + c,
            max <= i <= n,
            order@.len() == n,
            o == positions(order@),
            forall|k: int| 0 <= k < n ==> 0 <= #[trigger] o[k] < n,
            d == o.skip(max as int),
            crate::text::views(ids@) == pending_among(d.take(i - max), pending@),
            spots@ == cross_among(d.take(i - max), m as int, cross@),
        decreases n - i,
    {
        let p: usize = order[i];
        proof {
            assert(o[i as int] == p);
            assert(d.take(i - max + 1).drop_last() =~= d.take(i - max));
            assert(d.take(i - max + 1).last() == p);
        }
        if p < m {
            let s = pending[p].0.clone();
            proof {
                crate::text::lemma_views_push(ids@, s);
            }
            ids.push(s);
        } else {
            spots.push(cross[p - m].0);
        }
        i += 1;
    }
    assert(d.take(n - max) =~= d);
    (ids, sort_descending(&spots))
}

/// As many offers stay as may, and each of them is at least as new as each that is dropped.
pub proof fn law_the_newest_offers_stay(times: Seq<u64>, max: nat)
    ensures
        ({
            let d = over_cap(times, max);
            &&& d.len() == if times.len() <= max {
                0
            } else {
                times.len() - max
            }
            &&& d.no_duplicates()
            &&& forall|i: int| 0 <= i < d.len() ==> 0 <= #[trigger] d[i] < times.len()
            &&& forall|kept: int, i: int|
                0 <= kept < times.len() && !d.contains(kept) && 0 <= i < d.len()
                    ==> #[trigger] times[kept] >= times[#[trigger] d[i]]
        }),
{
    let n = times.len();
    law_ranking_is_newest_first(times, n);
    let o = ranked(times, n);
    let d = over_cap(times, max);
    if n > max {
        assert forall|i: int, j: int| 0 <= i < d.len() && 0 <= j < d.len() && i != j implies d[i]
            != d[j] by {
            assert(d[i] == o[i + max] && d[j] == o[j + max]);
        }
        assert forall|kept: int, i: int|
            0 <= kept < n && !d.contains(kept) && 0 <= i < d.len() implies #[trigger] times[kept]
            >= times[#[trigger] d[i]] by {
            lemma_all_ranked(times, n, kept);
            let k = choose|k: int| 0 <= k < o.len() && o[k] == kept;
            if k >= max {
                assert(d[k - max] == kept);
                assert(d.contains(kept));
            }
            assert(d[i] == o[i + max]);
            assert(times[o[k]] >= times[o[i + max]]);
        }
    }
}

proof fn lemma_all_ranked(times: Seq<u64>, n: nat, p: int)
    requires
        0 <= p < n,
    ensures
        ranked(times, n).contains(p),
    decreases n,
{
    let m = (n - 1) as nat;
    law_ranking_is_newest_first(times, m);
    let o = ranked(times, m);
    assert(!o.contains(m as int)) by {
        if o.contains(m as int) {
            let i = choose|i: int| 0 <= i < o.len() && o[i] == m as int;
            assert(0 <= o[i] < m);
        }
    }
    lemma_placed(o, times, m as int);
    if p < m {
        lemma_all_ranked(times, m, p);
    }
}

// ---------------------------------------------------------------------------
// The lists
// ---------------------------------------------------------------------------

/// The same offer, though it may have come twice.
pub open spec fn same_offer(a: CrossLanOffer, b: CrossLanOffer) -> bool {
    a.from@ == b.from@ && a.ext_file_ep@ == b.ext_file_ep@ && a.manifest@ == b.manifest@
}

/// The offers that are not `o`.
pub open spec fn others(v: Seq<CrossLanOffer>, o: CrossLanOffer) -> Seq<CrossLanOffer>
    decreases v.len(),
{
    if v.len() == 0 {
        seq![]
    } else if same_offer(v.last(), o) {
        others(v.drop_last(), o)
    } else {
        others(v.drop_last(), o).push(v.last())
    }
}

/// The last `max` of a list.
pub open spec fn last_of(v: Seq<CrossLanOffer>, max: nat) -> Seq<CrossLanOffer> {
    if v.len() <= max {
        v
    } else {
        v.skip(v.len() - max)
    }
}

/// `v` without the positions `d`, taken out one after the other.
pub open spec fn without_spots(v: Seq<CrossLanOffer>, d: Seq<usize>) -> Seq<CrossLanOffer>
    decreases d.len(),
{
    if d.len() == 0 {
        v
    } else {
        let t = without_spots(v, d.drop_last());
        if d.last() < t.len() {
            t.remove(d.last() as int)
        } else {
            t
        }
    }
}

/// The offers from beyond with their positions and times.
pub open spec fn numbered(v: Seq<CrossLanOffer>) -> Seq<(usize, u64)> {
    Seq::new(v.len(), |i: int| (i as usize, v[i].received_at))
}

/// What other devices offer.
pub struct ReceivedOffers {
    /// The offers of the local network: their identifiers, and when they came.
    pub pending: Vec<(String, u64)>,
    /// The offers from beyond.
    pub cross: Vec<CrossLanOffer>,
}

/// `v` without the entries of `ids`.
pub open spec fn without_ids(v: Seq<(String, u64)>, ids: Seq<Seq<char>>) -> Seq<(String, u64)>
    decreases v.len(),
{
    if v.len() == 0 {
        seq![]
    } else if ids.contains(v.last().0@) {
        without_ids(v.drop_last(), ids)
    } else {
        without_ids(v.drop_last(), ids).push(v.last())
    }
}

fn holds_id(ids: &[String], id: &str) -> (r: bool)
    ensures
        r == crate::text::views(ids@).contains(id@),
{
    let mut i: usize = 0;
    while i < ids.len()
        invariant
            i <= ids@.len(),
            forall|k: int| 0 <= k < i ==> #[trigger] crate::text::views(ids@)[k] != id@,
        decreases ids@.len() - i,
    {
        if same(ids[i].as_str(), id) {
            assert(crate::text::views(ids@)[i as int] == id@);
            return true;
        }
        i += 1;
    }
    false
}

// ---------------------------------------------------------------------------
// Never more than three
// ---------------------------------------------------------------------------

/// The positions among `d` that are of the local network.
pub open spec fn low(d: Seq<int>, m: int) -> Set<int> {
    d.to_set().filter(|p: int| p < m)
}

proof fn lemma_low(d: Seq<int>, pending: Seq<(String, u64)>)
    requires
        d.no_duplicates(),
        forall|i: int| 0 <= i < d.len() ==> 0 <= #[trigger] d[i],
    ensures
        low(d, pending.len() as int).finite(),
        low(d, pending.len() as int).len() == pending_among(d, pending).len(),
        forall|p: int| #[trigger]
            low(d, pending.len() as int).contains(p) ==> 0 <= p < pending.len() && pending_among(
                d,
                pending,
            ).contains(pending[p].0@),
    decreases d.len(),
{
    let m = pending.len() as int;
    if d.len() == 0 {
        assert(low(d, m) =~= Set::<int>::empty());
    } else {
        let init = d.drop_last();
        let last = d.last();
        assert(d[d.len() - 1] == last);
        assert forall|i: int| 0 <= i < init.len() implies 0 <= #[trigger] init[i] by {
            assert(init[i] == d[i]);
        }
        lemma_low(init, pending);
        let ids = pending_among(init, pending);
        assert(!init.to_set().contains(last)) by {
            if init.contains(last) {
                let i = choose|i: int| 0 <= i < init.len() && init[i] == last;
                assert(d[i] == d[d.len() - 1]);
            }
        }
        assert(init.push(last) =~= d);
        assert(d.to_set() =~= init.to_set().insert(last)) by {
            assert forall|x: int| #[trigger] d.to_set().contains(x) <==> init.to_set().insert(
                last,
            ).contains(x) by {
                if d.contains(x) {
                    let i = choose|i: int| 0 <= i < d.len() && d[i] == x;
                    if i < init.len() {
                        assert(init[i] == x);
                    }
                }
                if init.contains(x) {
                    let i = choose|i: int| 0 <= i < init.len() && init[i] == x;
                    assert(d[i] == x);
                }
                assert(d.contains(last));
            }
        }
        if last < m {
            assert(low(d, m) =~= low(init, m).insert(last));
            let now = pending_among(d, pending);
            assert(now == ids.push(pending[last].0@));
            assert forall|p: int| #[trigger] low(d, m).contains(p) implies 0 <= p < m
                && now.contains(pending[p].0@) by {
                if p == last {
                    assert(now[ids.len() as int] == pending[last].0@);
                } else {
                    assert(low(init, m).contains(p));
                    let i = choose|i: int| 0 <= i < ids.len() && ids[i] == pending[p].0@;
                    assert(now[i] == pending[p].0@);
                }
            }
        } else {
            assert(low(d, m) =~= low(init, m));
        }
    }
}

proof fn lemma_without_ids(v: Seq<(String, u64)>, ids: Seq<Seq<char>>, q: Set<int>)
    requires
        q.finite(),
        forall|p: int| #[trigger] q.contains(p) ==> 0 <= p < v.len() && ids.contains(v[p].0@),
    ensures
        without_ids(v, ids).len() + q.len() <= v.len(),
    decreases v.len(),
{
    if v.len() == 0 {
        assert(q =~= Set::<int>::empty());
    } else {
        let init = v.drop_last();
        let n = v.len() - 1;
        let rest = q.remove(n);
        assert forall|p: int| #[trigger] rest.contains(p) implies 0 <= p < init.len()
            && ids.contains(init[p].0@) by {
            assert(q.contains(p));
            assert(init[p] == v[p]);
        }
        lemma_without_ids(init, ids, rest);
    }
}

proof fn lemma_cross_among(d: Seq<int>, m: int, v: Seq<CrossLanOffer>)
    requires
        d.no_duplicates(),
        0 <= m,
        v.len() <= usize::MAX,
        forall|i: int| 0 <= i < d.len() ==> #[trigger] d[i] < m + v.len(),
    ensures
        ({
            let c = cross_among(d, m, numbered(v));
            &&& c.no_duplicates()
            &&& forall|i: int|
                0 <= i < c.len() ==> #[trigger] c[i] < v.len() && d.contains(c[i] + m)
        }),
    decreases d.len(),
{
    if d.len() > 0 {
        let init = d.drop_last();
        let last = d.last();
        assert(d[d.len() - 1] == last);
        assert forall|i: int| 0 <= i < init.len() implies #[trigger] init[i] < m + v.len() by {
            assert(init[i] == d[i]);
        }
        lemma_cross_among(init, m, v);
        let b = cross_among(init, m, numbered(v));
        let c = cross_among(d, m, numbered(v));
        assert forall|i: int| 0 <= i < b.len() implies d.contains(#[trigger] b[i] + m) by {
            let k = choose|k: int| 0 <= k < init.len() && init[k] == b[i] + m;
            assert(d[k] == b[i] + m);
        }
        if last >= m {
            let x = numbered(v)[last - m].0;
            assert(x == last - m);
            assert(c == b.push(x));
            assert forall|i: int| 0 <= i < b.len() implies b[i] != x by {
                assert(b[i] < v.len());
                let k = choose|k: int| 0 <= k < init.len() && init[k] == b[i] + m;
                assert(d[k] == b[i] + m);
                assert(d[k] != d[d.len() - 1]);
            }
            assert(d.contains(last));
            assert forall|i: int| 0 <= i < c.len() implies #[trigger] c[i] < v.len() && d.contains(
                c[i] + m,
            ) by {
                if i < b.len() {
                    assert(c[i] == b[i]);
                }
            }
        }
    }
}

proof fn lemma_descending(v: Seq<usize>)
    requires
        v.no_duplicates(),
    ensures
        ({
            let r = descending(v);
            &&& r.len() == v.len()
            &&& forall|i: int, j: int| 0 <= i < j < r.len() ==> #[trigger] r[i] > #[trigger] r[j]
            &&& forall|i: int| 0 <= i < r.len() ==> v.contains(#[trigger] r[i])
        }),
{
    let keys = Seq::new(v.len(), |i: int| v[i] as u64);
    law_ranking_is_newest_first(keys, v.len());
    let o = ranked(keys, v.len());
    let r = descending(v);
    assert forall|i: int, j: int| 0 <= i < j < r.len() implies #[trigger] r[i] > #[trigger] r[j] by {
        assert(0 <= o[i] < v.len() && 0 <= o[j] < v.len());
        assert(keys[o[i]] >= keys[o[j]]);
        assert(o[i] != o[j]);
        assert(v[o[i]] != v[o[j]]);
    }
    assert forall|i: int| 0 <= i < r.len() implies v.contains(#[trigger] r[i]) by {
        assert(0 <= o[i] < v.len());
        assert(v[o[i]] == r[i]);
    }
}

proof fn lemma_without_spots(v: Seq<CrossLanOffer>, d: Seq<usize>)
    requires
        forall|i: int, j: int| 0 <= i < j < d.len() ==> #[trigger] d[i] > #[trigger] d[j],
        forall|i: int| 0 <= i < d.len() ==> #[trigger] d[i] < v.len(),
    ensures
        without_spots(v, d).len() == v.len() - d.len(),
        d.len() > 0 ==> d.last() <= v.len() - d.len(),
    decreases d.len(),
{
    if d.len() > 0 {
        let init = d.drop_last();
        assert forall|i: int, j: int| 0 <= i < j < init.len() implies #[trigger] init[i]
            > #[trigger] init[j] by {
            assert(d[i] > d[j]);
        }
        assert forall|i: int| 0 <= i < init.len() implies #[trigger] init[i] < v.len() by {
            assert(init[i] == d[i]);
        }
        lemma_without_spots(v, init);
        if init.len() > 0 {
            assert(d[d.len() - 2] > d[d.len() - 1]);
            assert(init.last() == d[d.len() - 2]);
        }
        assert(d[d.len() - 1] < v.len());
    }
}

proof fn lemma_split_len(d: Seq<int>, pending: Seq<(String, u64)>, cross: Seq<(usize, u64)>)
    ensures
        pending_among(d, pending).len() + cross_among(d, pending.len() as int, cross).len() == d.len(),
    decreases d.len(),
{
    if d.len() > 0 {
        lemma_split_len(d.drop_last(), pending, cross);
    }
}

/// After dropping, no more than three offers are left in both lists together.
pub proof fn law_never_more_than_the_cap(pending: Seq<(String, u64)>, cross: Seq<CrossLanOffer>)
    requires
        cross.len() <= usize::MAX,
    ensures
        ({
            let d = over_cap(arrival_times(pending, numbered(cross)), MAX_RECEIVED_OFFERS as nat);
            let spots = descending(cross_among(d, pending.len() as int, numbered(cross)));
            without_ids(pending, pending_among(d, pending)).len() + without_spots(cross, spots).len()
                <= MAX_RECEIVED_OFFERS
        }),
{
    let times = arrival_times(pending, numbered(cross));
    let m = pending.len() as int;
    let d = over_cap(times, MAX_RECEIVED_OFFERS as nat);
    law_the_newest_offers_stay(times, MAX_RECEIVED_OFFERS as nat);
    assert forall|i: int| 0 <= i < d.len() implies #[trigger] d[i] < m + cross.len() by {}
    lemma_low(d, pending);
    lemma_without_ids(pending, pending_among(d, pending), low(d, m));
    lemma_cross_among(d, m, cross);
    let c = cross_among(d, m, numbered(cross));
    lemma_descending(c);
    let spots = descending(c);
    assert forall|i: int| 0 <= i < spots.len() implies #[trigger] spots[i] < cross.len() by {
        assert(c.contains(spots[i]));
        let k = choose|k: int| 0 <= k < c.len() && c[k] == spots[i];
        assert(c[k] < cross.len());
    }
    lemma_without_spots(cross, spots);
    lemma_split_len(d, pending, numbered(cross));
}

impl ReceivedOffers {
    /// No offers.
    pub fn new() -> (r: Self)
        ensures
            r.pending@.len() == 0,
            r.cross@.len() == 0,
    {
        ReceivedOffers { pending: Vec::new(), cross: Vec::new() }
    }

    /// An offer of the local network came, or is gone (`None`).
    pub fn note_pending(&mut self, id: &str, came: Option<u64>)
        requires
            old(self).pending@.len() < usize::MAX,
        ensures
            final(self).cross == old(self).cross,
            ({
                let rest = without_ids(old(self).pending@, seq![id@]);
                match came {
                    None => final(self).pending@ == rest,
                    Some(t) => {
                        &&& final(self).pending@.len() == rest.len() + 1
                        &&& final(self).pending@.drop_last() == rest
                        &&& final(self).pending@.last().0@ == id@
                        &&& final(self).pending@.last().1 == t
                    },
                }
            }),
    {
        let mut ids: Vec<String> = Vec::new();
        ids.push(id.to_owned());
        assert(crate::text::views(ids@) =~= seq![id@]);
        self.drop_ids(&ids);
        match came {
            Some(t) => {
                let ghost before = self.pending@;
                self.pending.push((id.to_owned(), t));
                assert(self.pending@.drop_last() =~= before);
            },
            None => {},
        }
    }

    fn drop_ids(&mut self, ids: &[String])
        ensures
            final(self).cross == old(self).cross,
            final(self).pending@ == without_ids(old(self).pending@, crate::text::views(ids@)),
    {
        let n: usize = self.pending.len();
        let mut rest: Vec<(String, u64)> = Vec::new();
        let mut i: usize = 0;
        let ghost v = self.pending@;
        assert(rest@ =~= without_ids(v.take(0), crate::text::views(ids@)));
        while i < n
            invariant
                n == self.pending@.len(),
                v == self.pending@,
                i <= n,
                rest@ == without_ids(v.take(i as int), crate::text::views(ids@)),
            decreases n - i,
        {
            assert(v.take(i + 1).drop_last() =~= v.take(i as int));
            if !holds_id(ids, self.pending[i].0.as_str()) {
                let e = (self.pending[i].0.clone(), self.pending[i].1);
                assert(e == v[i as int]);
                rest.push(e);
            }
            i += 1;
        }
        assert(v.take(n as int) =~= v);
        self.pending = rest;
    }

    /// An offer from beyond came. The same offer is not kept twice, and only the newest three stay.
    pub fn push_cross_lan_offer(&mut self, offer: CrossLanOffer)
        requires
            old(self).cross@.len() < usize::MAX,
        ensures
            final(self).pending == old(self).pending,
            final(self).cross@ == last_of(
                others(old(self).cross@, offer).push(offer),
                MAX_CROSS_LAN_OFFERS as nat,
            ),
    {
        let n: usize = self.cross.len();
        let mut rest: Vec<CrossLanOffer> = Vec::new();
        let mut i: usize = 0;
        let ghost v = self.cross@;
        assert(rest@ =~= others(v.take(0), offer));
        while i < n
            invariant
                n == self.cross@.len(),
                v == self.cross@,
                i <= n,
                rest@.len() <= i,
                rest@ == others(v.take(i as int), offer),
            decreases n - i,
        {
            assert(v.take(i + 1).drop_last() =~= v.take(i as int));
            let o = &self.cross[i];
            if !(same(o.from.as_str(), offer.from.as_str()) && same(
                o.ext_file_ep.as_str(),
                offer.ext_file_ep.as_str(),
            ) && same(o.manifest.as_str(), offer.manifest.as_str())) {
                rest.push(o.clone());
            }
            i += 1;
        }
        assert(v.take(n as int) =~= v);
        rest.push(offer);
        let ghost all = rest@;
        assert(all.skip(0) =~= all);
        let ghost mut gone: int = 0;
        while rest.len() > MAX_CROSS_LAN_OFFERS
            invariant
                0 <= gone <= all.len(),
                rest@ == all.skip(gone),
                all.len() <= MAX_CROSS_LAN_OFFERS ==> gone == 0,
                all.len() > MAX_CROSS_LAN_OFFERS ==> gone <= all.len() - MAX_CROSS_LAN_OFFERS,
            decreases rest@.len(),
        {
            let _ = rest.remove(0);
            proof {
                assert(rest@ =~= all.skip(gone + 1));
                gone = gone + 1;
            }
        }
        self.cross = rest;
    }

    /// Drops what is too much, in both lists. Returns the identifiers of the offers of the local
    /// network that were dropped.
    pub fn enforce_received_cap(&mut self) -> (r: Vec<String>)
        requires
            old(self).pending@.len() + old(self).cross@.len() <= usize::MAX,
        ensures
            ({
                let d = over_cap(
                    arrival_times(old(self).pending@, numbered(old(self).cross@)),
                    MAX_RECEIVED_OFFERS as nat,
                );
                let spots = descending(
                    cross_among(d, old(self).pending@.len() as int, numbered(old(self).cross@)),
                );
                &&& crate::text::views(r@) == pending_among(d, old(self).pending@)
                &&& final(self).pending@ == without_ids(
                    old(self).pending@,
                    crate::text::views(r@),
                )
                &&& final(self).cross@ == without_spots(old(self).cross@, spots)
            }),
            final(self).pending@.len() + final(self).cross@.len() <= MAX_RECEIVED_OFFERS,
    {
        let n: usize = self.cross.len();
        let mut list: Vec<(usize, u64)> = Vec::new();
        let mut i: usize = 0;
        while i < n
            invariant
                n == self.cross@.len(),
                *self == *old(self),
                i <= n,
                list@.len() == i,
                forall|k: int|
                    0 <= k < i ==> #[trigger] list@[k] == (k as usize, self.cross@[k].received_at),
            decreases n - i,
        {
            list.push((i, self.cross[i].received_at));
            i += 1;
        }
        assert(list@ =~= numbered(self.cross@));
        let (ids, spots) = select_over_cap(&self.pending, &list, MAX_RECEIVED_OFFERS);
        let ghost v = self.cross@;
        let m: usize = spots.len();
        i = 0;
        assert(spots@.take(0) =~= Seq::<usize>::empty());
        while i < m
            invariant
                m == spots@.len(),
                i <= m,
                self.pending == old(self).pending,
                self.cross@ == without_spots(v, spots@.take(i as int)),
            decreases m - i,
        {
            assert(spots@.take(i + 1).drop_last() =~= spots@.take(i as int));
            if spots[i] < self.cross.len() {
                let _ = self.cross.remove(spots[i]);
            }
            i += 1;
        }
        assert(spots@.take(m as int) =~= spots@);
        self.drop_ids(&ids);
        proof {
            law_never_more_than_the_cap(old(self).pending@, v);
        }
        ids
    }
}

impl Default for ReceivedOffers {
    fn default() -> (r: Self)
        ensures
            r.pending@.len() == 0,
            r.cross@.len() == 0,
    {
        ReceivedOffers::new()
    }
}

/// Of the offers that are dropped those of the local network are named by their own identifiers, and
/// those from beyond by their own numbers; none is left out, and no other is named.
pub proof fn law_dropped_offers_are_named(
    d: Seq<int>,
    p: int,
    pending: Seq<(String, u64)>,
    cross: Seq<(usize, u64)>,
)
    requires
        0 <= p < pending.len() + cross.len(),
    ensures
        pending_among(seq![], pending).len() == 0,
        cross_among(seq![], pending.len() as int, cross).len() == 0,
        p < pending.len() ==> pending_among(d.push(p), pending) == pending_among(d, pending).push(
            pending[p].0@,
        ) && cross_among(d.push(p), pending.len() as int, cross) == cross_among(
            d,
            pending.len() as int,
            cross,
        ),
        p >= pending.len() ==> pending_among(d.push(p), pending) == pending_among(d, pending)
            && cross_among(d.push(p), pending.len() as int, cross) == cross_among(
            d,
            pending.len() as int,
            cross,
        ).push(cross[p - pending.len()].0),
{
    assert(d.push(p).drop_last() =~= d);
}

/// An offer counts as new by when it came, wherever it came from.
pub proof fn law_offers_count_by_their_time(
    pending: Seq<(String, u64)>,
    cross: Seq<(usize, u64)>,
    i: int,
)
    ensures
        arrival_times(pending, cross).len() == pending.len() + cross.len(),
        0 <= i < pending.len() ==> arrival_times(pending, cross)[i] == pending[i].1,
        0 <= i < cross.len() ==> arrival_times(pending, cross)[pending.len() + i] == cross[i].1,
{
}

/// An offer that comes again takes the place of the earlier one: the same device, address and files.
/// All others stay, in their order.
pub proof fn law_other_offers_stay(v: Seq<CrossLanOffer>, x: CrossLanOffer, o: CrossLanOffer)
    ensures
        others(seq![], o) == Seq::<CrossLanOffer>::empty(),
        x.from@ == o.from@ && x.ext_file_ep@ == o.ext_file_ep@ && x.manifest@ == o.manifest@ ==> others(
            v.push(x),
            o,
        ) == others(v, o),
        !(x.from@ == o.from@ && x.ext_file_ep@ == o.ext_file_ep@ && x.manifest@ == o.manifest@)
            ==> others(v.push(x), o) == others(v, o).push(x),
{
    assert(v.push(x).drop_last() =~= v);
}

/// Of a list the last ones stay, as many as may.
pub proof fn law_the_last_ones_stay(v: Seq<CrossLanOffer>, max: nat, i: int)
    ensures
        v.len() <= max ==> last_of(v, max) == v,
        v.len() > max ==> last_of(v, max).len() == max,
        v.len() > max && 0 <= i < max ==> last_of(v, max)[i] == v[v.len() - max + i],
{
}

/// Taking the offers of some identifiers out leaves all others, in their order.
pub proof fn law_only_named_offers_go(v: Seq<(String, u64)>, x: (String, u64), ids: Seq<Seq<char>>)
    ensures
        without_ids(seq![], ids) == Seq::<(String, u64)>::empty(),
        ids.contains(x.0@) ==> without_ids(v.push(x), ids) == without_ids(v, ids),
        !ids.contains(x.0@) ==> without_ids(v.push(x), ids) == without_ids(v, ids).push(x),
{
    assert(v.push(x).drop_last() =~= v);
}

/// Taking positions out, the largest first, takes out what stood there, and nothing else.
#[verifier::rlimit(30)]
pub proof fn law_only_named_positions_go(v: Seq<CrossLanOffer>, d: Seq<usize>)
    requires
        forall|i: int, j: int| 0 <= i < j < d.len() ==> #[trigger] d[i] > #[trigger] d[j],
        forall|i: int| 0 <= i < d.len() ==> #[trigger] d[i] < v.len(),
    ensures
        without_spots(v, d).len() == v.len() - d.len(),
        without_spots(v, d).to_multiset().add(
            Seq::new(d.len(), |i: int| v[d[i] as int]).to_multiset(),
        ) == v.to_multiset(),
        forall|i: int|
            0 <= i < v.len() && (forall|k: int| 0 <= k < d.len() ==> i < #[trigger] d[k])
                ==> #[trigger] without_spots(v, d)[i] == v[i],
    decreases d.len(),
{
    broadcast use vstd::seq_lib::group_to_multiset_ensures;

    let out = Seq::new(d.len(), |i: int| v[d[i] as int]);
    if d.len() == 0 {
        assert(out =~= Seq::<CrossLanOffer>::empty());
        assert(v.to_multiset().add(out.to_multiset()) =~= v.to_multiset());
    } else {
        let e = d.drop_last();
        let t = without_spots(v, e);
        let l = d.last() as int;
        assert(d[d.len() - 1] == d.last());
        assert forall|i: int, j: int| 0 <= i < j < e.len() implies #[trigger] e[i] > #[trigger] e[j] by {
            assert(d[i] > d[j]);
        }
        assert forall|i: int| 0 <= i < e.len() implies #[trigger] e[i] < v.len() by {
            assert(d[i] < v.len());
        }
        law_only_named_positions_go(v, e);
        assert forall|k: int| 0 <= k < e.len() implies l < #[trigger] e[k] by {
            assert(d[k] > d[d.len() - 1]);
        }
        assert(t[l] == v[l]);
        lemma_room(d, v.len());
        let prev = Seq::new(e.len(), |i: int| v[e[i] as int]);
        assert(out =~= prev.push(v[l]));
        let w = without_spots(v, d);
        assert(w == t.remove(l));
        assert(t.contains(t[l]));
        assert(w.to_multiset() =~= t.to_multiset().remove(t[l]));
        assert(w.to_multiset().add(out.to_multiset()) =~= t.to_multiset().add(prev.to_multiset()));
        assert forall|i: int|
            0 <= i < v.len() && (forall|k: int| 0 <= k < d.len() ==> i < #[trigger] d[k])
            implies #[trigger] w[i] == v[i] by {
            assert(i < d[d.len() - 1]);
            assert forall|k: int| 0 <= k < e.len() implies i < #[trigger] e[k] by {
                assert(i < d[k]);
            }
            assert(t[i] == v[i]);
        }
    }
}

proof fn lemma_room(d: Seq<usize>, n: nat)
    requires
        d.len() > 0,
        forall|i: int, j: int| 0 <= i < j < d.len() ==> #[trigger] d[i] > #[trigger] d[j],
        forall|i: int| 0 <= i < d.len() ==> #[trigger] d[i] < n,
    ensures
        d.last() + d.len() <= n,
    decreases d.len(),
{
    if d.len() > 1 {
        let e = d.drop_last();
        assert forall|i: int, j: int| 0 <= i < j < e.len() implies #[trigger] e[i] > #[trigger] e[j] by {
            assert(d[i] > d[j]);
        }
        assert forall|i: int| 0 <= i < e.len() implies #[trigger] e[i] < n by {
            assert(d[i] < n);
        }
        lemma_room(e, n);
        assert(d[d.len() - 2] > d[d.len() - 1]);
        assert(e.last() == d[d.len() - 2]);
    }
}

/// Three offers wait at most, and of those from beyond three at most.
pub proof fn law_three_offers_wait_at_most(v: Seq<CrossLanOffer>, times: Seq<u64>)
    ensures
        last_of(v, MAX_CROSS_LAN_OFFERS as nat).len() <= 3,
        v.len() <= 3 ==> last_of(v, MAX_CROSS_LAN_OFFERS as nat) == v,
        times.len() <= 3 ==> over_cap(times, MAX_RECEIVED_OFFERS as nat).len() == 0,
        times.len() > 3 ==> over_cap(times, MAX_RECEIVED_OFFERS as nat).len() == times.len() - 3,
{
    law_the_newest_offers_stay(times, 3);
}

proof fn lemma_placed_stable(order: Seq<int>, times: Seq<u64>, p: int)
    requires
        order.no_duplicates(),
        !order.contains(p),
        forall|i: int| 0 <= i < order.len() ==> #[trigger] order[i] < p,
        forall|i: int, j: int|
            0 <= i <= j < order.len() ==> times[#[trigger] order[i]] >= times[#[trigger] order[j]],
        forall|i: int, j: int|
            0 <= i < j < order.len() && times[#[trigger] order[i]] == times[#[trigger] order[j]]
                ==> order[i] < order[j],
    ensures
        ({
            let r = placed(order, times, p);
            forall|i: int, j: int|
                0 <= i < j < r.len() && times[#[trigger] r[i]] == times[#[trigger] r[j]] ==> r[i] < r[j]
        }),
    decreases order.len(),
{
    let r = placed(order, times, p);
    if order.len() > 0 && times[order.last()] < times[p] {
        let o = order.drop_last();
        let l = order.last();
        let n = order.len() - 1;
        assert(order[n] == l);
        assert(forall|i: int| 0 <= i < o.len() ==> #[trigger] o[i] == order[i]);
        assert(!o.contains(p)) by {
            if o.contains(p) {
                let i = choose|i: int| 0 <= i < o.len() && o[i] == p;
                assert(order[i] == p);
            }
        }
        assert(o.no_duplicates());
        lemma_placed_stable(o, times, p);
        lemma_placed(o, times, p);
        let q = placed(o, times, p);
        assert forall|i: int, j: int|
            0 <= i < j < r.len() && times[#[trigger] r[i]] == times[#[trigger] r[j]] implies r[i]
            < r[j] by {
            if j == q.len() {
                assert(r[j] == l);
                assert(q.contains(q[i]));
                if q[i] != p {
                    let k = choose|k: int| 0 <= k < o.len() && o[k] == q[i];
                    assert(order[k] == r[i]);
                }
            } else {
                assert(r[i] == q[i] && r[j] == q[j]);
            }
        }
    }
}

/// Offers that came at one time stay in their order.
pub proof fn law_offers_of_one_time_stay_in_order(times: Seq<u64>, n: nat, i: int, j: int)
    ensures
        0 <= i < j < ranked(times, n).len() && times[ranked(times, n)[i]] == times[ranked(times, n)[j]]
            ==> ranked(times, n)[i] < ranked(times, n)[j],
{
    lemma_ranked_stable(times, n);
}

proof fn lemma_ranked_stable(times: Seq<u64>, n: nat)
    ensures
        forall|i: int, j: int|
            0 <= i < j < ranked(times, n).len() && times[#[trigger] ranked(times, n)[i]]
                == times[#[trigger] ranked(times, n)[j]] ==> ranked(times, n)[i] < ranked(times, n)[j],
    decreases n,
{
    if n > 0 {
        let m = (n - 1) as nat;
        let o = ranked(times, m);
        lemma_ranked_stable(times, m);
        law_ranking_is_newest_first(times, m);
        assert(!o.contains(m as int)) by {
            if o.contains(m as int) {
                let i = choose|i: int| 0 <= i < o.len() && o[i] == m as int;
                assert(0 <= o[i] < m);
            }
        }
        lemma_placed_stable(o, times, m as int);
    }
}

/// Numbers are put in order without losing any, the largest first; offers are numbered by their position
/// and carry their own time.
pub proof fn law_numbers_are_put_in_order(v: Seq<usize>, i: int, j: int, offers: Seq<CrossLanOffer>)
    requires
        0 <= i <= j < v.len(),
    ensures
        descending(v).len() == v.len(),
        descending(v)[i] >= descending(v)[j],
        descending(v).contains(v[i]),
        numbered(offers).len() == offers.len(),
        j < offers.len() && j <= usize::MAX ==> numbered(offers)[j].0 == j && numbered(offers)[j].1
            == offers[j].received_at,
{
    let keys = Seq::new(v.len(), |k: int| v[k] as u64);
    let order = ranked(keys, v.len());
    law_ranking_is_newest_first(keys, v.len());
    assert(order.len() == v.len());
    assert(keys[order[i]] >= keys[order[j]]);
    lemma_all_ranked(keys, v.len(), i);
    let k = choose|k: int| 0 <= k < order.len() && order[k] == i;
    assert(descending(v)[k] == v[i]);
}

} // verus!
