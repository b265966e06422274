//! The cache of files that were already transferred.
//!
//! It holds a bounded number of entries, drops the one that was not used for the longest time, and
//! passes over entries that are too old.

use lru::LruCache;
use std::num::NonZeroUsize;
use std::time::Instant;
use vstd::prelude::*;

use crate::clipboard::types::SyncId;
use crate::clock::{age, monotonic, nanos_since};
use crate::text;
use crate::text::{concat3, to_dec};

verus! {

/// What is known of a file in the cache.
#[derive(Debug)]
pub struct CacheEntry {
    pub path: String,
    pub size: u64,
    pub stored_at: Instant,
}

impl Clone for CacheEntry {
    fn clone(&self) -> (r: Self)
        ensures
            r == *self,
    {
        CacheEntry { path: self.path.clone(), size: self.size, stored_at: self.stored_at }
    }
}

impl CacheEntry {
    /// An entry that is stored now.
    pub fn new(path: String, size: u64) -> (r: Self)
        ensures
            r.path == path,
            r.size == size,
    {
        CacheEntry { path, size, stored_at: monotonic() }
    }
}

/// The hasher of the cache.
#[verifier::external_type_specification]
#[verifier::external_body]
pub struct ExLruHasher(lru::DefaultHasher);

/// A cache that drops what was not used for the longest time.
#[verifier::external_type_specification]
#[verifier::external_body]
#[verifier::reject_recursive_types(K)]
#[verifier::reject_recursive_types(V)]
#[verifier::reject_recursive_types(S)]
pub struct ExLruCache<K, V, S>(LruCache<K, V, S>);

/// The entries of the cache, the one that was used last first.
pub uninterp spec fn lru_entries(c: LruCache<String, CacheEntry>) -> Seq<(Seq<char>, CacheEntry)>;

/// The number of entries that the cache was made for.
pub uninterp spec fn lru_cap(c: LruCache<String, CacheEntry>) -> nat;

/// Some entry has the key `k`.
pub open spec fn holds_key(e: Seq<(Seq<char>, CacheEntry)>, k: Seq<char>) -> bool {
    exists|i: int| 0 <= i < e.len() && (#[trigger] e[i]).0 == k
}

/// The entry under `k`.
pub open spec fn entry_of(e: Seq<(Seq<char>, CacheEntry)>, k: Seq<char>) -> CacheEntry {
    e[choose|i: int| 0 <= i < e.len() && (#[trigger] e[i]).0 == k].1
}

/// The entries without those under `k`.
pub open spec fn without(e: Seq<(Seq<char>, CacheEntry)>, k: Seq<char>) -> Seq<
    (Seq<char>, CacheEntry),
>
    decreases e.len(),
{
    if e.len() == 0 {
        e
    } else if e[0].0 == k {
        without(e.drop_first(), k)
    } else {
        seq![e[0]] + without(e.drop_first(), k)
    }
}

/// The entries after `v` was put under `k`: it comes first; where there was none under `k` and the
/// cache was full, the last one goes.
pub open spec fn after_put(
    e: Seq<(Seq<char>, CacheEntry)>,
    k: Seq<char>,
    v: CacheEntry,
    cap: nat,
) -> Seq<(Seq<char>, CacheEntry)> {
    if holds_key(e, k) {
        seq![(k, v)] + without(e, k)
    } else if e.len() == cap {
        seq![(k, v)] + e.drop_last()
    } else {
        seq![(k, v)] + e
    }
}

/// The entries after `k` was looked up: its entry comes first.
pub open spec fn after_get(e: Seq<(Seq<char>, CacheEntry)>, k: Seq<char>) -> Seq<
    (Seq<char>, CacheEntry),
> {
    if holds_key(e, k) {
        seq![(k, entry_of(e, k))] + without(e, k)
    } else {
        e
    }
}

/// No key occurs twice, and there are not too many entries.
pub open spec fn sound(e: Seq<(Seq<char>, CacheEntry)>, cap: nat) -> bool {
    &&& e.len() <= cap
    &&& cap > 0
    &&& forall|i: int, j: int| 0 <= i < j < e.len() ==> (#[trigger] e[i]).0 != (#[trigger] e[j]).0
}

/// The greatest number of entries whose table can be laid out in memory.
pub open spec fn max_capacity() -> int {
    isize::MAX / 64
}

/// Calls `LruCache::new`: an empty cache for `cap` entries. It lays the table for all of them out at
/// once, and panics where no memory could hold it.
#[verifier::external_body]
fn lru_new(cap: usize) -> (r: LruCache<String, CacheEntry>)
    requires
        0 < cap <= max_capacity(),
    ensures
        lru_entries(r) == Seq::<(Seq<char>, CacheEntry)>::empty(),
        lru_cap(r) == cap,
{
    LruCache::new(NonZeroUsize::new(cap).unwrap())
}

/// Calls `LruCache::put`: the entry comes first; a full cache drops its last one for a new key.
#[verifier::external_body]
fn lru_put(c: &mut LruCache<String, CacheEntry>, k: String, v: CacheEntry)
    requires
        sound(lru_entries(*old(c)), lru_cap(*old(c))),
    ensures
        lru_entries(*final(c)) == after_put(lru_entries(*old(c)), k@, v, lru_cap(*old(c))),
        lru_cap(*final(c)) == lru_cap(*old(c)),
{
    c.put(k, v);
}

/// Calls `LruCache::get`: the entry under `k` comes first; its path and time are returned.
#[verifier::external_body]
fn lru_get(c: &mut LruCache<String, CacheEntry>, k: &str) -> (r: Option<(String, Instant)>)
    requires
        sound(lru_entries(*old(c)), lru_cap(*old(c))),
    ensures
        lru_entries(*final(c)) == after_get(lru_entries(*old(c)), k@),
        lru_cap(*final(c)) == lru_cap(*old(c)),
        match r {
            Some(p) => holds_key(lru_entries(*old(c)), k@) && p.0 == entry_of(lru_entries(*old(c)), k@).path
                && p.1 == entry_of(lru_entries(*old(c)), k@).stored_at,
            None => !holds_key(lru_entries(*old(c)), k@),
        },
{
    c.get(k).map(|e| (e.path.clone(), e.stored_at))
}

/// Calls `LruCache::pop`: the entry under `k` goes; the others keep their order.
#[verifier::external_body]
fn lru_pop(c: &mut LruCache<String, CacheEntry>, k: &str)
    requires
        sound(lru_entries(*old(c)), lru_cap(*old(c))),
    ensures
        lru_entries(*final(c)) == without(lru_entries(*old(c)), k@),
        lru_cap(*final(c)) == lru_cap(*old(c)),
{
    c.pop(k);
}

/// Calls `LruCache::len`: the number of entries.
#[verifier::external_body]
fn lru_len(c: &LruCache<String, CacheEntry>) -> (r: usize)
    ensures
        r == lru_entries(*c).len(),
{
    c.len()
}

/// Calls `LruCache::iter`: the keys and times of the entries, the one that was used last first.
#[verifier::external_body]
fn lru_list(c: &LruCache<String, CacheEntry>) -> (r: Vec<(String, Instant)>)
    ensures
        r@.len() == lru_entries(*c).len(),
        forall|i: int| 0 <= i < r@.len() ==> (#[trigger] r@[i]).0@ == lru_entries(*c)[i].0 && r@[i].1
            == lru_entries(*c)[i].1.stored_at,
{
    c.iter().map(|(k, e)| (k.clone(), e.stored_at)).collect()
}

/// The cache.
pub struct FileCache {
    inner: LruCache<String, CacheEntry>,
    ttl_secs: u64,
}

/// The entries whose flag is not set.
pub open spec fn kept(e: Seq<(Seq<char>, CacheEntry)>, drop: Seq<bool>) -> Seq<
    (Seq<char>, CacheEntry),
>
    decreases e.len(),
{
    if e.len() == 0 {
        e
    } else if drop[e.len() - 1] {
        kept(e.drop_last(), drop)
    } else {
        kept(e.drop_last(), drop).push(e.last())
    }
}

proof fn lemma_without_absent(e: Seq<(Seq<char>, CacheEntry)>, k: Seq<char>)
    requires
        !holds_key(e, k),
    ensures
        without(e, k) == e,
    decreases e.len(),
{
    if e.len() > 0 {
        let t = e.drop_first();
        assert(e[0].0 != k);
        assert forall|i: int| 0 <= i < t.len() implies (#[trigger] t[i]).0 != k by {
            assert(t[i] == e[i + 1]);
        }
        lemma_without_absent(t, k);
        assert(seq![e[0]] + t =~= e);
    }
}

proof fn lemma_without_members(e: Seq<(Seq<char>, CacheEntry)>, k: Seq<char>)
    ensures
        without(e, k).len() <= e.len(),
        forall|i: int|
            0 <= i < without(e, k).len() ==> e.contains(#[trigger] without(e, k)[i]) && without(
                e,
                k,
            )[i].0 != k,
    decreases e.len(),
{
    if e.len() > 0 {
        let t = e.drop_first();
        lemma_without_members(t, k);
        let w = without(e, k);
        assert forall|i: int| 0 <= i < w.len() implies e.contains(#[trigger] w[i]) && w[i].0 != k by {
            if e[0].0 == k {
                let j = choose|j: int| 0 <= j < t.len() && t[j] == w[i];
                assert(e[j + 1] == w[i]);
            } else if i == 0 {
                assert(e[0] == w[0]);
            } else {
                assert(w[i] == without(t, k)[i - 1]);
                let j = choose|j: int| 0 <= j < t.len() && t[j] == w[i];
                assert(e[j + 1] == w[i]);
            }
        }
    }
}

proof fn lemma_without_sound(e: Seq<(Seq<char>, CacheEntry)>, k: Seq<char>, cap: nat)
    requires
        sound(e, cap),
    ensures
        sound(without(e, k), cap),
        holds_key(e, k) ==> without(e, k).len() < e.len(),
    decreases e.len(),
{
    if e.len() > 0 {
        let t = e.drop_first();
        assert forall|i: int, j: int| 0 <= i < j < t.len() implies (#[trigger] t[i]).0 != (
        #[trigger] t[j]).0 by {
            assert(t[i] == e[i + 1]);
            assert(t[j] == e[j + 1]);
        }
        lemma_without_sound(t, k, cap);
        lemma_without_members(t, k);
        let w = without(e, k);
        if e[0].0 != k {
            assert forall|i: int, j: int| 0 <= i < j < w.len() implies (#[trigger] w[i]).0 != (
            #[trigger] w[j]).0 by {
                assert(w[j] == without(t, k)[j - 1]);
                let m = choose|m: int| 0 <= m < t.len() && t[m] == w[j];
                assert(e[m + 1] == w[j]);
                if i == 0 {
                    assert(e[0].0 != e[m + 1].0);
                } else {
                    assert(w[i] == without(t, k)[i - 1]);
                }
            }
        }
        if holds_key(e, k) {
            let i = choose|i: int| 0 <= i < e.len() && (#[trigger] e[i]).0 == k;
            if i > 0 {
                assert(t[i - 1].0 == k);
            }
        }
    }
}

proof fn lemma_front_sound(e: Seq<(Seq<char>, CacheEntry)>, k: Seq<char>, v: CacheEntry, cap: nat)
    requires
        sound(e, cap),
        !holds_key(e, k),
        e.len() < cap,
    ensures
        sound(seq![(k, v)] + e, cap),
{
    let f = seq![(k, v)] + e;
    assert forall|i: int, j: int| 0 <= i < j < f.len() implies (#[trigger] f[i]).0 != (
    #[trigger] f[j]).0 by {
        assert(f[j] == e[j - 1]);
        if i > 0 {
            assert(f[i] == e[i - 1]);
        }
    }
}

/// Putting, looking up and removing keep the cache free of doubles and within its bound.
pub proof fn law_the_cache_stays_sound(
    e: Seq<(Seq<char>, CacheEntry)>,
    k: Seq<char>,
    v: CacheEntry,
    cap: nat,
)
    requires
        sound(e, cap),
    ensures
        sound(after_put(e, k, v, cap), cap),
        sound(after_get(e, k), cap),
        sound(without(e, k), cap),
        !holds_key(without(e, k), k),
{
    lemma_without_sound(e, k, cap);
    lemma_without_members(e, k);
    if holds_key(e, k) {
        lemma_front_sound(without(e, k), k, v, cap);
        lemma_front_sound(without(e, k), k, entry_of(e, k), cap);
    } else if e.len() == cap {
        let f = e.drop_last();
        assert forall|i: int, j: int| 0 <= i < j < f.len() implies (#[trigger] f[i]).0 != (
        #[trigger] f[j]).0 by {
            assert(f[i] == e[i]);
            assert(f[j] == e[j]);
        }
        assert forall|i: int| 0 <= i < f.len() implies (#[trigger] f[i]).0 != k by {
            assert(f[i] == e[i]);
        }
        lemma_front_sound(f, k, v, cap);
    } else {
        lemma_front_sound(e, k, v, cap);
    }
}

/// What was put in last is found again.
pub proof fn law_what_was_put_is_found(
    e: Seq<(Seq<char>, CacheEntry)>,
    k: Seq<char>,
    v: CacheEntry,
    cap: nat,
)
    requires
        sound(e, cap),
    ensures
        holds_key(after_put(e, k, v, cap), k),
        entry_of(after_put(e, k, v, cap), k) == v,
{
    let f = after_put(e, k, v, cap);
    law_the_cache_stays_sound(e, k, v, cap);
    assert(f[0] == (k, v));
    let i = choose|i: int| 0 <= i < f.len() && (#[trigger] f[i]).0 == k;
    if i > 0 {
        assert(f[0].0 != f[i].0);
    }
}

/// Which entries no longer count: those that are older than `ttl` seconds.
pub open spec fn too_old(ages: Seq<u128>, ttl: u64) -> Seq<bool> {
    Seq::new(ages.len(), |i: int| ages[i] > ttl * 1_000_000_000)
}

/// The ages of the entries, where the clock was read at `nows[i]` for entry `i`.
pub open spec fn ages_at(e: Seq<(Seq<char>, CacheEntry)>, nows: Seq<Instant>) -> Seq<u128> {
    Seq::new(e.len(), |i: int| age(nows[i], e[i].1.stored_at))
}

impl FileCache {
    /// The entries, the one that was used last first.
    pub closed spec fn entries(&self) -> Seq<(Seq<char>, CacheEntry)> {
        lru_entries(self.inner)
    }

    /// The number of entries that fit.
    pub closed spec fn capacity(&self) -> nat {
        lru_cap(self.inner)
    }

    /// How long an entry counts, in seconds.
    pub closed spec fn ttl(&self) -> u64 {
        self.ttl_secs
    }

    /// No key occurs twice, and there are not too many entries.
    pub open spec fn wf(&self) -> bool {
        sound(self.entries(), self.capacity())
    }

    /// A cache for `capacity` entries, one at least, that count for `ttl_hours` hours, one at least.
    pub fn new(capacity: usize, ttl_hours: u32) -> (r: Self)
        requires
            capacity <= max_capacity(),
        ensures
            r.wf(),
            r.entries() == Seq::<(Seq<char>, CacheEntry)>::empty(),
            r.capacity() == if capacity == 0 {
                1
            } else {
                capacity as nat
            },
            r.ttl() == if ttl_hours == 0 {
                3600
            } else {
                ttl_hours * 3600
            },
    {
        let cap: usize = if capacity == 0 {
            1
        } else {
            capacity
        };
        let hours: u64 = if ttl_hours == 0 {
            1
        } else {
            ttl_hours as u64
        };
        FileCache { inner: lru_new(cap), ttl_secs: hours * 3600 }
    }

    /// Puts an entry in.
    pub fn insert(&mut self, key: &str, entry: CacheEntry)
        requires
            old(self).wf(),
        ensures
            final(self).wf(),
            final(self).entries() == after_put(
                old(self).entries(),
                key@,
                entry,
                old(self).capacity(),
            ),
            final(self).capacity() == old(self).capacity(),
            final(self).ttl() == old(self).ttl(),
    {
        proof {
            law_the_cache_stays_sound(self.entries(), key@, entry, self.capacity());
        }
        lru_put(&mut self.inner, key.to_owned(), entry);
    }

    /// The path, where an entry of age `nanos` still counts.
    pub fn if_fresh(&self, path: String, nanos: u128) -> (r: Option<String>)
        ensures
            r == if nanos > self.ttl() * 1_000_000_000 {
                None
            } else {
                Some(path)
            },
    {
        if nanos > self.ttl_secs as u128 * 1_000_000_000 {
            None
        } else {
            Some(path)
        }
    }

    /// The path of an entry that still counts at the time of the call. Looking an entry up uses it,
    /// whether it counts or not.
    pub fn get(&mut self, key: &str) -> (r: Option<String>)
        requires
            old(self).wf(),
        ensures
            final(self).wf(),
            final(self).entries() == after_get(old(self).entries(), key@),
            final(self).capacity() == old(self).capacity(),
            final(self).ttl() == old(self).ttl(),
            !holds_key(old(self).entries(), key@) ==> r is None,
            holds_key(old(self).entries(), key@) ==> exists|now: Instant|
                (r is Some) == (#[trigger] age(
                    now,
                    entry_of(old(self).entries(), key@).stored_at,
                ) <= old(self).ttl() * 1_000_000_000),
            r matches Some(p) ==> p == entry_of(old(self).entries(), key@).path,
    {
        proof {
            law_the_cache_stays_sound(
                self.entries(),
                key@,
                entry_of(self.entries(), key@),
                self.capacity(),
            );
        }
        match lru_get(&mut self.inner, key) {
            Some((path, at)) => {
                let nanos: u128 = nanos_since(&at);
                self.if_fresh(path, nanos)
            },
            None => None,
        }
    }

    /// Whether there is an entry that still counts at the time of the call.
    pub fn contains(&mut self, key: &str) -> (r: bool)
        requires
            old(self).wf(),
        ensures
            final(self).wf(),
            final(self).entries() == after_get(old(self).entries(), key@),
            final(self).capacity() == old(self).capacity(),
            final(self).ttl() == old(self).ttl(),
            r ==> holds_key(old(self).entries(), key@),
            holds_key(old(self).entries(), key@) ==> exists|now: Instant|
                r == (#[trigger] age(now, entry_of(old(self).entries(), key@).stored_at) <= old(
                    self,
                ).ttl() * 1_000_000_000),
    {
        self.get(key).is_some()
    }

    /// The number of entries, those that no longer count among them.
    pub fn len(&self) -> (r: usize)
        ensures
            r == self.entries().len(),
    {
        lru_len(&self.inner)
    }

    /// Whether there is no entry.
    pub fn is_empty(&self) -> (r: bool)
        ensures
            r == (self.entries().len() == 0),
    {
        lru_len(&self.inner) == 0
    }

    /// Removes the entries whose flag is set; the others keep their order.
    fn evict(&mut self, drop: &Vec<bool>)
        requires
            old(self).wf(),
            drop@.len() == old(self).entries().len(),
        ensures
            final(self).wf(),
            final(self).entries() == kept(old(self).entries(), drop@),
            final(self).capacity() == old(self).capacity(),
            final(self).ttl() == old(self).ttl(),
    {
        let list = lru_list(&self.inner);
        let ghost e = self.entries();
        let ghost cap = self.capacity();
        let mut i: usize = 0;
        assert(kept(e.take(0), drop@) + e.skip(0) =~= e);
        while i < list.len()
            invariant
                i <= list@.len(),
                list@.len() == e.len(),
                drop@.len() == e.len(),
                sound(e, cap),
                forall|k: int| 0 <= k < list@.len() ==> (#[trigger] list@[k]).0@ == e[k].0,
                self.entries() == kept(e.take(i as int), drop@) + e.skip(i as int),
                sound(self.entries(), cap),
                self.capacity() == cap,
                self.ttl() == old(self).ttl(),
            decreases list@.len() - i,
        {
            let ghost head = kept(e.take(i as int), drop@);
            let ghost rest = e.skip(i + 1);
            proof {
                assert(e.take(i + 1).drop_last() =~= e.take(i as int));
                assert(e.take(i + 1).last() == e[i as int]);
                assert(e.skip(i as int) =~= seq![e[i as int]] + rest);
            }
            if drop[i] {
                proof {
                    lemma_without_sound(self.entries(), e[i as int].0, cap);
                    lemma_pop_middle(head, e[i as int], rest, cap);
                    assert(head + e.skip(i as int) =~= head + (seq![e[i as int]] + rest));
                }
                lru_pop(&mut self.inner, list[i].0.as_str());
            } else {
                assert(head + (seq![e[i as int]] + rest) =~= head.push(e[i as int]) + rest);
            }
            i += 1;
        }
        proof {
            assert(e.take(i as int) =~= e);
            assert(kept(e, drop@) + e.skip(i as int) =~= kept(e, drop@));
        }
    }

    /// Removes the entries that no longer count, where `ages[i]` is the age of entry `i` in
    /// nanoseconds. The others keep their order.
    pub fn evict_aged(&mut self, ages: &Vec<u128>)
        requires
            old(self).wf(),
            ages@.len() == old(self).entries().len(),
        ensures
            final(self).wf(),
            final(self).entries() == kept(old(self).entries(), too_old(ages@, old(self).ttl())),
            final(self).capacity() == old(self).capacity(),
            final(self).ttl() == old(self).ttl(),
    {
        let mut drop: Vec<bool> = Vec::new();
        let mut i: usize = 0;
        while i < ages.len()
            invariant
                i <= ages@.len(),
                drop@.len() == i,
                forall|k: int| 0 <= k < i ==> drop@[k] == (ages@[k] > self.ttl() * 1_000_000_000),
            decreases ages@.len() - i,
        {
            drop.push(self.if_fresh(String::new(), ages[i]).is_none());
            i += 1;
        }
        assert(drop@ =~= too_old(ages@, self.ttl()));
        self.evict(&drop);
    }

    /// Removes all entries that no longer count at the time of the call. The others keep their order.
    pub fn evict_expired(&mut self)
        requires
            old(self).wf(),
        ensures
            final(self).wf(),
            exists|nows: Seq<Instant>|
                nows.len() == old(self).entries().len() && final(self).entries() == kept(
                    old(self).entries(),
                    too_old(#[trigger] ages_at(old(self).entries(), nows), old(self).ttl()),
                ),
            final(self).capacity() == old(self).capacity(),
            final(self).ttl() == old(self).ttl(),
    {
        let list = lru_list(&self.inner);
        let ghost e = self.entries();
        let mut ages: Vec<u128> = Vec::new();
        let ghost mut nows: Seq<Instant> = seq![];
        let mut i: usize = 0;
        while i < list.len()
            invariant
                i <= list@.len(),
                list@.len() == e.len(),
                forall|k: int| 0 <= k < list@.len() ==> (#[trigger] list@[k]).1 == e[k].1.stored_at,
                ages@.len() == i,
                nows.len() == i,
                forall|k: int| 0 <= k < i ==> #[trigger] ages@[k] == age(nows[k], e[k].1.stored_at),
            decreases list@.len() - i,
        {
            let nanos: u128 = nanos_since(&list[i].1);
            proof {
                let now = choose|now: Instant| nanos == #[trigger] age(now, list@[i as int].1);
                nows = nows.push(now);
            }
            ages.push(nanos);
            i += 1;
        }
        assert(ages@ =~= ages_at(e, nows));
        self.evict_aged(&ages);
    }
}

proof fn lemma_pop_middle(
    head: Seq<(Seq<char>, CacheEntry)>,
    x: (Seq<char>, CacheEntry),
    rest: Seq<(Seq<char>, CacheEntry)>,
    cap: nat,
)
    requires
        sound(head + (seq![x] + rest), cap),
    ensures
        without(head + (seq![x] + rest), x.0) == head + rest,
    decreases head.len(),
{
    let e = head + (seq![x] + rest);
    if head.len() == 0 {
        assert(e =~= seq![x] + rest);
        assert(e[0] == x);
        assert(e.drop_first() =~= rest);
        assert forall|i: int| 0 <= i < rest.len() implies (#[trigger] rest[i]).0 != x.0 by {
            assert(e[i + 1] == rest[i]);
            assert(e[0].0 != e[i + 1].0);
        }
        lemma_without_absent(rest, x.0);
        assert(head + rest =~= rest);
    } else {
        let t = head.drop_first();
        let f = t + (seq![x] + rest);
        assert(e.drop_first() =~= f);
        assert forall|i: int, j: int| 0 <= i < j < f.len() implies (#[trigger] f[i]).0 != (
        #[trigger] f[j]).0 by {
            assert(f[i] == e[i + 1]);
            assert(f[j] == e[j + 1]);
        }
        lemma_pop_middle(t, x, rest, cap);
        assert(e[0] == head[0]);
        assert(e[head.len() as int] == x);
        assert(e[0].0 != e[head.len() as int].0);
        assert(seq![head[0]] + (t + rest) =~= head + rest);
    }
}

impl Default for FileCache {
    fn default() -> (r: Self)
        ensures
            r.wf(),
            r.entries() == Seq::<(Seq<char>, CacheEntry)>::empty(),
            r.capacity() == 256,
            r.ttl() == 86400,
    {
        FileCache::new(256, 24)
    }
}

/// The key of a file: the identifier of its update and its position there.
pub fn cache_key_for(sync_id: &SyncId, file_index: usize) -> (r: String)
    ensures
        r@ == sync_id.0@ + "-"@ + text::dec(file_index as nat),
{
    concat3(sync_id.0.as_str(), "-", to_dec(file_index as u64).as_str())
}

/// Putting an entry in keeps all others, in their order, as long as there is room; where there is none,
/// the one goes that was not used for the longest time, and no other.
pub proof fn law_only_the_longest_unused_goes(
    e: Seq<(Seq<char>, CacheEntry)>,
    k: Seq<char>,
    v: CacheEntry,
    cap: nat,
)
    requires
        !holds_key(e, k),
        e.len() <= cap,
        cap > 0,
    ensures
        e.len() < cap ==> after_put(e, k, v, cap) == seq![(k, v)] + e,
        e.len() == cap ==> after_put(e, k, v, cap) == seq![(k, v)] + e.drop_last(),
{
}

/// Putting an entry under a key that is there already takes the place of the entry, and looking one up
/// changes nothing but the order: the other entries stay.
pub proof fn law_other_entries_stay(
    e: Seq<(Seq<char>, CacheEntry)>,
    k: Seq<char>,
    v: CacheEntry,
    cap: nat,
    x: (Seq<char>, CacheEntry),
)
    requires
        sound(e, cap),
        holds_key(e, k),
        e.contains(x),
        x.0 != k,
    ensures
        after_put(e, k, v, cap).contains(x),
        after_get(e, k).contains(x),
        without(e, k).contains(x),
        after_put(e, k, v, cap).len() == e.len(),
        after_get(e, k).len() == e.len(),
        after_get(e, k)[0].0 == k,
{
    lemma_without_keeps(e, k, x);
    let w = without(e, k);
    let i = choose|i: int| 0 <= i < w.len() && w[i] == x;
    assert(after_put(e, k, v, cap)[i + 1] == x);
    assert(after_get(e, k)[i + 1] == x);
    lemma_without_len(e, k, cap);
}

proof fn lemma_without_keeps(e: Seq<(Seq<char>, CacheEntry)>, k: Seq<char>, x: (Seq<char>, CacheEntry))
    requires
        e.contains(x),
        x.0 != k,
    ensures
        without(e, k).contains(x),
    decreases e.len(),
{
    let i = choose|i: int| 0 <= i < e.len() && e[i] == x;
    let t = e.drop_first();
    if i == 0 {
        assert(without(e, k)[0] == x);
    } else {
        assert(t[i - 1] == x);
        lemma_without_keeps(t, k, x);
        let j = choose|j: int| 0 <= j < without(t, k).len() && without(t, k)[j] == x;
        if e[0].0 != k {
            assert(without(e, k)[j + 1] == x);
        }
    }
}

proof fn lemma_without_len(e: Seq<(Seq<char>, CacheEntry)>, k: Seq<char>, cap: nat)
    requires
        sound(e, cap),
        holds_key(e, k),
    ensures
        without(e, k).len() == e.len() - 1,
    decreases e.len(),
{
    let t = e.drop_first();
    let i = choose|i: int| 0 <= i < e.len() && (#[trigger] e[i]).0 == k;
    assert forall|a: int, b: int| 0 <= a < b < t.len() implies (#[trigger] t[a]).0 != (#[trigger] t[b]).0 by {
        assert(t[a] == e[a + 1]);
        assert(t[b] == e[b + 1]);
    }
    if e[0].0 == k {
        assert forall|j: int| 0 <= j < t.len() implies (#[trigger] t[j]).0 != k by {
            assert(t[j] == e[j + 1]);
            assert(e[0].0 != e[j + 1].0);
        }
        lemma_without_absent(t, k);
    } else {
        assert(t[i - 1].0 == k);
        lemma_without_len(t, k, cap);
    }
}

/// An entry goes exactly where its flag is set, and its flag is set exactly where it is older than the
/// bound; the others keep their order.
pub proof fn law_only_old_entries_go(
    e: Seq<(Seq<char>, CacheEntry)>,
    x: (Seq<char>, CacheEntry),
    drop: Seq<bool>,
    ages: Seq<u128>,
    ttl: u64,
    i: int,
)
    requires
        drop.len() > e.len(),
        0 <= i < ages.len(),
    ensures
        kept(seq![], drop) == Seq::<(Seq<char>, CacheEntry)>::empty(),
        drop[e.len() as int] ==> kept(e.push(x), drop) == kept(e, drop),
        !drop[e.len() as int] ==> kept(e.push(x), drop) == kept(e, drop).push(x),
        too_old(ages, ttl).len() == ages.len(),
        too_old(ages, ttl)[i] <==> ages[i] > ttl * 1_000_000_000,
{
    assert(e.push(x).drop_last() =~= e);
}

/// The age of an entry is measured from when it was stored.
pub proof fn law_ages_are_measured_from_storing(
    e: Seq<(Seq<char>, CacheEntry)>,
    nows: Seq<Instant>,
    i: int,
)
    requires
        0 <= i < e.len(),
    ensures
        ages_at(e, nows).len() == e.len(),
        ages_at(e, nows)[i] == crate::clock::span_nanos(
            crate::clock::instant_span(nows[i], e[i].1.stored_at),
        ),
{
}

} // verus!
