//! A map and a set keyed by strings.
//!
//! No key occurs twice. The model of [`StrMap`] is a `Map` from the characters of the key, that of
//! [`StrSet`] a `Set` of them.

use vstd::prelude::*;

use crate::text::same;

verus! {

/// Some entry has the key `k`.
pub closed spec fn has_key<V>(e: Seq<(String, V)>, k: Seq<char>) -> bool {
    exists|i: int| 0 <= i < e.len() && (#[trigger] e[i]).0@ == k
}

/// An entry that has the key `k`.
pub closed spec fn slot<V>(e: Seq<(String, V)>, k: Seq<char>) -> int {
    choose|i: int| 0 <= i < e.len() && (#[trigger] e[i]).0@ == k
}

/// No key occurs twice.
pub closed spec fn unique<V>(e: Seq<(String, V)>) -> bool {
    forall|i: int, j: int|
        0 <= i < j < e.len() ==> (#[trigger] e[i]).0@ != (#[trigger] e[j]).0@
}

/// The map that the entries stand for.
pub closed spec fn as_map<V>(e: Seq<(String, V)>) -> Map<Seq<char>, V> {
    Map::new(|k: Seq<char>| has_key(e, k), |k: Seq<char>| e[slot(e, k)].1)
}

/// A map keyed by strings.
pub struct StrMap<V> {
    entries: Vec<(String, V)>,
}

impl<V> View for StrMap<V> {
    type V = Map<Seq<char>, V>;

    closed spec fn view(&self) -> Map<Seq<char>, V> {
        as_map(self.entries@)
    }
}

proof fn lemma_slot<V>(e: Seq<(String, V)>, i: int)
    requires
        unique(e),
        0 <= i < e.len(),
    ensures
        slot(e, e[i].0@) == i,
        has_key(e, e[i].0@),
        as_map(e).dom().contains(e[i].0@),
        as_map(e)[e[i].0@] == e[i].1,
{
    let k = e[i].0@;
    assert(e[i].0@ == k);
    let j = slot(e, k);
    assert(0 <= j < e.len() && e[j].0@ == k);
    if i < j {
        assert(e[i].0@ != e[j].0@);
    } else if j < i {
        assert(e[j].0@ != e[i].0@);
    }
}

proof fn lemma_push<V>(e: Seq<(String, V)>, p: (String, V))
    requires
        unique(e),
        !has_key(e, p.0@),
    ensures
        unique(e.push(p)),
        as_map(e.push(p)) == as_map(e).insert(p.0@, p.1),
{
    let f = e.push(p);
    assert(unique(f)) by {
        assert forall|i: int, j: int| 0 <= i < j < f.len() implies (#[trigger] f[i]).0@ != (
        #[trigger] f[j]).0@ by {
            assert(f[i] == e[i]);
            if j < e.len() {
                assert(f[j] == e[j]);
            } else {
                assert(e[i].0@ != p.0@);
            }
        }
    }
    let m = as_map(f);
    let n = as_map(e).insert(p.0@, p.1);
    assert forall|k: Seq<char>|
        #![trigger m.dom().contains(k)]
        #![trigger n.dom().contains(k)]
        #![trigger m[k]]
        m.dom().contains(k) == n.dom().contains(k) && (m.dom().contains(k) ==> m[k] == n[k]) by {
        lemma_slot(f, e.len() as int);
        if has_key(e, k) {
            let i = slot(e, k);
            assert(e[i].0@ == k);
            assert(f[i] == e[i]);
            lemma_slot(f, i);
            lemma_slot(e, i);
        }
        if has_key(f, k) {
            let i = slot(f, k);
            assert(f[i].0@ == k);
            if i < e.len() {
                assert(e[i].0@ == k);
            }
        }
    }
    assert(m.dom() =~= n.dom());
    assert(m =~= n);
}

proof fn lemma_remove<V>(e: Seq<(String, V)>, at: int)
    requires
        unique(e),
        0 <= at < e.len(),
    ensures
        unique(e.remove(at)),
        as_map(e.remove(at)) == as_map(e).remove(e[at].0@),
        !has_key(e.remove(at), e[at].0@),
{
    let f = e.remove(at);
    assert forall|i: int| 0 <= i < f.len() implies #[trigger] f[i] == e[if i < at {
        i
    } else {
        i + 1
    }] by {}
    assert(unique(f)) by {
        assert forall|i: int, j: int| 0 <= i < j < f.len() implies (#[trigger] f[i]).0@ != (
        #[trigger] f[j]).0@ by {
            let a = if i < at {
                i
            } else {
                i + 1
            };
            let b = if j < at {
                j
            } else {
                j + 1
            };
            assert(e[a].0@ != e[b].0@);
        }
    }
    let m = as_map(f);
    let n = as_map(e).remove(e[at].0@);
    if has_key(f, e[at].0@) {
        let i = slot(f, e[at].0@);
        let a = if i < at {
            i
        } else {
            i + 1
        };
        assert(f[i] == e[a]);
        lemma_slot(e, a);
        lemma_slot(e, at);
    }
    assert forall|k: Seq<char>|
        #![trigger m.dom().contains(k)]
        #![trigger n.dom().contains(k)]
        #![trigger m[k]]
        m.dom().contains(k) == n.dom().contains(k) && (m.dom().contains(k) ==> m[k] == n[k]) by {
        if has_key(f, k) {
            let i = slot(f, k);
            let a = if i < at {
                i
            } else {
                i + 1
            };
            assert(f[i] == e[a]);
            lemma_slot(e, a);
            lemma_slot(f, i);
        }
        if has_key(e, k) && k != e[at].0@ {
            let i = slot(e, k);
            assert(e[i].0@ == k);
            lemma_slot(e, i);
            let b = if i < at {
                i
            } else {
                i - 1
            };
            assert(f[b] == e[i]);
            lemma_slot(f, b);
        }
    }
    assert(m.dom() =~= n.dom());
    assert(m =~= n);
}

/// The keys of the entries, in order.
pub closed spec fn key_order<V>(e: Seq<(String, V)>) -> Seq<Seq<char>> {
    Seq::new(e.len(), |i: int| e[i].0@)
}

proof fn lemma_order<V>(e: Seq<(String, V)>)
    requires
        unique(e),
    ensures
        key_order(e).no_duplicates(),
        key_order(e).to_set() == as_map(e).dom(),
        as_map(e).dom().finite(),
        as_map(e).dom().len() == e.len(),
{
    let o = key_order(e);
    assert forall|k: Seq<char>| o.to_set().contains(k) == as_map(e).dom().contains(k) by {
        if o.contains(k) {
            let i = choose|i: int| 0 <= i < o.len() && o[i] == k;
            lemma_slot(e, i);
        }
        if has_key(e, k) {
            let i = slot(e, k);
            assert(o[i] == k);
        }
    }
    assert(o.to_set() =~= as_map(e).dom());
    assert forall|i: int, j: int| 0 <= i < o.len() && 0 <= j < o.len() && i != j implies o[i]
        != o[j] by {
        if i < j {
            assert(e[i].0@ != e[j].0@);
        } else {
            assert(e[j].0@ != e[i].0@);
        }
    }
    o.unique_seq_to_set();
}

impl<V> StrMap<V> {
    #[verifier::type_invariant]
    spec fn inv(self) -> bool {
        unique(self.entries@)
    }

    /// The keys in the order in which the entries are walked.
    pub closed spec fn order(&self) -> Seq<Seq<char>> {
        key_order(self.entries@)
    }

    /// An empty map.
    pub fn new() -> (r: Self)
        ensures
            r@ == Map::<Seq<char>, V>::empty(),
            r.order() == Seq::<Seq<char>>::empty(),
    {
        let r = StrMap { entries: Vec::new() };
        proof {
            assert(r@ =~= Map::<Seq<char>, V>::empty());
            assert(r.order() =~= Seq::<Seq<char>>::empty());
        }
        r
    }

    /// The number of entries.
    pub fn len(&self) -> (r: usize)
        ensures
            r == self@.dom().len(),
            r == self.order().len(),
            self@.dom().finite(),
            self.order().no_duplicates(),
            self.order().to_set() == self@.dom(),
    {
        proof {
            use_type_invariant(self);
            lemma_order(self.entries@);
        }
        self.entries.len()
    }

    /// Whether there is no entry.
    pub fn is_empty(&self) -> (r: bool)
        ensures
            r == (self@ == Map::<Seq<char>, V>::empty()),
    {
        proof {
            if self.entries@.len() > 0 {
                use_type_invariant(self);
                lemma_slot(self.entries@, 0);
            } else {
                assert(self@ =~= Map::<Seq<char>, V>::empty());
            }
        }
        self.entries.len() == 0
    }

    /// The entry at position `i` of the walk.
    pub fn at(&self, i: usize) -> (r: (&String, &V))
        requires
            i < self.order().len(),
        ensures
            r.0@ == self.order()[i as int],
            self@.dom().contains(r.0@),
            *r.1 == self@[r.0@],
    {
        proof {
            use_type_invariant(self);
            lemma_slot(self.entries@, i as int);
        }
        (&self.entries[i].0, &self.entries[i].1)
    }

    fn locate(&self, k: &str) -> (r: Option<usize>)
        ensures
            match r {
                Some(i) => i < self.entries@.len() && self.entries@[i as int].0@ == k@,
                None => !has_key(self.entries@, k@),
            },
    {
        let mut i: usize = 0;
        while i < self.entries.len()
            invariant
                i <= self.entries@.len(),
                forall|j: int| 0 <= j < i ==> (#[trigger] self.entries@[j]).0@ != k@,
            decreases self.entries@.len() - i,
        {
            if same(self.entries[i].0.as_str(), k) {
                return Some(i);
            }
            i += 1;
        }
        None
    }

    /// Whether `k` is a key.
    pub fn contains_key(&self, k: &str) -> (r: bool)
        ensures
            r == self@.dom().contains(k@),
    {
        self.locate(k).is_some()
    }

    /// The value under `k`.
    pub fn get(&self, k: &str) -> (r: Option<&V>)
        ensures
            match r {
                Some(v) => self@.dom().contains(k@) && *v == self@[k@],
                None => !self@.dom().contains(k@),
            },
    {
        match self.locate(k) {
            Some(i) => {
                proof {
                    use_type_invariant(self);
                    lemma_slot(self.entries@, i as int);
                }
                Some(&self.entries[i].1)
            },
            None => None,
        }
    }

    /// Removes the entry under `k` and returns its value.
    pub fn remove(&mut self, k: &str) -> (r: Option<V>)
        ensures
            final(self)@ == old(self)@.remove(k@),
            match r {
                Some(v) => old(self)@.dom().contains(k@) && v == old(self)@[k@],
                None => !old(self)@.dom().contains(k@),
            },
    {
        match self.locate(k) {
            Some(i) => {
                proof {
                    use_type_invariant(&*self);
                    lemma_slot(self.entries@, i as int);
                    lemma_remove(self.entries@, i as int);
                }
                let mut e: Vec<(String, V)> = Vec::new();
                std::mem::swap(&mut e, &mut self.entries);
                let gone = e.remove(i);
                self.entries = e;
                Some(gone.1)
            },
            None => {
                assert(self@.remove(k@) =~= self@);
                None
            },
        }
    }

    /// Puts `v` under `k` and returns the value that it replaces.
    pub fn insert(&mut self, k: String, v: V) -> (r: Option<V>)
        ensures
            final(self)@ == old(self)@.insert(k@, v),
            match r {
                Some(w) => old(self)@.dom().contains(k@) && w == old(self)@[k@],
                None => !old(self)@.dom().contains(k@),
            },
    {
        let r = self.remove(k.as_str());
        proof {
            use_type_invariant(&*self);
            assert(!self@.dom().contains(k@));
            assert(!has_key(self.entries@, k@));
            lemma_push(self.entries@, (k, v));
            assert(old(self)@.remove(k@).insert(k@, v) =~= old(self)@.insert(k@, v));
        }
        let mut e: Vec<(String, V)> = Vec::new();
        std::mem::swap(&mut e, &mut self.entries);
        e.push((k, v));
        self.entries = e;
        r
    }

    /// The keys, each once.
    pub fn keys(&self) -> (r: Vec<String>)
        ensures
            crate::text::views(r@) == self.order(),
            self.order().no_duplicates(),
            self.order().to_set() == self@.dom(),
    {
        let mut out: Vec<String> = Vec::new();
        let mut i: usize = 0;
        while i < self.entries.len()
            invariant
                i <= self.entries@.len(),
                crate::text::views(out@) == self.order().take(i as int),
            decreases self.entries@.len() - i,
        {
            let k = self.entries[i].0.clone();
            proof {
                crate::text::lemma_views_push(out@, k);
                assert(self.order().take(i + 1) =~= self.order().take(i as int).push(k@));
            }
            out.push(k);
            i += 1;
        }
        proof {
            use_type_invariant(self);
            lemma_order(self.entries@);
            assert(self.order().take(i as int) =~= self.order());
        }
        out
    }
}

/// A set of strings.
pub struct StrSet {
    map: StrMap<()>,
}

impl View for StrSet {
    type V = Set<Seq<char>>;

    closed spec fn view(&self) -> Set<Seq<char>> {
        self.map@.dom()
    }
}

impl StrSet {
    /// An empty set.
    pub fn new() -> (r: Self)
        ensures
            r@ == Set::<Seq<char>>::empty(),
    {
        StrSet { map: StrMap::new() }
    }

    /// Whether `k` is in the set.
    pub fn contains(&self, k: &str) -> (r: bool)
        ensures
            r == self@.contains(k@),
    {
        self.map.contains_key(k)
    }

    /// Puts `k` in and returns whether it was new.
    pub fn insert(&mut self, k: String) -> (r: bool)
        ensures
            final(self)@ == old(self)@.insert(k@),
            r == !old(self)@.contains(k@),
    {
        let r = self.map.insert(k, ()).is_none();
        proof {
            assert(self@ =~= old(self)@.insert(k@));
        }
        r
    }

    /// Takes `k` out and returns whether it was in.
    pub fn remove(&mut self, k: &str) -> (r: bool)
        ensures
            final(self)@ == old(self)@.remove(k@),
            r == old(self)@.contains(k@),
    {
        let r = self.map.remove(k).is_some();
        proof {
            assert(self@ =~= old(self)@.remove(k@));
        }
        r
    }
}

} // verus!
