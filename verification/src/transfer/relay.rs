//! Passing clipboard updates on through a mesh of devices.
//!
//! An update carries an identifier, which stays the same on every hop, and the number of hops that
//! it may still take. A device handles each identifier once.

use std::collections::VecDeque;
use vstd::prelude::*;

use crate::clipboard::types;
use crate::clipboard::types::{ClipboardContent, SyncMark};
use crate::text;
use crate::text::same;

verus! {

/// The number of hops that an update may take.
pub const RELAY_MAX_TTL: u8 = 32;

/// The number of identifiers that are remembered.
pub const SEEN_CAP: usize = 8192;

/// An update on its way.
#[derive(Debug)]
pub struct SyncEnvelope {
    pub mark: SyncMark,
    pub content: ClipboardContent,
    /// The identifier of the update: made once, where the clipboard changed.
    pub msg_id: String,
    /// The hops that are left.
    pub ttl: u8,
}

/// Two envelopes that hold the same.
pub open spec fn same_envelope(a: SyncEnvelope, b: SyncEnvelope) -> bool {
    &&& a.mark == b.mark
    &&& types::same_content(a.content, b.content)
    &&& a.msg_id@ == b.msg_id@
    &&& a.ttl == b.ttl
}

impl Clone for SyncEnvelope {
    fn clone(&self) -> (r: Self)
        ensures
            same_envelope(*self, r),
    {
        SyncEnvelope {
            mark: self.mark.clone(),
            content: self.content.clone(),
            msg_id: self.msg_id.clone(),
            ttl: self.ttl,
        }
    }
}

/// The identifiers that were handled last, oldest first.
pub struct RelaySeen {
    pub ring: VecDeque<String>,
}

/// The identifiers after one more was seen: the oldest goes where the table is full.
pub open spec fn noted(ids: Seq<Seq<char>>, id: Seq<char>) -> Seq<Seq<char>> {
    if ids.contains(id) {
        ids
    } else if ids.len() >= SEEN_CAP {
        ids.drop_first().push(id)
    } else {
        ids.push(id)
    }
}

impl View for RelaySeen {
    type V = Seq<Seq<char>>;

    open spec fn view(&self) -> Seq<Seq<char>> {
        text::views(self.ring@)
    }
}

impl RelaySeen {
    /// No identifier occurs twice, and there are not too many.
    pub open spec fn wf(&self) -> bool {
        self@.no_duplicates() && self@.len() <= SEEN_CAP
    }

    /// Nothing seen yet.
    pub fn new() -> (r: Self)
        ensures
            r@ == Seq::<Seq<char>>::empty(),
            r.wf(),
    {
        let r = RelaySeen { ring: VecDeque::new() };
        assert(r@ =~= Seq::<Seq<char>>::empty());
        r
    }

    /// Whether `id` is remembered.
    pub fn knows(&self, id: &str) -> (r: bool)
        ensures
            r == self@.contains(id@),
    {
        let mut i: usize = 0;
        while i < self.ring.len()
            invariant
                i <= self.ring@.len(),
                forall|k: int| 0 <= k < i ==> #[trigger] self@[k] != id@,
            decreases self.ring@.len() - i,
        {
            if same(self.ring[i].as_str(), id) {
                assert(self@[i as int] == id@);
                return true;
            }
            i += 1;
        }
        false
    }

    /// Whether `id` was seen before. Where it was not, it is remembered from now on.
    pub fn note(&mut self, id: &str) -> (r: bool)
        requires
            old(self).wf(),
        ensures
            final(self).wf(),
            r == old(self)@.contains(id@),
            final(self)@ == noted(old(self)@, id@),
    {
        if self.knows(id) {
            return true;
        }
        let ghost before = self@;
        proof {
            law_noting_keeps_the_table_sound(before, id@);
        }
        if self.ring.len() >= SEEN_CAP {
            let _ = self.ring.pop_front();
            assert(self@ =~= before.drop_first());
        }
        let ghost mid = self.ring@;
        let s = id.to_owned();
        self.ring.push_back(s);
        proof {
            text::lemma_views_push(mid, s);
            assert(self@ =~= noted(before, id@));
        }
        false
    }
}

/// Noting an identifier keeps the table free of doubles and within its bound, and afterwards the
/// identifier is known: the same update is not handled twice in a row.
pub proof fn law_noting_keeps_the_table_sound(ids: Seq<Seq<char>>, id: Seq<char>)
    requires
        ids.no_duplicates(),
        ids.len() <= SEEN_CAP,
    ensures
        noted(ids, id).no_duplicates(),
        noted(ids, id).len() <= SEEN_CAP,
        noted(ids, id).contains(id),
        noted(noted(ids, id), id) == noted(ids, id),
{
    let n = noted(ids, id);
    if !ids.contains(id) {
        assert(n[n.len() - 1] == id);
        let base = if ids.len() >= SEEN_CAP {
            ids.drop_first()
        } else {
            ids
        };
        assert forall|i: int, j: int| 0 <= i < n.len() && 0 <= j < n.len() && i != j implies n[i]
            != n[j] by {
            let shift: int = if ids.len() >= SEEN_CAP {
                1
            } else {
                0
            };
            if i < base.len() {
                assert(n[i] == ids[i + shift]);
            }
            if j < base.len() {
                assert(n[j] == ids[j + shift]);
            }
        }
    }
}

/// The envelope that is passed on: one hop less.
pub open spec fn relayed(e: SyncEnvelope, r: SyncEnvelope) -> bool {
    &&& r.mark == e.mark
    &&& types::same_content(e.content, r.content)
    &&& r.msg_id@ == e.msg_id@
    &&& r.ttl == e.ttl - 1
}

/// The envelope that is passed on; `None` where no hop is left.
pub fn next_hop(e: &SyncEnvelope) -> (r: Option<SyncEnvelope>)
    ensures
        match r {
            Some(n) => e.ttl > 1 && relayed(*e, n),
            None => e.ttl <= 1,
        },
{
    if e.ttl > 1 {
        let mut n = e.clone();
        n.ttl = e.ttl - 1;
        Some(n)
    } else {
        None
    }
}

/// The others among the peers: those that an update from `from` is passed on to.
pub open spec fn others(peers: Seq<Seq<char>>, from: Seq<char>) -> Seq<Seq<char>>
    decreases peers.len(),
{
    if peers.len() == 0 {
        seq![]
    } else if peers.last() == from {
        others(peers.drop_last(), from)
    } else {
        others(peers.drop_last(), from).push(peers.last())
    }
}

/// The peers that an update from `from` is passed on to: all but `from`.
pub fn others_of(peers: &Vec<String>, from: &str) -> (r: Vec<String>)
    ensures
        text::views(r@) == others(text::views(peers@), from@),
{
    let mut out: Vec<String> = Vec::new();
    let mut i: usize = 0;
    let ghost all = text::views(peers@);
    assert(text::views(out@) =~= others(all.take(0), from@));
    while i < peers.len()
        invariant
            i <= peers@.len(),
            all == text::views(peers@),
            text::views(out@) == others(all.take(i as int), from@),
        decreases peers@.len() - i,
    {
        assert(all.take(i + 1).drop_last() =~= all.take(i as int));
        assert(all.take(i + 1).last() == peers@[i as int]@);
        if !same(peers[i].as_str(), from) {
            let p = peers[i].clone();
            proof {
                text::lemma_views_push(out@, p);
            }
            out.push(p);
        }
        i += 1;
    }
    assert(all.take(i as int) =~= all);
    out
}

/// Nobody is passed an update twice.
pub proof fn law_relay_reaches_each_once(peers: Seq<Seq<char>>, from: Seq<char>)
    requires
        peers.no_duplicates(),
    ensures
        others(peers, from).no_duplicates(),
    decreases peers.len(),
{
    if peers.len() > 0 {
        let init = peers.drop_last();
        let o = others(init, from);
        law_relay_reaches_each_once(init, from);
        if peers.last() != from {
            law_relay_reaches_the_others(init, from, peers.last());
            assert(!init.contains(peers.last()));
            assert forall|i: int, j: int|
                0 <= i < j < others(peers, from).len() implies others(peers, from)[i] != others(
                peers,
                from,
            )[j] by {
                if j == o.len() {
                    assert(o.contains(o[i]));
                } else {
                    assert(o[i] != o[j]);
                }
            }
        }
    }
}

/// An update is never sent back to where it came from, and reaches everyone else.
pub proof fn law_relay_reaches_the_others(peers: Seq<Seq<char>>, from: Seq<char>, p: Seq<char>)
    ensures
        others(peers, from).contains(p) <==> peers.contains(p) && p != from,
    decreases peers.len(),
{
    if peers.len() > 0 {
        let init = peers.drop_last();
        law_relay_reaches_the_others(init, from, p);
        let o = others(peers, from);
        let oi = others(init, from);
        if peers.contains(p) {
            let k = choose|k: int| 0 <= k < peers.len() && peers[k] == p;
            if k < init.len() {
                assert(init[k] == p);
            }
        }
        if init.contains(p) {
            let k = choose|k: int| 0 <= k < init.len() && init[k] == p;
            assert(peers[k] == p);
        }
        if peers.last() != from {
            assert(o[o.len() - 1] == peers.last());
            if oi.contains(p) {
                let k = choose|k: int| 0 <= k < oi.len() && oi[k] == p;
                assert(o[k] == p);
            }
            if o.contains(p) {
                let k = choose|k: int| 0 <= k < o.len() && o[k] == p;
                if k < oi.len() {
                    assert(oi[k] == p);
                }
            }
            if p == peers.last() {
                assert(peers[peers.len() - 1] == p);
            }
        }
    }
}

/// However an update travels, it is passed on at most 31 times: each hop takes one off.
pub proof fn law_relay_ends(e: SyncEnvelope, r: SyncEnvelope)
    requires
        relayed(e, r),
        e.ttl > 1,
    ensures
        0 < r.ttl < e.ttl,
{
}

/// An identifier that was noted is known from then on, as are the last 8191 before it; an identifier
/// that was known already changes nothing.
pub proof fn law_noted_identifiers_are_known(ids: Seq<Seq<char>>, id: Seq<char>, i: int)
    ensures
        noted(ids, id).contains(id),
        ids.contains(id) ==> noted(ids, id) == ids,
        !ids.contains(id) && ids.len() < 8192 ==> noted(ids, id) == ids.push(id),
        !ids.contains(id) && 0 < i < ids.len() ==> noted(ids, id).contains(ids[i]),
{
    let r = noted(ids, id);
    if !ids.contains(id) {
        assert(r.last() == id);
        assert(r[r.len() - 1] == id);
        if 0 < i < ids.len() {
            if ids.len() >= SEEN_CAP {
                assert(r[i - 1] == ids[i]);
            } else {
                assert(r[i] == ids[i]);
            }
        }
    }
}

/// What is passed on is the update as it came, with one hop less.
pub proof fn law_updates_are_passed_on_unchanged(e: SyncEnvelope, r: SyncEnvelope)
    requires
        relayed(e, r),
    ensures
        r.mark == e.mark,
        r.msg_id@ == e.msg_id@,
        r.ttl + 1 == e.ttl,
        match e.content {
            ClipboardContent::Text(s) => r.content matches ClipboardContent::Text(t) && t@ == s@,
            ClipboardContent::Image { data: d, max_size: m } => r.content matches ClipboardContent::Image {
                data: x,
                max_size: n,
            } && x@ == d@ && n == m,
            ClipboardContent::Files(f) => r.content matches ClipboardContent::Files(g) && g@ == f@,
            ClipboardContent::Html { html: h, text: s } => r.content matches ClipboardContent::Html {
                html: k,
                text: t,
            } && k@ == h@ && t@ == s@,
        },
{
}

/// An update may be passed on 31 times, and the identifiers of the last 8192 updates are known.
pub proof fn law_bounds_of_relaying(e: SyncEnvelope, r: SyncEnvelope)
    requires
        e.ttl == RELAY_MAX_TTL,
        relayed(e, r),
    ensures
        r.ttl == 31,
        SEEN_CAP == 8192,
{
}

/// A copy of an envelope carries the same update, identifier and hops.
pub proof fn law_copies_of_envelopes_are_whole(a: SyncEnvelope, b: SyncEnvelope)
    requires
        same_envelope(a, b),
    ensures
        b.mark == a.mark,
        types::same_content(a.content, b.content),
        b.msg_id@ == a.msg_id@,
        b.ttl == a.ttl,
{
}

} // verus!
