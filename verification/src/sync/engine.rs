//! The engine: what to do when the clipboard changes here or elsewhere.
//!
//! The clipboard is read and written outside. The engine is told what was read and says what is to
//! be done with it. Times are milliseconds of a clock that does not go backwards.

use std::time::SystemTime;

use vstd::prelude::*;

use crate::bytes;
use crate::clipboard::types;
use crate::clipboard::types::{sum_sizes, ClipboardContent, DeviceId, SyncId, SyncMark};
use crate::clock;
use crate::crypto::mac;
use crate::device::identity::DeviceIdentity;
use crate::fingerprint;
use crate::fingerprint::fingerprint_of;
use crate::ids;
use crate::sync::anti_loop;
use crate::sync::anti_loop::{content_hash, AntiLoop};
use crate::text;
use crate::text::same;
use crate::transfer::paths;
use crate::transfer::paths::to_slashes;

verus! {

/// How long after the library wrote files to the clipboard a change of files counts as its echo.
pub const ECHO_WINDOW_MS: u64 = 1500;

/// What the engine tells the rest of the program.
#[derive(Debug, Clone)]
pub enum SyncEvent {
    /// The clipboard changed here.
    LocalClipboardChanged { mark: SyncMark, content: ClipboardContent },
    /// Files were copied here. The paths never leave this device.
    LocalFilesCopied { paths: Vec<String> },
    /// An update of another device was written to the clipboard. It is not sent back.
    RemoteClipboardApplied { mark: SyncMark, content: ClipboardContent },
}

/// The short name of a content's kind.
pub open spec fn kind_spec(c: ClipboardContent) -> Seq<char> {
    match c {
        ClipboardContent::Text(_) => "text"@,
        ClipboardContent::Image { .. } => "image"@,
        ClipboardContent::Files(_) => "files"@,
        ClipboardContent::Html { .. } => "html"@,
    }
}

/// The short name of a content's kind.
pub fn content_kind(content: &ClipboardContent) -> (r: &'static str)
    ensures
        r@ == kind_spec(*content),
{
    match content {
        ClipboardContent::Text(_) => "text",
        ClipboardContent::Image { .. } => "image",
        ClipboardContent::Files(_) => "files",
        ClipboardContent::Html { .. } => "html",
    }
}

/// What is shown of a change: never the bytes of an image.
#[derive(Debug, Clone)]
pub struct ClipboardChangedPayload {
    pub sync_id: String,
    pub device_id: String,
    pub kind: String,
    pub text: Option<String>,
    pub size: Option<u64>,
}

/// The text that is shown of a content.
pub open spec fn shown_text(c: ClipboardContent) -> Option<Seq<char>> {
    match c {
        ClipboardContent::Text(t) => Some(t@),
        ClipboardContent::Html { text, .. } => Some(text@),
        _ => None,
    }
}

/// The size that is shown of a content.
pub open spec fn shown_size(c: ClipboardContent) -> Option<nat> {
    match c {
        ClipboardContent::Image { data, .. } => Some(data@.len()),
        ClipboardContent::Files(f) => Some(types::total_size(f@)),
        _ => None,
    }
}

impl ClipboardChangedPayload {
    /// What is shown of a content.
    pub fn from_content(sync_id: &SyncId, device_id: &DeviceId, content: &ClipboardContent) -> (r:
        Self)
        requires
            content matches ClipboardContent::Files(f) ==> types::total_size(f@) <= u64::MAX,
        ensures
            r.sync_id == sync_id.0,
            r.device_id == device_id.0,
            r.kind@ == kind_spec(*content),
            text::opt_view(r.text) == shown_text(*content),
            match r.size {
                Some(n) => shown_size(*content) == Some(n as nat),
                None => shown_size(*content) is None,
            },
    {
        let kind = content_kind(content).to_owned();
        let (text, size): (Option<String>, Option<u64>) = match content {
            ClipboardContent::Text(t) => (Some(t.clone()), None),
            ClipboardContent::Image { data, .. } => (None, Some(data.len() as u64)),
            ClipboardContent::Files(files) => (None, Some(sum_sizes(files))),
            ClipboardContent::Html { text, .. } => (Some(text.clone()), None),
        };
        ClipboardChangedPayload {
            sync_id: sync_id.0.clone(),
            device_id: device_id.0.clone(),
            kind,
            text,
            size,
        }
    }
}

// ---------------------------------------------------------------------------
// Hashes of lists of paths
// ---------------------------------------------------------------------------

/// The items that stand for a list of paths.
pub open spec fn path_items(p: Seq<Seq<char>>) -> Seq<(Seq<char>, u64)> {
    Seq::new(p.len(), |i: int| (p[i], 0u64))
}

/// A path with slashes only, in lower case.
pub open spec fn normalized_path(p: Seq<char>) -> Seq<char> {
    text::unicode_lowercase(paths::slashed(p))
}

/// The paths with slashes only, in lower case.
pub open spec fn normalized_paths(p: Seq<Seq<char>>) -> Seq<Seq<char>> {
    Seq::new(p.len(), |i: int| normalized_path(p[i]))
}

/// The hash of a list of paths.
pub open spec fn paths_hash(p: Seq<Seq<char>>) -> Seq<char> {
    fingerprint::fingerprint(path_items(p), false)
}

/// The hash of a list of paths. It does not depend on their order.
pub fn file_paths_hash(paths: &[String]) -> (r: String)
    ensures
        r@ == paths_hash(text::views(paths@)),
{
    let mut items: Vec<(String, u64)> = Vec::new();
    let mut i: usize = 0;
    while i < paths.len()
        invariant
            i <= paths@.len(),
            items@.len() == i,
            forall|k: int| 0 <= k < i ==> (#[trigger] items@[k]).0@ == paths@[k]@ && items@[k].1 == 0,
        decreases paths@.len() - i,
    {
        items.push((paths[i].clone(), 0));
        i += 1;
    }
    assert(fingerprint::item_views(items@) =~= path_items(text::views(paths@)));
    fingerprint_of(items, false)
}

/// The hash of a list of paths, whatever separators and case they are written with.
///
/// A path that is read back from the clipboard is often not written as it was put there.
pub fn normalized_file_paths_hash(paths: &[String]) -> (r: String)
    ensures
        r@ == paths_hash(normalized_paths(text::views(paths@))),
{
    let mut items: Vec<(String, u64)> = Vec::new();
    let mut i: usize = 0;
    while i < paths.len()
        invariant
            i <= paths@.len(),
            items@.len() == i,
            forall|k: int|
                0 <= k < i ==> (#[trigger] items@[k]).0@ == normalized_path(paths@[k]@) && items@[k].1
                    == 0,
        decreases paths@.len() - i,
    {
        let p = to_slashes(paths[i].as_str());
        items.push((p.as_str().to_lowercase(), 0));
        i += 1;
    }
    assert(fingerprint::item_views(items@) =~= path_items(
        normalized_paths(text::views(paths@)),
    ));
    fingerprint_of(items, false)
}

/// The hash of a list of paths does not depend on their order.
pub proof fn law_paths_hash_ignores_order(p: Seq<Seq<char>>, q: Seq<Seq<char>>)
    requires
        path_items(p).to_multiset() == path_items(q).to_multiset(),
    ensures
        paths_hash(p) == paths_hash(q),
{
    fingerprint::law_fingerprint_ignores_order(path_items(p), path_items(q), false);
}

// ---------------------------------------------------------------------------
// The engine
// ---------------------------------------------------------------------------

/// What is to be done after the clipboard was asked for files.
#[derive(Debug)]
pub enum FileStep {
    /// Nothing.
    Drop,
    /// Offer these files to the other devices.
    Offer(Vec<String>),
    /// There are no files: read text or an image.
    ReadContent,
}

/// The engine of one device.
pub struct SyncEngine {
    pub identity: DeviceIdentity,
    pub anti_loop: AntiLoop,
    /// The hash of the content that was sent or applied last.
    pub last_emitted: Option<String>,
    /// The hash of the files that were copied last.
    pub last_file_hash: Option<String>,
    /// The hash of the files that the program itself put on the clipboard, and when.
    pub file_offer_expected: Option<(String, u64)>,
}

/// `o` holds the text `h`.
pub open spec fn holds(o: Option<String>, h: Seq<char>) -> bool {
    o is Some && o->0@ == h
}

impl SyncEngine {
    /// An engine that has seen nothing.
    pub fn new(identity: DeviceIdentity) -> (r: Self)
        ensures
            r.identity == identity,
            r.anti_loop.lamport == 0,
            r.anti_loop.last_outgoing_sync_id is None,
            r.anti_loop.last_content_hash is None,
            r.last_emitted is None,
            r.last_file_hash is None,
            r.file_offer_expected is None,
    {
        SyncEngine {
            identity,
            anti_loop: AntiLoop::new(),
            last_emitted: None,
            last_file_hash: None,
            file_offer_expected: None,
        }
    }

    /// The identifier of this device.
    pub fn device_id(&self) -> (r: DeviceId)
        ensures
            r == self.identity.id,
    {
        self.identity.id.clone()
    }

    /// A change of the clipboard to `c` is news.
    pub open spec fn would_emit(&self, c: ClipboardContent) -> bool {
        !holds(self.last_emitted, anti_loop::content_hash_spec(c))
    }

    /// A change to the files `p` at time `now` is the echo of what the program itself wrote.
    pub open spec fn is_echo(&self, p: Seq<Seq<char>>, now: u64) -> bool {
        self.file_offer_expected matches Some(e) && (e.0@ == paths_hash(normalized_paths(p)) || now
            < e.1 + ECHO_WINDOW_MS)
    }

    /// The files `p` are the ones that were copied last.
    pub open spec fn is_repeat(&self, p: Seq<Seq<char>>) -> bool {
        holds(self.last_file_hash, paths_hash(p))
    }

    /// To be called before the program puts fetched files on the clipboard: the next change to
    /// these files, or to any within 1.5 seconds, is its own echo.
    pub fn suppress_next_file_offer(&mut self, paths: &[String], now: u64)
        ensures
            final(self).file_offer_expected matches Some(e) && e.0@ == paths_hash(
                normalized_paths(text::views(paths@)),
            ) && e.1 == now,
            final(self).identity == old(self).identity,
            final(self).anti_loop == old(self).anti_loop,
            final(self).last_emitted == old(self).last_emitted,
            final(self).last_file_hash == old(self).last_file_hash,
    {
        let norm = normalized_file_paths_hash(paths);
        self.file_offer_expected = Some((norm, now));
    }

    /// What is to be done after the clipboard was asked for files. `paths` is `None` where it could
    /// not be asked.
    ///
    /// Files that the program itself wrote are dropped, once; so are the files that were copied
    /// last. Other files are offered. Without files the hash of the last ones is forgotten.
    pub fn on_paths(&mut self, paths: Option<Vec<String>>, now: u64) -> (r: FileStep)
        ensures
            final(self).identity == old(self).identity,
            final(self).anti_loop == old(self).anti_loop,
            final(self).last_emitted == old(self).last_emitted,
            match paths {
                None => r is ReadContent && *final(self) == *old(self),
                Some(v) => if v@.len() == 0 {
                    &&& r is ReadContent
                    &&& final(self).last_file_hash is None
                    &&& final(self).file_offer_expected == old(self).file_offer_expected
                } else {
                    let p = text::views(v@);
                    &&& final(self).file_offer_expected is None
                    &&& holds(final(self).last_file_hash, paths_hash(p))
                    &&& if old(self).is_echo(p, now) || old(self).is_repeat(p) {
                        r is Drop
                    } else {
                        r == FileStep::Offer(v)
                    }
                },
            },
    {
        let v = match paths {
            Some(v) => v,
            None => {
                return FileStep::ReadContent;
            },
        };
        if v.len() == 0 {
            self.last_file_hash = None;
            return FileStep::ReadContent;
        }
        let h = file_paths_hash(&v);
        let norm = normalized_file_paths_hash(&v);
        let expected = self.file_offer_expected.take();
        let echo = match expected {
            Some(e) => same(e.0.as_str(), norm.as_str()) || now < e.1 || now - e.1 < ECHO_WINDOW_MS,
            None => false,
        };
        if echo {
            self.last_file_hash = Some(h);
            return FileStep::Drop;
        }
        let repeat = match &self.last_file_hash {
            Some(l) => same(l.as_str(), h.as_str()),
            None => false,
        };
        if repeat {
            return FileStep::Drop;
        }
        self.last_file_hash = Some(h);
        FileStep::Offer(v)
    }

    /// What is to be told of the content that was read; `None` where it could not be read. Content
    /// that was sent or applied last is not told again.
    pub fn on_content(&mut self, content: Option<ClipboardContent>) -> (r: Option<SyncEvent>)
        requires
            old(self).anti_loop.lamport < u64::MAX,
        ensures
            final(self).identity == old(self).identity,
            final(self).last_file_hash == old(self).last_file_hash,
            final(self).file_offer_expected == old(self).file_offer_expected,
            match content {
                Some(c) => if old(self).would_emit(c) {
                    &&& r matches Some(SyncEvent::LocalClipboardChanged { mark, content: d })
                    &&& d == c
                    &&& mark.device_id == old(self).identity.id
                    &&& mark.lamport == old(self).anti_loop.lamport + 1
                    &&& mark.content_hash@ == anti_loop::content_hash_spec(c)
                    &&& ids::is_uuid_text(mark.sync_id.0@)
                    &&& exists|t: SystemTime| mark.timestamp == #[trigger] clock::unix_seconds(t)
                    &&& final(self).anti_loop.lamport == mark.lamport
                    &&& final(self).anti_loop.last_outgoing_sync_id == Some(mark.sync_id)
                    &&& final(self).anti_loop.last_content_hash is Some
                    &&& final(self).anti_loop.last_content_hash->0@ == mark.content_hash@
                    &&& final(self).anti_loop.is_last(mark.sync_id)
                    &&& !final(self).would_emit(c)
                } else {
                    r is None && *final(self) == *old(self)
                },
                None => r is None && *final(self) == *old(self),
            },
    {
        let c = match content {
            Some(c) => c,
            None => {
                return None;
            },
        };
        let hash = content_hash(&c);
        let known = match &self.last_emitted {
            Some(l) => same(l.as_str(), hash.as_str()),
            None => false,
        };
        if known {
            return None;
        }
        self.last_emitted = Some(hash);
        let id = self.identity.id.clone();
        let mark = self.anti_loop.mark_outgoing(&id, &c);
        Some(SyncEvent::LocalClipboardChanged { mark, content: c })
    }

    /// Takes an update of another device in. Returns what is to be written to the clipboard and
    /// told, or `None` for files, which are fetched instead.
    ///
    /// The content counts as sent, so that the change of the clipboard that follows is no news.
    pub fn apply_remote(&mut self, mark: SyncMark, content: ClipboardContent) -> (r: Option<
        (ClipboardContent, SyncEvent),
    >)
        ensures
            final(self).identity == old(self).identity,
            final(self).last_file_hash == old(self).last_file_hash,
            final(self).file_offer_expected == old(self).file_offer_expected,
            final(self).anti_loop.lamport == if mark.lamport > old(self).anti_loop.lamport {
                mark.lamport
            } else {
                old(self).anti_loop.lamport
            },
            final(self).anti_loop.last_outgoing_sync_id == Some(mark.sync_id),
            final(self).anti_loop.last_content_hash == Some(mark.content_hash),
            final(self).anti_loop.is_last(mark.sync_id),
            !final(self).would_emit(content),
            match r {
                None => content is Files,
                Some(p) => {
                    &&& content !is Files
                    &&& types::same_content(content, p.0)
                    &&& p.1 matches SyncEvent::RemoteClipboardApplied { mark: m, content: c }
                    &&& m == mark
                    &&& c == content
                },
            },
    {
        self.anti_loop.record_applied(&mark);
        self.last_emitted = Some(content_hash(&content));
        match content {
            ClipboardContent::Files(_) => None,
            _ => {
                let to_write = content.clone();
                Some((to_write, SyncEvent::RemoteClipboardApplied { mark, content }))
            },
        }
    }
}

/// What was applied from another device, read back from the clipboard, is no news.
pub proof fn law_applied_content_is_not_sent_back(
    e: SyncEngine,
    applied: ClipboardContent,
    read_back: ClipboardContent,
)
    requires
        !e.would_emit(applied),
        types::same_content(applied, read_back),
    ensures
        !e.would_emit(read_back),
{
}

/// What the program itself put on the clipboard is an echo however its paths are written when they
/// are read back, and whenever that is.
pub proof fn law_own_files_are_an_echo(e: SyncEngine, written: Seq<Seq<char>>, read_back: Seq<Seq<char>>, now: u64)
    requires
        e.file_offer_expected matches Some(x) && x.0@ == paths_hash(normalized_paths(written)),
        path_items(normalized_paths(written)).to_multiset() == path_items(
            normalized_paths(read_back),
        ).to_multiset(),
    ensures
        e.is_echo(read_back, now),
{
    law_paths_hash_ignores_order(normalized_paths(written), normalized_paths(read_back));
}

proof fn lemma_item_count(p: Seq<Seq<char>>, x: Seq<char>)
    ensures
        path_items(p).to_multiset().count((x, 0u64)) == p.to_multiset().count(x),
    decreases p.len(),
{
    broadcast use vstd::seq_lib::group_to_multiset_ensures;

    if p.len() == 0 {
        assert(path_items(p) =~= Seq::<(Seq<char>, u64)>::empty());
        assert(p =~= Seq::<Seq<char>>::empty());
    } else {
        let t = p.drop_last();
        lemma_item_count(t, x);
        assert(path_items(p) =~= path_items(t).push((p.last(), 0u64)));
        assert(p =~= t.push(p.last()));
    }
}

proof fn lemma_items_of_paths(p: Seq<Seq<char>>, q: Seq<Seq<char>>)
    ensures
        path_items(p).to_multiset() == path_items(q).to_multiset() <==> p.to_multiset()
            == q.to_multiset(),
{
    if path_items(p).to_multiset() == path_items(q).to_multiset() {
        assert forall|x: Seq<char>| p.to_multiset().count(x) == q.to_multiset().count(x) by {
            lemma_item_count(p, x);
            lemma_item_count(q, x);
        }
        assert(p.to_multiset() =~= q.to_multiset());
    }
    if p.to_multiset() == q.to_multiset() {
        assert forall|y: (Seq<char>, u64)|
            path_items(p).to_multiset().count(y) == path_items(q).to_multiset().count(y) by {
            if y.1 == 0 {
                lemma_item_count(p, y.0);
                lemma_item_count(q, y.0);
                assert(y == (y.0, 0u64));
            } else {
                lemma_no_such_item(p, y);
                lemma_no_such_item(q, y);
            }
        }
        assert(path_items(p).to_multiset() =~= path_items(q).to_multiset());
    }
}

proof fn lemma_no_such_item(p: Seq<Seq<char>>, y: (Seq<char>, u64))
    requires
        y.1 != 0,
    ensures
        path_items(p).to_multiset().count(y) == 0,
{
    vstd::seq_lib::to_multiset_contains(path_items(p), y);
    if path_items(p).contains(y) {
        let i = choose|i: int| 0 <= i < p.len() && path_items(p)[i] == y;
        assert(path_items(p)[i].1 == 0);
    }
}

/// Two lists of paths have the same hash exactly where they hold the same paths, each as often, in
/// whatever order, unless the hasher gives one number for two different inputs.
pub proof fn law_paths_hash_tells_lists_apart(p: Seq<Seq<char>>, q: Seq<Seq<char>>)
    requires
        fingerprint::hasher_tells_apart(path_items(p), path_items(q), false),
    ensures
        paths_hash(p) == paths_hash(q) <==> p.to_multiset() == q.to_multiset(),
{
    lemma_items_of_paths(p, q);
    if paths_hash(p) == paths_hash(q) {
        fingerprint::law_fingerprints_tell_lists_apart(path_items(p), path_items(q), false);
    }
    if p.to_multiset() == q.to_multiset() {
        law_paths_hash_ignores_order(p, q);
    }
}

/// Copied files are a repeat exactly where they are the files that were copied last, in whatever
/// order; and where none were, they are none.
pub proof fn law_only_the_files_copied_last_are_a_repeat(
    e: SyncEngine,
    last: Seq<Seq<char>>,
    p: Seq<Seq<char>>,
)
    requires
        e.last_file_hash matches Some(h) ==> h@ == paths_hash(last),
        fingerprint::hasher_tells_apart(path_items(last), path_items(p), false),
    ensures
        e.is_repeat(p) <==> e.last_file_hash is Some && p.to_multiset() == last.to_multiset(),
{
    law_paths_hash_tells_lists_apart(last, p);
}

/// A change of files is an echo exactly where the program itself wrote files, and this within the last
/// 1500 milliseconds, or the same ones, however their separators and letters are written.
pub proof fn law_echoes_are_recent_or_the_same(
    e: SyncEngine,
    written: Seq<Seq<char>>,
    p: Seq<Seq<char>>,
    now: u64,
)
    requires
        e.file_offer_expected matches Some(x) ==> x.0@ == paths_hash(normalized_paths(written)),
        fingerprint::hasher_tells_apart(
            path_items(normalized_paths(written)),
            path_items(normalized_paths(p)),
            false,
        ),
    ensures
        e.file_offer_expected is None ==> !e.is_echo(p, now),
        e.file_offer_expected matches Some(x) ==> (e.is_echo(p, now) <==> now < x.1 + 1500
            || normalized_paths(written).to_multiset() == normalized_paths(p).to_multiset()),
{
    law_paths_hash_tells_lists_apart(normalized_paths(written), normalized_paths(p));
}

/// Paths count as the same where, with slashes for all backslashes, they agree in lower case.
pub proof fn law_paths_count_as_the_same_in_lower_case_with_slashes(
    p: Seq<Seq<char>>,
    q: Seq<Seq<char>>,
    i: int,
)
    requires
        0 <= i < p.len(),
        q.len() == p.len(),
        q[i].len() == p[i].len(),
        forall|k: int|
            0 <= k < p[i].len() ==> #[trigger] q[i][k] == if p[i][k] == '\\' {
                '/'
            } else {
                p[i][k]
            },
    ensures
        normalized_paths(p).len() == p.len(),
        normalized_paths(p)[i] == text::unicode_lowercase(q[i]),
        normalized_paths(q)[i] == normalized_paths(p)[i],
{
    assert(paths::slashed(p[i]) =~= q[i]);
    assert(paths::slashed(q[i]) =~= q[i]);
}

/// What is copied first is told, whatever it is.
pub proof fn law_the_first_change_is_told(e: SyncEngine, c: ClipboardContent)
    requires
        e.last_emitted is None,
    ensures
        e.would_emit(c),
{
}

/// A text or an image is told unless it is what was sent or applied last: where the last one was a text
/// or an image with other bytes, of which BLAKE3 gives another digest, it is news.
pub proof fn law_another_text_or_image_is_told(
    e: SyncEngine,
    last: ClipboardContent,
    c: ClipboardContent,
)
    requires
        e.last_emitted matches Some(h) && h@ == anti_loop::content_hash_spec(last),
        last is Text || last is Image,
        c is Text || c is Image,
    ensures
        ({
            let was = match last {
                ClipboardContent::Text(t) => vstd::utf8::encode_utf8(t@),
                ClipboardContent::Image { data, .. } => data@,
                _ => seq![],
            };
            let is = match c {
                ClipboardContent::Text(t) => vstd::utf8::encode_utf8(t@),
                ClipboardContent::Image { data, .. } => data@,
                _ => seq![],
            };
            e.would_emit(c) <==> mac::blake3(was) != mac::blake3(is)
        }),
{
    let (x, y): (Seq<u8>, Seq<u8>) = (anti_loop::content_bytes(last), anti_loop::content_bytes(c));
    if bytes::hex(mac::blake3(x)) == bytes::hex(mac::blake3(y)) {
        bytes::lemma_hex_injective(mac::blake3(x), mac::blake3(y));
    }
}

/// Of a text its characters are shown, of an image its size and never its bytes, of files their size in
/// all.
pub proof fn law_what_is_shown_of_a_change(c: ClipboardContent)
    ensures
        c matches ClipboardContent::Text(t) ==> shown_text(c) == Some(t@) && shown_size(c) is None
            && kind_spec(c) == "text"@,
        c matches ClipboardContent::Image { data, .. } ==> shown_text(c) is None && shown_size(c) == Some(
            data@.len(),
        ) && kind_spec(c) == "image"@,
        c matches ClipboardContent::Files(f) ==> shown_text(c) is None && shown_size(c) == Some(
            types::total_size(f@),
        ) && kind_spec(c) == "files"@,
        c matches ClipboardContent::Html { text, .. } ==> shown_text(c) == Some(text@)
            && shown_size(c) is None && kind_spec(c) == "html"@,
{
}

} // verus!
