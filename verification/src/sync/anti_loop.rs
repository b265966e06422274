//! Telling an update that comes back from one that is new.

use std::time::SystemTime;

use vstd::prelude::*;

use crate::bytes;
use crate::bytes::to_hex;
use crate::clipboard::types::{ClipboardContent, DeviceId, FileMeta, SyncId, SyncMark};
use crate::clock;
use crate::crypto::mac;
use crate::crypto::mac::blake3_digest;
use crate::ids;
use crate::text;
use crate::text::same;

verus! {

/// The names and relative paths of the files, one after the other.
pub open spec fn file_bytes(files: Seq<FileMeta>) -> Seq<u8>
    decreases files.len(),
{
    if files.len() == 0 {
        seq![]
    } else {
        file_bytes(files.drop_last()) + text::utf8(files.last().file_name@) + text::utf8(
            files.last().relative_path@,
        )
    }
}

/// What is hashed of a content.
pub open spec fn content_bytes(c: ClipboardContent) -> Seq<u8> {
    match c {
        ClipboardContent::Text(t) => text::utf8(t@),
        ClipboardContent::Image { data, .. } => data@,
        ClipboardContent::Files(f) => file_bytes(f@),
        ClipboardContent::Html { html, text } => text::utf8(html@) + text::utf8(text@),
    }
}

/// The hash of a content, in hexadecimal.
pub open spec fn content_hash_spec(c: ClipboardContent) -> Seq<char> {
    bytes::hex(mac::blake3(content_bytes(c)))
}

fn file_bytes_of(files: &Vec<FileMeta>) -> (r: Vec<u8>)
    ensures
        r@ == file_bytes(files@),
{
    let mut b: Vec<u8> = Vec::new();
    let mut i: usize = 0;
    assert(files@.take(0) =~= Seq::<FileMeta>::empty());
    while i < files.len()
        invariant
            i <= files@.len(),
            b@ == file_bytes(files@.take(i as int)),
        decreases files@.len() - i,
    {
        assert(files@.take(i + 1).drop_last() =~= files@.take(i as int));
        b = bytes::concat(&b, files[i].file_name.as_str().as_bytes());
        b = bytes::concat(&b, files[i].relative_path.as_str().as_bytes());
        i += 1;
    }
    assert(files@.take(i as int) =~= files@);
    b
}

/// The hash of a content: equal contents have equal hashes.
pub fn content_hash(content: &ClipboardContent) -> (r: String)
    ensures
        r@ == content_hash_spec(*content),
        r@.len() == 64,
{
    let digest = match content {
        ClipboardContent::Text(t) => blake3_digest(t.as_str().as_bytes()),
        ClipboardContent::Image { data, .. } => blake3_digest(data),
        ClipboardContent::Files(files) => blake3_digest(&file_bytes_of(files)),
        ClipboardContent::Html { html, text } => blake3_digest(
            &bytes::concat(html.as_str().as_bytes(), text.as_str().as_bytes()),
        ),
    };
    to_hex(&digest)
}

/// A content and its copy have the same hash.
pub proof fn law_copies_hash_alike(a: ClipboardContent, b: ClipboardContent)
    requires
        crate::clipboard::types::same_content(a, b),
    ensures
        content_hash_spec(a) == content_hash_spec(b),
{
}

/// What this device wrote last, and its logical clock.
pub struct AntiLoop {
    pub lamport: u64,
    pub last_outgoing_sync_id: Option<SyncId>,
    pub last_content_hash: Option<String>,
}

impl AntiLoop {
    /// Nothing written yet.
    pub fn new() -> (r: Self)
        ensures
            r.lamport == 0,
            r.last_outgoing_sync_id is None,
            r.last_content_hash is None,
    {
        AntiLoop { lamport: 0, last_outgoing_sync_id: None, last_content_hash: None }
    }

    /// `id` is the update that was written last.
    pub open spec fn is_last(&self, id: SyncId) -> bool {
        self.last_outgoing_sync_id is Some && (self.last_outgoing_sync_id->0).0@ == id.0@
    }

    /// Marks the next update of this device and moves the clock on.
    pub fn mark_outgoing(&mut self, device_id: &DeviceId, content: &ClipboardContent) -> (r: SyncMark)
        requires
            old(self).lamport < u64::MAX,
        ensures
            r.device_id == *device_id,
            r.lamport == old(self).lamport + 1,
            r.content_hash@ == content_hash_spec(*content),
            ids::is_uuid_text(r.sync_id.0@),
            exists|t: SystemTime| r.timestamp == #[trigger] clock::unix_seconds(t),
            final(self).lamport == r.lamport,
            final(self).last_outgoing_sync_id == Some(r.sync_id),
            final(self).last_content_hash is Some,
            final(self).last_content_hash->0@ == content_hash_spec(*content),
            final(self).is_last(r.sync_id),
    {
        self.lamport = self.lamport + 1;
        let hash = content_hash(content);
        let mark = SyncMark::new(device_id, hash.as_str(), self.lamport);
        self.last_content_hash = Some(hash);
        self.last_outgoing_sync_id = Some(mark.sync_id.clone());
        mark
    }

    /// Whether an update is the one that this device wrote last.
    pub fn is_loopback(&self, sync_id: &SyncId) -> (r: bool)
        ensures
            r == self.is_last(*sync_id),
    {
        match &self.last_outgoing_sync_id {
            Some(s) => same(s.0.as_str(), sync_id.0.as_str()),
            None => false,
        }
    }

    /// Takes note of an update from another device: the clock does not fall behind it.
    pub fn record_applied(&mut self, mark: &SyncMark)
        ensures
            final(self).lamport == if mark.lamport > old(self).lamport {
                mark.lamport
            } else {
                old(self).lamport
            },
            final(self).last_outgoing_sync_id == Some(mark.sync_id),
            final(self).last_content_hash == Some(mark.content_hash),
            final(self).is_last(mark.sync_id),
    {
        if mark.lamport > self.lamport {
            self.lamport = mark.lamport;
        }
        self.last_outgoing_sync_id = Some(mark.sync_id.clone());
        self.last_content_hash = Some(mark.content_hash.clone());
    }
}

impl Default for AntiLoop {
    fn default() -> (r: Self)
        ensures
            r.lamport == 0,
            r.last_outgoing_sync_id is None,
            r.last_content_hash is None,
    {
        AntiLoop::new()
    }
}

/// Texts and images are told apart by all they hold: two of them have the same hash exactly where
/// BLAKE3 gives the same digest for all the bytes of the one and all the bytes of the other.
pub proof fn law_texts_and_images_hash_by_all_they_hold(
    s: String,
    t: String,
    a: Vec<u8>,
    b: Vec<u8>,
    m: u32,
    n: u32,
)
    ensures
        ({
            let ha = content_hash_spec(ClipboardContent::Image { data: a, max_size: m });
            let hb = content_hash_spec(ClipboardContent::Image { data: b, max_size: n });
            let hs = content_hash_spec(ClipboardContent::Text(s));
            let ht = content_hash_spec(ClipboardContent::Text(t));
            &&& ha == hb <==> mac::blake3(a@) == mac::blake3(b@)
            &&& hs == ht <==> mac::blake3(vstd::utf8::encode_utf8(s@)) == mac::blake3(
                vstd::utf8::encode_utf8(t@),
            )
            &&& hs == ha <==> mac::blake3(vstd::utf8::encode_utf8(s@)) == mac::blake3(a@)
            &&& vstd::utf8::encode_utf8(s@) == vstd::utf8::encode_utf8(t@) <==> s@ == t@
        }),
{
    let ha = mac::blake3(a@);
    let hb = mac::blake3(b@);
    let hs = mac::blake3(text::utf8(s@));
    let ht = mac::blake3(text::utf8(t@));
    if bytes::hex(ha) == bytes::hex(hb) {
        bytes::lemma_hex_injective(ha, hb);
    }
    if bytes::hex(hs) == bytes::hex(ht) {
        bytes::lemma_hex_injective(hs, ht);
    }
    if bytes::hex(hs) == bytes::hex(ha) {
        bytes::lemma_hex_injective(hs, ha);
    }
    if text::utf8(s@) == text::utf8(t@) {
        text::lemma_utf8_injective(s@, t@);
    }
}

/// Two rich texts have the same hash exactly where BLAKE3 gives the same digest for their markup and
/// their plain text, one behind the other.
pub proof fn law_rich_texts_hash_by_markup_and_text(h: String, t: String, k: String, u: String)
    ensures
        content_hash_spec(ClipboardContent::Html { html: h, text: t }) == content_hash_spec(
            ClipboardContent::Html { html: k, text: u },
        ) <==> mac::blake3(vstd::utf8::encode_utf8(h@ + t@)) == mac::blake3(
            vstd::utf8::encode_utf8(k@ + u@),
        ),
{
    text::lemma_utf8_concat(h@, t@);
    text::lemma_utf8_concat(k@, u@);
    let x = mac::blake3(text::utf8(h@ + t@));
    let y = mac::blake3(text::utf8(k@ + u@));
    if bytes::hex(x) == bytes::hex(y) {
        bytes::lemma_hex_injective(x, y);
    }
}

/// Two lists of files have the same hash exactly where BLAKE3 gives the same digest for the names and
/// relative paths of all files of the one and of the other, each list in its order.
pub proof fn law_lists_of_files_hash_by_names_and_paths(f: Vec<FileMeta>, g: Vec<FileMeta>)
    ensures
        content_hash_spec(ClipboardContent::Files(f)) == content_hash_spec(
            ClipboardContent::Files(g),
        ) <==> mac::blake3(
            vstd::utf8::encode_utf8(
                f@.map_values(|m: FileMeta| m.file_name@ + m.relative_path@).flatten(),
            ),
        ) == mac::blake3(
            vstd::utf8::encode_utf8(
                g@.map_values(|m: FileMeta| m.file_name@ + m.relative_path@).flatten(),
            ),
        ),
{
    lemma_file_bytes(f@);
    lemma_file_bytes(g@);
    let x = mac::blake3(file_bytes(f@));
    let y = mac::blake3(file_bytes(g@));
    if bytes::hex(x) == bytes::hex(y) {
        bytes::lemma_hex_injective(x, y);
    }
}

proof fn lemma_file_bytes(f: Seq<FileMeta>)
    ensures
        file_bytes(f) == vstd::utf8::encode_utf8(
            f.map_values(|m: FileMeta| m.file_name@ + m.relative_path@).flatten(),
        ),
    decreases f.len(),
{
    let name = |m: FileMeta| m.file_name@ + m.relative_path@;
    let all = f.map_values(name);
    if f.len() == 0 {
        assert(all =~= Seq::<Seq<char>>::empty());
    } else {
        let t = f.drop_last();
        let l = f.last();
        lemma_file_bytes(t);
        assert(all =~= t.map_values(name).push(l.file_name@ + l.relative_path@));
        t.map_values(name).lemma_flatten_push(l.file_name@ + l.relative_path@);
        text::lemma_utf8_concat(t.map_values(name).flatten(), l.file_name@ + l.relative_path@);
        text::lemma_utf8_concat(l.file_name@, l.relative_path@);
        assert(file_bytes(f) =~= file_bytes(t) + (text::utf8(l.file_name@) + text::utf8(
            l.relative_path@,
        )));
    }
}

/// An update is this device's last one exactly where it carries the identifier that was written last.
pub proof fn law_the_last_update_is_known_by_its_identifier(a: AntiLoop, id: SyncId)
    ensures
        a.last_outgoing_sync_id is None ==> !a.is_last(id),
        a.last_outgoing_sync_id matches Some(s) ==> (a.is_last(id) <==> s.0@ == id.0@),
{
}

} // verus!
