//! Files that are offered and fetched: what is kept of an offer, and how far a fetch has come.

use vstd::prelude::*;

use crate::clipboard::types;
use crate::clipboard::types::FileMeta;
use crate::fingerprint;
use crate::fingerprint::fingerprint_of;
use crate::text;
use crate::text::same;
use crate::transfer::websocket::{FileChunkResponsePayload, FileFrame};

verus! {

/// A step of at least this many percent is reported.
pub const PROGRESS_STEP_PERCENT: u32 = 5;

/// After this long a step is reported however small it is.
pub const PROGRESS_STEP_MS: u64 = 200;

/// What this device offers. The paths stay here.
pub struct OfferState {
    pub device_name: String,
    pub files: Vec<FileMeta>,
    pub local_paths: Vec<String>,
}

/// What another device offers.
pub struct PendingOffer {
    pub transfer_id: String,
    pub device_id: String,
    pub device_name: String,
    pub files: Vec<FileMeta>,
    /// The names of the copied files and folders.
    pub top_names: Vec<String>,
    pub has_folder: bool,
}

/// A fetch that is under way.
pub struct PullState {
    pub target_dir: String,
    pub files: Vec<FileMeta>,
    pub device_id: String,
    pub total_bytes: u64,
}

/// The items that stand for a list of files: their names and sizes.
pub open spec fn file_items(files: Seq<FileMeta>) -> Seq<(Seq<char>, u64)> {
    Seq::new(files.len(), |i: int| (files[i].file_name@, files[i].file_size))
}

/// The fingerprint of a list of files.
pub open spec fn offer_print(files: Seq<FileMeta>) -> Seq<char> {
    fingerprint::fingerprint(file_items(files), true)
}

/// The fingerprint of a list of files: of their names and sizes. A device that fetched the files and
/// offers them again has them under other paths, so the paths do not count.
pub fn offer_fingerprint(files: &[FileMeta]) -> (r: String)
    ensures
        r@ == offer_print(files@),
{
    let mut items: Vec<(String, u64)> = Vec::new();
    let mut i: usize = 0;
    while i < files.len()
        invariant
            i <= files@.len(),
            items@.len() == i,
            forall|k: int|
                0 <= k < i ==> (#[trigger] items@[k]).0@ == files@[k].file_name@ && items@[k].1
                    == files@[k].file_size,
        decreases files@.len() - i,
    {
        items.push((files[i].file_name.clone(), files[i].file_size));
        i += 1;
    }
    assert(fingerprint::item_views(items@) =~= file_items(files@));
    fingerprint_of(items, true)
}

/// The fingerprint depends on the names and sizes alone, whatever the order and the paths.
pub proof fn law_fingerprint_ignores_paths_and_order(a: Seq<FileMeta>, b: Seq<FileMeta>)
    requires
        file_items(a).to_multiset() == file_items(b).to_multiset(),
    ensures
        offer_print(a) == offer_print(b),
{
    fingerprint::law_fingerprint_ignores_order(file_items(a), file_items(b), true);
}

/// What is to be done with a file frame that came in.
pub enum FileAction {
    /// Nothing.
    Ignore,
    /// An offer was taken up. It is fetched at once where `auto_pull` says so.
    Offered { transfer_id: String, total: u64, auto_pull: bool },
    /// Send these files, each with its position in the offer.
    Send { transfer_id: String, files: Vec<(usize, String)> },
    /// Nothing was known of the transfer.
    Unknown { transfer_id: String },
    /// The transfer was given up.
    Cancelled { transfer_id: String },
    /// Everything was sent: close the files.
    Finish { transfer_id: String },
    /// Write this piece.
    Write(FileChunkResponsePayload),
}

/// The files of a request that exist, in its order.
pub open spec fn requested(indices: Seq<usize>, paths: Seq<Seq<char>>) -> Seq<(usize, Seq<char>)>
    decreases indices.len(),
{
    if indices.len() == 0 {
        seq![]
    } else {
        let init = requested(indices.drop_last(), paths);
        if indices.last() < paths.len() {
            init.push((indices.last(), paths[indices.last() as int]))
        } else {
            init
        }
    }
}

/// The views of a list of files to send.
pub open spec fn send_views(v: Seq<(usize, String)>) -> Seq<(usize, Seq<char>)> {
    Seq::new(v.len(), |i: int| (v[i].0, v[i].1@))
}

/// The files of a request that exist, in its order. A position that the offer does not have is
/// passed over.
pub fn requested_files(indices: &Vec<usize>, paths: &Vec<String>) -> (r: Vec<(usize, String)>)
    ensures
        send_views(r@) == requested(indices@, text::views(paths@)),
{
    let mut out: Vec<(usize, String)> = Vec::new();
    let mut i: usize = 0;
    assert(send_views(out@) =~= requested(indices@.take(0), text::views(paths@)));
    while i < indices.len()
        invariant
            i <= indices@.len(),
            send_views(out@) == requested(indices@.take(i as int), text::views(paths@)),
        decreases indices@.len() - i,
    {
        assert(indices@.take(i + 1).drop_last() =~= indices@.take(i as int));
        let idx: usize = indices[i];
        let ghost before = out@;
        if idx < paths.len() {
            let p = paths[idx].clone();
            out.push((idx, p));
            assert(send_views(out@) =~= send_views(before).push((idx, p@)));
        }
        i += 1;
    }
    assert(indices@.take(i as int) =~= indices@);
    out
}

/// Where the next piece of a file that is being sent belongs.
pub struct ChunkCursor {
    pub transfer_id: String,
    pub file_index: usize,
    pub offset: u64,
}

impl ChunkCursor {
    /// The beginning of a file.
    pub fn new(transfer_id: String, file_index: usize) -> (r: Self)
        ensures
            r.transfer_id == transfer_id,
            r.file_index == file_index,
            r.offset == 0,
    {
        ChunkCursor { transfer_id, file_index, offset: 0 }
    }

    /// The frame of the next piece; the cursor moves behind it.
    pub fn next(&mut self, data: Vec<u8>) -> (r: FileFrame)
        requires
            old(self).offset + data@.len() <= u64::MAX,
        ensures
            r matches FileFrame::Chunk(c) && c.transfer_id == old(self).transfer_id && c.file_index
                == old(self).file_index && c.offset == old(self).offset && c.data == data,
            final(self).transfer_id == old(self).transfer_id,
            final(self).file_index == old(self).file_index,
            final(self).offset == old(self).offset + data@.len(),
    {
        let offset: u64 = self.offset;
        self.offset = self.offset + data.len() as u64;
        FileFrame::Chunk(
            FileChunkResponsePayload {
                transfer_id: self.transfer_id.clone(),
                file_index: self.file_index,
                offset,
                data,
            },
        )
    }
}

/// A file after `data` was written at `offset`. What lies between its end and `offset` is zero.
pub open spec fn written_at(file: Seq<u8>, offset: nat, data: Seq<u8>) -> Seq<u8> {
    let end = if data.len() == 0 {
        0
    } else {
        offset + data.len()
    };
    Seq::new(
        if file.len() < end {
            end
        } else {
            file.len()
        },
        |i: int|
            if offset <= i < offset + data.len() {
                data[i - offset]
            } else if i < file.len() {
                file[i]
            } else {
                0u8
            },
    )
}

/// The pieces of a file, one behind the other.
pub open spec fn joined(pieces: Seq<Seq<u8>>) -> Seq<u8>
    decreases pieces.len(),
{
    if pieces.len() == 0 {
        seq![]
    } else {
        joined(pieces.drop_last()) + pieces.last()
    }
}

/// Where a [`ChunkCursor`] that starts at 0 stands after these pieces.
pub open spec fn cursor_after(pieces: Seq<Seq<u8>>) -> nat
    decreases pieces.len(),
{
    if pieces.len() == 0 {
        0
    } else {
        cursor_after(pieces.drop_last()) + pieces.last().len()
    }
}

/// The file that comes of writing each piece at the offset under which it was sent.
pub open spec fn rebuilt(pieces: Seq<Seq<u8>>) -> Seq<u8>
    decreases pieces.len(),
{
    if pieces.len() == 0 {
        seq![]
    } else {
        let before = pieces.drop_last();
        written_at(rebuilt(before), cursor_after(before), pieces.last())
    }
}

/// A file that is sent in pieces arrives as it was: writing each piece at the offset under which it
/// was sent puts the pieces one behind the other, however they were cut.
pub proof fn law_pieces_rebuild_the_file(pieces: Seq<Seq<u8>>)
    ensures
        rebuilt(pieces) == joined(pieces),
        cursor_after(pieces) == joined(pieces).len(),
    decreases pieces.len(),
{
    if pieces.len() > 0 {
        law_pieces_rebuild_the_file(pieces.drop_last());
        assert(rebuilt(pieces) =~= joined(pieces));
    }
}

/// How a piece is written.
#[derive(Debug)]
pub struct PieceWrite {
    pub path: String,
    pub offset: u64,
    /// The file begins anew: nothing of what was there stays.
    pub anew: bool,
}

impl PieceWrite {
    /// What the file at `path` holds after `data` was written this way; `file` is what it held before.
    pub open spec fn effect(&self, file: Seq<u8>, data: Seq<u8>) -> Seq<u8> {
        written_at(
            if self.anew {
                seq![]
            } else {
                file
            },
            self.offset as nat,
            data,
        )
    }
}

/// A file after the piece `data`, which belongs at `offset`, came in: the first piece takes the place
/// of all that was there.
pub open spec fn replaced_at(file: Seq<u8>, offset: nat, data: Seq<u8>) -> Seq<u8> {
    written_at(
        if offset == 0 {
            seq![]
        } else {
            file
        },
        offset,
        data,
    )
}

/// What a target that held `file` holds after these pieces came in, each at the offset under which it
/// was sent.
pub open spec fn replaced(file: Seq<u8>, pieces: Seq<Seq<u8>>) -> Seq<u8>
    decreases pieces.len(),
{
    if pieces.len() == 0 {
        file
    } else {
        let before = pieces.drop_last();
        replaced_at(replaced(file, before), cursor_after(before), pieces.last())
    }
}

/// A file that is fetched takes the place of what lay at its target: nothing of an older or longer file
/// of that name is left. Of an empty file no piece is sent.
pub proof fn law_a_fetched_file_replaces_what_was_there(file: Seq<u8>, pieces: Seq<Seq<u8>>)
    requires
        pieces.len() > 0,
    ensures
        replaced(file, pieces) == joined(pieces),
    decreases pieces.len(),
{
    let before = pieces.drop_last();
    law_pieces_rebuild_the_file(before);
    if before.len() > 0 {
        law_a_fetched_file_replaces_what_was_there(file, before);
    }
    assert(replaced(file, pieces) =~= joined(pieces));
}

/// How far a fetch has come.
pub struct PullProgress {
    pub total: u64,
    pub written: u64,
    pub last_percent: u32,
    pub last_report: u64,
    /// The files of which something was written, each once.
    pub received: Vec<String>,
}

/// The percentage of `total` that `written` is, in 32 bits.
pub open spec fn percent_spec(written: u64, total: u64) -> u32 {
    (((written * 100) / if total == 0 {
        1
    } else {
        total as int
    }) % 0x1_0000_0000) as u32
}

/// The percentage of `total` that `written` is.
pub fn percent(written: u64, total: u64) -> (r: u32)
    requires
        written * 100 <= u64::MAX,
    ensures
        r == percent_spec(written, total),
{
    let t: u64 = if total == 0 {
        1
    } else {
        total
    };
    let p: u64 = written * 100 / t;
    (p % 0x1_0000_0000) as u32
}

impl PullProgress {
    /// A step to `pct` at time `now` is reported.
    pub open spec fn reports(&self, pct: u32, now: u64) -> bool {
        pct >= self.last_percent + PROGRESS_STEP_PERCENT || now >= self.last_report
            + PROGRESS_STEP_MS
    }

    /// Nothing written yet.
    pub fn new(total: u64, now: u64) -> (r: Self)
        ensures
            r.total == total,
            r.written == 0,
            r.last_percent == 0,
            r.last_report == now,
            r.received@.len() == 0,
    {
        PullProgress {
            total,
            written: 0,
            last_percent: 0,
            last_report: now,
            received: Vec::new(),
        }
    }

    /// `len` bytes were written to `path`.
    pub fn wrote(&mut self, path: &str, len: u64)
        requires
            old(self).written + len <= u64::MAX,
        ensures
            final(self).total == old(self).total,
            final(self).written == old(self).written + len,
            final(self).last_percent == old(self).last_percent,
            final(self).last_report == old(self).last_report,
            text::views(final(self).received@) == if text::views(old(self).received@).contains(
                path@,
            ) {
                text::views(old(self).received@)
            } else {
                text::views(old(self).received@).push(path@)
            },
    {
        self.written = self.written + len;
        let mut i: usize = 0;
        while i < self.received.len()
            invariant
                i <= self.received@.len(),
                self.total == old(self).total,
                self.written == old(self).written + len,
                self.last_percent == old(self).last_percent,
                self.last_report == old(self).last_report,
                self.received == old(self).received,
                forall|k: int| 0 <= k < i ==> #[trigger] text::views(self.received@)[k] != path@,
            decreases self.received@.len() - i,
        {
            if same(self.received[i].as_str(), path) {
                assert(text::views(self.received@)[i as int] == path@);
                return;
            }
            i += 1;
        }
        let s = path.to_owned();
        proof {
            text::lemma_views_push(self.received@, s);
        }
        self.received.push(s);
    }

    /// After a piece: the percentage, where it is to be reported. It is reported at a step of five
    /// percent or after 200 milliseconds, so that many small pieces do not flood anyone.
    pub fn report(&mut self, now: u64) -> (r: Option<u32>)
        requires
            old(self).written * 100 <= u64::MAX,
        ensures
            final(self).total == old(self).total,
            final(self).written == old(self).written,
            final(self).received == old(self).received,
            ({
                let pct = percent_spec(old(self).written, old(self).total);
                if old(self).reports(pct, now) {
                    r == Some(pct) && final(self).last_percent == pct && final(self).last_report
                        == now
                } else {
                    r is None && *final(self) == *old(self)
                }
            }),
    {
        let pct: u32 = percent(self.written, self.total);
        let step = pct >= self.last_percent && pct - self.last_percent >= PROGRESS_STEP_PERCENT;
        let late = now >= self.last_report && now - self.last_report >= PROGRESS_STEP_MS;
        if step || late {
            self.last_percent = pct;
            self.last_report = now;
            Some(pct)
        } else {
            None
        }
    }
}

/// What is shown of an offer that waits to be fetched.
pub struct OfferSummary {
    pub transfer_id: String,
    pub device_id: String,
    pub device_name: String,
    pub files: Vec<FileMeta>,
    pub top_names: Vec<String>,
    pub has_folder: bool,
    pub total_size: u64,
    pub auto_pull: bool,
}

/// `s` shows the offer `o`, which is fetched without asking where `auto_pull` says so.
pub open spec fn summarizes(s: OfferSummary, o: PendingOffer, auto_pull: bool) -> bool {
    &&& s.transfer_id == o.transfer_id
    &&& s.device_id == o.device_id
    &&& s.device_name == o.device_name
    &&& s.files@ == o.files@
    &&& text::views(s.top_names@) == text::views(o.top_names@)
    &&& s.has_folder == o.has_folder
    &&& s.total_size == types::total_size(o.files@)
    &&& s.auto_pull == auto_pull
}

/// What is shown of an offer.
pub fn summarize(o: &PendingOffer, auto_pull: bool) -> (r: OfferSummary)
    requires
        types::total_size(o.files@) <= u64::MAX,
    ensures
        summarizes(r, *o, auto_pull),
{
    let total: u64 = types::sum_sizes(&o.files);
    let top_names = o.top_names.clone();
    assert(text::views(top_names@) =~= text::views(o.top_names@));
    OfferSummary {
        transfer_id: o.transfer_id.clone(),
        device_id: o.device_id.clone(),
        device_name: o.device_name.clone(),
        files: types::clone_files(&o.files),
        top_names,
        has_folder: o.has_folder,
        total_size: total,
        auto_pull,
    }
}

/// An offer is fingerprinted by the names and sizes of all its files: two offers with the same
/// fingerprint have the same names and sizes, each as often, unless the hasher gives one number for two
/// different inputs.
pub proof fn law_fingerprints_tell_offers_apart(a: Seq<FileMeta>, b: Seq<FileMeta>)
    requires
        fingerprint::hasher_tells_apart(file_items(a), file_items(b), true),
    ensures
        offer_print(a) == offer_print(b) <==> a.map_values(
            |f: FileMeta| (f.file_name@, f.file_size),
        ).to_multiset() == b.map_values(|f: FileMeta| (f.file_name@, f.file_size)).to_multiset(),
{
    assert(a.map_values(|f: FileMeta| (f.file_name@, f.file_size)) =~= file_items(a));
    assert(b.map_values(|f: FileMeta| (f.file_name@, f.file_size)) =~= file_items(b));
    if offer_print(a) == offer_print(b) {
        fingerprint::law_fingerprints_tell_lists_apart(file_items(a), file_items(b), true);
    }
    if file_items(a).to_multiset() == file_items(b).to_multiset() {
        law_fingerprint_ignores_paths_and_order(a, b);
    }
}

/// Every file that is asked for and that the offer has is sent, from its own path, and no other: the
/// files come in the order in which they were asked for.
pub proof fn law_what_is_asked_for_is_sent(indices: Seq<usize>, paths: Seq<Seq<char>>, i: usize)
    ensures
        requested(seq![], paths) == Seq::<(usize, Seq<char>)>::empty(),
        i < paths.len() ==> requested(indices.push(i), paths) == requested(indices, paths).push(
            (i, paths[i as int]),
        ),
        i >= paths.len() ==> requested(indices.push(i), paths) == requested(indices, paths),
        (forall|k: int| 0 <= k < indices.len() ==> #[trigger] indices[k] < paths.len()) ==> requested(
            indices,
            paths,
        ).len() == indices.len() && forall|k: int|
            0 <= k < indices.len() ==> #[trigger] requested(indices, paths)[k] == (
                indices[k],
                paths[indices[k] as int],
            ),
    decreases indices.len(),
{
    assert(indices.push(i).drop_last() =~= indices);
    if indices.len() > 0 && forall|k: int| 0 <= k < indices.len() ==> #[trigger] indices[k]
        < paths.len() {
        let t = indices.drop_last();
        assert(forall|k: int| 0 <= k < t.len() ==> #[trigger] t[k] == indices[k]);
        law_what_is_asked_for_is_sent(t, paths, i);
        let r = requested(t, paths);
        assert(indices[indices.len() - 1] < paths.len());
        assert forall|k: int| 0 <= k < indices.len() implies #[trigger] requested(indices, paths)[k] == (
            indices[k],
            paths[indices[k] as int],
        ) by {
            if k < t.len() {
                assert(requested(indices, paths)[k] == r[k]);
            }
        }
    }
}

/// What is written lies where it was written, and nothing else changes; the file grows where it has to,
/// with zeros up to what is written.
pub proof fn law_writing_changes_only_what_is_written(file: Seq<u8>, offset: nat, data: Seq<u8>, i: int)
    requires
        data.len() > 0,
    ensures
        written_at(file, offset, data).len() == if file.len() < offset + data.len() {
            offset + data.len()
        } else {
            file.len()
        },
        0 <= i < data.len() ==> written_at(file, offset, data)[offset + i] == data[i],
        0 <= i < file.len() && (i < offset || i >= offset + data.len()) ==> written_at(
            file,
            offset,
            data,
        )[i] == file[i],
        file.len() <= i < offset ==> written_at(file, offset, data)[i] == 0,
{
}

/// Pieces are joined one behind the other, and each begins where the one before it ended.
pub proof fn law_pieces_follow_each_other(pieces: Seq<Seq<u8>>, p: Seq<u8>)
    ensures
        joined(seq![]) == Seq::<u8>::empty(),
        joined(pieces.push(p)) == joined(pieces) + p,
        cursor_after(seq![]) == 0,
        cursor_after(pieces.push(p)) == cursor_after(pieces) + p.len(),
{
    assert(pieces.push(p).drop_last() =~= pieces);
}

/// A percentage is the share that is written, rounded down, and is told at a step of five percent or
/// after 200 milliseconds.
pub proof fn law_progress_is_told_in_steps(p: PullProgress, written: u64, total: u64, pct: u32, now: u64)
    ensures
        total > 0 && written == total ==> percent_spec(written, total) == 100,
        total > 0 && written < total ==> percent_spec(written, total) as int == written * 100 / total as int,
        written == 0 ==> percent_spec(written, total) == 0,
        p.reports(pct, now) <==> pct >= p.last_percent + 5 || now >= p.last_report + 200,
{
    if total > 0 {
        let n = (written * 100) as int;
        let t = total as int;
        if written == total {
            vstd::arithmetic::div_mod::lemma_div_multiples_vanish(100, t);
            assert(n / t == 100) by (nonlinear_arith)
                requires
                    n == 100 * t,
                    t > 0,
            ;
        } else if written < total {
            assert(0 <= n / t < 100) by (nonlinear_arith)
                requires
                    0 <= n < 100 * t,
                    t > 0,
            ;
        }
        if written == 0 {
            assert(0int / t == 0) by (nonlinear_arith)
                requires
                    t > 0,
            ;
        }
    }
}

/// An offer is shown as it was made, with the size of all its files.
pub proof fn law_offers_are_shown_as_they_were_made(s: OfferSummary, o: PendingOffer, auto_pull: bool)
    requires
        summarizes(s, o, auto_pull),
    ensures
        s.transfer_id@ == o.transfer_id@,
        s.device_id@ == o.device_id@,
        s.device_name@ == o.device_name@,
        s.files@ == o.files@,
        s.total_size == types::total_size(o.files@),
        s.top_names@.len() == o.top_names@.len(),
        forall|i: int| 0 <= i < s.top_names@.len() ==> (#[trigger] s.top_names@[i])@ == o.top_names@[i]@,
        s.has_folder == o.has_folder,
        s.auto_pull == auto_pull,
{
    assert(text::views(s.top_names@).len() == s.top_names@.len());
    assert(text::views(o.top_names@).len() == o.top_names@.len());
    assert forall|i: int| 0 <= i < s.top_names@.len() implies (#[trigger] s.top_names@[i])@
        == o.top_names@[i]@ by {
        assert(text::views(s.top_names@)[i] == text::views(o.top_names@)[i]);
    }
}

/// The files to send are seen as their positions and paths.
pub proof fn law_files_to_send_are_seen_whole(v: Seq<(usize, String)>, i: int)
    requires
        0 <= i < v.len(),
    ensures
        send_views(v).len() == v.len(),
        send_views(v)[i].0 == v[i].0,
        send_views(v)[i].1 == v[i].1@,
{
}

} // verus!
