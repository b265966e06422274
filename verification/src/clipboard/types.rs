//! What a clipboard holds and how one of its states is marked.

use std::time::SystemTime;

use vstd::prelude::*;

use crate::clock;
use crate::clock::now_secs;
use crate::ids;
use crate::ids::new_uuid;

verus! {

/// The identifier of a device.
#[derive(Debug, PartialEq, Eq, Hash)]
pub struct DeviceId(pub String);

impl Clone for DeviceId {
    fn clone(&self) -> (r: Self)
        ensures
            r == *self,
    {
        DeviceId(self.0.clone())
    }
}

/// The identifier of one synchronised state.
#[derive(Debug, PartialEq, Eq, Hash)]
pub struct SyncId(pub String);

impl Clone for SyncId {
    fn clone(&self) -> (r: Self)
        ensures
            r == *self,
    {
        SyncId(self.0.clone())
    }
}

/// What is known of a file that can be fetched.
#[derive(Debug)]
pub struct FileMeta {
    pub file_name: String,
    pub file_size: u64,
    pub is_dir: bool,
    pub relative_path: String,
    pub modified_at: u64,
    pub mime_type: String,
    pub hash: Option<String>,
}

impl Clone for FileMeta {
    fn clone(&self) -> (r: Self)
        ensures
            r == *self,
    {
        FileMeta {
            file_name: self.file_name.clone(),
            file_size: self.file_size,
            is_dir: self.is_dir,
            relative_path: self.relative_path.clone(),
            modified_at: self.modified_at,
            mime_type: self.mime_type.clone(),
            hash: self.hash.clone(),
        }
    }
}

/// A copy of a list of file descriptions.
pub fn clone_files(files: &Vec<FileMeta>) -> (r: Vec<FileMeta>)
    ensures
        r@ == files@,
{
    let r = files.clone();
    assert(r@ =~= files@);
    r
}

/// The sum of the file sizes.
pub open spec fn total_size(files: Seq<FileMeta>) -> nat
    decreases files.len(),
{
    if files.len() == 0 {
        0
    } else {
        total_size(files.drop_last()) + files.last().file_size as nat
    }
}

/// A part of a list of files is no larger than the list.
pub proof fn lemma_total_size_grows(files: Seq<FileMeta>, k: int)
    requires
        0 <= k <= files.len(),
    ensures
        total_size(files.take(k)) <= total_size(files),
    decreases files.len(),
{
    if k < files.len() {
        lemma_total_size_grows(files.drop_last(), k);
        assert(files.drop_last().take(k) =~= files.take(k));
    } else {
        assert(files.take(k) =~= files);
    }
}

/// The sum of the file sizes, which must fit.
pub fn sum_sizes(files: &[FileMeta]) -> (r: u64)
    requires
        total_size(files@) <= u64::MAX,
    ensures
        r == total_size(files@),
{
    let mut n: u64 = 0;
    let mut i: usize = 0;
    assert(files@.take(0) =~= Seq::<FileMeta>::empty());
    while i < files.len()
        invariant
            i <= files@.len(),
            total_size(files@) <= u64::MAX,
            n == total_size(files@.take(i as int)),
        decreases files@.len() - i,
    {
        proof {
            lemma_total_size_grows(files@, i + 1);
            assert(files@.take(i + 1).drop_last() =~= files@.take(i as int));
        }
        n = n + files[i].file_size;
        i += 1;
    }
    assert(files@.take(i as int) =~= files@);
    n
}

/// The sum of the file sizes; `None` where it does not fit.
pub fn checked_sum_sizes(files: &[FileMeta]) -> (r: Option<u64>)
    ensures
        match r {
            Some(n) => n == total_size(files@),
            None => total_size(files@) > u64::MAX,
        },
{
    let mut n: u64 = 0;
    let mut i: usize = 0;
    assert(files@.take(0) =~= Seq::<FileMeta>::empty());
    while i < files.len()
        invariant
            i <= files@.len(),
            n == total_size(files@.take(i as int)),
        decreases files@.len() - i,
    {
        proof {
            lemma_total_size_grows(files@, i + 1);
            assert(files@.take(i + 1).drop_last() =~= files@.take(i as int));
        }
        match n.checked_add(files[i].file_size) {
            Some(m) => {
                n = m;
            },
            None => {
                return None;
            },
        }
        i += 1;
    }
    assert(files@.take(i as int) =~= files@);
    Some(n)
}

/// What a clipboard holds.
#[derive(Debug)]
pub enum ClipboardContent {
    Text(String),
    Image { data: Vec<u8>, max_size: u32 },
    Files(Vec<FileMeta>),
    Html { html: String, text: String },
}

/// Two contents that hold the same.
pub open spec fn same_content(a: ClipboardContent, b: ClipboardContent) -> bool {
    match (a, b) {
        (ClipboardContent::Text(s), ClipboardContent::Text(t)) => s@ == t@,
        (
            ClipboardContent::Image { data: d, max_size: m },
            ClipboardContent::Image { data: e, max_size: n },
        ) => d@ == e@ && m == n,
        (ClipboardContent::Files(f), ClipboardContent::Files(g)) => f@ == g@,
        (
            ClipboardContent::Html { html: h, text: s },
            ClipboardContent::Html { html: i, text: t },
        ) => h@ == i@ && s@ == t@,
        _ => false,
    }
}

impl Clone for ClipboardContent {
    fn clone(&self) -> (r: Self)
        ensures
            same_content(*self, r),
    {
        match self {
            ClipboardContent::Text(t) => ClipboardContent::Text(t.clone()),
            ClipboardContent::Image { data, max_size } => {
                let d = data.clone();
                assert(d@ =~= data@);
                ClipboardContent::Image { data: d, max_size: *max_size }
            },
            ClipboardContent::Files(f) => ClipboardContent::Files(clone_files(f)),
            ClipboardContent::Html { html, text } => ClipboardContent::Html {
                html: html.clone(),
                text: text.clone(),
            },
        }
    }
}

/// The mark of one synchronised state. It keeps an update from being applied again where it came
/// from.
#[derive(Debug)]
pub struct SyncMark {
    pub device_id: DeviceId,
    pub sync_id: SyncId,
    pub timestamp: u64,
    pub lamport: u64,
    pub content_hash: String,
}

impl Clone for SyncMark {
    fn clone(&self) -> (r: Self)
        ensures
            r == *self,
    {
        SyncMark {
            device_id: self.device_id.clone(),
            sync_id: self.sync_id.clone(),
            timestamp: self.timestamp,
            lamport: self.lamport,
            content_hash: self.content_hash.clone(),
        }
    }
}

impl SyncMark {
    /// A mark with a new random identifier and the present time.
    pub fn new(device_id: &DeviceId, content_hash: &str, lamport: u64) -> (r: Self)
        ensures
            r.device_id == *device_id,
            r.content_hash@ == content_hash@,
            r.lamport == lamport,
            ids::is_uuid_text(r.sync_id.0@),
            exists|t: SystemTime| r.timestamp == #[trigger] clock::unix_seconds(t),
    {
        SyncMark::with(device_id, new_uuid(), now_secs(), content_hash, lamport)
    }

    /// A mark with the given identifier and time.
    pub fn with(
        device_id: &DeviceId,
        sync_id: String,
        timestamp: u64,
        content_hash: &str,
        lamport: u64,
    ) -> (r: Self)
        ensures
            r.device_id == *device_id,
            r.sync_id.0 == sync_id,
            r.timestamp == timestamp,
            r.content_hash@ == content_hash@,
            r.lamport == lamport,
    {
        SyncMark {
            device_id: device_id.clone(),
            sync_id: SyncId(sync_id),
            timestamp,
            lamport,
            content_hash: content_hash.to_owned(),
        }
    }
}

/// The size of a list of files counts every file, wherever it stands in the list.
pub proof fn law_every_file_counts(a: Seq<FileMeta>, f: FileMeta, b: Seq<FileMeta>)
    ensures
        total_size(seq![]) == 0,
        total_size(a.push(f)) == total_size(a) + f.file_size,
        total_size(a + b) == total_size(a) + total_size(b),
    decreases b.len(),
{
    assert(a.push(f).drop_last() =~= a);
    if b.len() == 0 {
        assert(a + b =~= a);
    } else {
        assert((a + b).drop_last() =~= a + b.drop_last());
        law_every_file_counts(a, f, b.drop_last());
    }
}

/// A copy of a content is of the same kind and holds the same text, bytes, files and markup.
pub proof fn law_copies_hold_the_same(a: ClipboardContent, b: ClipboardContent)
    requires
        same_content(a, b),
    ensures
        match a {
            ClipboardContent::Text(s) => b matches ClipboardContent::Text(t) && t@ == s@,
            ClipboardContent::Image { data: d, max_size: m } => b matches ClipboardContent::Image {
                data: e,
                max_size: n,
            } && e@ == d@ && n == m,
            ClipboardContent::Files(f) => b matches ClipboardContent::Files(g) && g@ == f@,
            ClipboardContent::Html { html: h, text: s } => b matches ClipboardContent::Html {
                html: i,
                text: t,
            } && i@ == h@ && t@ == s@,
        },
{
}

} // verus!
