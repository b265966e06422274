//! The files that this device offers beyond the local network, by the digest of their content.

use vstd::prelude::*;

use crate::bytes;
use crate::bytes::to_hex;
use crate::clipboard::types::FileMeta;
use crate::crypto::mac;
use crate::crypto::mac::sha256_digest;
use crate::strmap::StrMap;
use crate::text;
use crate::transfer::local_files;
use crate::transfer::local_files::file_name_of;

verus! {

/// A file or directory on this device. Nothing is read of a directory.
pub struct LocalFile {
    pub path: String,
    pub is_dir: bool,
    pub data: Vec<u8>,
}

/// The digest of a file's content, in hexadecimal.
pub open spec fn content_digest(data: Seq<u8>) -> Seq<char> {
    bytes::hex(mac::sha256(data))
}

/// `m` describes the file `f`.
pub open spec fn describes(m: FileMeta, f: LocalFile) -> bool {
    &&& local_files::file_name_spec(f.path@) == Some(m.file_name@)
    &&& m.is_dir == f.is_dir
    &&& m.file_size == if f.is_dir {
        0
    } else {
        f.data@.len()
    }
    &&& text::opt_view(m.hash) == if f.is_dir {
        None
    } else {
        Some(content_digest(f.data@))
    }
    &&& m.relative_path@ == ""@
    &&& m.modified_at == 0
    &&& m.mime_type@ == ""@
}

/// What is offered of a file: its name, its size and the digest of its content. `None` where its path
/// has no name.
pub fn build_meta(f: &LocalFile) -> (r: Option<FileMeta>)
    ensures
        match r {
            Some(m) => describes(m, *f),
            None => local_files::file_name_spec(f.path@) is None,
        },
{
    let file_name = match file_name_of(f.path.as_str()) {
        Some(n) => n,
        None => {
            return None;
        },
    };
    let (file_size, hash): (u64, Option<String>) = if f.is_dir {
        (0, None)
    } else {
        (f.data.len() as u64, Some(to_hex(&sha256_digest(&f.data))))
    };
    Some(
        FileMeta {
            file_name,
            file_size,
            is_dir: f.is_dir,
            relative_path: "".to_owned(),
            modified_at: 0,
            mime_type: "".to_owned(),
            hash,
        },
    )
}

/// The files among `files` that can be offered: those with a name.
pub open spec fn nameable(files: Seq<LocalFile>) -> Seq<LocalFile>
    decreases files.len(),
{
    if files.len() == 0 {
        seq![]
    } else {
        let init = nameable(files.drop_last());
        if local_files::file_name_spec(files.last().path@) is Some {
            init.push(files.last())
        } else {
            init
        }
    }
}

/// The paths by digest after `files` were added to `m`. Of two files with the same content the later
/// one is found.
pub open spec fn shared(m: Map<Seq<char>, Seq<char>>, files: Seq<LocalFile>) -> Map<
    Seq<char>,
    Seq<char>,
>
    decreases files.len(),
{
    if files.len() == 0 {
        m
    } else {
        let init = shared(m, files.drop_last());
        let f = files.last();
        if local_files::file_name_spec(f.path@) is Some && !f.is_dir {
            init.insert(content_digest(f.data@), f.path@)
        } else {
            init
        }
    }
}

/// The files that this device offers.
pub struct FileShare {
    map: StrMap<String>,
}

impl View for FileShare {
    type V = Map<Seq<char>, Seq<char>>;

    closed spec fn view(&self) -> Map<Seq<char>, Seq<char>> {
        self.map@.map_values(|s: String| s@)
    }
}

impl FileShare {
    /// No files.
    pub fn new() -> (r: Self)
        ensures
            r@ == Map::<Seq<char>, Seq<char>>::empty(),
    {
        let r = FileShare { map: StrMap::new() };
        assert(r@ =~= Map::<Seq<char>, Seq<char>>::empty());
        r
    }

    /// Offers files. Returns what is told of them.
    pub fn register(&mut self, files: &[LocalFile]) -> (r: Vec<FileMeta>)
        ensures
            final(self)@ == shared(old(self)@, files@),
            r@.len() == nameable(files@).len(),
            forall|i: int| 0 <= i < r@.len() ==> describes(#[trigger] r@[i], nameable(files@)[i]),
    {
        let mut out: Vec<FileMeta> = Vec::new();
        let n: usize = files.len();
        let mut i: usize = 0;
        assert(files@.take(0) =~= Seq::<LocalFile>::empty());
        while i < n
            invariant
                n == files@.len(),
                i <= n,
                self@ == shared(old(self)@, files@.take(i as int)),
                out@.len() == nameable(files@.take(i as int)).len(),
                forall|k: int|
                    0 <= k < out@.len() ==> describes(
                        #[trigger] out@[k],
                        nameable(files@.take(i as int))[k],
                    ),
            decreases n - i,
        {
            let ghost f = files@[i as int];
            let ghost before = self@;
            let ghost named = nameable(files@.take(i as int));
            assert(files@.take(i + 1).drop_last() =~= files@.take(i as int));
            assert(files@.take(i + 1).last() == f);
            match build_meta(&files[i]) {
                Some(m) => {
                    match &m.hash {
                        Some(h) => {
                            let path = files[i].path.clone();
                            let _ = self.map.insert(h.clone(), path);
                            assert(self@ =~= before.insert(h@, f.path@));
                        },
                        None => {},
                    }
                    assert(nameable(files@.take(i + 1)) == named.push(f));
                    out.push(m);
                },
                None => {},
            }
            i += 1;
        }
        assert(files@.take(n as int) =~= files@);
        out
    }

    /// The path of the file with a digest.
    pub fn path_of(&self, hash: &str) -> (r: Option<String>)
        ensures
            match r {
                Some(p) => self@.dom().contains(hash@) && p@ == self@[hash@],
                None => !self@.dom().contains(hash@),
            },
    {
        match self.map.get(hash) {
            Some(p) => Some(p.clone()),
            None => None,
        }
    }
}

impl Default for FileShare {
    fn default() -> (r: Self)
        ensures
            r@ == Map::<Seq<char>, Seq<char>>::empty(),
    {
        FileShare::new()
    }
}

/// Whatever was offered can be asked for: under the digest of a file that was added lies a file with
/// that digest.
pub proof fn law_offered_files_are_found(
    m: Map<Seq<char>, Seq<char>>,
    files: Seq<LocalFile>,
    i: int,
)
    requires
        0 <= i < files.len(),
        !files[i].is_dir,
        local_files::file_name_spec(files[i].path@) is Some,
    ensures
        ({
            let h = content_digest(files[i].data@);
            &&& shared(m, files).dom().contains(h)
            &&& exists|k: int|
                i <= k < files.len() && (#[trigger] files[k]).path@ == shared(m, files)[h]
                    && content_digest(files[k].data@) == h
        }),
    decreases files.len(),
{
    let h = content_digest(files[i].data@);
    let f = files.last();
    let n = files.len() - 1;
    assert(files[n] == f);
    let init = files.drop_last();
    if i == n {
        assert(files[i].path@ == shared(m, files)[h]);
    } else {
        assert(init[i] == files[i]);
        law_offered_files_are_found(m, init, i);
        let k = choose|k: int|
            i <= k < init.len() && (#[trigger] init[k]).path@ == shared(m, init)[h]
                && content_digest(init[k].data@) == h;
        assert(files[k] == init[k]);
        if local_files::file_name_spec(f.path@) is Some && !f.is_dir && content_digest(f.data@) == h {
            assert(files[n].path@ == shared(m, files)[h]);
        }
    }
}

/// Of every file with a name something is told, in the order of the files, and of no other.
pub proof fn law_every_named_file_is_told(files: Seq<LocalFile>, f: LocalFile)
    ensures
        nameable(seq![]) == Seq::<LocalFile>::empty(),
        local_files::file_name_spec(f.path@) is Some ==> nameable(files.push(f)) == nameable(files).push(f),
        local_files::file_name_spec(f.path@) is None ==> nameable(files.push(f)) == nameable(files),
{
    assert(files.push(f).drop_last() =~= files);
}

/// A file goes by the SHA-256 of its content, in hexadecimal: two files go by the same text exactly where
/// SHA-256 gives the same digest for all their bytes. What is told of a file is its name, its size and
/// that text; of a folder no content is told.
pub proof fn law_files_go_by_their_content(a: Seq<u8>, b: Seq<u8>, m: FileMeta, f: LocalFile)
    ensures
        content_digest(a) == content_digest(b) <==> mac::sha256(a) == mac::sha256(b),
        describes(m, f) && !f.is_dir ==> m.file_size == f.data@.len() && m.hash is Some && m.hash->0@
            == bytes::hex(mac::sha256(f.data@)) && !m.is_dir,
        describes(m, f) && f.is_dir ==> m.is_dir && m.hash is None && m.file_size == 0,
        describes(m, f) ==> local_files::file_name_spec(f.path@) == Some(m.file_name@),
{
    if content_digest(a) == content_digest(b) {
        bytes::lemma_hex_injective(mac::sha256(a), mac::sha256(b));
    }
}

} // verus!
