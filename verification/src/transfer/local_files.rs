//! Files on this device that are offered to others: their names, relative paths and number.

use vstd::prelude::*;

use crate::clipboard::types::FileMeta;
use crate::text;
use crate::text::{join, same, split_on};
use crate::transfer::paths;
use crate::transfer::paths::to_slashes;

verus! {

/// The parts of `pieces` that name something: not empty, and `.` only where a relative path begins
/// with it.
pub open spec fn named_parts(pieces: Seq<Seq<char>>, absolute: bool) -> Seq<Seq<char>>
    decreases pieces.len(),
{
    if pieces.len() == 0 {
        seq![]
    } else {
        let init = named_parts(pieces.drop_last(), absolute);
        let p = pieces.last();
        if p == ""@ || (p == "."@ && (absolute || pieces.len() > 1)) {
            init
        } else {
            init.push(p)
        }
    }
}

/// The components of a path: a first `/` for an absolute one, then the names. Names are separated by
/// slashes, see [`paths::portable_path`]; a drive of Windows counts as a name.
pub open spec fn components(path: Seq<char>) -> Seq<Seq<char>> {
    let absolute = path.len() > 0 && path[0] == '/';
    let names = named_parts(text::split(path, '/'), absolute);
    if absolute {
        seq!["/"@] + names
    } else {
        names
    }
}

/// The components of a path.
pub fn components_of(path: &str) -> (r: Vec<String>)
    ensures
        text::views(r@) == components(path@),
{
    let absolute = text::starts_with(path, "/");
    proof {
        reveal_strlit("/");
        if path@.len() > 0 && path@[0] == '/' {
            assert(path@.subrange(0, 1) =~= "/"@);
        }
        if "/"@.is_prefix_of(path@) {
            assert(path@.subrange(0, 1)[0] == "/"@[0]);
        }
    }
    let pieces = split_on(path, '/');
    let ghost all = text::views(pieces@);
    let mut out: Vec<String> = Vec::new();
    let ghost head: Seq<Seq<char>> = if absolute {
        seq!["/"@]
    } else {
        seq![]
    };
    if absolute {
        out.push("/".to_owned());
    }
    assert(text::views(out@) =~= head);
    let mut i: usize = 0;
    assert(head + named_parts(all.take(0), absolute) =~= head);
    while i < pieces.len()
        invariant
            i <= pieces@.len(),
            all == text::views(pieces@),
            text::views(out@) == head + named_parts(all.take(i as int), absolute),
        decreases pieces@.len() - i,
    {
        let p = pieces[i].as_str();
        let ghost t = all.take(i + 1);
        assert(t.drop_last() =~= all.take(i as int));
        assert(t.last() == p@);
        if same(p, "") || (same(p, ".") && (absolute || i > 0)) {
        } else {
            let s = p.to_owned();
            proof {
                text::lemma_views_push(out@, s);
                assert((head + named_parts(all.take(i as int), absolute)).push(s@) =~= head
                    + named_parts(t, absolute));
            }
            out.push(s);
        }
        i += 1;
    }
    proof {
        assert(all.take(i as int) =~= all);
        assert(Seq::<Seq<char>>::empty() + named_parts(all, absolute) =~= named_parts(
            all,
            absolute,
        ));
    }
    out
}

/// The components of the directory that holds what `c` names; `c` itself where it names the root or
/// nothing.
pub open spec fn parent(c: Seq<Seq<char>>) -> Seq<Seq<char>> {
    if c.len() == 0 || c.last() == "/"@ {
        c
    } else {
        c.drop_last()
    }
}

/// The longest beginning that `a` and `b` share.
pub open spec fn common_prefix_spec(a: Seq<Seq<char>>, b: Seq<Seq<char>>) -> Seq<Seq<char>>
    decreases a.len(),
{
    if a.len() == 0 || b.len() == 0 || a[0] != b[0] {
        seq![]
    } else {
        seq![a[0]] + common_prefix_spec(a.drop_first(), b.drop_first())
    }
}

/// The shared beginning of two paths is a beginning of both, and no longer one is.
pub proof fn law_common_prefix_is_longest(a: Seq<Seq<char>>, b: Seq<Seq<char>>)
    ensures
        common_prefix_spec(a, b).is_prefix_of(a),
        common_prefix_spec(a, b).is_prefix_of(b),
        forall|p: Seq<Seq<char>>|
            #[trigger] p.is_prefix_of(a) && p.is_prefix_of(b) ==> p.len() <= common_prefix_spec(
                a,
                b,
            ).len(),
    decreases a.len(),
{
    let c = common_prefix_spec(a, b);
    if a.len() == 0 || b.len() == 0 || a[0] != b[0] {
        assert(a.subrange(0, 0) =~= c);
        assert(b.subrange(0, 0) =~= c);
        assert forall|p: Seq<Seq<char>>| #[trigger]
            p.is_prefix_of(a) && p.is_prefix_of(b) implies p.len() <= c.len() by {
            if p.len() > 0 {
                assert(a.subrange(0, p.len() as int)[0] == a[0]);
                assert(b.subrange(0, p.len() as int)[0] == b[0]);
            }
        }
    } else {
        let x = a.drop_first();
        let y = b.drop_first();
        let d = common_prefix_spec(x, y);
        law_common_prefix_is_longest(x, y);
        assert(a.subrange(0, c.len() as int) =~= c) by {
            assert forall|i: int| 0 <= i < c.len() implies a.subrange(0, c.len() as int)[i] == c[i] by {
                if i > 0 {
                    assert(c[i] == d[i - 1]);
                    assert(x.subrange(0, d.len() as int)[i - 1] == x[i - 1]);
                }
            }
        }
        assert(b.subrange(0, c.len() as int) =~= c) by {
            assert forall|i: int| 0 <= i < c.len() implies b.subrange(0, c.len() as int)[i] == c[i] by {
                if i > 0 {
                    assert(c[i] == d[i - 1]);
                    assert(y.subrange(0, d.len() as int)[i - 1] == y[i - 1]);
                }
            }
        }
        assert forall|p: Seq<Seq<char>>| #[trigger]
            p.is_prefix_of(a) && p.is_prefix_of(b) implies p.len() <= c.len() by {
            if p.len() > 0 {
                let q = p.drop_first();
                assert(q =~= x.subrange(0, q.len() as int)) by {
                    assert forall|i: int| 0 <= i < q.len() implies q[i] == x.subrange(
                        0,
                        q.len() as int,
                    )[i] by {
                        assert(p[i + 1] == a.subrange(0, p.len() as int)[i + 1]);
                    }
                }
                assert(q =~= y.subrange(0, q.len() as int)) by {
                    assert forall|i: int| 0 <= i < q.len() implies q[i] == y.subrange(
                        0,
                        q.len() as int,
                    )[i] by {
                        assert(p[i + 1] == b.subrange(0, p.len() as int)[i + 1]);
                    }
                }
                assert(q.is_prefix_of(x));
            }
        }
    }
}

fn common_prefix(a: &Vec<String>, b: &Vec<String>) -> (r: Vec<String>)
    ensures
        text::views(r@) == common_prefix_spec(text::views(a@), text::views(b@)),
{
    let ghost x = text::views(a@);
    let ghost y = text::views(b@);
    let mut out: Vec<String> = Vec::new();
    let mut i: usize = 0;
    assert(x.skip(0) =~= x);
    assert(y.skip(0) =~= y);
    assert(text::views(out@) + common_prefix_spec(x.skip(0), y.skip(0)) =~= common_prefix_spec(x, y));
    while i < a.len() && i < b.len()
        invariant
            i <= a@.len(),
            i <= b@.len(),
            x == text::views(a@),
            y == text::views(b@),
            text::views(out@) + common_prefix_spec(x.skip(i as int), y.skip(i as int))
                == common_prefix_spec(x, y),
        decreases a@.len() - i,
    {
        let ghost u = x.skip(i as int);
        let ghost w = y.skip(i as int);
        assert(u[0] == a@[i as int]@);
        assert(w[0] == b@[i as int]@);
        if !same(a[i].as_str(), b[i].as_str()) {
            assert(text::views(out@) + Seq::<Seq<char>>::empty() =~= text::views(out@));
            return out;
        }
        let s = a[i].clone();
        proof {
            text::lemma_views_push(out@, s);
            assert(u.drop_first() =~= x.skip(i + 1));
            assert(w.drop_first() =~= y.skip(i + 1));
            let rest = common_prefix_spec(x.skip(i + 1), y.skip(i + 1));
            assert(text::views(out@) + (seq![u[0]] + rest) =~= text::views(out@).push(s@) + rest);
        }
        out.push(s);
        i += 1;
    }
    assert(text::views(out@) + Seq::<Seq<char>>::empty() =~= text::views(out@));
    out
}

/// The components of the directory that all paths share.
pub open spec fn common_root_spec(p: Seq<Seq<char>>) -> Seq<Seq<char>>
    decreases p.len(),
{
    if p.len() == 0 {
        seq!["/"@]
    } else if p.len() == 1 {
        parent(components(p[0]))
    } else {
        common_prefix_spec(common_root_spec(p.drop_last()), parent(components(p.last())))
    }
}

/// The components of the directory that all paths share; the root where there are no paths.
pub fn common_root(paths: &[String]) -> (r: Vec<String>)
    ensures
        text::views(r@) == common_root_spec(text::views(paths@)),
{
    let ghost all = text::views(paths@);
    let mut root: Vec<String> = Vec::new();
    root.push("/".to_owned());
    assert(text::views(root@) =~= common_root_spec(all.take(0)));
    let mut i: usize = 0;
    while i < paths.len()
        invariant
            i <= paths@.len(),
            all == text::views(paths@),
            text::views(root@) == common_root_spec(all.take(i as int)),
        decreases paths@.len() - i,
    {
        let mut c = components_of(paths[i].as_str());
        let ghost cs = text::views(c@);
        assert(cs.len() == c@.len());
        let n: usize = c.len();
        if n > 0 {
            assert(cs.last() == c@[n - 1]@);
            if !same(c[n - 1].as_str(), "/") {
                c.truncate(n - 1);
                assert(text::views(c@) =~= cs.drop_last());
            }
        }
        let ghost t = all.take(i + 1);
        assert(t.drop_last() =~= all.take(i as int));
        assert(t.last() == paths@[i as int]@);
        root = if i == 0 {
            c
        } else {
            common_prefix(&root, &c)
        };
        i += 1;
    }
    assert(all.take(i as int) =~= all);
    root
}

/// What is left of a path behind `root`; the whole path where it does not lie there.
pub open spec fn relative_parts(path: Seq<Seq<char>>, root: Seq<Seq<char>>) -> Seq<Seq<char>> {
    if root.is_prefix_of(path) {
        path.skip(root.len() as int)
    } else {
        path
    }
}

/// The components with a slash between each two, but none behind a first `/`.
pub open spec fn rendered(parts: Seq<Seq<char>>) -> Seq<char> {
    if parts.len() > 0 && parts[0] == "/"@ {
        "/"@ + text::joined(parts.drop_first(), "/"@)
    } else {
        text::joined(parts, "/"@)
    }
}

/// The path of a file below `root`, with slashes only.
pub open spec fn relative_path_spec(path: Seq<char>, root: Seq<Seq<char>>) -> Seq<char> {
    paths::slashed(rendered(relative_parts(components(path), root)))
}

fn has_prefix(a: &Vec<String>, p: &Vec<String>) -> (r: bool)
    ensures
        r == text::views(p@).is_prefix_of(text::views(a@)),
{
    let ghost x = text::views(a@);
    let ghost y = text::views(p@);
    if p.len() > a.len() {
        return false;
    }
    let mut i: usize = 0;
    while i < p.len()
        invariant
            i <= p@.len() <= a@.len(),
            x == text::views(a@),
            y == text::views(p@),
            forall|k: int| 0 <= k < i ==> x[k] == #[trigger] y[k],
        decreases p@.len() - i,
    {
        if !same(a[i].as_str(), p[i].as_str()) {
            assert(x.subrange(0, y.len() as int)[i as int] != y[i as int]);
            return false;
        }
        i += 1;
    }
    assert(x.subrange(0, y.len() as int) =~= y);
    true
}

/// The path of a file below `root`, with slashes only.
pub fn relative_path(path: &str, root: &Vec<String>) -> (r: String)
    ensures
        r@ == relative_path_spec(path@, text::views(root@)),
{
    let c = components_of(path);
    let from: usize = if has_prefix(&c, root) {
        root.len()
    } else {
        0
    };
    let ghost cs = text::views(c@);
    let ghost rest = relative_parts(cs, text::views(root@));
    let mut parts: Vec<String> = Vec::new();
    let mut i: usize = from;
    while i < c.len()
        invariant
            from <= i <= c@.len(),
            cs == text::views(c@),
            text::views(parts@) == cs.subrange(from as int, i as int),
        decreases c@.len() - i,
    {
        let s = c[i].clone();
        proof {
            text::lemma_views_push(parts@, s);
            assert(cs.subrange(from as int, i + 1) =~= cs.subrange(from as int, i as int).push(s@));
        }
        parts.push(s);
        i += 1;
    }
    assert(text::views(parts@) =~= rest);
    let text = if parts.len() > 0 && same(parts[0].as_str(), "/") {
        assert(rest[0] == parts@[0]@);
        let _ = parts.remove(0);
        assert(text::views(parts@) =~= rest.drop_first());
        let tail = join(&parts, "/");
        text::concat("/", tail.as_str())
    } else {
        proof {
            if parts@.len() > 0 {
                assert(rest[0] == parts@[0]@);
            }
        }
        join(&parts, "/")
    };
    to_slashes(text.as_str())
}

/// The last name of a path; `None` where it ends in `..` or names the root or nothing.
pub open spec fn file_name_spec(path: Seq<char>) -> Option<Seq<char>> {
    let c = components(path);
    if c.len() == 0 || c.last() == "/"@ || c.last() == ".."@ || c.last() == "."@ {
        None
    } else {
        Some(c.last())
    }
}

/// The last name of a path.
pub fn file_name_of(path: &str) -> (r: Option<String>)
    ensures
        text::opt_view(r) == file_name_spec(path@),
{
    let c = components_of(path);
    let n: usize = c.len();
    assert(text::views(c@).len() == n);
    if n == 0 {
        return None;
    }
    let l = c[n - 1].as_str();
    assert(text::views(c@).last() == l@);
    if same(l, "/") || same(l, "..") || same(l, ".") {
        None
    } else {
        Some(l.to_owned())
    }
}

/// What is told of a file: its name, its size, and where it lies below `root`. `None` where the path
/// has no last name.
pub fn build_file_meta(
    path: &str,
    root: &Vec<String>,
    file_size: u64,
    is_dir: bool,
    modified_at: u64,
) -> (r: Option<FileMeta>)
    ensures
        match r {
            Some(m) => {
                &&& file_name_spec(path@) == Some(m.file_name@)
                &&& m.file_size == file_size
                &&& m.is_dir == is_dir
                &&& m.relative_path@ == relative_path_spec(path@, text::views(root@))
                &&& m.modified_at == modified_at
                &&& m.mime_type@ == ""@
                &&& m.hash is None
            },
            None => file_name_spec(path@) is None,
        },
{
    match file_name_of(path) {
        Some(file_name) => Some(
            FileMeta {
                file_name,
                file_size,
                is_dir,
                relative_path: relative_path(path, root),
                modified_at,
                mime_type: "".to_owned(),
                hash: None,
            },
        ),
        None => None,
    }
}

/// The files that are offered together, each with the path where it lies. The path of a file has the
/// same position as what is told of it, for files are asked for by their position.
pub struct OfferList {
    /// The components of the directory that all offered paths have in common.
    pub root: Vec<String>,
    pub files: Vec<FileMeta>,
    pub paths: Vec<String>,
}

impl OfferList {
    /// What is told of each file belongs to the path at the same position.
    pub open spec fn wf(&self) -> bool {
        &&& self.files@.len() == self.paths@.len()
        &&& forall|i: int|
            0 <= i < self.files@.len() ==> {
                let f = #[trigger] self.files@[i];
                &&& file_name_spec(self.paths@[i]@) == Some(f.file_name@)
                &&& f.relative_path@ == relative_path_spec(self.paths@[i]@, text::views(self.root@))
            }
    }

    /// A list for what was copied, with no file yet.
    pub fn new(copied: &[String]) -> (r: Self)
        ensures
            r.wf(),
            text::views(r.root@) == common_root_spec(text::views(copied@)),
            r.files@.len() == 0,
    {
        OfferList { root: common_root(copied), files: Vec::new(), paths: Vec::new() }
    }

    /// Puts a file at the end of the list, and returns whether it did: a path without a name is left
    /// out.
    pub fn put(&mut self, path: &str, file_size: u64, is_dir: bool, modified_at: u64) -> (r: bool)
        requires
            old(self).wf(),
        ensures
            final(self).wf(),
            final(self).root == old(self).root,
            r == (file_name_spec(path@) is Some),
            if r {
                let n = old(self).files@.len() as int;
                &&& final(self).files@ == old(self).files@.push(final(self).files@[n])
                &&& text::views(final(self).paths@) == text::views(old(self).paths@).push(path@)
                &&& final(self).files@[n].file_size == file_size
                &&& final(self).files@[n].is_dir == is_dir
                &&& final(self).files@[n].modified_at == modified_at
                &&& final(self).files@[n].mime_type@ == ""@
                &&& final(self).files@[n].hash is None
            } else {
                *final(self) == *old(self)
            },
    {
        match build_file_meta(path, &self.root, file_size, is_dir, modified_at) {
            Some(m) => {
                let p = path.to_owned();
                proof {
                    text::lemma_views_push(self.paths@, p);
                }
                self.files.push(m);
                self.paths.push(p);
                true
            },
            None => false,
        }
    }
}

/// What an entry of a directory is.
#[derive(Debug, Clone, Copy, PartialEq, Eq, Structural)]
pub enum EntryKind {
    File,
    Dir,
    Other,
}

/// A walk through a directory that stops as soon as more than `limit` files were met.
pub struct LimitWalk {
    pub limit: usize,
    pub count: usize,
    /// The directories that are still to be read.
    pub stack: Vec<String>,
}

/// The number of files among the entries.
pub open spec fn files_in(kinds: Seq<EntryKind>) -> nat
    decreases kinds.len(),
{
    if kinds.len() == 0 {
        0
    } else {
        files_in(kinds.drop_last()) + if kinds.last() == EntryKind::File {
            1nat
        } else {
            0nat
        }
    }
}

/// The directories among the entries.
pub open spec fn dirs_in(entries: Seq<(Seq<char>, EntryKind)>) -> Seq<Seq<char>>
    decreases entries.len(),
{
    if entries.len() == 0 {
        seq![]
    } else if entries.last().1 == EntryKind::Dir {
        dirs_in(entries.drop_last()).push(entries.last().0)
    } else {
        dirs_in(entries.drop_last())
    }
}

/// The kinds of the entries.
pub open spec fn kinds_of(entries: Seq<(Seq<char>, EntryKind)>) -> Seq<EntryKind> {
    Seq::new(entries.len(), |i: int| entries[i].1)
}

/// The views of a directory's entries.
pub open spec fn entry_views(v: Seq<(String, EntryKind)>) -> Seq<(Seq<char>, EntryKind)> {
    Seq::new(v.len(), |i: int| (v[i].0@, v[i].1))
}

impl LimitWalk {
    /// Not more files than the limit were met.
    pub open spec fn wf(&self) -> bool {
        self.count <= self.limit
    }

    /// A walk from a directory.
    pub fn new(dir: &str, limit: usize) -> (r: Self)
        ensures
            r.wf(),
            r.limit == limit,
            r.count == 0,
            text::views(r.stack@) == seq![dir@],
    {
        let mut stack: Vec<String> = Vec::new();
        stack.push(dir.to_owned());
        assert(text::views(stack@) =~= seq![dir@]);
        LimitWalk { limit, count: 0, stack }
    }

    /// The directory to read next; `None` where the walk is over.
    pub fn next_dir(&mut self) -> (r: Option<String>)
        requires
            old(self).wf(),
        ensures
            final(self).wf(),
            final(self).limit == old(self).limit,
            final(self).count == old(self).count,
            match r {
                Some(d) => old(self).stack@.len() > 0 && d == old(self).stack@.last() && final(
                    self).stack@ == old(self).stack@.drop_last(),
                None => old(self).stack@.len() == 0 && final(self).stack@ == old(self).stack@,
            },
    {
        self.stack.pop()
    }

    /// The entries of the directory that was read. Returns whether there are too many files; where
    /// there are not, the directories among the entries are still to be read.
    pub fn entries(&mut self, entries: &Vec<(String, EntryKind)>) -> (r: bool)
        requires
            old(self).wf(),
        ensures
            final(self).limit == old(self).limit,
            r == (old(self).count + files_in(kinds_of(entry_views(entries@))) > old(self).limit),
            !r ==> final(self).wf() && final(self).count == old(self).count + files_in(
                kinds_of(entry_views(entries@)),
            ) && text::views(final(self).stack@) == text::views(old(self).stack@) + dirs_in(
                entry_views(entries@),
            ),
    {
        let ghost all = entry_views(entries@);
        let ghost kinds = kinds_of(all);
        let ghost before = text::views(self.stack@);
        let mut i: usize = 0;
        assert(kinds.take(0) =~= Seq::<EntryKind>::empty());
        assert(before + dirs_in(all.take(0)) =~= before);
        while i < entries.len()
            invariant
                i <= entries@.len(),
                all == entry_views(entries@),
                kinds == kinds_of(all),
                self.limit == old(self).limit,
                self.count <= self.limit,
                before == text::views(old(self).stack@),
                self.count == old(self).count + files_in(kinds.take(i as int)),
                text::views(self.stack@) == before + dirs_in(all.take(i as int)),
            decreases entries@.len() - i,
        {
            proof {
                assert(kinds.take(i + 1).drop_last() =~= kinds.take(i as int));
                assert(kinds.take(i + 1).last() == entries@[i as int].1);
                assert(all.take(i + 1).drop_last() =~= all.take(i as int));
                assert(all.take(i + 1).last() == (entries@[i as int].0@, entries@[i as int].1));
            }
            match entries[i].1 {
                EntryKind::Dir => {
                    let s = entries[i].0.clone();
                    proof {
                        text::lemma_views_push(self.stack@, s);
                        assert((before + dirs_in(all.take(i as int))).push(s@) =~= before + dirs_in(
                            all.take(i + 1),
                        ));
                    }
                    self.stack.push(s);
                },
                EntryKind::File => {
                    if self.count == self.limit {
                        proof {
                            lemma_files_in_grows(kinds, i + 1);
                        }
                        return true;
                    }
                    self.count = self.count + 1;
                },
                EntryKind::Other => {},
            }
            i += 1;
        }
        assert(kinds.take(i as int) =~= kinds);
        assert(all.take(i as int) =~= all);
        false
    }
}

proof fn lemma_files_in_grows(kinds: Seq<EntryKind>, k: int)
    requires
        0 <= k <= kinds.len(),
    ensures
        files_in(kinds.take(k)) <= files_in(kinds),
    decreases kinds.len(),
{
    if k < kinds.len() {
        lemma_files_in_grows(kinds.drop_last(), k);
        assert(kinds.drop_last().take(k) =~= kinds.take(k));
    } else {
        assert(kinds.take(k) =~= kinds);
    }
}

/// Whether a single file is already too many: only where none are allowed.
pub fn single_file_exceeds(limit: usize) -> (r: bool)
    ensures
        r == (limit == 0),
{
    1 > limit
}

/// How the folders are named to the user where they hold too many files.
pub open spec fn folder_label_spec(top_names: Seq<Seq<char>>) -> Seq<char> {
    if top_names.len() == 0 {
        "该"@
    } else {
        text::joined(top_names, "、"@)
    }
}

/// How the folders are named to the user where they hold too many files.
pub fn folder_label(top_names: &Vec<String>) -> (r: String)
    ensures
        r@ == folder_label_spec(text::views(top_names@)),
{
    if top_names.len() == 0 {
        "该".to_owned()
    } else {
        join(top_names, "、")
    }
}

proof fn lemma_named_parts(names: Seq<Seq<char>>, absolute: bool)
    requires
        forall|i: int| 0 <= i < names.len() ==> (#[trigger] names[i]).len() > 0 && names[i] != "."@,
    ensures
        named_parts(names, absolute) == names,
    decreases names.len(),
{
    reveal_strlit("");
    if names.len() > 0 {
        let t = names.drop_last();
        assert forall|i: int| 0 <= i < t.len() implies (#[trigger] t[i]).len() > 0 && t[i] != "."@ by {
            assert(t[i] == names[i]);
        }
        lemma_named_parts(t, absolute);
        let l = names[names.len() - 1];
        assert(l.len() > 0 && l != "."@);
        assert(t.push(l) =~= names);
    }
}

proof fn lemma_named_parts_front(names: Seq<Seq<char>>)
    requires
        forall|i: int| 0 <= i < names.len() ==> (#[trigger] names[i]).len() > 0 && names[i] != "."@,
    ensures
        named_parts(seq![Seq::<char>::empty()] + names, true) == names,
    decreases names.len(),
{
    reveal_strlit("");
    assert(""@ =~= Seq::<char>::empty());
    let p = seq![Seq::<char>::empty()] + names;
    if names.len() > 0 {
        let t = names.drop_last();
        assert forall|i: int| 0 <= i < t.len() implies (#[trigger] t[i]).len() > 0 && t[i] != "."@ by {
            assert(t[i] == names[i]);
        }
        lemma_named_parts_front(t);
        assert(p.drop_last() =~= seq![Seq::<char>::empty()] + t);
        let l = names[names.len() - 1];
        assert(p.last() == l);
        assert(l.len() > 0 && l != "."@);
        assert(t.push(l) =~= names);
    } else {
        assert(p =~= seq![Seq::<char>::empty()]);
        assert(p.drop_last() =~= Seq::<Seq<char>>::empty());
        reveal_with_fuel(named_parts, 2);
        assert(p.last() == ""@);
        assert(named_parts(p.drop_last(), true) =~= Seq::<Seq<char>>::empty());
        assert(named_parts(p, true) =~= names);
    }
}

/// A path is taken apart into its names: one that was put together from names, with slashes between
/// them, has these components, and its name is the last of them.
#[verifier::rlimit(30)]
pub proof fn law_paths_are_taken_apart_into_their_names(names: Seq<Seq<char>>)
    requires
        names.len() > 0,
        forall|i: int|
            0 <= i < names.len() ==> (#[trigger] names[i]).len() > 0 && names[i] != "."@
                && !names[i].contains('/'),
    ensures
        components(seq!['/'] + text::joined(names, seq!['/'])) == seq![seq!['/']] + names,
        components(text::joined(names, seq!['/'])) == names,
        names.last() != ".."@ ==> file_name_spec(seq!['/'] + text::joined(names, seq!['/'])) == Some(
            names.last(),
        ),
        names.last() != ".."@ ==> file_name_spec(text::joined(names, seq!['/'])) == Some(names.last()),
        names.last() == ".."@ ==> file_name_spec(text::joined(names, seq!['/'])) is None,
{
    reveal_strlit("/");
    reveal_strlit("");
    assert("/"@ =~= seq!['/']);
    let s = text::joined(names, seq!['/']);
    text::law_joining_is_undone_by_splitting(names, '/');
    lemma_named_parts(names, false);
    lemma_named_parts_front(names);
    assert(s.len() > 0 && s[0] != '/') by {
        let x = names[0];
        assert(x.len() > 0);
        assert(x.contains(x[0]));
        if names.len() > 1 {
            let q = names.drop_first();
            assert(names =~= seq![x] + q);
            text::lemma_joined_front(x, q, seq!['/']);
            assert(s =~= x + seq!['/'] + text::joined(q, seq!['/']));
            assert(s[0] == x[0]);
        } else {
            assert(s == x);
        }
    }
    let a = seq!['/'] + s;
    text::lemma_find_is(a, '/', 0);
    assert(a.skip(1) =~= s);
    assert(a.take(0) =~= Seq::<char>::empty());
    assert(text::split(a, '/') =~= seq![Seq::<char>::empty()] + names);
    let l = names[names.len() - 1];
    assert(l != "."@ && l.len() > 0);
    assert(l != "/"@) by {
        if l == "/"@ {
            assert(l[0] == '/');
            assert(l.contains('/'));
        }
    }
    assert((seq![seq!['/']] + names).last() == l);
}

/// The path of a file below a folder is what stands behind the folder: the rest of the names, with
/// slashes between them.
pub proof fn law_relative_paths_begin_behind_the_root(root: Seq<Seq<char>>, rest: Seq<Seq<char>>)
    requires
        rest.len() > 0,
        forall|i: int|
            0 <= i < root.len() ==> (#[trigger] root[i]).len() > 0 && root[i] != "."@
                && !root[i].contains('/'),
        forall|i: int|
            0 <= i < rest.len() ==> (#[trigger] rest[i]).len() > 0 && rest[i] != "."@
                && !rest[i].contains('/'),
        !text::joined(rest, seq!['/']).contains('\\'),
    ensures
        relative_path_spec(
            seq!['/'] + text::joined(root + rest, seq!['/']),
            seq![seq!['/']] + root,
        ) == text::joined(rest, seq!['/']),
{
    reveal_strlit("/");
    assert("/"@ =~= seq!['/']);
    let names = root + rest;
    assert forall|i: int| 0 <= i < names.len() implies (#[trigger] names[i]).len() > 0 && names[i]
        != "."@ && !names[i].contains('/') by {
        if i < root.len() {
            assert(names[i] == root[i]);
        } else {
            assert(names[i] == rest[i - root.len()]);
        }
    }
    law_paths_are_taken_apart_into_their_names(names);
    let c = seq![seq!['/']] + names;
    let r = seq![seq!['/']] + root;
    assert(c.subrange(0, r.len() as int) =~= r);
    assert(c.skip(r.len() as int) =~= rest);
    assert(rest[0] != "/"@) by {
        if rest[0] == "/"@ {
            assert(rest[0][0] == '/');
            assert(rest[0].contains('/'));
        }
    }
    let j = text::joined(rest, seq!['/']);
    assert(paths::slashed(j) =~= j) by {
        assert forall|i: int| 0 <= i < j.len() implies j[i] != '\\' by {
            assert(j.contains(j[i]));
        }
    }
}

/// The common root holds every path: it is a folder above each of them. No deeper folder is.
#[verifier::rlimit(30)]
pub proof fn law_the_common_root_holds_every_path(p: Seq<Seq<char>>, i: int, d: Seq<Seq<char>>)
    requires
        0 <= i < p.len(),
    ensures
        common_root_spec(p).is_prefix_of(parent(components(p[i]))),
        (forall|k: int| 0 <= k < p.len() ==> d.is_prefix_of(parent(components(#[trigger] p[k])))) ==> d.len()
            <= common_root_spec(p).len() && d.is_prefix_of(common_root_spec(p)),
    decreases p.len(),
{
    let n = p.len() - 1;
    let c = parent(components(p.last()));
    if p.len() == 1 {
        assert(c.subrange(0, c.len() as int) =~= c);
        if forall|k: int| 0 <= k < p.len() ==> d.is_prefix_of(parent(components(#[trigger] p[k]))) {
            assert(d.is_prefix_of(parent(components(p[0]))));
        }
    } else {
        let t = p.drop_last();
        let r = common_root_spec(t);
        let m = if i < n {
            i
        } else {
            0
        };
        law_the_common_root_holds_every_path(t, m, d);
        law_common_prefix_is_longest(r, c);
        let q = common_prefix_spec(r, c);
        assert(p[n] == p.last());
        assert(t[m] == p[m]);
        if i < n {
            let x = parent(components(p[i]));
            assert(x.subrange(0, q.len() as int) =~= q) by {
                assert(r =~= x.subrange(0, r.len() as int));
                assert(q =~= r.subrange(0, q.len() as int));
            }
        }
        if forall|k: int| 0 <= k < p.len() ==> d.is_prefix_of(parent(components(#[trigger] p[k]))) {
            assert forall|k: int| 0 <= k < t.len() implies d.is_prefix_of(
                parent(components(#[trigger] t[k])),
            ) by {
                assert(t[k] == p[k]);
            }
            assert(d.is_prefix_of(parent(components(p[n]))));
            assert(d.is_prefix_of(r));
            assert(d.len() <= q.len());
            assert(q.subrange(0, d.len() as int) =~= d) by {
                assert(d =~= r.subrange(0, d.len() as int));
                assert(q =~= r.subrange(0, q.len() as int));
            }
        }
    }
}

/// The folder of a path is the path without its last name.
pub proof fn law_folders_lack_the_last_name(c: Seq<Seq<char>>, name: Seq<char>)
    requires
        name != seq!['/'],
    ensures
        parent(c.push(name)) == c,
{
    reveal_strlit("/");
    assert("/"@ =~= seq!['/']);
    assert(c.push(name).drop_last() =~= c);
}

/// Every file among the entries of a folder is counted, and every folder is walked through.
pub proof fn law_every_entry_counts(
    kinds: Seq<EntryKind>,
    k: EntryKind,
    entries: Seq<(Seq<char>, EntryKind)>,
    e: (Seq<char>, EntryKind),
)
    ensures
        files_in(seq![]) == 0,
        k == EntryKind::File ==> files_in(kinds.push(k)) == files_in(kinds) + 1,
        k != EntryKind::File ==> files_in(kinds.push(k)) == files_in(kinds),
        dirs_in(seq![]) == Seq::<Seq<char>>::empty(),
        e.1 == EntryKind::Dir ==> dirs_in(entries.push(e)) == dirs_in(entries).push(e.0),
        e.1 != EntryKind::Dir ==> dirs_in(entries.push(e)) == dirs_in(entries),
{
    assert(kinds.push(k).drop_last() =~= kinds);
    assert(entries.push(e).drop_last() =~= entries);
}

/// The entries of a folder are seen as their paths and kinds, and folders with too many files are named
/// one behind the other.
pub proof fn law_entries_are_seen_whole(
    v: Seq<(String, EntryKind)>,
    e: Seq<(Seq<char>, EntryKind)>,
    i: int,
    names: Seq<Seq<char>>,
)
    ensures
        entry_views(v).len() == v.len(),
        0 <= i < v.len() ==> entry_views(v)[i].0 == v[i].0@ && entry_views(v)[i].1 == v[i].1,
        kinds_of(e).len() == e.len(),
        0 <= i < e.len() ==> kinds_of(e)[i] == e[i].1,
        names.len() > 0 ==> folder_label_spec(names) == text::joined(names, "、"@),
{
}

} // verus!
