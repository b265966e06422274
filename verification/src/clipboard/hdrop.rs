//! Lists of files as Windows has them: each path in UTF-16 with a zero behind it, and one more zero
//! behind the last.

use vstd::prelude::*;

use crate::clipboard::wide;
use crate::clipboard::wide::{from_utf16_lossy, to_wide};
use crate::text;

verus! {

/// The format of a list of files.
pub const CF_HDROP: u32 = 15;

/// A list of files in units.
pub open spec fn drop_list(paths: Seq<Seq<char>>) -> Seq<u16> {
    drop_names(paths).push(0)
}

/// The paths, each with a zero behind it.
pub open spec fn drop_names(paths: Seq<Seq<char>>) -> Seq<u16>
    decreases paths.len(),
{
    if paths.len() == 0 {
        seq![]
    } else {
        drop_names(paths.drop_last()) + wide::wide(paths.last())
    }
}

/// The names in a list of files, up to an empty one.
pub open spec fn names_in(u: Seq<u16>) -> Seq<Seq<u16>>
    decreases u.len(),
{
    let k = wide::find_zero(u);
    if k <= 0 {
        seq![]
    } else if k >= u.len() {
        seq![u]
    } else {
        seq![u.take(k)] + names_in(u.skip(k + 1))
    }
}

/// The texts of names.
pub open spec fn name_texts(names: Seq<Seq<u16>>) -> Seq<Seq<char>> {
    Seq::new(names.len(), |i: int| wide::utf16_text(names[i]))
}

/// A list of files.
pub fn encode_drop_list(paths: &[String]) -> (r: Vec<u16>)
    ensures
        r@ == drop_list(text::views(paths@)),
        (forall|i: int|
            0 <= i < paths@.len() ==> (#[trigger] paths@[i])@.len() > 0 && !paths@[i]@.contains('\0'))
            ==> name_texts(names_in(r@)) == text::views(paths@),
{
    let ghost all = text::views(paths@);
    let n: usize = paths.len();
    let mut out: Vec<u16> = Vec::new();
    let mut i: usize = 0;
    assert(out@ =~= drop_names(all.take(0)));
    while i < n
        invariant
            n == paths@.len(),
            i <= n,
            all == text::views(paths@),
            out@ == drop_names(all.take(i as int)),
        decreases n - i,
    {
        assert(all.take(i + 1).drop_last() =~= all.take(i as int));
        assert(all.take(i + 1).last() == paths@[i as int]@);
        let mut u = to_wide(paths[i].as_str());
        out.append(&mut u);
        i += 1;
    }
    assert(all.take(n as int) =~= all);
    out.push(0);
    proof {
        if forall|i: int|
            0 <= i < paths@.len() ==> (#[trigger] paths@[i])@.len() > 0 && !paths@[i]@.contains('\0') {
            assert forall|k: int| 0 <= k < all.len() implies (#[trigger] all[k]).len() > 0
                && !all[k].contains('\0') by {
                assert(all[k] == paths@[k]@);
            }
            law_drop_lists_read_back(all);
        }
    }
    out
}

/// The paths in a list of files.
pub fn decode_drop_list(units: &[u16]) -> (r: Vec<String>)
    ensures
        text::views(r@) == name_texts(names_in(units@)),
{
    let n: usize = units.len();
    let mut out: Vec<String> = Vec::new();
    let mut from: usize = 0;
    let ghost mut done: Seq<Seq<u16>> = seq![];
    proof {
        assert(units@.skip(0) =~= units@);
        assert(done + names_in(units@) =~= names_in(units@));
        assert(text::views(out@) =~= name_texts(done));
    }
    loop
        invariant
            n == units@.len(),
            from <= n,
            text::views(out@) == name_texts(done),
            done + names_in(units@.skip(from as int)) == names_in(units@),
        decreases n - from,
    {
        let ghost rest = units@.skip(from as int);
        let mut end: usize = from;
        while end < n && units[end] != 0
            invariant
                n == units@.len(),
                from <= end <= n,
                rest == units@.skip(from as int),
                forall|k: int| from <= k < end ==> #[trigger] units@[k] != 0,
            decreases n - end,
        {
            end += 1;
        }
        proof {
            assert forall|k: int| 0 <= k < end - from implies #[trigger] rest[k] != 0 by {
                assert(rest[k] == units@[from + k]);
            }
            if end < n {
                assert(rest[end - from] == 0);
            }
            wide::lemma_find_zero(rest, end - from);
        }
        if end == from {
            assert(done + names_in(rest) =~= done);
            return out;
        }
        let name = vstd::slice::slice_subrange(units, from, end);
        let s = from_utf16_lossy(name);
        proof {
            assert(name@ =~= rest.take(end - from));
            text::lemma_views_push(out@, s);
            assert(name_texts(done.push(name@)) =~= name_texts(done).push(s@));
        }
        out.push(s);
        if end == n {
            proof {
                assert(rest.take(end - from) =~= rest);
                assert(done + seq![rest] =~= done.push(name@));
            }
            return out;
        }
        proof {
            assert(rest.skip(end - from + 1) =~= units@.skip(end + 1));
            assert(done + (seq![name@] + names_in(units@.skip(end + 1))) =~= done.push(name@)
                + names_in(units@.skip(end + 1)));
            done = done.push(name@);
        }
        from = end + 1;
    }
}

proof fn lemma_names_in(paths: Seq<Seq<char>>, tail: Seq<u16>)
    requires
        forall|k: int|
            0 <= k < paths.len() ==> (#[trigger] paths[k]).len() > 0 && !paths[k].contains('\0'),
    ensures
        names_in(drop_names(paths) + tail) == Seq::new(paths.len(), |i: int| wide::utf16(paths[i]))
            + names_in(tail),
    decreases paths.len(),
{
    let want = Seq::new(paths.len(), |i: int| wide::utf16(paths[i]));
    if paths.len() == 0 {
        assert(drop_names(paths) + tail =~= tail);
        assert(want + names_in(tail) =~= names_in(tail));
    } else {
        let init = paths.drop_last();
        let n = paths.len() - 1;
        let u = wide::utf16(paths[n]);
        assert forall|k: int| 0 <= k < init.len() implies (#[trigger] init[k]).len() > 0
            && !init[k].contains('\0') by {
            assert(init[k] == paths[k]);
        }
        assert(paths[n].len() > 0);
        wide::lemma_utf16_units(paths[n]);
        let rest = u.push(0) + tail;
        lemma_names_in(init, rest);
        assert(drop_names(paths) + tail =~= drop_names(init) + rest);
        assert forall|i: int| 0 <= i < u.len() implies #[trigger] rest[i] != 0 by {
            assert(u.contains(u[i]));
        }
        assert(rest[u.len() as int] == 0);
        wide::lemma_find_zero(rest, u.len() as int);
        assert(rest.take(u.len() as int) =~= u);
        assert(rest.skip(u.len() as int + 1) =~= tail);
        let before = Seq::new(init.len(), |i: int| wide::utf16(init[i]));
        assert(before + (seq![u] + names_in(tail)) =~= want + names_in(tail));
    }
}

/// The paths that are written into a list are the ones that are read from it, where none is empty and
/// none holds a zero.
pub proof fn law_drop_lists_read_back(paths: Seq<Seq<char>>)
    requires
        forall|k: int|
            0 <= k < paths.len() ==> (#[trigger] paths[k]).len() > 0 && !paths[k].contains('\0'),
    ensures
        name_texts(names_in(drop_list(paths))) == paths,
{
    let end = seq![0u16];
    lemma_names_in(paths, end);
    wide::lemma_find_zero(end, 0);
    assert(drop_names(paths) + end =~= drop_list(paths));
    let want = Seq::new(paths.len(), |i: int| wide::utf16(paths[i]));
    assert(want + names_in(end) =~= want);
    assert forall|i: int| 0 <= i < paths.len() implies wide::utf16_text(
        #[trigger] wide::utf16(paths[i]),
    ) == paths[i] by {
        wide::law_utf16_reads_back(paths[i]);
    }
    assert(name_texts(want) =~= paths);
}

/// A list of files has each path, in their order, as UTF-16 with a zero behind it, and one more zero at
/// the end.
pub proof fn law_drop_lists_hold_every_path(paths: Seq<Seq<char>>, p: Seq<char>)
    ensures
        drop_names(seq![]) == Seq::<u16>::empty(),
        drop_names(paths.push(p)) == drop_names(paths) + wide::utf16(p).push(0),
        drop_list(paths) == drop_names(paths).push(0),
{
    assert(paths.push(p).drop_last() =~= paths);
}

} // verus!
