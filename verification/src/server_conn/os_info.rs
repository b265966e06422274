//! The version of the operating system, from what the system reports.

use vstd::prelude::*;

use crate::text;
use crate::text::{chars_of, lines_of, matches_at, string_of_range, strip_prefix, trim};

verus! {

/// Where `p` first stands in `s`; the length of `s` where it does not.
pub open spec fn find_str(s: Seq<char>, p: Seq<char>) -> int
    decreases s.len(),
{
    if text::occurs_at(s, p, 0) {
        0
    } else if s.len() == 0 {
        0
    } else {
        1 + find_str(s.drop_first(), p)
    }
}

/// The version in the output of `reg query` on Windows: what stands behind `REG_SZ`, without a
/// leading `Windows `. Empty where there is none.
pub open spec fn windows_version_spec(out: Seq<char>) -> Seq<char> {
    let tag = "REG_SZ"@;
    let i = find_str(out, tag);
    if text::occurs_at(out, tag, i) {
        let v = text::trimmed(out.skip(i + tag.len()));
        match text::strip_prefix_spec(v, "Windows "@) {
            Some(rest) => rest,
            None => v,
        }
    } else {
        seq![]
    }
}

proof fn lemma_find_str(s: Seq<char>, p: Seq<char>, k: int)
    requires
        0 <= k <= s.len(),
        k < s.len() ==> text::occurs_at(s, p, k),
        forall|i: int| 0 <= i < k ==> !#[trigger] text::occurs_at(s, p, i),
    ensures
        find_str(s, p) == k,
    decreases s.len(),
{
    if k > 0 {
        let t = s.drop_first();
        assert(!text::occurs_at(s, p, 0));
        assert forall|i: int| 0 <= i < k - 1 implies !#[trigger] text::occurs_at(t, p, i) by {
            if text::occurs_at(t, p, i) {
                assert(t.subrange(i, i + p.len()) =~= s.subrange(i + 1, i + 1 + p.len()));
                assert(text::occurs_at(s, p, i + 1));
            }
        }
        if k < s.len() {
            assert(t.subrange(k - 1, k - 1 + p.len()) =~= s.subrange(k, k + p.len()));
        }
        lemma_find_str(t, p, k - 1);
    }
}

/// The version in the output of `reg query` on Windows.
pub fn windows_version(out: &str) -> (r: String)
    ensures
        r@ == windows_version_spec(out@),
{
    let v = chars_of(out);
    let tag = chars_of("REG_SZ");
    proof {
        reveal_strlit("REG_SZ");
    }
    let n: usize = v.len();
    let mut i: usize = 0;
    while i < n
        invariant
            i <= n,
            n == v@.len(),
            v@ == out@,
            tag@ == "REG_SZ"@,
            tag@.len() == 6,
            forall|k: int| 0 <= k < i ==> !#[trigger] text::occurs_at(out@, "REG_SZ"@, k),
        decreases n - i,
    {
        if matches_at(&v, &tag, i) {
            proof {
                lemma_find_str(out@, "REG_SZ"@, i as int);
            }
            let rest = string_of_range(&v, i + tag.len(), n);
            assert(rest@ =~= out@.skip(i + 6));
            let t = trim(rest.as_str());
            return match strip_prefix(t.as_str(), "Windows ") {
                Some(w) => w,
                None => t,
            };
        }
        i += 1;
    }
    proof {
        lemma_find_str(out@, "REG_SZ"@, n as int);
    }
    String::new()
}

/// `s` without the quotation marks at its ends.
pub open spec fn unquoted(s: Seq<char>) -> Seq<char>
    decreases s.len(),
{
    if s.len() > 0 && s[0] == '"' {
        unquoted(s.drop_first())
    } else if s.len() > 0 && s.last() == '"' {
        unquoted(s.drop_last())
    } else {
        s
    }
}

fn unquote(s: &str) -> (r: String)
    ensures
        r@ == unquoted(s@),
{
    let v = chars_of(s);
    let mut from: usize = 0;
    let mut to: usize = v.len();
    assert(v@.subrange(0, to as int) =~= s@);
    while from < to && v[from] == '"'
        invariant
            from <= to == v@.len(),
            unquoted(v@.subrange(from as int, to as int)) == unquoted(s@),
        decreases to - from,
    {
        assert(v@.subrange(from as int, to as int).drop_first() =~= v@.subrange(
            from + 1,
            to as int,
        ));
        from += 1;
    }
    while from < to && v[to - 1] == '"'
        invariant
            from <= to <= v@.len(),
            from < to ==> v@[from as int] != '"',
            unquoted(v@.subrange(from as int, to as int)) == unquoted(s@),
        decreases to,
    {
        assert(v@.subrange(from as int, to as int).drop_last() =~= v@.subrange(
            from as int,
            to - 1,
        ));
        to -= 1;
    }
    string_of_range(&v, from, to)
}

/// The version that a line of `/etc/os-release` gives, where it gives one.
pub open spec fn pretty_name(line: Seq<char>) -> Option<Seq<char>> {
    match text::strip_prefix_spec(line, "PRETTY_NAME="@) {
        Some(v) => if unquoted(v).len() > 0 {
            Some(unquoted(v))
        } else {
            None
        },
        None => None,
    }
}

/// The version that the first of the lines gives that gives one.
pub open spec fn first_pretty_name(lines: Seq<Seq<char>>) -> Seq<char>
    decreases lines.len(),
{
    if lines.len() == 0 {
        seq![]
    } else if pretty_name(lines[0]) is Some {
        pretty_name(lines[0])->0
    } else {
        first_pretty_name(lines.drop_first())
    }
}

/// The version in `/etc/os-release` on Linux: the first `PRETTY_NAME` that is not empty, without its
/// quotation marks. Empty where there is none.
pub fn linux_version(contents: &str) -> (r: String)
    ensures
        r@ == first_pretty_name(text::lines(contents@)),
{
    let lines = lines_of(contents);
    let ghost all = text::lines(contents@);
    let mut i: usize = 0;
    assert(all.skip(0) =~= all);
    while i < lines.len()
        invariant
            i <= lines@.len(),
            all == text::views(lines@),
            all == text::lines(contents@),
            first_pretty_name(all.skip(i as int)) == first_pretty_name(all),
        decreases lines@.len() - i,
    {
        let ghost rest = all.skip(i as int);
        assert(rest[0] == lines@[i as int]@);
        assert(rest.drop_first() =~= all.skip(i + 1));
        match strip_prefix(lines[i].as_str(), "PRETTY_NAME=") {
            Some(p) => {
                let u = unquote(p.as_str());
                if !u.as_str().is_empty() {
                    return u;
                }
            },
            None => {},
        }
        i += 1;
    }
    String::new()
}

/// The version in the output of `sw_vers` on macOS: its text, trimmed.
pub fn macos_version(out: &str) -> (r: String)
    ensures
        r@ == text::trimmed(out@),
{
    trim(out)
}

/// The version of Linux is what stands in quotation marks behind `PRETTY_NAME=` in the first line that
/// has it.
#[verifier::rlimit(30)]
pub proof fn law_versions_stand_in_quotation_marks(name: Seq<char>, lines: Seq<Seq<char>>, other: Seq<char>)
    requires
        name.len() > 0,
        name[0] != '"',
        name.last() != '"',
        !"PRETTY_NAME="@.is_prefix_of(other),
    ensures
        first_pretty_name(seq!["PRETTY_NAME=\""@ + name + "\""@] + lines) == name,
        first_pretty_name(seq!["PRETTY_NAME="@ + name] + lines) == name,
        first_pretty_name(seq![other] + lines) == first_pretty_name(lines),
        first_pretty_name(seq![]).len() == 0,
{
    reveal_strlit("PRETTY_NAME=\"");
    reveal_strlit("PRETTY_NAME=");
    reveal_strlit("\"");
    let a = "PRETTY_NAME=\""@ + name + "\""@;
    let b = "PRETTY_NAME="@ + name;
    let q = seq!['"'] + name + seq!['"'];
    assert(a =~= "PRETTY_NAME="@ + q);
    assert(a.subrange(0, 12) =~= "PRETTY_NAME="@);
    assert(b.subrange(0, 12) =~= "PRETTY_NAME="@);
    assert(a.skip(12) =~= q);
    assert(b.skip(12) =~= name);
    let r = q.drop_first();
    assert(r =~= name + seq!['"']);
    assert(r[0] == name[0]);
    assert(r.last() == '"');
    assert(r.drop_last() =~= name);
    assert(unquoted(name) == name);
    assert(unquoted(r) == name);
    assert(q[0] == '"');
    assert(unquoted(q) == name);
    assert((seq![a] + lines)[0] == a);
    assert((seq![b] + lines)[0] == b);
    assert((seq![other] + lines).drop_first() =~= lines);
    assert((seq![other] + lines)[0] == other);
}

/// The version of Windows is what stands behind the first `REG_SZ`, without `Windows ` in front of it.
#[verifier::rlimit(30)]
pub proof fn law_windows_tells_its_version(before: Seq<char>, v: Seq<char>)
    requires
        forall|i: int| 0 <= i < before.len() ==> #[trigger] before[i] != 'R',
        v.len() > 0,
        !text::is_white(v[0]),
        !text::is_white(v.last()),
    ensures
        windows_version_spec(before + "REG_SZ    Windows "@ + v) == v,
        !"Windows "@.is_prefix_of(v) ==> windows_version_spec(before + "REG_SZ    "@ + v) == v,
        windows_version_spec(before).len() == 0,
{
    reveal_strlit("REG_SZ    Windows ");
    reveal_strlit("REG_SZ    ");
    reveal_strlit("REG_SZ");
    reveal_strlit("Windows ");
    let tag = "REG_SZ"@;
    let n = before.len() as int;
    let white = seq![' ', ' ', ' ', ' '];
    let none: Seq<char> = seq![];
    let w = "Windows "@ + v;
    let a = before + "REG_SZ    Windows "@ + v;
    let b = before + "REG_SZ    "@ + v;
    assert(a.subrange(n, n + 6) =~= tag);
    assert(b.subrange(n, n + 6) =~= tag);
    assert(a.take(n) =~= before);
    assert(b.take(n) =~= before);
    lemma_first_tag(a, before, n);
    lemma_first_tag(b, before, n);
    assert(a.skip(n + 6) =~= white + w + none);
    assert(b.skip(n + 6) =~= white + v + none);
    assert(w[0] == 'W' && w.last() == v.last());
    text::law_trimming_takes_white_space_only(white, w, none);
    text::law_trimming_takes_white_space_only(white, v, none);
    assert(w.subrange(0, 8) =~= "Windows "@);
    assert(w.skip(8) =~= v);
    if text::occurs_at(before, tag, find_str(before, tag)) {
        let i = find_str(before, tag);
        assert(before.subrange(i, i + 6)[0] == 'R');
        assert(before[i] == 'R');
    }
}

proof fn lemma_first_tag(s: Seq<char>, before: Seq<char>, n: int)
    requires
        n == before.len(),
        n <= s.len(),
        s.take(n) == before,
        forall|i: int| 0 <= i < before.len() ==> #[trigger] before[i] != 'R',
        text::occurs_at(s, "REG_SZ"@, n),
    ensures
        find_str(s, "REG_SZ"@) == n,
    decreases n,
{
    reveal_strlit("REG_SZ");
    if n > 0 {
        assert(s[0] == s.take(n)[0]);
        assert(before[0] != 'R');
        if text::occurs_at(s, "REG_SZ"@, 0) {
            assert(s.subrange(0, 6)[0] == 'R');
        }
        let t = s.drop_first();
        let b = before.drop_first();
        assert(t.take(n - 1) =~= b) by {
            assert forall|i: int| 0 <= i < n - 1 implies t.take(n - 1)[i] == b[i] by {
                assert(s.take(n)[i + 1] == before[i + 1]);
            }
        }
        assert forall|i: int| 0 <= i < b.len() implies #[trigger] b[i] != 'R' by {
            assert(b[i] == before[i + 1]);
        }
        assert(t.subrange(n - 1, n + 5) =~= s.subrange(n, n + 6));
        lemma_first_tag(t, b, n - 1);
    }
}

} // verus!
