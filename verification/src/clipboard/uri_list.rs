//! Lists of files as X11 has them: one address a line, as in `file:///home/a/b`.

use vstd::prelude::*;

use crate::text;
use crate::text::{from_utf8_lossy, lines_of, starts_with, strip_prefix, trim};

verus! {

/// The value of a hexadecimal digit.
pub open spec fn hexval_spec(c: u8) -> Option<u8> {
    if 48 <= c <= 57 {
        Some((c - 48) as u8)
    } else if 97 <= c <= 102 {
        Some((c - 87) as u8)
    } else if 65 <= c <= 70 {
        Some((c - 55) as u8)
    } else {
        None
    }
}

/// The value of a hexadecimal digit.
pub fn hexval(c: u8) -> (r: Option<u8>)
    ensures
        r == hexval_spec(c),
{
    if 48 <= c && c <= 57 {
        Some(c - 48)
    } else if 97 <= c && c <= 102 {
        Some(c - 87)
    } else if 65 <= c && c <= 70 {
        Some(c - 55)
    } else {
        None
    }
}

/// The bytes begin with a percent sign and two hexadecimal digits.
pub open spec fn is_escape(b: Seq<u8>) -> bool {
    b.len() > 2 && b[0] == 37 && hexval_spec(b[1]) is Some && hexval_spec(b[2]) is Some
}

/// The bytes with each percent sign and the two digits behind it replaced by the byte that they stand
/// for. A percent sign without two digits stands for itself.
pub open spec fn unescaped(b: Seq<u8>) -> Seq<u8>
    decreases b.len(),
{
    if b.len() == 0 {
        seq![]
    } else if is_escape(b) {
        seq![(hexval_spec(b[1])->0 * 16 + hexval_spec(b[2])->0) as u8] + unescaped(b.skip(3))
    } else {
        seq![b[0]] + unescaped(b.skip(1))
    }
}

/// A text with its percent escapes resolved.
pub fn percent_decode(s: &str) -> (r: String)
    ensures
        r@ == text::lossy(unescaped(text::utf8(s@))),
{
    let b = s.as_bytes();
    let n: usize = b.len();
    let mut out: Vec<u8> = Vec::new();
    let mut i: usize = 0;
    assert(b@.skip(0) =~= b@);
    assert(out@ + unescaped(b@) =~= unescaped(b@));
    while i < n
        invariant
            n == b@.len(),
            i <= n,
            out@ + unescaped(b@.skip(i as int)) == unescaped(b@),
        decreases n - i,
    {
        let ghost rest = b@.skip(i as int);
        let ghost before = out@;
        assert(rest[0] == b@[i as int]);
        let mut hit: Option<u8> = None;
        if b[i] == 37 && n - i > 2 {
            assert(rest[1] == b@[i + 1] && rest[2] == b@[i + 2]);
            match (hexval(b[i + 1]), hexval(b[i + 2])) {
                (Some(h), Some(l)) => {
                    hit = Some(h * 16 + l);
                },
                _ => {},
            }
        }
        match hit {
            Some(v) => {
                out.push(v);
                proof {
                    assert(is_escape(rest));
                    assert(rest.skip(3) =~= b@.skip(i + 3));
                    assert(before + (seq![v] + unescaped(b@.skip(i + 3))) =~= out@ + unescaped(
                        b@.skip(i + 3),
                    ));
                }
                i += 3;
            },
            None => {
                out.push(b[i]);
                proof {
                    assert(!is_escape(rest));
                    assert(rest.skip(1) =~= b@.skip(i + 1));
                    assert(before + (seq![rest[0]] + unescaped(b@.skip(i + 1))) =~= out@ + unescaped(
                        b@.skip(i + 1),
                    ));
                }
                i += 1;
            },
        }
    }
    proof {
        assert(b@.skip(n as int) =~= Seq::<u8>::empty());
        assert(out@ + Seq::<u8>::empty() =~= out@);
    }
    from_utf8_lossy(&out)
}

/// The path in an address; `None` where it is none of a file.
pub open spec fn uri_path(uri: Seq<char>) -> Option<Seq<char>> {
    match text::strip_prefix_spec(uri, "file://"@) {
        Some(p) => Some(text::lossy(unescaped(text::utf8(p)))),
        None => None,
    }
}

/// The path in an address.
pub fn uri_to_path(uri: &str) -> (r: Option<String>)
    ensures
        text::opt_view(r) == uri_path(uri@),
{
    match strip_prefix(uri, "file://") {
        Some(p) => Some(percent_decode(p.as_str())),
        None => None,
    }
}

/// The path in a line; `None` for an empty one, a comment, and what is no address.
pub open spec fn line_path(line: Seq<char>) -> Option<Seq<char>> {
    let t = text::trimmed(line);
    if t.len() == 0 || "#"@.is_prefix_of(t) {
        None
    } else {
        uri_path(t)
    }
}

/// The paths in lines.
pub open spec fn line_paths(lines: Seq<Seq<char>>) -> Seq<Seq<char>>
    decreases lines.len(),
{
    if lines.len() == 0 {
        seq![]
    } else {
        let init = line_paths(lines.drop_last());
        match line_path(lines.last()) {
            Some(p) => init.push(p),
            None => init,
        }
    }
}

/// The paths in a list of files. GNOME puts a line in front that says whether the files were copied or
/// cut; it is no address, and is passed over.
pub fn parse_uri_list(raw: &[u8]) -> (r: Vec<String>)
    ensures
        text::views(r@) == line_paths(text::lines(text::lossy(raw@))),
{
    let all = from_utf8_lossy(raw);
    let lines = lines_of(all.as_str());
    let ghost ls = text::lines(all@);
    let n: usize = lines.len();
    let mut out: Vec<String> = Vec::new();
    let mut i: usize = 0;
    assert(text::views(out@) =~= line_paths(ls.take(0)));
    while i < n
        invariant
            n == lines@.len(),
            i <= n,
            ls == text::views(lines@),
            text::views(out@) == line_paths(ls.take(i as int)),
        decreases n - i,
    {
        assert(ls.take(i + 1).drop_last() =~= ls.take(i as int));
        assert(ls.take(i + 1).last() == lines@[i as int]@);
        let line = trim(lines[i].as_str());
        if !line.as_str().is_empty() && !starts_with(line.as_str(), "#") {
            match uri_to_path(line.as_str()) {
                Some(p) => {
                    proof {
                        text::lemma_views_push(out@, p);
                    }
                    out.push(p);
                },
                None => {},
            }
        }
        i += 1;
    }
    assert(ls.take(n as int) =~= ls);
    out
}

/// A list of files as text.
pub open spec fn uri_list(paths: Seq<Seq<char>>) -> Seq<char>
    decreases paths.len(),
{
    if paths.len() == 0 {
        seq![]
    } else {
        uri_list(paths.drop_last()) + "file://"@ + paths.last() + "\n"@
    }
}

/// A list of files: one address a line.
pub fn paths_to_uri_list(paths: &[String]) -> (r: Vec<u8>)
    ensures
        r@ == text::utf8(uri_list(text::views(paths@))),
{
    let ghost all = text::views(paths@);
    let n: usize = paths.len();
    let mut s = String::new();
    let mut i: usize = 0;
    assert(s@ =~= uri_list(all.take(0)));
    while i < n
        invariant
            n == paths@.len(),
            i <= n,
            all == text::views(paths@),
            s@ == uri_list(all.take(i as int)),
        decreases n - i,
    {
        assert(all.take(i + 1).drop_last() =~= all.take(i as int));
        assert(all.take(i + 1).last() == paths@[i as int]@);
        s.append("file://");
        s.append(paths[i].as_str());
        s.append("\n");
        i += 1;
    }
    assert(all.take(n as int) =~= all);
    vstd::slice::slice_to_vec(s.as_str().as_bytes())
}

// ---------------------------------------------------------------------------
// What is written reads back
// ---------------------------------------------------------------------------

proof fn lemma_unescaped_plain(b: Seq<u8>)
    requires
        !b.contains(37u8),
    ensures
        unescaped(b) == b,
    decreases b.len(),
{
    if b.len() > 0 {
        assert(b.contains(b[0]));
        let rest = b.skip(1);
        assert(!rest.contains(37u8)) by {
            if rest.contains(37u8) {
                let i = choose|i: int| 0 <= i < rest.len() && rest[i] == 37u8;
                assert(b[i + 1] == 37u8);
            }
        }
        lemma_unescaped_plain(rest);
        assert(seq![b[0]] + rest =~= b);
    }
}

proof fn lemma_split_ended(init: Seq<char>, line: Seq<char>)
    requires
        !line.contains('\n'),
        init.len() == 0 || init.last() == '\n',
    ensures
        text::split(init + line + seq!['\n'], '\n') == text::split(init, '\n').drop_last().push(
            line,
        ).push(seq![]),
        text::split(init, '\n').last() == Seq::<char>::empty(),
        text::split(init, '\n').len() >= 1,
    decreases init.len(),
{
    let s = init + line + seq!['\n'];
    if init.len() == 0 {
        assert forall|k: int| 0 <= k < line.len() implies #[trigger] s[k] != '\n' by {
            assert(line.contains(line[k]));
        }
        assert(s[line.len() as int] == '\n');
        text::lemma_find_is(s, '\n', line.len() as int);
        assert(s.take(line.len() as int) =~= line);
        let rest = s.skip(line.len() as int + 1);
        assert(rest =~= Seq::<char>::empty());
        text::lemma_find(rest, '\n');
        text::lemma_find(init, '\n');
        assert(text::split(rest, '\n') =~= seq![Seq::<char>::empty()]);
        assert(text::split(init, '\n') =~= seq![init]);
        assert(init =~= Seq::<char>::empty());
        assert(seq![line] + seq![Seq::<char>::empty()] =~= text::split(init, '\n').drop_last().push(
            line,
        ).push(seq![]));
    } else {
        text::lemma_find(init, '\n');
        let i = text::find(init, '\n');
        assert(init.contains('\n')) by {
            assert(init[init.len() - 1] == '\n');
        }
        assert(i < init.len());
        assert forall|k: int| 0 <= k < i implies #[trigger] s[k] != '\n' by {
            assert(s[k] == init[k]);
        }
        assert(s[i] == init[i]);
        text::lemma_find_is(s, '\n', i);
        let rest = init.skip(i + 1);
        assert(s.take(i) =~= init.take(i));
        assert(s.skip(i + 1) =~= rest + line + seq!['\n']);
        if rest.len() > 0 {
            assert(rest.last() == init.last());
        }
        lemma_split_ended(rest, line);
        let p = text::split(rest, '\n');
        assert(text::split(init, '\n') == seq![init.take(i)] + p);
        assert(seq![init.take(i)] + p.drop_last().push(line).push(seq![]) =~= (seq![init.take(i)]
            + p).drop_last().push(line).push(seq![]));
    }
}

/// The path can stand in a list as it is: it has no line ends and no percent sign, and does not end in
/// white space.
pub open spec fn is_plain_path(p: Seq<char>) -> bool {
    &&& !p.contains('\n')
    &&& !text::utf8(p).contains(37u8)
    &&& p.len() > 0
    &&& !text::is_white(p.last())
}

proof fn lemma_lines_of_list(paths: Seq<Seq<char>>)
    requires
        forall|i: int| 0 <= i < paths.len() ==> is_plain_path(#[trigger] paths[i]),
    ensures
        ({
            let s = uri_list(paths);
            &&& s.len() == 0 || s.last() == '\n'
            &&& text::split(s, '\n').len() >= 1
            &&& text::split(s, '\n').last() == Seq::<char>::empty()
            &&& text::split(s, '\n').drop_last() == Seq::new(
                paths.len(),
                |i: int| "file://"@ + paths[i],
            )
        }),
    decreases paths.len(),
{
    reveal_strlit("file://");
    reveal_strlit("\n");
    let s = uri_list(paths);
    if paths.len() == 0 {
        text::lemma_find(s, '\n');
        assert(text::split(s, '\n') =~= seq![s]);
        assert(text::split(s, '\n').drop_last() =~= Seq::new(
            paths.len(),
            |i: int| "file://"@ + paths[i],
        ));
    } else {
        let init = paths.drop_last();
        let p = paths.last();
        assert(paths[paths.len() - 1] == p);
        assert forall|i: int| 0 <= i < init.len() implies is_plain_path(#[trigger] init[i]) by {
            assert(init[i] == paths[i]);
        }
        lemma_lines_of_list(init);
        let head = uri_list(init);
        let line = "file://"@ + p;
        assert(!line.contains('\n')) by {
            if line.contains('\n') {
                let k = choose|k: int| 0 <= k < line.len() && line[k] == '\n';
                if k >= 7 {
                    assert(p[k - 7] == '\n');
                    assert(p.contains('\n'));
                }
            }
        }
        assert("\n"@ =~= seq!['\n']);
        assert(s =~= head + line + seq!['\n']);
        lemma_split_ended(head, line);
        let q = text::split(head, '\n');
        assert(q.drop_last().push(line).push(seq![]).drop_last() =~= q.drop_last().push(line));
        assert(q.drop_last().push(line) =~= Seq::new(
            paths.len(),
            |i: int| "file://"@ + paths[i],
        ));
    }
}

proof fn lemma_line_reads_back(p: Seq<char>)
    requires
        is_plain_path(p),
    ensures
        line_path("file://"@ + p) == Some(p),
        text::without_cr("file://"@ + p) == "file://"@ + p,
{
    reveal_strlit("file://");
    reveal_strlit("#");
    let line = "file://"@ + p;
    assert(line.last() == p.last());
    assert(line[0] == 'f');
    text::lemma_trimmed_fixed(line);
    assert(!"#"@.is_prefix_of(line)) by {
        if "#"@.is_prefix_of(line) {
            assert(line.subrange(0, 1)[0] == "#"@[0]);
        }
    }
    assert(line.subrange(0, 7) =~= "file://"@);
    assert(line.skip(7) =~= p);
    lemma_unescaped_plain(text::utf8(p));
    vstd::utf8::encode_utf8_valid_utf8(p);
    vstd::utf8::encode_utf8_decode_utf8(p);
}

proof fn lemma_line_paths(lines: Seq<Seq<char>>, paths: Seq<Seq<char>>)
    requires
        lines.len() == paths.len(),
        forall|i: int| 0 <= i < lines.len() ==> line_path(#[trigger] lines[i]) == Some(paths[i]),
    ensures
        line_paths(lines) == paths,
    decreases lines.len(),
{
    if lines.len() > 0 {
        let n = lines.len() - 1;
        assert(line_path(lines[n]) == Some(paths[n]));
        assert forall|i: int| 0 <= i < n implies line_path(#[trigger] lines.drop_last()[i]) == Some(
            paths.drop_last()[i],
        ) by {
            assert(lines.drop_last()[i] == lines[i]);
        }
        lemma_line_paths(lines.drop_last(), paths.drop_last());
        assert(paths.drop_last().push(paths[n]) =~= paths);
    } else {
        assert(paths =~= seq![]);
    }
}

/// The paths that are written into a list are the ones that are read from it.
pub proof fn law_lists_of_files_read_back(paths: Seq<Seq<char>>)
    requires
        forall|i: int| 0 <= i < paths.len() ==> is_plain_path(#[trigger] paths[i]),
    ensures
        line_paths(text::lines(text::lossy(text::utf8(uri_list(paths))))) == paths,
{
    let s = uri_list(paths);
    vstd::utf8::encode_utf8_valid_utf8(s);
    vstd::utf8::encode_utf8_decode_utf8(s);
    lemma_lines_of_list(paths);
    let p = text::split(s, '\n');
    let l = text::lines(s);
    assert(p.drop_last().len() == paths.len());
    assert(l.len() == paths.len());
    assert forall|i: int| 0 <= i < l.len() implies line_path(#[trigger] l[i]) == Some(paths[i]) by {
        assert(is_plain_path(paths[i]));
        lemma_line_reads_back(paths[i]);
        assert(p[i] == p.drop_last()[i]);
        assert(p[i] == "file://"@ + paths[i]);
        assert(l[i] == text::without_cr(p[i]));
    }
    lemma_line_paths(l, paths);
}

/// The value of each hexadecimal digit, in letters of either case.
pub proof fn law_hexadecimal_digits(c: u8)
    ensures
        48 <= c <= 57 ==> hexval_spec(c) == Some((c - 48) as u8),
        97 <= c <= 102 ==> hexval_spec(c) == Some((c - 87) as u8),
        65 <= c <= 70 ==> hexval_spec(c) == Some((c - 55) as u8),
        !(48 <= c <= 57 || 97 <= c <= 102 || 65 <= c <= 70) ==> hexval_spec(c) is None,
{
}

/// A percent sign with two hexadecimal digits stands for a byte; every other byte stands for itself.
pub proof fn law_escapes_stand_for_bytes(x: u8, hi: u8, lo: u8, c: u8, rest: Seq<u8>)
    requires
        hexval_spec(hi) == Some((x / 16) as u8),
        hexval_spec(lo) == Some((x % 16) as u8),
        c != 37,
    ensures
        unescaped(seq![37u8, hi, lo] + rest) == seq![x] + unescaped(rest),
        unescaped(seq![c] + rest) == seq![c] + unescaped(rest),
        unescaped(seq![]) == Seq::<u8>::empty(),
{
    let a = seq![37u8, hi, lo] + rest;
    let b = seq![c] + rest;
    assert(a[0] == 37 && a[1] == hi && a[2] == lo);
    assert(a.skip(3) =~= rest);
    assert(b[0] == c);
    assert(b.skip(1) =~= rest);
    assert((x / 16) * 16 + x % 16 == x);
}

/// Every line that is the address of a file gives its path, in the order of the lines; an empty line, a
/// comment and anything else gives none.
pub proof fn law_addresses_give_their_paths(lines: Seq<Seq<char>>, line: Seq<char>, path: Seq<char>)
    ensures
        line_paths(seq![]) == Seq::<Seq<char>>::empty(),
        line_path(line) is Some ==> line_paths(lines.push(line)) == line_paths(lines).push(
            line_path(line)->0,
        ),
        line_path(line) is None ==> line_paths(lines.push(line)) == line_paths(lines),
        line_path(seq![]) is None,
        line.len() > 0 && line[0] == '#' ==> line_path(line) is None,
        uri_path("file://"@ + path) == Some(text::lossy(unescaped(vstd::utf8::encode_utf8(path)))),
        !"file://"@.is_prefix_of(line) ==> uri_path(line) is None,
        line.len() > 0 && !text::is_white(line[0]) && !text::is_white(line.last()) && line[0] != '#'
            ==> line_path(line) == uri_path(line),
{
    reveal_strlit("#");
    assert("#"@ =~= seq!['#']);
    assert(lines.push(line).drop_last() =~= lines);
    let e: Seq<char> = seq![];
    text::lemma_trimmed_fixed(e);
    let u = "file://"@ + path;
    assert(u.skip("file://"@.len() as int) =~= path);
    assert("file://"@.is_prefix_of(u)) by {
        assert(u.subrange(0, "file://"@.len() as int) =~= "file://"@);
    }
    if line.len() > 0 && line[0] == '#' {
        let t = text::trimmed(line);
        let s = text::trim_start_spec(line);
        assert(s == line);
        text::lemma_trim_end(line);
        if t.len() > 0 {
            assert(t[0] == '#');
            assert(t.subrange(0, 1) =~= "#"@);
        }
    }
    if line.len() > 0 && !text::is_white(line[0]) && !text::is_white(line.last()) && line[0] != '#' {
        text::lemma_trimmed_fixed(line);
        if "#"@.is_prefix_of(line) {
            assert(line.subrange(0, 1)[0] == '#');
        }
    }
}

/// A list of files has one line for each path, in their order: `file://`, the path, and a line end.
pub proof fn law_lists_name_every_file(paths: Seq<Seq<char>>, p: Seq<char>)
    ensures
        uri_list(seq![]) == Seq::<char>::empty(),
        uri_list(paths.push(p)) == uri_list(paths) + seq!['f', 'i', 'l', 'e', ':', '/', '/'] + p + seq![
            '\n',
        ],
{
    reveal_strlit("file://");
    reveal_strlit("\n");
    assert("file://"@ =~= seq!['f', 'i', 'l', 'e', ':', '/', '/']);
    assert("\n"@ =~= seq!['\n']);
    assert(paths.push(p).drop_last() =~= paths);
}

} // verus!
