//! Where a received file is written.
//!
//! Names from the other end are not trusted. A file is always written to
//! `sync_dir / safe_segment(device_name) / safe_segment(file_name)`: folders of the other end are
//! not rebuilt, and a file of the same name is overwritten.

use vstd::prelude::*;

use crate::text;
use crate::text::{chars_of, concat, same, split_on, string_of, trim, upper};

verus! {

/// The longest name, in characters.
pub const MAX_SEGMENT_CHARS: usize = 120;

/// The device names of Windows, which no file may have, with or without an extension.
pub open spec fn is_reserved(s: Seq<char>) -> bool {
    ||| s == "CON"@
    ||| s == "PRN"@
    ||| s == "AUX"@
    ||| s == "NUL"@
    ||| s == "COM1"@
    ||| s == "COM2"@
    ||| s == "COM3"@
    ||| s == "COM4"@
    ||| s == "COM5"@
    ||| s == "COM6"@
    ||| s == "COM7"@
    ||| s == "COM8"@
    ||| s == "COM9"@
    ||| s == "LPT1"@
    ||| s == "LPT2"@
    ||| s == "LPT3"@
    ||| s == "LPT4"@
    ||| s == "LPT5"@
    ||| s == "LPT6"@
    ||| s == "LPT7"@
    ||| s == "LPT8"@
    ||| s == "LPT9"@
}

fn reserved(s: &str) -> (r: bool)
    ensures
        r == is_reserved(s@),
{
    same(s, "CON") || same(s, "PRN") || same(s, "AUX") || same(s, "NUL") || same(s, "COM1") || same(
        s,
        "COM2",
    ) || same(s, "COM3") || same(s, "COM4") || same(s, "COM5") || same(s, "COM6") || same(s, "COM7")
        || same(s, "COM8") || same(s, "COM9") || same(s, "LPT1") || same(s, "LPT2") || same(
        s,
        "LPT3",
    ) || same(s, "LPT4") || same(s, "LPT5") || same(s, "LPT6") || same(s, "LPT7") || same(s, "LPT8")
        || same(s, "LPT9")
}

/// `s` with every backslash turned into a slash.
pub open spec fn slashed(s: Seq<char>) -> Seq<char> {
    Seq::new(
        s.len(),
        |i: int|
            if s[i] == '\\' {
                '/'
            } else {
                s[i]
            },
    )
}

/// A path as a system writes it, with slashes between its names: on Windows a backslash separates
/// names too, elsewhere it is a character of a name.
pub open spec fn portable(path: Seq<char>, windows: bool) -> Seq<char> {
    if windows {
        slashed(path)
    } else {
        path
    }
}

/// A path as a system writes it, with slashes between its names. What takes a path apart is given such
/// a one.
pub fn portable_path(path: &str, windows: bool) -> (r: String)
    ensures
        r@ == portable(path@, windows),
{
    if windows {
        to_slashes(path)
    } else {
        path.to_owned()
    }
}

/// `s` with every backslash turned into a slash.
pub fn to_slashes(s: &str) -> (r: String)
    ensures
        r@ == slashed(s@),
{
    let v = chars_of(s);
    let mut r = String::new();
    let mut i: usize = 0;
    while i < v.len()
        invariant
            i <= v@.len(),
            v@ == s@,
            r@ == slashed(s@).take(i as int),
        decreases v@.len() - i,
    {
        r.push(
            if v[i] == '\\' {
                '/'
            } else {
                v[i]
            },
        );
        i += 1;
    }
    r
}

/// The last of `parts` that is neither empty nor `.`; `None` where there is none or it is `..`.
pub open spec fn last_name(parts: Seq<Seq<char>>) -> Option<Seq<char>>
    decreases parts.len(),
{
    if parts.len() == 0 {
        None
    } else if parts.last() == ""@ || parts.last() == "."@ {
        last_name(parts.drop_last())
    } else if parts.last() == ".."@ {
        None
    } else {
        Some(parts.last())
    }
}

/// The last segment of a path in which `/` and `\` both separate.
pub open spec fn last_segment_spec(raw: Seq<char>) -> Option<Seq<char>> {
    last_name(text::split(slashed(text::trimmed(raw)), '/'))
}

/// The last segment of a path: what stands behind its last separator, `.` and empty segments
/// aside. `None` where nothing is left or the path ends in `..`.
///
/// Both separators count, whatever the platform: the other end may run Windows.
fn last_segment(raw: &str) -> (r: Option<String>)
    ensures
        text::opt_view(r) == last_segment_spec(raw@),
{
    let path = to_slashes(trim(raw).as_str());
    let parts = split_on(path.as_str(), '/');
    let mut n: usize = parts.len();
    let ghost all = text::views(parts@);
    assert(all.take(n as int) =~= all);
    while n > 0
        invariant
            n <= parts@.len(),
            all == text::views(parts@),
            last_name(all) == last_segment_spec(raw@),
            last_name(all.take(n as int)) == last_name(all),
        decreases n,
    {
        let p = parts[n - 1].as_str();
        assert(all.take(n as int).last() == p@);
        assert(all.take(n as int).drop_last() =~= all.take(n - 1));
        if !same(p, "") && !same(p, ".") {
            if same(p, "..") {
                return None;
            }
            return Some(p.to_owned());
        }
        n -= 1;
    }
    None
}

/// `c` is a control character (Unicode category Cc).
pub open spec fn is_control(c: char) -> bool {
    c <= '\u{1f}' || '\u{7f}' <= c <= '\u{9f}'
}

/// `c` may not stand in a file name on Windows.
pub open spec fn is_illegal(c: char) -> bool {
    c == '/' || c == '\\' || c == ':' || c == '*' || c == '?' || c == '"' || c == '<' || c == '>' || c
        == '|'
}

/// `s` without control characters, with `_` for every character that may not stand in a name.
pub open spec fn cleaned(s: Seq<char>) -> Seq<char>
    decreases s.len(),
{
    if s.len() == 0 {
        seq![]
    } else if is_control(s.last()) {
        cleaned(s.drop_last())
    } else if is_illegal(s.last()) {
        cleaned(s.drop_last()).push('_')
    } else {
        cleaned(s.drop_last()).push(s.last())
    }
}

fn clean(s: &str) -> (r: String)
    ensures
        r@ == cleaned(s@),
{
    let v = chars_of(s);
    let mut r = String::new();
    let mut i: usize = 0;
    while i < v.len()
        invariant
            i <= v@.len(),
            v@ == s@,
            r@ == cleaned(v@.take(i as int)),
        decreases v@.len() - i,
    {
        let c = v[i];
        assert(v@.take(i + 1).drop_last() =~= v@.take(i as int));
        if c <= '\u{1f}' || ('\u{7f}' <= c && c <= '\u{9f}') {
        } else if c == '/' || c == '\\' || c == ':' || c == '*' || c == '?' || c == '"' || c == '<'
            || c == '>' || c == '|' {
            r.push('_');
        } else {
            r.push(c);
        }
        i += 1;
    }
    assert(v@.take(i as int) =~= v@);
    r
}

/// `s` with its ASCII letters in upper case.
pub open spec fn uppered(s: Seq<char>) -> Seq<char> {
    Seq::new(s.len(), |i: int| text::upper_spec(s[i]))
}

/// What stands before the first `.`, in upper case.
pub open spec fn stem(s: Seq<char>) -> Seq<char> {
    uppered(s.take(text::find(s, '.')))
}

fn stem_of(v: &[char]) -> (r: String)
    ensures
        r@ == stem(v@),
{
    let n: usize = text::find_from(v, 0, '.');
    assert(v@.skip(0) =~= v@);
    let mut r = String::new();
    let mut i: usize = 0;
    while i < n
        invariant
            i <= n <= v@.len(),
            n == text::find(v@, '.'),
            r@ == stem(v@).take(i as int),
        decreases n - i,
    {
        r.push(upper(v[i]));
        i += 1;
    }
    assert(stem(v@).take(n as int) =~= stem(v@));
    r
}

/// The first 120 characters of `s`.
pub open spec fn shortened(s: Seq<char>) -> Seq<char> {
    if s.len() > MAX_SEGMENT_CHARS {
        s.take(MAX_SEGMENT_CHARS as int)
    } else {
        s
    }
}

/// The name that is given to what has no usable one.
pub open spec fn unnamed() -> Seq<char> {
    "unnamed"@
}

/// The name under which a file or a device from another end is stored.
pub open spec fn safe_name(raw: Seq<char>) -> Seq<char> {
    match last_segment_spec(raw) {
        None => unnamed(),
        Some(seg) => {
            let c = text::trimmed(cleaned(seg));
            if c == ""@ || c == "."@ || c == ".."@ {
                unnamed()
            } else if is_reserved(stem(c)) {
                shortened("_"@ + c)
            } else {
                shortened(c)
            }
        },
    }
}

/// Turns a name that is not trusted into one segment that is safe to write to.
///
/// Only the last segment is kept; control characters go, illegal ones become `_`; nothing, `.`
/// and `..` become `unnamed`; a device name of Windows gets a `_` before it; at last a name of more
/// than 120 characters is cut.
pub fn safe_segment(raw: &str) -> (r: String)
    ensures
        r@ == safe_name(raw@),
        is_single_segment(r@),
        !is_reserved(stem(r@)),
{
    proof {
        law_safe_names_are_single_segments(raw@);
        law_safe_names_are_not_reserved(raw@);
    }
    let seg = match last_segment(raw) {
        Some(s) => s,
        None => {
            return "unnamed".to_owned();
        },
    };
    let c = trim(clean(seg.as_str()).as_str());
    if same(c.as_str(), "") || same(c.as_str(), ".") || same(c.as_str(), "..") {
        return "unnamed".to_owned();
    }
    let name = if reserved(stem_of(&chars_of(c.as_str())).as_str()) {
        concat("_", c.as_str())
    } else {
        c
    };
    let mut v = chars_of(name.as_str());
    if v.len() > MAX_SEGMENT_CHARS {
        v.truncate(MAX_SEGMENT_CHARS);
    }
    assert(v@ =~= shortened(name@));
    string_of(&v)
}

/// `s` names one entry of a directory: it is not empty, not `.` and not `..`, holds no separator
/// and no control character, and has at most 120 characters.
pub open spec fn is_single_segment(s: Seq<char>) -> bool {
    &&& 0 < s.len() <= MAX_SEGMENT_CHARS
    &&& s != "."@
    &&& s != ".."@
    &&& forall|i: int| 0 <= i < s.len() ==> !is_illegal(#[trigger] s[i]) && !is_control(s[i])
}

proof fn lemma_cleaned(s: Seq<char>)
    ensures
        forall|i: int|
            0 <= i < cleaned(s).len() ==> !is_illegal(#[trigger] cleaned(s)[i]) && !is_control(
                cleaned(s)[i],
            ),
    decreases s.len(),
{
    if s.len() > 0 {
        let t = cleaned(s.drop_last());
        lemma_cleaned(s.drop_last());
        assert forall|i: int| 0 <= i < cleaned(s).len() implies !is_illegal(
            #[trigger] cleaned(s)[i],
        ) && !is_control(cleaned(s)[i]) by {
            if i < t.len() {
                assert(cleaned(s)[i] == t[i]);
            }
        }
    }
}

/// Whatever name comes in, the name that goes out is one segment: it cannot leave the directory
/// that it is joined to.
pub proof fn law_safe_names_are_single_segments(raw: Seq<char>)
    ensures
        is_single_segment(safe_name(raw)),
{
    reveal_strlit("unnamed");
    reveal_strlit("");
    reveal_strlit(".");
    reveal_strlit("..");
    reveal_strlit("_");
    assert(is_single_segment(unnamed())) by {
        let u = unnamed();
        assert(u.len() == 7);
        assert(u[0] == 'u' && u[1] == 'n' && u[2] == 'n' && u[3] == 'a' && u[4] == 'm' && u[5] == 'e'
            && u[6] == 'd');
    }
    match last_segment_spec(raw) {
        None => {},
        Some(seg) => {
            let a = cleaned(seg);
            let b = text::trim_start_spec(a);
            let c = text::trimmed(a);
            lemma_cleaned(seg);
            text::lemma_trim_start(a);
            text::lemma_trim_end(b);
            assert forall|i: int| 0 <= i < c.len() implies !is_illegal(#[trigger] c[i])
                && !is_control(c[i]) by {
                assert(c[i] == b[i]);
                assert(b[i] == a[a.len() - b.len() + i]);
            }
            if c == ""@ || c == "."@ || c == ".."@ {
            } else {
                assert(c.len() > 0) by {
                    if c.len() == 0 {
                        assert(c =~= ""@);
                    }
                }
                let r = safe_name(raw);
                assert forall|i: int| 0 <= i < r.len() implies !is_illegal(#[trigger] r[i])
                    && !is_control(r[i]) by {
                    if is_reserved(stem(c)) {
                        if i > 0 {
                            assert(r[i] == c[i - 1]);
                        }
                    } else {
                        assert(r[i] == c[i]);
                    }
                }
                if is_reserved(stem(c)) {
                    assert(r[0] == '_');
                    assert("."@[0] == '.' && ".."@[0] == '.');
                } else if c.len() > MAX_SEGMENT_CHARS {
                    assert(r.len() == MAX_SEGMENT_CHARS);
                }
            }
        },
    }
}

/// A device name of Windows is short and begins with one of five letters.
proof fn lemma_reserved(s: Seq<char>)
    requires
        is_reserved(s),
    ensures
        0 < s.len() <= 4,
        s[0] == 'C' || s[0] == 'P' || s[0] == 'A' || s[0] == 'N' || s[0] == 'L',
{
    reveal_strlit("CON");
    reveal_strlit("PRN");
    reveal_strlit("AUX");
    reveal_strlit("NUL");
    reveal_strlit("COM1");
    reveal_strlit("COM2");
    reveal_strlit("COM3");
    reveal_strlit("COM4");
    reveal_strlit("COM5");
    reveal_strlit("COM6");
    reveal_strlit("COM7");
    reveal_strlit("COM8");
    reveal_strlit("COM9");
    reveal_strlit("LPT1");
    reveal_strlit("LPT2");
    reveal_strlit("LPT3");
    reveal_strlit("LPT4");
    reveal_strlit("LPT5");
    reveal_strlit("LPT6");
    reveal_strlit("LPT7");
    reveal_strlit("LPT8");
    reveal_strlit("LPT9");
}

/// What begins with `_` or `u` is no device name of Windows.
proof fn lemma_not_reserved(s: Seq<char>, c: char)
    requires
        s.len() > 0,
        s[0] == c,
        c == '_' || c == 'u',
    ensures
        !is_reserved(stem(s)),
{
    text::lemma_find(s, '.');
    if is_reserved(stem(s)) {
        lemma_reserved(stem(s));
        assert(stem(s)[0] == text::upper_spec(s[0]));
    }
}

/// Whatever name comes in, the name that goes out is none of the device names of Windows, with or
/// without an extension.
pub proof fn law_safe_names_are_not_reserved(raw: Seq<char>)
    ensures
        !is_reserved(stem(safe_name(raw))),
{
    reveal_strlit("unnamed");
    reveal_strlit("");
    reveal_strlit("_");
    lemma_not_reserved(unnamed(), 'u');
    match last_segment_spec(raw) {
        None => {},
        Some(seg) => {
            let c = text::trimmed(cleaned(seg));
            if c == ""@ || c == "."@ || c == ".."@ {
            } else if is_reserved(stem(c)) {
                lemma_not_reserved(safe_name(raw), '_');
            } else if c.len() > MAX_SEGMENT_CHARS {
                let d = shortened(c);
                text::lemma_find(c, '.');
                text::lemma_find(d, '.');
                let k = text::find(d, '.');
                if is_reserved(stem(d)) {
                    lemma_reserved(stem(d));
                    assert(d[k] == c[k]);
                    assert forall|i: int| 0 <= i < k implies c[i] != '.' by {
                        assert(d[i] == c[i]);
                    }
                    text::lemma_find_is(c, '.', k);
                    assert(d.take(k) =~= c.take(k));
                }
            }
        },
    }
}

/// The directory that files are written under: the configured one where it is not blank, else the
/// user's download directory, else `Downloads`.
pub open spec fn sync_dir_spec(configured: Option<Seq<char>>, download_dir: Option<Seq<char>>) -> Seq<
    char,
> {
    if configured is Some && text::trimmed(configured->0).len() > 0 {
        text::trimmed(configured->0)
    } else if download_dir is Some {
        download_dir->0
    } else {
        "Downloads"@
    }
}

/// The directory that files are written under. Both ways of fetching a file use it.
pub fn resolve_sync_dir(download_dir: Option<String>, configured: Option<String>) -> (r: String)
    ensures
        r@ == sync_dir_spec(text::opt_view(configured), text::opt_view(download_dir)),
{
    match configured {
        Some(dir) => {
            let t = trim(dir.as_str());
            if !t.as_str().is_empty() {
                return t;
            }
        },
        None => {},
    }
    match download_dir {
        Some(d) => d,
        None => "Downloads".to_owned(),
    }
}

/// Where a received file is written: the directory, the device's name and the file's name.
pub open spec fn target_spec(sync_dir: Seq<char>, device: Seq<char>, file: Seq<char>) -> Seq<char> {
    sync_dir + "/"@ + safe_name(device) + "/"@ + safe_name(file)
}

/// Where a received file is written.
pub fn target_path(sync_dir: &str, device_name: &str, file_name: &str) -> (r: String)
    ensures
        r@ == target_spec(sync_dir@, device_name@, file_name@),
{
    let mut r = sync_dir.to_owned();
    r.append("/");
    r.append(safe_segment(device_name).as_str());
    r.append("/");
    r.append(safe_segment(file_name).as_str());
    r
}

proof fn lemma_cleaned_same(s: Seq<char>)
    requires
        forall|i: int| 0 <= i < s.len() ==> !is_illegal(#[trigger] s[i]) && !is_control(s[i]),
    ensures
        cleaned(s) == s,
    decreases s.len(),
{
    if s.len() > 0 {
        let t = s.drop_last();
        assert forall|i: int| 0 <= i < t.len() implies !is_illegal(#[trigger] t[i]) && !is_control(
            t[i],
        ) by {
            assert(t[i] == s[i]);
        }
        lemma_cleaned_same(t);
        assert(!is_illegal(s[s.len() - 1]) && !is_control(s[s.len() - 1]));
        assert(t.push(s.last()) =~= s);
    }
}

/// A name that is already one legal segment is kept as it is: it holds neither control characters nor
/// those that Windows forbids, has at most 120 characters, no white space at its ends, and is neither
/// `.` nor `..` nor a device name of Windows.
pub proof fn law_legal_names_are_kept(s: Seq<char>)
    requires
        0 < s.len() <= 120,
        forall|i: int|
            0 <= i < s.len() ==> ' ' <= #[trigger] s[i] && (s[i] < '\u{7f}' || s[i] > '\u{9f}') && s[i]
                != '/' && s[i] != '\\' && s[i] != ':' && s[i] != '*' && s[i] != '?' && s[i] != '"'
                && s[i] != '<' && s[i] != '>' && s[i] != '|',
        !text::is_white(s[0]),
        !text::is_white(s.last()),
        s != "."@,
        s != ".."@,
        !is_reserved(stem(s)),
    ensures
        safe_name(s) == s,
{
    reveal_strlit("");
    text::lemma_trimmed_fixed(s);
    assert(slashed(s) =~= s);
    text::lemma_find(s, '/');
    assert(text::find(s, '/') == s.len()) by {
        if text::find(s, '/') < s.len() {
            assert(s[text::find(s, '/')] == '/');
        }
    }
    assert(text::split(s, '/') =~= seq![s]);
    assert(seq![s].last() == s);
    assert(s != ""@);
    assert(last_segment_spec(s) == Some(s));
    lemma_cleaned_same(s);
}

/// Names that are kept as they are lie under different paths where they differ: one file does not
/// overwrite another.
pub proof fn law_different_legal_names_get_different_targets(
    dir: Seq<char>,
    device: Seq<char>,
    a: Seq<char>,
    b: Seq<char>,
)
    requires
        safe_name(a) == a,
        safe_name(b) == b,
        a != b,
    ensures
        target_spec(dir, device, a) != target_spec(dir, device, b),
        target_spec(dir, device, a) == dir + seq!['/'] + safe_name(device) + seq!['/'] + a,
{
    reveal_strlit("/");
    assert("/"@ =~= seq!['/']);
    let head = dir + "/"@ + safe_name(device) + "/"@;
    let x = head + a;
    let y = head + b;
    assert(x.skip(head.len() as int) =~= a);
    assert(y.skip(head.len() as int) =~= b);
}

/// Cleaning goes character by character: a control character goes, a forbidden one becomes `_`, and
/// any other one stays as it is.
pub proof fn law_cleaning_keeps_what_may_stand(s: Seq<char>, c: char)
    ensures
        cleaned(seq![]) == Seq::<char>::empty(),
        c < ' ' || '\u{7f}' <= c <= '\u{9f}' ==> cleaned(s.push(c)) == cleaned(s),
        c == '/' || c == '\\' || c == ':' || c == '*' || c == '?' || c == '"' || c == '<' || c == '>'
            || c == '|' ==> cleaned(s.push(c)) == cleaned(s).push('_'),
        c >= ' ' && (c < '\u{7f}' || c > '\u{9f}') && c != '/' && c != '\\' && c != ':' && c != '*' && c
            != '?' && c != '"' && c != '<' && c != '>' && c != '|' ==> cleaned(s.push(c)) == cleaned(
            s,
        ).push(c),
{
    assert(s.push(c).drop_last() =~= s);
}

/// Of a path only what stands behind the last separator counts: in front of a name that holds no
/// separator and is neither empty nor `.` nor `..` anything may stand.
pub proof fn law_folders_do_not_count(folder: Seq<char>, sep: char, name: Seq<char>)
    requires
        sep == '/' || sep == '\\',
        name.len() > 0,
        folder.len() > 0 ==> !text::is_white(folder[0]),
        !text::is_white(name.last()),
        forall|i: int| 0 <= i < name.len() ==> #[trigger] name[i] != '/' && name[i] != '\\',
        name != "."@,
        name != ".."@,
    ensures
        last_segment_spec(folder.push(sep) + name) == Some(name),
{
    reveal_strlit("");
    let raw = folder.push(sep) + name;
    assert(raw[0] == if folder.len() > 0 {
        folder[0]
    } else {
        sep
    });
    assert(raw.last() == name.last());
    text::lemma_trimmed_fixed(raw);
    let s = slashed(raw);
    let head = slashed(folder);
    assert(s =~= head.push('/') + name);
    lemma_split_last(head, name);
    assert(name != ""@);
}

proof fn lemma_split_last(head: Seq<char>, name: Seq<char>)
    requires
        forall|i: int| 0 <= i < name.len() ==> #[trigger] name[i] != '/',
    ensures
        text::split(head.push('/') + name, '/').last() == name,
    decreases head.len(),
{
    let s = head.push('/') + name;
    text::lemma_find(s, '/');
    assert(s[head.len() as int] == '/');
    assert(s.contains('/'));
    let i = text::find(s, '/');
    assert(i <= head.len()) by {
        if i > head.len() {
            assert(s[head.len() as int] != '/');
        }
    }
    let rest = s.skip(i + 1);
    if i == head.len() {
        assert(rest =~= name);
        text::lemma_find(name, '/');
        assert(text::find(name, '/') == name.len()) by {
            if text::find(name, '/') < name.len() {
                assert(name[text::find(name, '/')] == '/');
            }
        }
        assert(text::split(name, '/') =~= seq![name]);
        assert((seq![s.take(i)] + text::split(rest, '/')).last() == name);
    } else {
        let h = head.skip(i + 1);
        assert(rest =~= h.push('/') + name);
        lemma_split_last(h, name);
        lemma_split_some(rest);
        assert((seq![s.take(i)] + text::split(rest, '/')).last() == text::split(rest, '/').last());
    }
}

proof fn lemma_split_some(s: Seq<char>)
    ensures
        text::split(s, '/').len() > 0,
{
}

/// A device name of Windows, in letters of either case and with or without an extension, gets a `_`
/// before it; such a name is never written to.
pub proof fn law_device_names_get_an_underscore(s: Seq<char>)
    requires
        0 < s.len() < 120,
        forall|i: int|
            0 <= i < s.len() ==> ' ' <= #[trigger] s[i] && (s[i] < '\u{7f}' || s[i] > '\u{9f}') && s[i]
                != '/' && s[i] != '\\' && s[i] != ':' && s[i] != '*' && s[i] != '?' && s[i] != '"'
                && s[i] != '<' && s[i] != '>' && s[i] != '|',
        !text::is_white(s[0]),
        !text::is_white(s.last()),
        s != "."@,
        s != ".."@,
        is_reserved(stem(s)),
    ensures
        safe_name(s) == seq!['_'] + s,
{
    reveal_strlit("");
    reveal_strlit("_");
    assert("_"@ =~= seq!['_']);
    text::lemma_trimmed_fixed(s);
    assert(slashed(s) =~= s);
    text::lemma_find(s, '/');
    assert(text::find(s, '/') == s.len()) by {
        if text::find(s, '/') < s.len() {
            assert(s[text::find(s, '/')] == '/');
        }
    }
    assert(text::split(s, '/') =~= seq![s]);
    assert(seq![s].last() == s);
    assert(s != ""@);
    lemma_cleaned_same(s);
}

/// What stands before the first `.` tells a device name, whatever stands behind it.
pub proof fn law_the_stem_ends_at_the_first_dot(a: Seq<char>, b: Seq<char>)
    requires
        forall|i: int| 0 <= i < a.len() ==> #[trigger] a[i] != '.',
    ensures
        stem(a) == stem(a.push('.') + b),
        stem(a).len() == a.len(),
        forall|i: int|
            0 <= i < a.len() ==> #[trigger] stem(a)[i] as int == if 'a' <= a[i] <= 'z' {
                a[i] as int - 32
            } else {
                a[i] as int
            },
{
    text::lemma_find_is(a, '.', a.len() as int);
    let s = a.push('.') + b;
    assert forall|i: int| 0 <= i < a.len() implies s[i] != '.' by {
        assert(s[i] == a[i]);
    }
    text::lemma_find_is(s, '.', a.len() as int);
    assert(s.take(a.len() as int) =~= a);
    assert(a.take(a.len() as int) =~= a);
}

/// The configured directory is used wherever it is not blank, and the downloads otherwise.
pub proof fn law_the_configured_directory_is_used(dir: Seq<char>, downloads: Seq<char>)
    requires
        dir.len() > 0,
        !text::is_white(dir[0]),
        !text::is_white(dir.last()),
    ensures
        sync_dir_spec(Some(dir), Some(downloads)) == dir,
        sync_dir_spec(Some(dir), None) == dir,
        sync_dir_spec(None, Some(downloads)) == downloads,
        sync_dir_spec(Some(seq![]), Some(downloads)) == downloads,
        sync_dir_spec(None, None) == "Downloads"@,
{
    text::lemma_trimmed_fixed(dir);
    let none: Seq<char> = seq![];
    text::lemma_trimmed_fixed(none);
}

/// The device names of Windows: `CON`, `PRN`, `AUX`, `NUL`, and `COM` and `LPT` with a digit from 1 to 9.
#[verifier::rlimit(30)]
pub proof fn law_device_names(s: Seq<char>)
    ensures
        is_reserved(s) <==> s == seq!['C', 'O', 'N'] || s == seq!['P', 'R', 'N'] || s == seq![
            'A',
            'U',
            'X',
        ] || s == seq!['N', 'U', 'L'] || (s.len() == 4 && '1' <= s[3] <= '9' && (s.take(3) == seq![
            'C',
            'O',
            'M',
        ] || s.take(3) == seq!['L', 'P', 'T'])),
{
    reveal_strlit("CON");
    reveal_strlit("PRN");
    reveal_strlit("AUX");
    reveal_strlit("NUL");
    reveal_strlit("COM1");
    reveal_strlit("COM2");
    reveal_strlit("COM3");
    reveal_strlit("COM4");
    reveal_strlit("COM5");
    reveal_strlit("COM6");
    reveal_strlit("COM7");
    reveal_strlit("COM8");
    reveal_strlit("COM9");
    reveal_strlit("LPT1");
    reveal_strlit("LPT2");
    reveal_strlit("LPT3");
    reveal_strlit("LPT4");
    reveal_strlit("LPT5");
    reveal_strlit("LPT6");
    reveal_strlit("LPT7");
    reveal_strlit("LPT8");
    reveal_strlit("LPT9");
    assert("CON"@ =~= seq!['C', 'O', 'N']);
    assert("PRN"@ =~= seq!['P', 'R', 'N']);
    assert("AUX"@ =~= seq!['A', 'U', 'X']);
    assert("NUL"@ =~= seq!['N', 'U', 'L']);
    assert("COM1"@ =~= seq!['C', 'O', 'M', '1']);
    assert("COM2"@ =~= seq!['C', 'O', 'M', '2']);
    assert("COM3"@ =~= seq!['C', 'O', 'M', '3']);
    assert("COM4"@ =~= seq!['C', 'O', 'M', '4']);
    assert("COM5"@ =~= seq!['C', 'O', 'M', '5']);
    assert("COM6"@ =~= seq!['C', 'O', 'M', '6']);
    assert("COM7"@ =~= seq!['C', 'O', 'M', '7']);
    assert("COM8"@ =~= seq!['C', 'O', 'M', '8']);
    assert("COM9"@ =~= seq!['C', 'O', 'M', '9']);
    assert("LPT1"@ =~= seq!['L', 'P', 'T', '1']);
    assert("LPT2"@ =~= seq!['L', 'P', 'T', '2']);
    assert("LPT3"@ =~= seq!['L', 'P', 'T', '3']);
    assert("LPT4"@ =~= seq!['L', 'P', 'T', '4']);
    assert("LPT5"@ =~= seq!['L', 'P', 'T', '5']);
    assert("LPT6"@ =~= seq!['L', 'P', 'T', '6']);
    assert("LPT7"@ =~= seq!['L', 'P', 'T', '7']);
    assert("LPT8"@ =~= seq!['L', 'P', 'T', '8']);
    assert("LPT9"@ =~= seq!['L', 'P', 'T', '9']);
    if s.len() == 4 {
        assert(s =~= s.take(3).push(s[3]));
        assert(s[0] == s.take(3)[0] && s[1] == s.take(3)[1] && s[2] == s.take(3)[2]);
        if s.take(3) == seq!['C', 'O', 'M'] || s.take(3) == seq!['L', 'P', 'T'] {
            assert(s =~= seq![s[0], s[1], s[2], s[3]]);
        } else if is_reserved(s) {
            assert(s[0] == 'C' && s[1] == 'O' && s[2] == 'M' || s[0] == 'L' && s[1] == 'P' && s[2] == 'T');
            assert(s.take(3) =~= seq![s[0], s[1], s[2]]);
        }
    }
}

/// A name that is too long keeps its first 120 characters; what has no usable name is called `unnamed`.
#[verifier::rlimit(30)]
pub proof fn law_long_names_keep_their_beginning(s: Seq<char>)
    requires
        s.len() > 120,
        forall|i: int|
            0 <= i < s.len() ==> ' ' <= #[trigger] s[i] && (s[i] < '\u{7f}' || s[i] > '\u{9f}') && s[i]
                != '/' && s[i] != '\\' && s[i] != ':' && s[i] != '*' && s[i] != '?' && s[i] != '"'
                && s[i] != '<' && s[i] != '>' && s[i] != '|',
        !text::is_white(s[0]),
        !text::is_white(s.last()),
    ensures
        !is_reserved(stem(s)) ==> safe_name(s) == s.take(120),
        is_reserved(stem(s)) ==> safe_name(s) == seq!['_'] + s.take(119),
        safe_name(seq![]) == "unnamed"@,
        safe_name(seq!['.']) == "unnamed"@,
        safe_name(seq!['.', '.']) == "unnamed"@,
{
    reveal_strlit("");
    reveal_strlit(".");
    reveal_strlit("..");
    reveal_strlit("_");
    assert("_"@ =~= seq!['_']);
    assert("."@ =~= seq!['.']);
    assert(".."@ =~= seq!['.', '.']);
    text::lemma_trimmed_fixed(s);
    assert(slashed(s) =~= s);
    lemma_one_piece(s);
    assert(s != ""@);
    lemma_cleaned_same(s);
    assert(("_"@ + s).take(120) =~= seq!['_'] + s.take(119));
    let e: Seq<char> = seq![];
    let d = seq!['.'];
    let dd = seq!['.', '.'];
    assert(""@ =~= e);
    text::lemma_trimmed_fixed(e);
    text::lemma_trimmed_fixed(d);
    text::lemma_trimmed_fixed(dd);
    assert(slashed(e) =~= e && slashed(d) =~= d && slashed(dd) =~= dd);
    lemma_one_piece(e);
    lemma_one_piece(d);
    lemma_one_piece(dd);
    reveal_with_fuel(last_name, 2);
    assert(seq![e].drop_last() =~= Seq::<Seq<char>>::empty());
    assert(seq![d].drop_last() =~= Seq::<Seq<char>>::empty());
}

proof fn lemma_one_piece(s: Seq<char>)
    requires
        forall|i: int| 0 <= i < s.len() ==> #[trigger] s[i] != '/',
    ensures
        text::split(s, '/') == seq![s],
        seq![s].last() == s,
{
    text::lemma_find(s, '/');
    assert(text::find(s, '/') == s.len()) by {
        if text::find(s, '/') < s.len() {
            assert(s[text::find(s, '/')] == '/');
        }
    }
    assert(text::split(s, '/') =~= seq![s]);
}

/// On Windows a backslash separates names as a slash does; elsewhere a path is left as it is.
pub proof fn law_native_paths_get_slashes(p: Seq<char>, i: int)
    requires
        0 <= i < p.len(),
    ensures
        portable(p, false) == p,
        portable(p, true).len() == p.len(),
        p[i] == '\\' ==> portable(p, true)[i] == '/',
        p[i] != '\\' ==> portable(p, true)[i] == p[i],
{
}

} // verus!
