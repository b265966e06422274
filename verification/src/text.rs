//! Text on characters: searching, splitting, trimming, numerals.
//!
//! A string is modelled by the sequence of its characters. Every helper has a
//! spec function of its own that says what it returns.

use vstd::prelude::*;

verus! {

/// `String::push` appends one character at the end.
pub assume_specification[ String::push ](s: &mut String, c: char)
    ensures
        final(s)@ == old(s)@.push(c),
;

/// `==` on `str` holds exactly when both sides hold the same characters.
pub assume_specification[ <str as PartialEq<str>>::eq ](a: &str, b: &str) -> (res: bool)
    ensures
        res == (a@ == b@),
;

/// The UTF-8 encoding of `s`.
pub open spec fn utf8(s: Seq<char>) -> Seq<u8> {
    vstd::utf8::encode_utf8(s)
}

/// Whether two strings hold the same characters.
pub fn same(a: &str, b: &str) -> (res: bool)
    ensures
        res == (a@ == b@),
{
    *a == *b
}

/// The characters of `s`, in order.
pub fn chars_of(s: &str) -> (r: Vec<char>)
    ensures
        r@ == s@,
{
    let mut v: Vec<char> = Vec::new();
    for c in it: s.chars()
        invariant
            v@ == it.seq().take(it.index() as int),
            it.seq() == s@,
    {
        v.push(c);
    }
    v
}

/// The string that consists of the characters `v[from..to]`.
pub fn string_of_range(v: &[char], from: usize, to: usize) -> (r: String)
    requires
        from <= to <= v@.len(),
    ensures
        r@ == v@.subrange(from as int, to as int),
{
    let mut s = String::new();
    let mut i: usize = from;
    while i < to
        invariant
            from <= i <= to <= v@.len(),
            s@ == v@.subrange(from as int, i as int),
        decreases to - i,
    {
        s.push(v[i]);
        i += 1;
    }
    s
}

/// The string that consists of the characters `v`.
pub fn string_of(v: &[char]) -> (r: String)
    ensures
        r@ == v@,
{
    let r = string_of_range(v, 0, v.len());
    assert(v@.subrange(0, v@.len() as int) == v@);
    r
}

/// `a` followed by `b`.
pub fn concat(a: &str, b: &str) -> (r: String)
    ensures
        r@ == a@ + b@,
{
    let mut r = a.to_owned();
    r.append(b);
    r
}

/// `a`, `b` and `c` one after the other.
pub fn concat3(a: &str, b: &str, c: &str) -> (r: String)
    ensures
        r@ == a@ + b@ + c@,
{
    let mut r = a.to_owned();
    r.append(b);
    r.append(c);
    r
}

// ---------------------------------------------------------------------------
// Searching
// ---------------------------------------------------------------------------

/// The position of the first `c` in `s`; the length of `s` where there is none.
pub open spec fn find(s: Seq<char>, c: char) -> int
    decreases s.len(),
{
    if s.len() == 0 {
        0
    } else if s[0] == c {
        0
    } else {
        1 + find(s.drop_first(), c)
    }
}

/// `find` returns the least position that holds `c`.
pub proof fn lemma_find(s: Seq<char>, c: char)
    ensures
        0 <= find(s, c) <= s.len(),
        find(s, c) < s.len() ==> s[find(s, c)] == c,
        forall|i: int| 0 <= i < find(s, c) ==> s[i] != c,
        s.contains(c) <==> find(s, c) < s.len(),
    decreases s.len(),
{
    if s.len() > 0 && s[0] != c {
        let t = s.drop_first();
        lemma_find(t, c);
        assert forall|i: int| 0 <= i < find(s, c) implies s[i] != c by {
            if i > 0 {
                assert(s[i] == t[i - 1]);
            }
        }
        if s.contains(c) {
            let k = choose|k: int| 0 <= k < s.len() && s[k] == c;
            assert(t[k - 1] == c);
        }
    }
}

/// A position that holds `c` with no `c` before it is what `find` returns.
pub proof fn lemma_find_is(s: Seq<char>, c: char, k: int)
    requires
        0 <= k <= s.len(),
        k < s.len() ==> s[k] == c,
        forall|i: int| 0 <= i < k ==> s[i] != c,
    ensures
        find(s, c) == k,
{
    lemma_find(s, c);
}

/// The position of the last `c` in `s`; `-1` where there is none.
pub open spec fn rfind(s: Seq<char>, c: char) -> int
    decreases s.len(),
{
    if s.len() == 0 {
        -1
    } else if s.last() == c {
        s.len() - 1
    } else {
        rfind(s.drop_last(), c)
    }
}

/// `rfind` returns the greatest position that holds `c`.
pub proof fn lemma_rfind(s: Seq<char>, c: char)
    ensures
        -1 <= rfind(s, c) < s.len(),
        rfind(s, c) >= 0 ==> s[rfind(s, c)] == c,
        forall|i: int| rfind(s, c) < i < s.len() ==> s[i] != c,
        s.contains(c) <==> rfind(s, c) >= 0,
    decreases s.len(),
{
    if s.len() > 0 && s.last() != c {
        let t = s.drop_last();
        lemma_rfind(t, c);
        assert forall|i: int| rfind(s, c) < i < s.len() implies s[i] != c by {
            if i < t.len() {
                assert(s[i] == t[i]);
            }
        }
        if s.contains(c) {
            let k = choose|k: int| 0 <= k < s.len() && s[k] == c;
            assert(t[k] == c);
        }
        if t.contains(c) {
            let k = choose|k: int| 0 <= k < t.len() && t[k] == c;
            assert(s[k] == c);
        }
    }
}

/// A position that holds `c` with no `c` behind it is what `rfind` returns.
pub proof fn lemma_rfind_is(s: Seq<char>, c: char, k: int)
    requires
        -1 <= k < s.len(),
        k >= 0 ==> s[k] == c,
        forall|i: int| k < i < s.len() ==> s[i] != c,
    ensures
        rfind(s, c) == k,
{
    lemma_rfind(s, c);
}

/// Where `c` first stands in `v` at or behind `from`.
pub fn find_from(v: &[char], from: usize, c: char) -> (r: usize)
    requires
        from <= v@.len(),
    ensures
        r == from + find(v@.skip(from as int), c),
        from <= r <= v@.len(),
{
    let mut i: usize = from;
    while i < v.len() && v[i] != c
        invariant
            from <= i <= v@.len(),
            forall|k: int| from <= k < i ==> v@[k] != c,
        decreases v@.len() - i,
    {
        i += 1;
    }
    proof {
        lemma_find_is(v@.skip(from as int), c, i - from);
    }
    i
}

/// Where `c` last stands in `v`.
pub fn rfind_in(v: &[char], c: char) -> (r: Option<usize>)
    ensures
        match r {
            Some(i) => i == rfind(v@, c) && i < v@.len(),
            None => rfind(v@, c) == -1,
        },
{
    let mut i: usize = v.len();
    while i > 0
        invariant
            i <= v@.len(),
            forall|k: int| i <= k < v@.len() ==> v@[k] != c,
        decreases i,
    {
        i -= 1;
        if v[i] == c {
            proof {
                lemma_rfind_is(v@, c, i as int);
            }
            return Some(i);
        }
    }
    proof {
        lemma_rfind_is(v@, c, -1);
    }
    None
}

/// Whether `s` holds the character `c`.
pub fn contains_char(s: &str, c: char) -> (r: bool)
    ensures
        r == s@.contains(c),
{
    let v = chars_of(s);
    let i: usize = find_from(&v, 0, c);
    proof {
        assert(v@.skip(0) == v@);
        lemma_find(v@, c);
    }
    i < v.len()
}

/// Whether `p` stands in `s` at position `i`.
pub open spec fn occurs_at(s: Seq<char>, p: Seq<char>, i: int) -> bool {
    0 <= i && i + p.len() <= s.len() && s.subrange(i, i + p.len()) == p
}

/// Whether `p` stands somewhere in `s`.
pub open spec fn has_substring(s: Seq<char>, p: Seq<char>) -> bool {
    exists|i: int| occurs_at(s, p, i)
}

/// Whether `p` stands in `s` at position `i`.
pub fn matches_at(s: &[char], p: &[char], i: usize) -> (r: bool)
    ensures
        r == occurs_at(s@, p@, i as int),
{
    if p.len() > s.len() || i > s.len() - p.len() {
        return false;
    }
    let mut k: usize = 0;
    let n: usize = s.len();
    while k < p.len()
        invariant
            k <= p@.len(),
            n == s@.len(),
            i + p@.len() <= n,
            forall|j: int| 0 <= j < k ==> s@[i + j] == p@[j],
        decreases p@.len() - k,
    {
        if s[i + k] != p[k] {
            assert(s@.subrange(i as int, i + p@.len())[k as int] != p@[k as int]);
            return false;
        }
        k += 1;
    }
    assert(s@.subrange(i as int, i + p@.len()) =~= p@);
    true
}

/// Whether `p` stands somewhere in `s`.
pub fn contains_str(s: &str, p: &str) -> (r: bool)
    ensures
        r == has_substring(s@, p@),
{
    let v = chars_of(s);
    let w = chars_of(p);
    let mut i: usize = 0;
    while i < v.len()
        invariant
            v@ == s@,
            w@ == p@,
            i <= v@.len(),
            forall|k: int| 0 <= k < i ==> !occurs_at(s@, p@, k),
        decreases v@.len() - i,
    {
        if matches_at(&v, &w, i) {
            return true;
        }
        i += 1;
    }
    matches_at(&v, &w, i)
}

/// Whether `s` begins with `p`.
pub fn starts_with(s: &str, p: &str) -> (r: bool)
    ensures
        r == p@.is_prefix_of(s@),
{
    let v = chars_of(s);
    let w = chars_of(p);
    matches_at(&v, &w, 0)
}

/// `s` ends with `p`.
pub open spec fn has_suffix(s: Seq<char>, p: Seq<char>) -> bool {
    occurs_at(s, p, s.len() - p.len())
}

/// Whether `s` ends with `p`.
pub fn ends_with(s: &str, p: &str) -> (r: bool)
    ensures
        r == has_suffix(s@, p@),
{
    let v = chars_of(s);
    let w = chars_of(p);
    if w.len() > v.len() {
        return false;
    }
    matches_at(&v, &w, v.len() - w.len())
}

/// What is left of `s` behind the prefix `p`.
pub open spec fn strip_prefix_spec(s: Seq<char>, p: Seq<char>) -> Option<Seq<char>> {
    if p.is_prefix_of(s) {
        Some(s.skip(p.len() as int))
    } else {
        None
    }
}

/// The views of an optional string.
pub open spec fn opt_view(o: Option<String>) -> Option<Seq<char>> {
    match o {
        Some(s) => Some(s@),
        None => None,
    }
}

/// What is left of `s` behind the prefix `p`; `None` where `s` does not begin with it.
pub fn strip_prefix(s: &str, p: &str) -> (r: Option<String>)
    ensures
        opt_view(r) == strip_prefix_spec(s@, p@),
{
    let v = chars_of(s);
    let w = chars_of(p);
    if matches_at(&v, &w, 0) {
        let r = string_of_range(&v, w.len(), v.len());
        assert(r@ == s@.skip(p@.len() as int));
        Some(r)
    } else {
        None
    }
}

// ---------------------------------------------------------------------------
// Splitting
// ---------------------------------------------------------------------------

/// What stands before and behind the first `c`.
pub open spec fn split_once_spec(s: Seq<char>, c: char) -> Option<(Seq<char>, Seq<char>)> {
    if s.contains(c) {
        Some((s.take(find(s, c)), s.skip(find(s, c) + 1)))
    } else {
        None
    }
}

/// What stands before and behind the last `c`.
pub open spec fn rsplit_once_spec(s: Seq<char>, c: char) -> Option<(Seq<char>, Seq<char>)> {
    if s.contains(c) {
        Some((s.take(rfind(s, c)), s.skip(rfind(s, c) + 1)))
    } else {
        None
    }
}

/// The views of an optional pair of strings.
pub open spec fn opt_pair_view(o: Option<(String, String)>) -> Option<(Seq<char>, Seq<char>)> {
    match o {
        Some(p) => Some((p.0@, p.1@)),
        None => None,
    }
}

/// Splits `s` at the first `c`.
pub fn split_once(s: &str, c: char) -> (r: Option<(String, String)>)
    ensures
        opt_pair_view(r) == split_once_spec(s@, c),
{
    let v = chars_of(s);
    let i: usize = find_from(&v, 0, c);
    proof {
        assert(v@.skip(0) == v@);
        lemma_find(v@, c);
    }
    if i < v.len() {
        let a = string_of_range(&v, 0, i);
        let b = string_of_range(&v, i + 1, v.len());
        assert(a@ == s@.take(i as int));
        assert(b@ == s@.skip(i + 1));
        Some((a, b))
    } else {
        None
    }
}

/// Splits `s` at the last `c`.
pub fn rsplit_once(s: &str, c: char) -> (r: Option<(String, String)>)
    ensures
        opt_pair_view(r) == rsplit_once_spec(s@, c),
{
    let v = chars_of(s);
    proof {
        lemma_rfind(v@, c);
    }
    match rfind_in(&v, c) {
        Some(i) => {
            let n: usize = v.len();
            let a = string_of_range(&v, 0, i);
            let b = string_of_range(&v, i + 1, n);
            assert(a@ == s@.take(i as int));
            assert(b@ == s@.skip(i + 1));
            Some((a, b))
        },
        None => None,
    }
}

/// The pieces of `s` between its `c`s.
pub open spec fn split(s: Seq<char>, c: char) -> Seq<Seq<char>>
    decreases s.len(),
{
    let i = find(s, c);
    if i < 0 || i >= s.len() {
        seq![s]
    } else {
        seq![s.take(i)] + split(s.skip(i + 1), c)
    }
}

/// The views of a list of strings.
pub open spec fn views(v: Seq<String>) -> Seq<Seq<char>> {
    Seq::new(v.len(), |i: int| v[i]@)
}

/// A list of strings grown by one.
pub proof fn lemma_views_push(v: Seq<String>, s: String)
    ensures
        views(v.push(s)) == views(v).push(s@),
{
    assert(views(v.push(s)) =~= views(v).push(s@));
}

/// A copy of a list of strings.
pub fn clone_strings(v: &Vec<String>) -> (r: Vec<String>)
    ensures
        views(r@) == views(v@),
{
    let mut r: Vec<String> = Vec::new();
    let mut i: usize = 0;
    assert(views(r@) =~= views(v@).take(0));
    while i < v.len()
        invariant
            i <= v@.len(),
            views(r@) == views(v@).take(i as int),
        decreases v@.len() - i,
    {
        let s = v[i].clone();
        proof {
            lemma_views_push(r@, s);
            assert(views(v@).take(i + 1) =~= views(v@).take(i as int).push(s@));
        }
        r.push(s);
        i += 1;
    }
    assert(views(v@).take(i as int) =~= views(v@));
    r
}

/// Splits `s` at every `c`.
pub fn split_on(s: &str, c: char) -> (r: Vec<String>)
    ensures
        views(r@) == split(s@, c),
        r@.len() >= 1,
{
    let v = chars_of(s);
    let mut out: Vec<String> = Vec::new();
    let mut start: usize = 0;
    assert(s@.skip(0) == s@);
    assert(views(out@) + split(s@.skip(0), c) =~= split(s@, c));
    loop
        invariant
            v@ == s@,
            start <= v@.len(),
            views(out@) + split(s@.skip(start as int), c) == split(s@, c),
        decreases v@.len() - start,
    {
        let i: usize = find_from(&v, start, c);
        let piece = string_of_range(&v, start, i);
        let ghost rest = s@.skip(start as int);
        let ghost before = views(out@);
        proof {
            lemma_find(rest, c);
            assert(piece@ == rest.take(i - start));
            lemma_views_push(out@, piece);
        }
        out.push(piece);
        if i >= v.len() {
            proof {
                assert(rest.take(i - start) =~= rest);
                assert(before + seq![rest] =~= before.push(rest));
            }
            return out;
        }
        proof {
            assert(rest.skip(i - start + 1) =~= s@.skip(i + 1));
            assert(before + (seq![rest.take(i - start)] + split(s@.skip(i + 1), c)) =~= before.push(
                rest.take(i - start),
            ) + split(s@.skip(i + 1), c));
        }
        start = i + 1;
    }
}

/// `s` without a carriage return at its end.
pub open spec fn without_cr(s: Seq<char>) -> Seq<char> {
    if s.len() > 0 && s.last() == '\r' {
        s.drop_last()
    } else {
        s
    }
}

/// The lines of `s`, without the `\n` or `\r\n` that ends each. Nothing behind the last line end is
/// no line.
pub open spec fn lines(s: Seq<char>) -> Seq<Seq<char>> {
    let p = split(s, '\n');
    let n = if p.last().len() == 0 {
        p.len() - 1
    } else {
        p.len() as int
    };
    Seq::new(
        n as nat,
        |i: int|
            if i < p.len() - 1 {
                without_cr(p[i])
            } else {
                p[i]
            },
    )
}

/// The lines of `s`.
pub fn lines_of(s: &str) -> (r: Vec<String>)
    ensures
        views(r@) == lines(s@),
{
    let pieces = split_on(s, '\n');
    let ghost p = split(s@, '\n');
    let last: usize = pieces.len() - 1;
    assert(p.last() == pieces@[last as int]@);
    let mut out: Vec<String> = Vec::new();
    let mut i: usize = 0;
    while i < last
        invariant
            p == views(pieces@),
            pieces@.len() == last + 1,
            i <= last,
            out@.len() == i,
            forall|k: int| 0 <= k < i ==> (#[trigger] out@[k])@ == without_cr(p[k]),
        decreases last - i,
    {
        let v = chars_of(pieces[i].as_str());
        let n: usize = v.len();
        let end: usize = if n > 0 && v[n - 1] == '\r' {
            n - 1
        } else {
            n
        };
        let line = string_of_range(&v, 0, end);
        assert(line@ =~= without_cr(p[i as int]));
        out.push(line);
        i += 1;
    }
    if !pieces[last].as_str().is_empty() {
        out.push(pieces[last].clone());
    }
    assert(views(out@) =~= lines(s@));
    out
}

/// The parts of `parts` with `sep` between each two.
pub open spec fn joined(parts: Seq<Seq<char>>, sep: Seq<char>) -> Seq<char>
    decreases parts.len(),
{
    if parts.len() == 0 {
        seq![]
    } else if parts.len() == 1 {
        parts[0]
    } else {
        joined(parts.drop_last(), sep) + sep + parts.last()
    }
}

/// Joins `parts`, with `sep` between each two.
pub fn join(parts: &[String], sep: &str) -> (r: String)
    ensures
        r@ == joined(views(parts@), sep@),
{
    let mut r = String::new();
    let mut i: usize = 0;
    while i < parts.len()
        invariant
            i <= parts@.len(),
            r@ == joined(views(parts@).take(i as int), sep@),
        decreases parts@.len() - i,
    {
        let ghost next = views(parts@).take(i + 1);
        proof {
            assert(next.drop_last() =~= views(parts@).take(i as int));
            assert(next.last() == parts@[i as int]@);
        }
        if i > 0 {
            r.append(sep);
        } else {
            assert(r@ + parts@[0]@ =~= parts@[0]@);
        }
        r.append(parts[i].as_str());
        i += 1;
    }
    assert(views(parts@).take(parts@.len() as int) =~= views(parts@));
    r
}

// ---------------------------------------------------------------------------
// Trimming
// ---------------------------------------------------------------------------

/// The characters of Unicode's `White_Space` property.
pub open spec fn is_white(c: char) -> bool {
    ||| '\u{9}' <= c <= '\u{d}'
    ||| c == ' '
    ||| c == '\u{85}'
    ||| c == '\u{a0}'
    ||| c == '\u{1680}'
    ||| '\u{2000}' <= c <= '\u{200a}'
    ||| c == '\u{2028}'
    ||| c == '\u{2029}'
    ||| c == '\u{202f}'
    ||| c == '\u{205f}'
    ||| c == '\u{3000}'
}

/// Whether `c` is white space.
pub fn white(c: char) -> (r: bool)
    ensures
        r == is_white(c),
{
    ('\u{9}' <= c && c <= '\u{d}') || c == ' ' || c == '\u{85}' || c == '\u{a0}' || c == '\u{1680}'
        || ('\u{2000}' <= c && c <= '\u{200a}') || c == '\u{2028}' || c == '\u{2029}' || c
        == '\u{202f}' || c == '\u{205f}' || c == '\u{3000}'
}

/// `s` without its leading white space.
pub open spec fn trim_start_spec(s: Seq<char>) -> Seq<char>
    decreases s.len(),
{
    if s.len() > 0 && is_white(s[0]) {
        trim_start_spec(s.drop_first())
    } else {
        s
    }
}

/// `s` without its trailing white space.
pub open spec fn trim_end_spec(s: Seq<char>) -> Seq<char>
    decreases s.len(),
{
    if s.len() > 0 && is_white(s.last()) {
        trim_end_spec(s.drop_last())
    } else {
        s
    }
}

/// `s` without leading and trailing white space.
pub open spec fn trimmed(s: Seq<char>) -> Seq<char> {
    trim_end_spec(trim_start_spec(s))
}

/// `s` without leading and trailing white space.
pub fn trim(s: &str) -> (r: String)
    ensures
        r@ == trimmed(s@),
{
    let v = chars_of(s);
    let mut from: usize = 0;
    assert(v@.skip(0) =~= s@);
    while from < v.len() && white(v[from])
        invariant
            from <= v@.len(),
            trim_start_spec(v@.skip(from as int)) == trim_start_spec(s@),
        decreases v@.len() - from,
    {
        assert(v@.skip(from as int).drop_first() =~= v@.skip(from + 1));
        from += 1;
    }
    let mut to: usize = v.len();
    let ghost t = v@.skip(from as int);
    assert(v@.subrange(from as int, to as int) =~= t);
    while to > from && white(v[to - 1])
        invariant
            from <= to <= v@.len(),
            trim_end_spec(v@.subrange(from as int, to as int)) == trim_end_spec(t),
        decreases to,
    {
        assert(v@.subrange(from as int, to as int).drop_last() =~= v@.subrange(
            from as int,
            to - 1,
        ));
        to -= 1;
    }
    string_of_range(&v, from, to)
}

/// `trim_start_spec` leaves a suffix that does not begin with white space.
pub proof fn lemma_trim_start(s: Seq<char>)
    ensures
        trim_start_spec(s).len() <= s.len(),
        trim_start_spec(s) == s.skip(s.len() - trim_start_spec(s).len()),
        trim_start_spec(s).len() > 0 ==> !is_white(trim_start_spec(s)[0]),
    decreases s.len(),
{
    if s.len() > 0 && is_white(s[0]) {
        lemma_trim_start(s.drop_first());
        let t = s.drop_first();
        let n = t.len() - trim_start_spec(t).len();
        assert(t.skip(n) =~= s.skip(n + 1));
    } else {
        assert(s.skip(0) =~= s);
    }
}

/// `trim_end_spec` leaves a prefix that does not end with white space.
pub proof fn lemma_trim_end(s: Seq<char>)
    ensures
        trim_end_spec(s).len() <= s.len(),
        trim_end_spec(s) == s.take(trim_end_spec(s).len() as int),
        trim_end_spec(s).len() > 0 ==> !is_white(trim_end_spec(s).last()),
    decreases s.len(),
{
    if s.len() > 0 && is_white(s.last()) {
        lemma_trim_end(s.drop_last());
        let t = s.drop_last();
        assert(t.take(trim_end_spec(t).len() as int) =~= s.take(trim_end_spec(t).len() as int));
    } else {
        assert(s.take(s.len() as int) =~= s);
    }
}

/// Text without white space at its ends is left as it is.
pub proof fn lemma_trimmed_fixed(s: Seq<char>)
    requires
        s.len() > 0 ==> !is_white(s[0]) && !is_white(s.last()),
    ensures
        trimmed(s) == s,
{
}

/// Trimming twice is trimming once.
pub proof fn lemma_trimmed_idempotent(s: Seq<char>)
    ensures
        trimmed(trimmed(s)) == trimmed(s),
{
    let t = trim_start_spec(s);
    lemma_trim_start(s);
    lemma_trim_end(t);
    let r = trim_end_spec(t);
    if r.len() > 0 {
        assert(r[0] == t[0]);
    }
    lemma_trimmed_fixed(r);
}

// ---------------------------------------------------------------------------
// Letters and digits
// ---------------------------------------------------------------------------

/// `c` is an ASCII digit.
pub open spec fn is_digit(c: char) -> bool {
    '0' <= c <= '9'
}

/// `c` is an ASCII letter.
pub open spec fn is_alpha(c: char) -> bool {
    'a' <= c <= 'z' || 'A' <= c <= 'Z'
}

/// `c` is an ASCII letter or digit.
pub open spec fn is_alnum(c: char) -> bool {
    is_alpha(c) || is_digit(c)
}

/// Whether `c` is an ASCII digit.
pub fn digit(c: char) -> (r: bool)
    ensures
        r == is_digit(c),
{
    '0' <= c && c <= '9'
}

/// Whether `c` is an ASCII letter or digit.
pub fn alnum(c: char) -> (r: bool)
    ensures
        r == is_alnum(c),
{
    ('a' <= c && c <= 'z') || ('A' <= c && c <= 'Z') || ('0' <= c && c <= '9')
}

/// The upper-case form of an ASCII letter; any other character itself.
pub open spec fn upper_spec(c: char) -> char {
    if 'a' <= c <= 'z' {
        (c as u8 - 32) as char
    } else {
        c
    }
}

/// The lower-case form of an ASCII letter; any other character itself.
pub open spec fn lower_spec(c: char) -> char {
    if 'A' <= c <= 'Z' {
        (c as u8 + 32) as char
    } else {
        c
    }
}

/// The upper-case form of an ASCII letter; any other character itself.
pub fn upper(c: char) -> (r: char)
    ensures
        r == upper_spec(c),
{
    if 'a' <= c && c <= 'z' {
        let u: u8 = c as u8;
        (u - 32) as char
    } else {
        c
    }
}

/// The lower-case form of an ASCII letter; any other character itself.
pub fn lower(c: char) -> (r: char)
    ensures
        r == lower_spec(c),
{
    if 'A' <= c && c <= 'Z' {
        let u: u8 = c as u8;
        (u + 32) as char
    } else {
        c
    }
}

/// `s` with its ASCII letters in lower case.
pub open spec fn lowered(s: Seq<char>) -> Seq<char> {
    Seq::new(s.len(), |i: int| lower_spec(s[i]))
}

/// `s` with its ASCII letters in lower case.
pub fn to_lower(s: &str) -> (r: String)
    ensures
        r@ == lowered(s@),
{
    let v = chars_of(s);
    let mut r = String::new();
    let mut i: usize = 0;
    while i < v.len()
        invariant
            i <= v@.len(),
            v@ == s@,
            r@ == lowered(s@).take(i as int),
        decreases v@.len() - i,
    {
        r.push(lower(v[i]));
        i += 1;
    }
    r
}

// ---------------------------------------------------------------------------
// Unicode
// ---------------------------------------------------------------------------

/// What `String::from_utf8_lossy` makes of bytes.
pub uninterp spec fn lossy_text(b: Seq<u8>) -> Seq<char>;

/// The text of bytes: what they encode, where they are UTF-8.
pub open spec fn lossy(b: Seq<u8>) -> Seq<char> {
    if vstd::utf8::valid_utf8(b) {
        vstd::utf8::decode_utf8(b)
    } else {
        lossy_text(b)
    }
}

/// Calls `String::from_utf8_lossy`. The text depends on the bytes alone; it is what they encode, where
/// they are UTF-8.
#[verifier::external_body]
pub(crate) fn from_utf8_lossy(b: &[u8]) -> (r: String)
    ensures
        r@ == lossy_text(b@),
        r@ == lossy(b@),
{
    String::from_utf8_lossy(b).into_owned()
}

/// What `str::to_lowercase` makes of a string.
pub uninterp spec fn unicode_lowercase(s: Seq<char>) -> Seq<char>;

/// `str::to_lowercase` depends on the string alone. Of a string of ASCII characters it changes the
/// capital letters and nothing else.
pub assume_specification[ str::to_lowercase ](s: &str) -> (r: String)
    ensures
        r@ == unicode_lowercase(s@),
        (forall|i: int| 0 <= i < s@.len() ==> #[trigger] s@[i] <= '\u{7f}') ==> r@ == lowered(s@),
;

// ---------------------------------------------------------------------------
// Decimal numerals
// ---------------------------------------------------------------------------

/// The value of a row of decimal digits.
pub open spec fn dec_value(s: Seq<char>) -> nat
    decreases s.len(),
{
    if s.len() == 0 {
        0
    } else {
        dec_value(s.drop_last()) * 10 + (s.last() as int - '0' as int) as nat
    }
}

/// `s` is a decimal numeral without sign.
pub open spec fn is_dec(s: Seq<char>) -> bool {
    s.len() > 0 && forall|i: int| 0 <= i < s.len() ==> is_digit(#[trigger] s[i])
}

/// `s` without one leading `+`.
pub open spec fn unsigned_part(s: Seq<char>) -> Seq<char> {
    if s.len() > 0 && s[0] == '+' {
        s.drop_first()
    } else {
        s
    }
}

/// What an unsigned integer type with greatest value `max` reads from `s`: digits, with one
/// `+` before them at most, whose value the type can hold.
pub open spec fn parse_dec_spec(s: Seq<char>, max: nat) -> Option<nat> {
    let d = unsigned_part(s);
    if is_dec(d) && dec_value(d) <= max {
        Some(dec_value(d))
    } else {
        None
    }
}

/// Reads an unsigned decimal numeral of at most `max`.
pub fn parse_dec(s: &str, max: u64) -> (r: Option<u64>)
    ensures
        match r {
            Some(n) => parse_dec_spec(s@, max as nat) == Some(n as nat),
            None => parse_dec_spec(s@, max as nat) is None,
        },
{
    let v = chars_of(s);
    let start: usize = if v.len() > 0 && v[0] == '+' {
        1
    } else {
        0
    };
    let ghost d = unsigned_part(s@);
    assert(d =~= v@.skip(start as int));
    if start >= v.len() {
        return None;
    }
    let mut n: u64 = 0;
    let mut i: usize = start;
    let mut over = false;
    assert(d.take(0) =~= Seq::<char>::empty());
    while i < v.len()
        invariant
            start <= i <= v@.len(),
            d == v@.skip(start as int),
            d == unsigned_part(s@),
            n <= max,
            forall|k: int| 0 <= k < i - start ==> is_digit(#[trigger] d[k]),
            !over ==> n == dec_value(d.take(i - start)),
            over ==> dec_value(d.take(i - start)) > max,
        decreases v@.len() - i,
    {
        let c = v[i];
        let ghost k = i - start;
        assert(d[k] == c);
        if !digit(c) {
            assert(!is_digit(d[k]));
            return None;
        }
        let dv: u64 = c as u64 - '0' as u64;
        proof {
            assert(d.take(k + 1).drop_last() =~= d.take(k));
            assert(d.take(k + 1).last() == c);
        }
        if !over {
            if dv > max || n > (max - dv) / 10 {
                over = true;
            } else {
                n = n * 10 + dv;
            }
        }
        i += 1;
    }
    assert(d.take(d.len() as int) =~= d);
    if over {
        None
    } else {
        Some(n)
    }
}

/// The decimal numeral of `n`.
pub open spec fn dec(n: nat) -> Seq<char>
    decreases n,
{
    if n < 10 {
        seq![('0' as u8 + n) as char]
    } else {
        dec(n / 10).push(('0' as u8 + n % 10) as char)
    }
}

/// The decimal numeral of `n`.
pub fn to_dec(n: u64) -> (r: String)
    ensures
        r@ == dec(n as nat),
    decreases n,
{
    let d: u8 = (n % 10) as u8;
    let mut r = if n < 10 {
        String::new()
    } else {
        to_dec(n / 10)
    };
    r.push((48 + d) as char);
    r
}

/// Reading back a numeral gives the number.
pub proof fn lemma_dec_round_trip(n: nat)
    ensures
        is_dec(dec(n)),
        dec_value(dec(n)) == n,
        unsigned_part(dec(n)) == dec(n),
    decreases n,
{
    reveal_with_fuel(dec_value, 2);
    if n >= 10 {
        lemma_dec_round_trip(n / 10);
        let p = dec(n / 10);
        assert(dec(n).drop_last() =~= p);
        assert(dec(n)[0] == p[0]);
        assert(is_digit(p[0]));
    } else {
        let s = dec(n);
        assert(s.drop_last() =~= Seq::<char>::empty());
        assert(is_digit(s[0]));
    }
}

/// Different texts have different encodings.
pub proof fn lemma_utf8_injective(a: Seq<char>, b: Seq<char>)
    requires
        utf8(a) == utf8(b),
    ensures
        a == b,
{
    vstd::utf8::encode_utf8_decode_utf8(a);
    vstd::utf8::encode_utf8_decode_utf8(b);
}

/// Texts one behind the other are encoded one behind the other.
pub proof fn lemma_utf8_concat(a: Seq<char>, b: Seq<char>)
    ensures
        utf8(a + b) == utf8(a) + utf8(b),
    decreases a.len(),
{
    if a.len() == 0 {
        assert(a + b =~= b);
        assert(utf8(a) =~= Seq::<u8>::empty());
        assert(utf8(a) + utf8(b) =~= utf8(b));
    } else {
        let t = a.drop_first();
        lemma_utf8_concat(t, b);
        assert((a + b).drop_first() =~= t + b);
        assert((a + b)[0] == a[0]);
        assert(utf8(a + b) =~= utf8(a) + utf8(b));
    }
}

/// Which characters are white space, digits and letters, and how a letter changes its case.
pub proof fn law_characters(c: char)
    ensures
        is_white(c) <==> c == ' ' || 0x9 <= c as int <= 0xd || c as int == 0x85 || c as int == 0xa0
            || c as int == 0x1680 || 0x2000 <= c as int <= 0x200a || c as int == 0x2028 || c as int
            == 0x2029 || c as int == 0x202f || c as int == 0x205f || c as int == 0x3000,
        is_digit(c) <==> 48 <= c as int <= 57,
        is_alpha(c) <==> 65 <= c as int <= 90 || 97 <= c as int <= 122,
        is_alnum(c) <==> is_digit(c) || is_alpha(c),
        97 <= c as int <= 122 ==> upper_spec(c) as int == c as int - 32,
        !(97 <= c as int <= 122) ==> upper_spec(c) == c,
        65 <= c as int <= 90 ==> lower_spec(c) as int == c as int + 32,
        !(65 <= c as int <= 90) ==> lower_spec(c) == c,
        lower_spec(upper_spec(c)) == lower_spec(c),
        upper_spec(lower_spec(c)) == upper_spec(c),
{
}

/// Trimming takes white space away at both ends, all of it, and nothing else.
pub proof fn law_trimming_takes_white_space_only(a: Seq<char>, s: Seq<char>, b: Seq<char>)
    requires
        forall|i: int| 0 <= i < a.len() ==> is_white(#[trigger] a[i]),
        forall|i: int| 0 <= i < b.len() ==> is_white(#[trigger] b[i]),
        s.len() > 0 ==> !is_white(s[0]) && !is_white(s.last()),
    ensures
        trimmed(a + s + b) == s,
    decreases a.len() + b.len(),
{
    let w = a + s + b;
    if a.len() > 0 {
        let t = a.drop_first();
        assert forall|i: int| 0 <= i < t.len() implies is_white(#[trigger] t[i]) by {
            assert(t[i] == a[i + 1]);
        }
        assert(w[0] == a[0]);
        assert(w.drop_first() =~= t + s + b);
        law_trimming_takes_white_space_only(t, s, b);
    } else if s.len() == 0 {
        assert(w =~= b);
        lemma_all_white(b);
        assert(s =~= Seq::<char>::empty());
    } else {
        assert(w[0] == s[0]);
        assert(trim_start_spec(w) == w);
        assert(w =~= s + b);
        lemma_white_end(s, b);
    }
}

proof fn lemma_all_white(b: Seq<char>)
    requires
        forall|i: int| 0 <= i < b.len() ==> is_white(#[trigger] b[i]),
    ensures
        trim_start_spec(b) == Seq::<char>::empty(),
    decreases b.len(),
{
    if b.len() > 0 {
        assert(is_white(b[0]));
        let t = b.drop_first();
        assert forall|i: int| 0 <= i < t.len() implies is_white(#[trigger] t[i]) by {
            assert(t[i] == b[i + 1]);
        }
        lemma_all_white(t);
    } else {
        assert(b =~= Seq::<char>::empty());
    }
}

proof fn lemma_white_end(s: Seq<char>, b: Seq<char>)
    requires
        s.len() > 0,
        !is_white(s.last()),
        forall|i: int| 0 <= i < b.len() ==> is_white(#[trigger] b[i]),
    ensures
        trim_end_spec(s + b) == s,
    decreases b.len(),
{
    let w = s + b;
    if b.len() > 0 {
        let t = b.drop_last();
        assert forall|i: int| 0 <= i < t.len() implies is_white(#[trigger] t[i]) by {
            assert(t[i] == b[i]);
        }
        assert(is_white(b[b.len() - 1]));
        assert(w.last() == b.last());
        assert(w.drop_last() =~= s + t);
        lemma_white_end(s, t);
    } else {
        assert(w =~= s);
    }
}

/// Splitting is undone by joining: the pieces, with the separator between each two, are the text, and
/// no piece holds a separator.
pub proof fn law_splitting_is_undone_by_joining(s: Seq<char>, c: char)
    ensures
        split(s, c).len() >= 1,
        joined(split(s, c), seq![c]) == s,
        forall|i: int| 0 <= i < split(s, c).len() ==> !(#[trigger] split(s, c)[i]).contains(c),
    decreases s.len(),
{
    let i = find(s, c);
    lemma_find(s, c);
    let p = split(s, c);
    if i < s.len() {
        let rest = s.skip(i + 1);
        law_splitting_is_undone_by_joining(rest, c);
        let q = split(rest, c);
        assert(p =~= seq![s.take(i)] + q);
        lemma_joined_front(s.take(i), q, seq![c]);
        assert(s.take(i) + seq![c] + rest =~= s);
        assert forall|k: int| 0 <= k < p.len() implies !(#[trigger] p[k]).contains(c) by {
            if k > 0 {
                assert(p[k] == q[k - 1]);
            } else if s.take(i).contains(c) {
                let j = choose|j: int| 0 <= j < i && s.take(i)[j] == c;
                assert(s[j] == c);
            }
        }
    } else {
        assert(p =~= seq![s]);
        assert(joined(p, seq![c]) == s);
    }
}

/// What is joined begins with the first part and the separator.
pub proof fn lemma_joined_front(x: Seq<char>, q: Seq<Seq<char>>, sep: Seq<char>)
    requires
        q.len() > 0,
    ensures
        joined(seq![x] + q, sep) == x + sep + joined(q, sep),
    decreases q.len(),
{
    let p = seq![x] + q;
    assert(p.last() == q.last());
    assert(p.drop_last() =~= seq![x] + q.drop_last());
    if q.len() == 1 {
        assert(p.drop_last() =~= seq![x]);
        assert(joined(seq![x], sep) == x);
    } else {
        lemma_joined_front(x, q.drop_last(), sep);
        let j = joined(q.drop_last(), sep);
        assert(x + sep + j + sep + q.last() =~= x + sep + (j + sep + q.last()));
    }
}

/// Joining writes the parts one behind the other, with the separator between each two.
pub proof fn law_joining_keeps_every_part(parts: Seq<Seq<char>>, last: Seq<char>, sep: Seq<char>)
    ensures
        joined(seq![last], sep) == last,
        parts.len() > 0 ==> joined(parts.push(last), sep) == joined(parts, sep) + sep + last,
{
    assert(parts.push(last).drop_last() =~= parts);
}

/// A line ends at `\n`; a `\r` before it belongs to the end. What stands behind the last line end is a
/// line where it is not empty.
pub proof fn law_lines_end_at_line_feeds(a: Seq<char>, rest: Seq<char>)
    requires
        !a.contains('\n'),
    ensures
        lines(seq![]) == Seq::<Seq<char>>::empty(),
        a.len() > 0 ==> lines(a) == seq![a],
        a.len() > 0 && a.last() == '\r' ==> lines(a.push('\n') + rest) == seq![a.drop_last()] + lines(rest),
        !(a.len() > 0 && a.last() == '\r') ==> lines(a.push('\n') + rest) == seq![a] + lines(rest),
{
    let e: Seq<char> = seq![];
    lemma_find(e, '\n');
    assert(split(e, '\n') =~= seq![e]);
    assert(lines(e) =~= Seq::<Seq<char>>::empty());
    lemma_find(a, '\n');
    assert(split(a, '\n') =~= seq![a]);
    if a.len() > 0 {
        assert(lines(a) =~= seq![a]);
    }
    let s = a.push('\n') + rest;
    assert forall|i: int| 0 <= i < a.len() implies s[i] != '\n' by {
        assert(s[i] == a[i]);
        assert(a.contains(a[i]));
    }
    lemma_find_is(s, '\n', a.len() as int);
    assert(s.take(a.len() as int) =~= a);
    assert(s.skip(a.len() as int + 1) =~= rest);
    let q = split(rest, '\n');
    law_splitting_is_undone_by_joining(rest, '\n');
    let p = split(s, '\n');
    assert(p =~= seq![a] + q);
    assert(p.last() == q.last());
    assert(lines(s) =~= seq![without_cr(a)] + lines(rest));
}

/// A number is read back from its numeral, where it is not too great; a numeral begins with no zero but
/// that of 0.
pub proof fn law_numbers_read_back(n: nat, max: nat)
    ensures
        n <= max ==> parse_dec_spec(dec(n), max) == Some(n),
        n > max ==> parse_dec_spec(dec(n), max) is None,
        parse_dec_spec(seq!['+'] + dec(n), max) == parse_dec_spec(dec(n), max),
        dec(n).len() > 0,
        n > 0 ==> dec(n)[0] != '0',
        n < 10 ==> dec(n).len() == 1,
{
    lemma_dec_round_trip(n);
    lemma_no_leading_zero(n);
    let s = seq!['+'] + dec(n);
    assert(s.drop_first() =~= dec(n));
}

proof fn lemma_no_leading_zero(n: nat)
    ensures
        dec(n).len() > 0,
        n > 0 ==> dec(n)[0] != '0',
    decreases n,
{
    if n >= 10 {
        lemma_no_leading_zero(n / 10);
        assert(dec(n)[0] == dec(n / 10)[0]);
    }
}

/// What is read as a number consists of digits, with one `+` before them at most; leading zeros do not
/// count.
pub proof fn law_only_digits_are_read(s: Seq<char>, max: nat)
    ensures
        parse_dec_spec(s, max) is Some ==> s.len() > 0 && forall|i: int|
            0 < i < s.len() ==> 48 <= #[trigger] s[i] as int <= 57,
        parse_dec_spec(s, max) is Some ==> s[0] == '+' && s.len() > 1 || 48 <= s[0] as int <= 57,
        parse_dec_spec(s, max) is Some ==> parse_dec_spec(s, max)->0 <= max,
        parse_dec_spec(s, max) is Some && s[0] != '+' ==> parse_dec_spec(seq!['0'] + s, max)
            == parse_dec_spec(s, max),
{
    let d = unsigned_part(s);
    if is_dec(d) {
        assert forall|i: int| 0 < i < s.len() implies 48 <= #[trigger] s[i] as int <= 57 by {
            if s[0] == '+' {
                assert(s[i] == d[i - 1]);
                assert(is_digit(d[i - 1]));
            } else {
                assert(is_digit(d[i]));
            }
        }
        assert(is_digit(d[0]));
        if s[0] != '+' {
            let z = seq!['0'] + s;
            assert forall|i: int| 0 <= i < z.len() implies is_digit(#[trigger] z[i]) by {
                if i > 0 {
                    assert(z[i] == d[i - 1]);
                }
            }
            lemma_leading_zero(s);
        }
    }
}

proof fn lemma_leading_zero(s: Seq<char>)
    ensures
        dec_value(seq!['0'] + s) == dec_value(s),
    decreases s.len(),
{
    let z = seq!['0'] + s;
    if s.len() == 0 {
        assert(z.drop_last() =~= Seq::<char>::empty());
        reveal_with_fuel(dec_value, 2);
    } else {
        assert(z.drop_last() =~= seq!['0'] + s.drop_last());
        assert(z.last() == s.last());
        lemma_leading_zero(s.drop_last());
    }
}

/// Joining is undone by splitting, where no part holds the separator.
pub proof fn law_joining_is_undone_by_splitting(parts: Seq<Seq<char>>, c: char)
    requires
        parts.len() > 0,
        forall|i: int| 0 <= i < parts.len() ==> !(#[trigger] parts[i]).contains(c),
    ensures
        split(joined(parts, seq![c]), c) == parts,
    decreases parts.len(),
{
    let x = parts[0];
    let s = joined(parts, seq![c]);
    assert(!x.contains(c));
    assert forall|i: int| 0 <= i < x.len() implies x[i] != c by {
        assert(x.contains(x[i]));
    }
    if parts.len() == 1 {
        assert(s == x);
        lemma_find_is(x, c, x.len() as int);
        assert(split(x, c) =~= parts);
    } else {
        let q = parts.drop_first();
        assert(parts =~= seq![x] + q);
        assert forall|i: int| 0 <= i < q.len() implies !(#[trigger] q[i]).contains(c) by {
            assert(q[i] == parts[i + 1]);
        }
        law_joining_is_undone_by_splitting(q, c);
        lemma_joined_front(x, q, seq![c]);
        let rest = joined(q, seq![c]);
        assert(s =~= x + seq![c] + rest);
        assert forall|i: int| 0 <= i < x.len() implies s[i] != c by {
            assert(s[i] == x[i]);
        }
        assert(s[x.len() as int] == c);
        lemma_find_is(s, c, x.len() as int);
        assert(s.take(x.len() as int) =~= x);
        assert(s.skip(x.len() as int + 1) =~= rest);
    }
}

/// Lowering changes the capital letters of ASCII, each in its place, and nothing else.
pub proof fn law_lowering_changes_capitals_only(s: Seq<char>, i: int)
    requires
        0 <= i < s.len(),
    ensures
        lowered(s).len() == s.len(),
        65 <= s[i] as int <= 90 ==> lowered(s)[i] as int == s[i] as int + 32,
        !(65 <= s[i] as int <= 90) ==> lowered(s)[i] == s[i],
{
}

/// A list of strings is seen as the list of their characters, string by string; an optional string as
/// its characters, where there is one.
pub proof fn law_strings_are_seen_as_their_characters(v: Seq<String>, i: int, s: String)
    ensures
        views(v).len() == v.len(),
        0 <= i < v.len() ==> views(v)[i] == v[i]@,
        opt_view(Some(s)) == Some(s@),
        opt_view(None) is None,
        opt_pair_view(Some((s, s))) == Some((s@, s@)),
        opt_pair_view(None) is None,
{
}

/// A text is cut at the first separator, or at the last one; what stands before and behind it, with the
/// separator between, is the text.
pub proof fn law_cutting_once_keeps_both_parts(a: Seq<char>, c: char, b: Seq<char>)
    ensures
        !a.contains(c) ==> split_once_spec(a.push(c) + b, c) == Some((a, b)),
        !b.contains(c) ==> rsplit_once_spec(a.push(c) + b, c) == Some((a, b)),
        !a.contains(c) ==> split_once_spec(a, c) is None && rsplit_once_spec(a, c) is None,
        strip_prefix_spec(a + b, a) == Some(b),
        !a.is_prefix_of(b) ==> strip_prefix_spec(b, a) is None,
        has_suffix(a + b, b),
        has_substring(a + b, a),
{
    let s = a.push(c) + b;
    let n = a.len() as int;
    assert(s[n] == c);
    assert(s.contains(c));
    assert(s.take(n) =~= a);
    assert(s.skip(n + 1) =~= b);
    if !a.contains(c) {
        assert forall|i: int| 0 <= i < n implies s[i] != c by {
            assert(s[i] == a[i]);
            assert(a.contains(a[i]));
        }
        lemma_find_is(s, c, n);
    }
    if !b.contains(c) {
        assert forall|i: int| n < i < s.len() implies s[i] != c by {
            assert(s[i] == b[i - n - 1]);
            assert(b.contains(b[i - n - 1]));
        }
        lemma_rfind_is(s, c, n);
    }
    let t = a + b;
    assert(t.subrange(0, n) =~= a);
    assert(t.skip(n) =~= b);
    assert(t.subrange(n, t.len() as int) =~= b);
    assert(occurs_at(t, a, 0));
}

} // verus!
