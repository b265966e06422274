//! Text as Windows has it: in UTF-16, with a zero behind it.

use vstd::prelude::*;

use crate::clipboard::types::ClipboardContent;

verus! {

// ---------------------------------------------------------------------------
// UTF-16
// ---------------------------------------------------------------------------

/// The units of a character: one, or the two halves of a surrogate pair.
pub open spec fn units_of(c: char) -> Seq<u16> {
    let n = c as int;
    if n < 0x1_0000 {
        seq![n as u16]
    } else {
        seq![
            (0xd800 + (n - 0x1_0000) / 0x400) as u16,
            (0xdc00 + (n - 0x1_0000) % 0x400) as u16,
        ]
    }
}

/// The UTF-16 encoding of a text.
pub open spec fn utf16(s: Seq<char>) -> Seq<u16>
    decreases s.len(),
{
    if s.len() == 0 {
        seq![]
    } else {
        units_of(s[0]) + utf16(s.drop_first())
    }
}

/// `u` is the first half of a surrogate pair.
pub open spec fn is_high(u: u16) -> bool {
    0xd800 <= u <= 0xdbff
}

/// `u` is the second half of a surrogate pair.
pub open spec fn is_low(u: u16) -> bool {
    0xdc00 <= u <= 0xdfff
}

/// The text that UTF-16 units stand for. A half that stands alone becomes U+FFFD.
pub open spec fn utf16_text(u: Seq<u16>) -> Seq<char>
    decreases u.len(),
{
    if u.len() == 0 {
        seq![]
    } else if is_high(u[0]) && u.len() >= 2 && is_low(u[1]) {
        seq![(0x1_0000 + (u[0] - 0xd800) * 0x400 + (u[1] - 0xdc00)) as char] + utf16_text(u.skip(2))
    } else if is_high(u[0]) || is_low(u[0]) {
        seq!['\u{fffd}'] + utf16_text(u.skip(1))
    } else {
        seq![u[0] as char] + utf16_text(u.skip(1))
    }
}

/// Calls `str::encode_utf16`: the characters below U+10000 as they are, the others as surrogate
/// pairs.
#[verifier::external_body]
pub(crate) fn encode_utf16(s: &str) -> (r: Vec<u16>)
    ensures
        r@ == utf16(s@),
{
    s.encode_utf16().collect()
}

/// Calls `String::from_utf16_lossy`, which puts U+FFFD in place of what cannot be read: a surrogate
/// without its other half.
#[verifier::external_body]
pub(crate) fn from_utf16_lossy(u: &[u16]) -> (r: String)
    ensures
        r@ == utf16_text(u@),
{
    String::from_utf16_lossy(u)
}

/// The units of a character stand for it.
proof fn lemma_units_of(c: char)
    ensures
        (c as int) < 0x1_0000 ==> units_of(c) == seq![c as u16] && !is_high(c as u16) && !is_low(
            c as u16,
        ) && (c as u16) as char == c,
        c as int >= 0x1_0000 ==> {
            let u = units_of(c);
            &&& u.len() == 2 && is_high(u[0]) && is_low(u[1])
            &&& (0x1_0000 + (u[0] - 0xd800) * 0x400 + (u[1] - 0xdc00)) as char == c
        },
        units_of(c).contains(0u16) <==> c == '\0',
{
    let n = c as int;
    assert(0 <= n <= 0x10_ffff && !(0xd800 <= n <= 0xdfff));
    let u = units_of(c);
    if n < 0x1_0000 {
        assert(u =~= seq![c as u16]);
        assert(u[0] == n);
    } else {
        assert(u[0] == 0xd800 + (n - 0x1_0000) / 0x400);
        assert(u[1] == 0xdc00 + (n - 0x1_0000) % 0x400);
        assert(0x1_0000 + (u[0] - 0xd800) * 0x400 + (u[1] - 0xdc00) == n);
    }
}

/// There are no units for the empty text only, and a zero stands for the character of that number
/// only.
pub proof fn lemma_utf16_units(s: Seq<char>)
    ensures
        utf16(s).len() == 0 <==> s.len() == 0,
        utf16(s).contains(0u16) <==> s.contains('\0'),
    decreases s.len(),
{
    if s.len() > 0 {
        let a = units_of(s[0]);
        let rest = s.drop_first();
        let u = utf16(s);
        lemma_utf16_units(rest);
        lemma_units_of(s[0]);
        assert(u == a + utf16(rest));
        if u.contains(0u16) {
            let k = choose|k: int| 0 <= k < u.len() && u[k] == 0u16;
            if k < a.len() {
                assert(a[k] == 0u16);
            } else {
                assert(utf16(rest)[k - a.len()] == 0u16);
                let j = choose|j: int| 0 <= j < rest.len() && rest[j] == '\0';
                assert(s[j + 1] == '\0');
            }
        }
        if s.contains('\0') {
            let k = choose|k: int| 0 <= k < s.len() && s[k] == '\0';
            if k == 0 {
                let j = choose|j: int| 0 <= j < a.len() && a[j] == 0u16;
                assert(u[j] == 0u16);
            } else {
                assert(rest[k - 1] == '\0');
                let j = choose|j: int| 0 <= j < utf16(rest).len() && utf16(rest)[j] == 0u16;
                assert(u[a.len() + j] == 0u16);
            }
        }
    }
}

/// A text is read back from its UTF-16 encoding.
pub proof fn law_utf16_reads_back(s: Seq<char>)
    ensures
        utf16_text(utf16(s)) == s,
    decreases s.len(),
{
    if s.len() == 0 {
        assert(utf16_text(utf16(s)) =~= s);
    } else {
        let a = units_of(s[0]);
        let rest = utf16(s.drop_first());
        let u = a + rest;
        law_utf16_reads_back(s.drop_first());
        lemma_units_of(s[0]);
        if (s[0] as int) < 0x1_0000 {
            assert(u[0] == a[0]);
            assert(u.skip(1) =~= rest);
        } else {
            assert(u[0] == a[0] && u[1] == a[1]);
            assert(u.skip(2) =~= rest);
        }
        assert(seq![s[0]] + s.drop_first() =~= s);
    }
}

// ---------------------------------------------------------------------------
// Text with a zero behind it
// ---------------------------------------------------------------------------

/// Where the first zero stands; the length where there is none.
pub open spec fn find_zero(u: Seq<u16>) -> int
    decreases u.len(),
{
    if u.len() == 0 || u[0] == 0 {
        0
    } else {
        1 + find_zero(u.drop_first())
    }
}

/// A position that holds a zero with none before it is what `find_zero` returns.
pub proof fn lemma_find_zero(u: Seq<u16>, k: int)
    requires
        0 <= k <= u.len(),
        k < u.len() ==> u[k] == 0,
        forall|i: int| 0 <= i < k ==> #[trigger] u[i] != 0,
    ensures
        find_zero(u) == k,
    decreases u.len(),
{
    if k > 0 {
        assert(u[0] != 0);
        let t = u.drop_first();
        assert forall|i: int| 0 <= i < k - 1 implies #[trigger] t[i] != 0 by {
            assert(t[i] == u[i + 1]);
        }
        lemma_find_zero(t, k - 1);
    }
}

/// A text with a zero behind it.
pub open spec fn wide(s: Seq<char>) -> Seq<u16> {
    utf16(s).push(0)
}

/// The text before the first zero.
pub open spec fn wide_text(u: Seq<u16>) -> Seq<char> {
    utf16_text(u.take(find_zero(u)))
}

/// A text with a zero behind it.
pub fn to_wide(s: &str) -> (r: Vec<u16>)
    ensures
        r@ == wide(s@),
{
    let mut u = encode_utf16(s);
    u.push(0);
    u
}

/// The text before the first zero.
pub fn from_wide(units: &[u16]) -> (r: String)
    ensures
        r@ == wide_text(units@),
{
    let n: usize = units.len();
    let mut end: usize = 0;
    while end < n && units[end] != 0
        invariant
            n == units@.len(),
            end <= n,
            forall|k: int| 0 <= k < end ==> #[trigger] units@[k] != 0,
        decreases n - end,
    {
        end += 1;
    }
    proof {
        lemma_find_zero(units@, end as int);
    }
    let text = vstd::slice::slice_subrange(units, 0, end);
    assert(text@ =~= units@.take(end as int));
    from_utf16_lossy(text)
}

/// A text that holds no zero is read back from what is written of it.
pub proof fn law_wide_text_reads_back(s: Seq<char>)
    requires
        !s.contains('\0'),
    ensures
        wide_text(wide(s)) == s,
{
    let u = utf16(s);
    let w = wide(s);
    lemma_utf16_units(s);
    assert forall|i: int| 0 <= i < u.len() implies #[trigger] w[i] != 0 by {
        assert(u.contains(u[i]));
    }
    lemma_find_zero(w, u.len() as int);
    assert(w.take(u.len() as int) =~= u);
    law_utf16_reads_back(s);
}

// ---------------------------------------------------------------------------
// What the clipboard holds
// ---------------------------------------------------------------------------

/// What is put into the clipboard.
#[derive(Debug)]
pub enum WideData {
    /// Text with a zero behind it.
    Text(Vec<u16>),
    /// A bitmap.
    Bitmap(Vec<u8>),
}

/// What the clipboard holds, from what could be read of it: text comes before a bitmap. `max_size` is
/// the size to which an image is held.
pub fn content_from_wide(text: Option<Vec<u16>>, bitmap: Option<Vec<u8>>, max_size: u32) -> (r: Result<
    ClipboardContent,
    String,
>)
    ensures
        match (text, bitmap) {
            (Some(t), _) => r matches Ok(ClipboardContent::Text(s)) && s@ == wide_text(t@),
            (None, Some(b)) => r == Ok::<ClipboardContent, String>(
                ClipboardContent::Image { data: b, max_size },
            ),
            (None, None) => r matches Err(e) && e@ == "clipboard contains no supported format"@,
        },
{
    match text {
        Some(t) => Ok(ClipboardContent::Text(from_wide(&t))),
        None => match bitmap {
            Some(data) => Ok(ClipboardContent::Image { data, max_size }),
            None => Err("clipboard contains no supported format".to_owned()),
        },
    }
}

/// What is put into the clipboard for a content; the content itself where it is neither text nor an
/// image.
pub fn wide_data(content: ClipboardContent) -> (r: Result<WideData, ClipboardContent>)
    ensures
        match content {
            ClipboardContent::Text(t) => r matches Ok(WideData::Text(u)) && u@ == wide(t@),
            ClipboardContent::Image { data, .. } => r == Ok::<WideData, ClipboardContent>(
                WideData::Bitmap(data),
            ),
            _ => r == Err::<WideData, ClipboardContent>(content),
        },
{
    match content {
        ClipboardContent::Text(t) => Ok(WideData::Text(to_wide(t.as_str()))),
        ClipboardContent::Image { data, max_size: _ } => Ok(WideData::Bitmap(data)),
        other => Err(other),
    }
}

/// A character below U+10000 is one unit, its number; a character above is two: the upper and the lower
/// ten bits of its number less 0x10000.
pub proof fn law_characters_are_one_or_two_units(c: char, s: Seq<char>)
    ensures
        utf16(seq![]) == Seq::<u16>::empty(),
        (c as int) < 0x10000 ==> utf16(seq![c] + s) == seq![c as u16] + utf16(s),
        c as int >= 0x10000 ==> utf16(seq![c] + s) == seq![
            (0xd800 + (c as int - 0x10000) / 1024) as u16,
            (0xdc00 + (c as int - 0x10000) % 1024) as u16,
        ] + utf16(s),
        wide(s) == utf16(s).push(0),
{
    assert((seq![c] + s).drop_first() =~= s);
}

/// A half of a pair that stands alone is shown as U+FFFD, and what stands round it is read as it is.
pub proof fn law_lone_halves_are_marked(u: u16, rest: Seq<u16>)
    requires
        0xd800 <= u <= 0xdfff,
        rest.len() > 0 ==> !(0xdc00 <= rest[0] <= 0xdfff),
    ensures
        utf16_text(seq![u] + rest) == seq!['\u{fffd}'] + utf16_text(rest),
{
    let s = seq![u] + rest;
    assert(s[0] == u);
    assert(s.skip(1) =~= rest);
    if rest.len() > 0 {
        assert(s[1] == rest[0]);
    }
}

} // verus!
