//! The machine's own identifier, from what the system reports.

use vstd::prelude::*;

use crate::text;
use crate::text::{chars_of, split_on, string_of_range, trim, white};

verus! {

/// The identifier in the output of `ioreg` on macOS: the text between the third and the fourth
/// quotation mark, trimmed. Empty where there is none.
pub open spec fn macos_id_spec(output: Seq<char>) -> Seq<char> {
    let parts = text::split(output, '"');
    if parts.len() >= 4 {
        text::trimmed(parts[3])
    } else {
        seq![]
    }
}

/// The identifier in the output of `ioreg`, as in `"IOPlatformUUID" = "XXXX"`.
pub fn macos_hardware_id(output: &str) -> (r: String)
    ensures
        r@ == macos_id_spec(output@),
{
    let parts = split_on(output, '"');
    assert(text::views(parts@).len() == parts@.len());
    if parts.len() >= 4 {
        assert(text::views(parts@)[3] == parts@[3]@);
        trim(parts[3].as_str())
    } else {
        String::new()
    }
}

/// Where the last white space of `s` stands; `-1` where there is none.
pub open spec fn last_white(s: Seq<char>) -> int
    decreases s.len(),
{
    if s.len() == 0 {
        -1
    } else if text::is_white(s.last()) {
        s.len() - 1
    } else {
        last_white(s.drop_last())
    }
}

/// The last word of `s`; empty where `s` is blank.
pub open spec fn last_word(s: Seq<char>) -> Seq<char> {
    let t = text::trim_end_spec(s);
    t.skip(last_white(t) + 1)
}

/// The identifier in the output of `reg query` on Windows: its last word.
pub fn windows_hardware_id(output: &str) -> (r: String)
    ensures
        r@ == last_word(output@),
{
    let v = chars_of(output);
    let mut to: usize = v.len();
    assert(v@.take(to as int) =~= output@);
    while to > 0 && white(v[to - 1])
        invariant
            to <= v@.len(),
            text::trim_end_spec(v@.take(to as int)) == text::trim_end_spec(output@),
        decreases to,
    {
        assert(v@.take(to as int).drop_last() =~= v@.take(to - 1));
        to -= 1;
    }
    let ghost t = v@.take(to as int);
    assert(t == text::trim_end_spec(output@));
    let mut from: usize = to;
    assert(t.take(from as int) =~= t);
    while from > 0 && !white(v[from - 1])
        invariant
            from <= to <= v@.len(),
            t == v@.take(to as int),
            last_white(t.take(from as int)) == last_white(t),
        decreases from,
    {
        assert(t.take(from as int).drop_last() =~= t.take(from - 1));
        from -= 1;
    }
    assert(last_white(t.take(from as int)) == from - 1);
    let r = string_of_range(&v, from, to);
    assert(r@ =~= t.skip(from as int));
    r
}

/// The identifier in `/etc/machine-id` on Linux: its text, trimmed.
pub fn linux_hardware_id(contents: &str) -> (r: String)
    ensures
        r@ == text::trimmed(contents@),
{
    trim(contents)
}

/// The identifier of a machine is the last word of what Windows says of it, and the text between the
/// third and the fourth quotation mark of what macOS says of it.
#[verifier::rlimit(30)]
pub proof fn law_identifiers_are_read_from_what_the_system_says(
    before: Seq<char>,
    id: Seq<char>,
    a: Seq<char>,
    b: Seq<char>,
    c: Seq<char>,
    rest: Seq<char>,
)
    requires
        id.len() > 0,
        forall|i: int| 0 <= i < id.len() ==> !text::is_white(#[trigger] id[i]) && id[i] != '"',
        !a.contains('"'),
        !b.contains('"'),
        !c.contains('"'),
        !rest.contains('"'),
    ensures
        last_word(before.push(' ') + id) == id,
        last_word(id) == id,
        macos_id_spec(a.push('"') + b.push('"') + c.push('"') + id.push('"') + rest) == id,
{
    let s = before.push(' ') + id;
    let n = before.len() as int + 1;
    assert(!text::is_white(id[id.len() - 1]));
    assert(s.last() == id.last());
    assert(text::trim_end_spec(s) == s);
    assert(text::trim_end_spec(id) == id);
    assert forall|k: int| n <= k < s.len() implies !text::is_white(#[trigger] s[k]) by {
        assert(s[k] == id[k - n]);
    }
    assert(s[n - 1] == ' ');
    lemma_last_white_at(s, n - 1);
    assert(s.skip(n) =~= id);
    lemma_last_white_at(id, -1);
    assert(id.skip(0) =~= id);
    let parts = seq![a, b, c, id, rest];
    let o = a.push('"') + b.push('"') + c.push('"') + id.push('"') + rest;
    assert(!id.contains('"'));
    let q = seq!['"'];
    assert(parts.drop_last() =~= seq![a, b, c, id]);
    assert(seq![a, b, c, id].drop_last() =~= seq![a, b, c]);
    assert(seq![a, b, c].drop_last() =~= seq![a, b]);
    assert(seq![a, b].drop_last() =~= seq![a]);
    reveal_with_fuel(text::joined, 6);
    assert(text::joined(parts, q) =~= o);
    text::law_joining_is_undone_by_splitting(parts, '"');
    text::lemma_trimmed_fixed(id);
}

proof fn lemma_last_white_at(s: Seq<char>, k: int)
    requires
        -1 <= k < s.len(),
        k >= 0 ==> text::is_white(s[k]),
        forall|i: int| k < i < s.len() ==> !text::is_white(#[trigger] s[i]),
    ensures
        last_white(s) == k,
    decreases s.len(),
{
    if s.len() > 0 && k < s.len() - 1 {
        let t = s.drop_last();
        assert(!text::is_white(s[s.len() - 1]));
        assert forall|i: int| k < i < t.len() implies !text::is_white(#[trigger] t[i]) by {
            assert(t[i] == s[i]);
        }
        lemma_last_white_at(t, k);
    }
}

} // verus!
