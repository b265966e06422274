//! Fingerprints of lists that do not depend on the order of the list.
//!
//! The items are sorted, fed to the default hasher and written out in hexadecimal. Fingerprints
//! live as long as the process; they are never stored or sent.

use std::collections::hash_map::DefaultHasher;
use std::hash::Hasher;
use vstd::prelude::*;
use vstd::std_specs::hash::DefaultHasherAdditionalSpecFns;

use crate::bytes;
use crate::bytes::digit_of;
use crate::text;
use crate::text::chars_of;

verus! {

/// `a` stands before `b` in the order of strings.
pub open spec fn str_lt(a: Seq<char>, b: Seq<char>) -> bool
    decreases a.len(),
{
    if b.len() == 0 {
        false
    } else if a.len() == 0 {
        true
    } else if a[0] != b[0] {
        a[0] < b[0]
    } else {
        str_lt(a.drop_first(), b.drop_first())
    }
}

proof fn lemma_str_lt_total(a: Seq<char>, b: Seq<char>)
    ensures
        str_lt(a, b) || str_lt(b, a) || a == b,
        !(str_lt(a, b) && str_lt(b, a)),
        a == b ==> !str_lt(a, b),
    decreases a.len(),
{
    if a.len() > 0 && b.len() > 0 && a[0] == b[0] {
        lemma_str_lt_total(a.drop_first(), b.drop_first());
        if a.drop_first() == b.drop_first() {
            assert(a =~= seq![a[0]] + a.drop_first());
            assert(b =~= seq![b[0]] + b.drop_first());
        }
    } else if a.len() == 0 && b.len() == 0 {
        assert(a =~= b);
    }
}

proof fn lemma_str_lt_transitive(a: Seq<char>, b: Seq<char>, c: Seq<char>)
    requires
        str_lt(a, b),
        str_lt(b, c),
    ensures
        str_lt(a, c),
    decreases a.len(),
{
    if a.len() > 0 && b.len() > 0 && c.len() > 0 && a[0] == b[0] && b[0] == c[0] {
        lemma_str_lt_transitive(a.drop_first(), b.drop_first(), c.drop_first());
    }
}

/// Whether `a` stands before `b` in the order of strings.
pub fn str_less(a: &str, b: &str) -> (r: bool)
    ensures
        r == str_lt(a@, b@),
{
    let v = chars_of(a);
    let w = chars_of(b);
    let mut i: usize = 0;
    assert(v@.skip(0) =~= a@);
    assert(w@.skip(0) =~= b@);
    while i < v.len() && i < w.len()
        invariant
            i <= v@.len(),
            i <= w@.len(),
            str_lt(v@.skip(i as int), w@.skip(i as int)) == str_lt(a@, b@),
        decreases v@.len() - i,
    {
        assert(v@.skip(i as int)[0] == v@[i as int]);
        assert(w@.skip(i as int)[0] == w@[i as int]);
        if v[i] != w[i] {
            return v[i] < w[i];
        }
        assert(v@.skip(i as int).drop_first() =~= v@.skip(i + 1));
        assert(w@.skip(i as int).drop_first() =~= w@.skip(i + 1));
        i += 1;
    }
    i < w.len()
}

/// `a` does not stand behind `b`: by the text, then by the number.
pub open spec fn item_le(a: (Seq<char>, u64), b: (Seq<char>, u64)) -> bool {
    str_lt(a.0, b.0) || (a.0 == b.0 && a.1 <= b.1)
}

/// The order of items.
pub open spec fn item_order() -> spec_fn((Seq<char>, u64), (Seq<char>, u64)) -> bool {
    |a: (Seq<char>, u64), b: (Seq<char>, u64)| item_le(a, b)
}

/// The order of items is total.
pub proof fn lemma_item_order_total()
    ensures
        vstd::relations::total_ordering(item_order()),
{
    let le = item_order();
    assert forall|x: (Seq<char>, u64), y: (Seq<char>, u64)|
        #[trigger] le(x, y) && #[trigger] le(y, x) implies x == y by {
        lemma_str_lt_total(x.0, y.0);
    }
    assert forall|x: (Seq<char>, u64), y: (Seq<char>, u64)|
        #[trigger] le(x, y) || #[trigger] le(y, x) by {
        lemma_str_lt_total(x.0, y.0);
    }
    assert forall|x: (Seq<char>, u64), y: (Seq<char>, u64), z: (Seq<char>, u64)|
        #[trigger] le(x, y) && #[trigger] le(y, z) implies le(x, z) by {
        if str_lt(x.0, y.0) && str_lt(y.0, z.0) {
            lemma_str_lt_transitive(x.0, y.0, z.0);
        }
    }
}

/// The items, sorted.
pub open spec fn sorted_items(items: Seq<(Seq<char>, u64)>) -> Seq<(Seq<char>, u64)> {
    items.sort_by(item_order())
}

/// Sorting forgets the order: two lists with the same items, each as often, are sorted alike.
pub proof fn law_sorting_forgets_order(a: Seq<(Seq<char>, u64)>, b: Seq<(Seq<char>, u64)>)
    requires
        a.to_multiset() == b.to_multiset(),
    ensures
        sorted_items(a) == sorted_items(b),
{
    lemma_item_order_total();
    a.lemma_sort_by_ensures(item_order());
    b.lemma_sort_by_ensures(item_order());
    vstd::seq_lib::lemma_sorted_unique(sorted_items(a), sorted_items(b), item_order());
}

/// The views of a list of items.
pub open spec fn item_views(v: Seq<(String, u64)>) -> Seq<(Seq<char>, u64)> {
    Seq::new(v.len(), |i: int| (v[i].0@, v[i].1))
}

proof fn lemma_insert_sorted(s: Seq<(Seq<char>, u64)>, at: int, x: (Seq<char>, u64))
    requires
        vstd::relations::sorted_by(s, item_order()),
        0 <= at <= s.len(),
        forall|i: int| 0 <= i < at ==> item_le(#[trigger] s[i], x),
        forall|i: int| at <= i < s.len() ==> item_le(x, #[trigger] s[i]),
    ensures
        vstd::relations::sorted_by(s.insert(at, x), item_order()),
{
    let t = s.insert(at, x);
    let le = item_order();
    assert forall|i: int, j: int| 0 <= i < j < t.len() implies #[trigger] le(t[i], t[j]) by {
        if j < at {
            assert(le(s[i], s[j]));
        } else if j == at {
            assert(item_le(s[i], x));
        } else if i < at {
            assert(le(s[i], s[j - 1]));
        } else if i == at {
            assert(item_le(x, s[j - 1]));
        } else {
            assert(le(s[i - 1], s[j - 1]));
        }
    }
}

/// Whether `a` does not stand behind `b`.
fn item_not_after(a: &(String, u64), b: &(String, u64)) -> (r: bool)
    ensures
        r == item_le((a.0@, a.1), (b.0@, b.1)),
{
    str_less(a.0.as_str(), b.0.as_str()) || (text::same(a.0.as_str(), b.0.as_str()) && a.1 <= b.1)
}

/// The items, sorted.
pub fn sort_items(items: Vec<(String, u64)>) -> (r: Vec<(String, u64)>)
    ensures
        item_views(r@) == sorted_items(item_views(items@)),
{
    let mut out: Vec<(String, u64)> = Vec::new();
    let mut i: usize = 0;
    let ghost all = item_views(items@);
    proof {
        assert(item_views(out@) =~= all.take(0));
        lemma_item_order_total();
    }
    while i < items.len()
        invariant
            i <= items@.len(),
            all == item_views(items@),
            vstd::relations::total_ordering(item_order()),
            vstd::relations::sorted_by(item_views(out@), item_order()),
            item_views(out@).to_multiset() == all.take(i as int).to_multiset(),
        decreases items@.len() - i,
    {
        let x = (items[i].0.clone(), items[i].1);
        let ghost xv = (x.0@, x.1);
        let ghost s = item_views(out@);
        let mut at: usize = out.len();
        while at > 0 && !item_not_after(&out[at - 1], &x)
            invariant
                at <= out@.len(),
                s == item_views(out@),
                xv == (x.0@, x.1),
                vstd::relations::total_ordering(item_order()),
                vstd::relations::sorted_by(s, item_order()),
                forall|k: int| at <= k < s.len() ==> item_le(xv, #[trigger] s[k]),
            decreases at,
        {
            proof {
                let f = item_order();
                assert(f(s[at - 1], xv) || f(xv, s[at - 1]));
                assert forall|k: int| at - 1 <= k < s.len() implies item_le(xv, #[trigger] s[k]) by {}
            }
            at -= 1;
        }
        proof {
            let f = item_order();
            assert forall|k: int| 0 <= k < at implies item_le(#[trigger] s[k], xv) by {
                if k < at - 1 {
                    assert(f(s[k], s[at - 1]));
                    assert(f(s[at - 1], xv));
                    assert(f(s[k], xv));
                }
            }
            lemma_insert_sorted(s, at as int, xv);
            vstd::seq_lib::to_multiset_insert(s, at as int, xv);
            vstd::seq_lib::to_multiset_build(all.take(i as int), xv);
            assert(all.take(i + 1) =~= all.take(i as int).push(xv));
        }
        out.insert(at, x);
        assert(item_views(out@) =~= s.insert(at as int, xv));
        i += 1;
    }
    proof {
        assert(all.take(i as int) =~= all);
        all.lemma_sort_by_ensures(item_order());
        vstd::seq_lib::lemma_sorted_unique(item_views(out@), sorted_items(all), item_order());
    }
    out
}

/// What the hasher is fed with: the number of items, then each text, closed by a byte that no text
/// holds, and, where `numbers` says so, its number.
pub open spec fn writes(items: Seq<(Seq<char>, u64)>, n: nat, numbers: bool) -> Seq<Seq<u8>>
    decreases n,
{
    if n == 0 {
        seq![vstd::bytes::spec_u64_to_le_bytes(items.len() as u64)]
    } else {
        let w = writes(items, (n - 1) as nat, numbers).push(text::utf8(items[n - 1].0)).push(
            seq![0xffu8],
        );
        if numbers {
            w.push(vstd::bytes::spec_u64_to_le_bytes(items[n - 1].1))
        } else {
            w
        }
    }
}

/// The lower-case hexadecimal numeral of `n`, without leading zeros.
pub open spec fn hex_numeral(n: nat) -> Seq<char>
    decreases n,
{
    if n < 16 {
        seq![bytes::hex_digit(n)]
    } else {
        hex_numeral(n / 16).push(bytes::hex_digit(n % 16))
    }
}

/// The lower-case hexadecimal numeral of `n`, without leading zeros.
pub fn to_hex_numeral(n: u64) -> (r: String)
    ensures
        r@ == hex_numeral(n as nat),
    decreases n,
{
    let mut r = if n < 16 {
        String::new()
    } else {
        to_hex_numeral(n / 16)
    };
    r.push(digit_of((n % 16) as u8));
    r
}

/// The fingerprint of a list of items.
pub open spec fn fingerprint(items: Seq<(Seq<char>, u64)>, numbers: bool) -> Seq<char> {
    let s = sorted_items(items);
    hex_numeral(DefaultHasher::spec_finish(writes(s, s.len(), numbers)) as nat)
}

/// The fingerprint of a list of items: of the texts and, where `numbers` says so, the numbers.
pub fn fingerprint_of(items: Vec<(String, u64)>, numbers: bool) -> (r: String)
    ensures
        r@ == fingerprint(item_views(items@), numbers),
{
    let v = sort_items(items);
    let ghost s = item_views(v@);
    let mut h = DefaultHasher::new();
    let n: usize = v.len();
    h.write(&vstd::bytes::u64_to_le_bytes(n as u64));
    assert(h@ =~= writes(s, 0, numbers));
    let mut i: usize = 0;
    while i < n
        invariant
            i <= n,
            n == v@.len(),
            s == item_views(v@),
            h@ == writes(s, i as nat, numbers),
        decreases n - i,
    {
        h.write(v[i].0.as_str().as_bytes());
        let mut end: Vec<u8> = Vec::new();
        end.push(0xff);
        assert(end@ =~= seq![0xffu8]);
        h.write(&end);
        if numbers {
            h.write(&vstd::bytes::u64_to_le_bytes(v[i].1));
        }
        i += 1;
    }
    to_hex_numeral(h.finish())
}

/// A fingerprint depends on which items there are and how often, not on their order.
pub proof fn law_fingerprint_ignores_order(
    a: Seq<(Seq<char>, u64)>,
    b: Seq<(Seq<char>, u64)>,
    numbers: bool,
)
    requires
        a.to_multiset() == b.to_multiset(),
    ensures
        fingerprint(a, numbers) == fingerprint(b, numbers),
{
    law_sorting_forgets_order(a, b);
}

proof fn lemma_hex_numeral_injective(a: nat, b: nat)
    requires
        hex_numeral(a) == hex_numeral(b),
    ensures
        a == b,
    decreases a,
{
    let x = hex_numeral(a);
    let y = hex_numeral(b);
    assert(x.last() == bytes::hex_digit(a % 16));
    assert(y.last() == bytes::hex_digit(b % 16));
    if a >= 16 && b >= 16 {
        assert(x.drop_last() =~= hex_numeral(a / 16));
        assert(y.drop_last() =~= hex_numeral(b / 16));
        lemma_hex_numeral_injective(a / 16, b / 16);
    } else if a >= 16 {
        lemma_hex_numeral_len(a / 16);
    } else if b >= 16 {
        lemma_hex_numeral_len(b / 16);
    }
}

proof fn lemma_hex_numeral_len(a: nat)
    ensures
        hex_numeral(a).len() > 0,
    decreases a,
{
    if a >= 16 {
        lemma_hex_numeral_len(a / 16);
    }
}

proof fn lemma_writes_len(s: Seq<(Seq<char>, u64)>, n: nat, numbers: bool)
    requires
        n <= s.len(),
    ensures
        writes(s, n, numbers).len() == 1 + n * if numbers {
            3int
        } else {
            2
        },
    decreases n,
{
    if n > 0 {
        lemma_writes_len(s, (n - 1) as nat, numbers);
    }
}

proof fn lemma_writes_injective(
    s: Seq<(Seq<char>, u64)>,
    t: Seq<(Seq<char>, u64)>,
    n: nat,
    numbers: bool,
)
    requires
        n <= s.len(),
        n <= t.len(),
        writes(s, n, numbers) == writes(t, n, numbers),
    ensures
        forall|i: int| 0 <= i < n ==> (#[trigger] s[i]).0 == t[i].0,
        numbers ==> forall|i: int| 0 <= i < n ==> (#[trigger] s[i]).1 == t[i].1,
    decreases n,
{
    if n > 0 {
        let m = (n - 1) as nat;
        let a = writes(s, m, numbers);
        let b = writes(t, m, numbers);
        lemma_writes_len(s, m, numbers);
        lemma_writes_len(t, m, numbers);
        let l = a.len() as int;
        let x = writes(s, n, numbers);
        let y = writes(t, n, numbers);
        assert(a =~= x.take(l));
        assert(b =~= y.take(l));
        lemma_writes_injective(s, t, m, numbers);
        assert(x[l] == text::utf8(s[m as int].0));
        assert(y[l] == text::utf8(t[m as int].0));
        text::lemma_utf8_injective(s[m as int].0, t[m as int].0);
        if numbers {
            vstd::bytes::lemma_auto_spec_u64_to_from_le_bytes();
            assert(x[l + 2] == vstd::bytes::spec_u64_to_le_bytes(s[m as int].1));
            assert(y[l + 2] == vstd::bytes::spec_u64_to_le_bytes(t[m as int].1));
        }
    }
}

/// All that the hasher is fed with for a list.
pub open spec fn fed(items: Seq<(Seq<char>, u64)>, numbers: bool) -> Seq<Seq<u8>> {
    writes(sorted_items(items), items.len(), numbers)
}

/// The hasher tells what it is fed with for `a` from what it is fed with for `b`.
pub open spec fn hasher_tells_apart(
    a: Seq<(Seq<char>, u64)>,
    b: Seq<(Seq<char>, u64)>,
    numbers: bool,
) -> bool {
    DefaultHasher::spec_finish(fed(a, numbers)) == DefaultHasher::spec_finish(fed(b, numbers)) ==> fed(
        a,
        numbers,
    ) == fed(b, numbers)
}

/// Lists with the same fingerprint hold the same items, each as often, unless the hasher gives one
/// number for two different inputs. Where the numbers do not count, they are 0.
#[verifier::rlimit(30)]
pub proof fn law_fingerprints_tell_lists_apart(
    a: Seq<(Seq<char>, u64)>,
    b: Seq<(Seq<char>, u64)>,
    numbers: bool,
)
    requires
        fingerprint(a, numbers) == fingerprint(b, numbers),
        hasher_tells_apart(a, b, numbers),
        numbers || forall|i: int| 0 <= i < a.len() ==> (#[trigger] a[i]).1 == 0,
        numbers || forall|i: int| 0 <= i < b.len() ==> (#[trigger] b[i]).1 == 0,
    ensures
        a.to_multiset() == b.to_multiset(),
{
    let s = sorted_items(a);
    let t = sorted_items(b);
    lemma_item_order_total();
    a.lemma_sort_by_ensures(item_order());
    b.lemma_sort_by_ensures(item_order());
    lemma_same_len(a, s);
    lemma_same_len(b, t);
    lemma_hex_numeral_injective(
        DefaultHasher::spec_finish(fed(a, numbers)) as nat,
        DefaultHasher::spec_finish(fed(b, numbers)) as nat,
    );
    lemma_writes_len(s, s.len(), numbers);
    lemma_writes_len(t, t.len(), numbers);
    lemma_writes_injective(s, t, s.len(), numbers);
    if !numbers {
        lemma_zeros(a, s);
        lemma_zeros(b, t);
    }
    assert forall|i: int| 0 <= i < s.len() implies s[i] == t[i] by {
        assert(s[i].0 == t[i].0);
    }
    assert(s =~= t);
}

proof fn lemma_same_len(a: Seq<(Seq<char>, u64)>, s: Seq<(Seq<char>, u64)>)
    requires
        a.to_multiset() == s.to_multiset(),
    ensures
        a.len() == s.len(),
{
    vstd::seq_lib::to_multiset_len(a);
    vstd::seq_lib::to_multiset_len(s);
}

proof fn lemma_zeros(a: Seq<(Seq<char>, u64)>, s: Seq<(Seq<char>, u64)>)
    requires
        a.to_multiset() == s.to_multiset(),
        forall|i: int| 0 <= i < a.len() ==> (#[trigger] a[i]).1 == 0,
    ensures
        forall|i: int| 0 <= i < s.len() ==> (#[trigger] s[i]).1 == 0,
{
    assert forall|i: int| 0 <= i < s.len() implies (#[trigger] s[i]).1 == 0 by {
        vstd::seq_lib::to_multiset_contains(s, s[i]);
        vstd::seq_lib::to_multiset_contains(a, s[i]);
        assert(s.contains(s[i]));
        let k = choose|k: int| 0 <= k < a.len() && a[k] == s[i];
        assert(a[k].1 == 0);
    }
}

/// Items are seen as their text and number, item by item.
pub proof fn law_items_are_seen_whole(v: Seq<(String, u64)>, i: int)
    requires
        0 <= i < v.len(),
    ensures
        item_views(v).len() == v.len(),
        item_views(v)[i].0 == v[i].0@,
        item_views(v)[i].1 == v[i].1,
{
}

} // verus!
