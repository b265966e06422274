//! Which of two versions is newer.

use vstd::prelude::*;

use crate::text;
use crate::text::{chars_of, find_from, parse_dec, same, split_on, string_of_range, trim};

verus! {

/// The version without what stands behind the first `-` or `+`, trimmed.
pub open spec fn core_of(v: Seq<char>) -> Seq<char> {
    let a = text::find(v, '-');
    let b = text::find(v, '+');
    text::trimmed(
        v.take(
            if a < b {
                a
            } else {
                b
            },
        ),
    )
}

/// The numbers in `p`; `None` where one of them is none.
pub open spec fn numbers(p: Seq<Seq<char>>) -> Option<Seq<nat>>
    decreases p.len(),
{
    if p.len() == 0 {
        Some(seq![])
    } else {
        let init = numbers(p.drop_last());
        let last = text::parse_dec_spec(text::trimmed(p.last()), u64::MAX as nat);
        if init is Some && last is Some {
            Some(init->0.push(last->0))
        } else {
            None
        }
    }
}

/// The numbers of a version, as in `1.2.3`; `None` where it is no such version.
pub open spec fn version_parts(v: Seq<char>) -> Option<Seq<nat>> {
    numbers(text::split(core_of(v), '.'))
}

/// The number at a position; 0 behind the last one.
pub open spec fn part(a: Seq<nat>, i: int) -> nat {
    if 0 <= i < a.len() {
        a[i]
    } else {
        0
    }
}

/// `a` is above `b`: at the first position where they differ.
pub open spec fn above(a: Seq<nat>, b: Seq<nat>) -> bool {
    exists|i: int|
        0 <= i && #[trigger] part(a, i) > part(b, i) && forall|j: int|
            0 <= j < i ==> #[trigger] part(a, j) == part(b, j)
}

/// `candidate` is newer than `current`. Where one of them is no version, any other text is newer.
pub open spec fn newer(candidate: Seq<char>, current: Seq<char>) -> bool {
    let a = version_parts(candidate);
    let b = version_parts(current);
    if a is Some && b is Some {
        above(a->0, b->0)
    } else {
        candidate != current
    }
}

/// The numbers as they are held.
pub open spec fn as_nats(v: Seq<u64>) -> Seq<nat> {
    Seq::new(v.len(), |i: int| v[i] as nat)
}

proof fn lemma_numbers_none(p: Seq<Seq<char>>, i: int)
    requires
        0 <= i < p.len(),
        text::parse_dec_spec(text::trimmed(p[i]), u64::MAX as nat) is None,
    ensures
        numbers(p) is None,
    decreases p.len(),
{
    if i < p.len() - 1 {
        lemma_numbers_none(p.drop_last(), i);
    }
}

fn parse_version(v: &str) -> (r: Option<Vec<u64>>)
    ensures
        match r {
            Some(n) => version_parts(v@) == Some(as_nats(n@)),
            None => version_parts(v@) is None,
        },
{
    let chars = chars_of(v);
    proof {
        text::lemma_find(v@, '-');
        text::lemma_find(v@, '+');
    }
    let a: usize = find_from(&chars, 0, '-');
    let b: usize = find_from(&chars, 0, '+');
    assert(v@.skip(0) =~= v@);
    let end: usize = if a < b {
        a
    } else {
        b
    };
    let head = string_of_range(&chars, 0, end);
    assert(head@ =~= v@.take(end as int));
    let core = trim(head.as_str());
    let pieces = split_on(core.as_str(), '.');
    let ghost all = text::views(pieces@);
    let mut out: Vec<u64> = Vec::new();
    let mut i: usize = 0;
    assert(as_nats(out@) =~= numbers(all.take(0))->0);
    while i < pieces.len()
        invariant
            i <= pieces@.len(),
            all == text::views(pieces@),
            all == text::split(core_of(v@), '.'),
            numbers(all.take(i as int)) == Some(as_nats(out@)),
        decreases pieces@.len() - i,
    {
        assert(all.take(i + 1).drop_last() =~= all.take(i as int));
        assert(all.take(i + 1).last() == pieces@[i as int]@);
        match parse_dec(trim(pieces[i].as_str()).as_str(), u64::MAX) {
            Some(n) => {
                let ghost before = as_nats(out@);
                out.push(n);
                assert(as_nats(out@) =~= before.push(n as nat));
            },
            None => {
                proof {
                    lemma_numbers_none(all, i as int);
                }
                return None;
            },
        }
        i += 1;
    }
    assert(all.take(i as int) =~= all);
    Some(out)
}

/// Whether the version of a manifest is newer than the current one: by its numbers, from the first;
/// one that is missing counts as 0. Where one of the two is no version, any difference counts.
pub fn is_newer(manifest_version: &str, current: &str) -> (r: bool)
    ensures
        r == newer(manifest_version@, current@),
{
    match (parse_version(manifest_version), parse_version(current)) {
        (Some(a), Some(b)) => {
            let ghost p = as_nats(a@);
            let ghost q = as_nats(b@);
            let n: usize = if a.len() > b.len() {
                a.len()
            } else {
                b.len()
            };
            let mut i: usize = 0;
            while i < n
                invariant
                    p == as_nats(a@),
                    q == as_nats(b@),
                    version_parts(manifest_version@) == Some(p),
                    version_parts(current@) == Some(q),
                    i <= n,
                    forall|j: int| 0 <= j < i ==> #[trigger] part(p, j) == part(q, j),
                decreases n - i,
            {
                let x: u64 = if i < a.len() {
                    a[i]
                } else {
                    0
                };
                let y: u64 = if i < b.len() {
                    b[i]
                } else {
                    0
                };
                assert(x == part(p, i as int));
                assert(y == part(q, i as int));
                if x != y {
                    proof {
                        if above(p, q) {
                            let k = choose|k: int|
                                0 <= k && #[trigger] part(p, k) > part(q, k) && forall|j: int|
                                    0 <= j < k ==> #[trigger] part(p, j) == part(q, j);
                            assert(k == i) by {
                                if k < i {
                                    assert(part(p, k) == part(q, k));
                                }
                                if k > i {
                                    assert(part(p, i as int) == part(q, i as int));
                                }
                            }
                        }
                    }
                    return x > y;
                }
                i += 1;
            }
            proof {
                if above(p, q) {
                    let k = choose|k: int|
                        0 <= k && #[trigger] part(p, k) > part(q, k) && forall|j: int|
                            0 <= j < k ==> #[trigger] part(p, j) == part(q, j);
                    assert(k < n);
                    assert(part(p, k) == part(q, k));
                }
            }
            false
        },
        _ => !same(manifest_version, current),
    }
}

/// No version is newer than itself.
pub proof fn law_no_version_is_newer_than_itself(v: Seq<char>)
    ensures
        !newer(v, v),
{
}

/// Of two versions at most one is newer than the other.
pub proof fn law_only_one_is_newer(a: Seq<char>, b: Seq<char>)
    requires
        version_parts(a) is Some,
        version_parts(b) is Some,
        newer(a, b),
    ensures
        !newer(b, a),
{
    let p = version_parts(a)->0;
    let q = version_parts(b)->0;
    if above(q, p) {
        let i = choose|i: int|
            0 <= i && #[trigger] part(p, i) > part(q, i) && forall|j: int|
                0 <= j < i ==> #[trigger] part(p, j) == part(q, j);
        let k = choose|k: int|
            0 <= k && #[trigger] part(q, k) > part(p, k) && forall|j: int|
                0 <= j < k ==> #[trigger] part(q, j) == part(p, j);
        if i < k {
            assert(part(q, i) == part(p, i));
        } else if k < i {
            assert(part(p, k) == part(q, k));
        }
    }
}

/// What is newer than a newer version is newer.
pub proof fn law_newer_is_transitive(a: Seq<char>, b: Seq<char>, c: Seq<char>)
    requires
        version_parts(a) is Some,
        version_parts(b) is Some,
        version_parts(c) is Some,
        newer(a, b),
        newer(b, c),
    ensures
        newer(a, c),
{
    let p = version_parts(a)->0;
    let q = version_parts(b)->0;
    let r = version_parts(c)->0;
    let i = choose|i: int|
        0 <= i && #[trigger] part(p, i) > part(q, i) && forall|j: int|
            0 <= j < i ==> #[trigger] part(p, j) == part(q, j);
    let k = choose|k: int|
        0 <= k && #[trigger] part(q, k) > part(r, k) && forall|j: int|
            0 <= j < k ==> #[trigger] part(q, j) == part(r, j);
    let m = if i < k {
        i
    } else {
        k
    };
    assert forall|j: int| 0 <= j < m implies #[trigger] part(p, j) == part(r, j) by {
        assert(part(q, j) == part(r, j));
    }
    if i < k {
        assert(part(q, i) == part(r, i));
    } else if k < i {
        assert(part(p, k) == part(q, k));
    }
    assert(part(p, m) > part(r, m));
}

/// The text of a version: its numbers with dots between them.
pub open spec fn version_text(ns: Seq<nat>) -> Seq<char> {
    text::joined(ns.map_values(|n: nat| text::dec(n)), seq!['.'])
}

proof fn lemma_digits(n: nat)
    ensures
        text::dec(n).len() > 0,
        forall|i: int| 0 <= i < text::dec(n).len() ==> '0' <= #[trigger] text::dec(n)[i] <= '9',
{
    text::lemma_dec_round_trip(n);
    assert forall|i: int| 0 <= i < text::dec(n).len() implies '0' <= #[trigger] text::dec(n)[i] <= '9' by {
        assert(text::is_digit(text::dec(n)[i]));
    }
}

proof fn lemma_version_text(ns: Seq<nat>)
    requires
        ns.len() > 0,
    ensures
        version_text(ns).len() > 0,
        '0' <= version_text(ns)[0] <= '9',
        '0' <= version_text(ns).last() <= '9',
        forall|i: int|
            0 <= i < version_text(ns).len() ==> '0' <= #[trigger] version_text(ns)[i] <= '9'
                || version_text(ns)[i] == '.',
    decreases ns.len(),
{
    let d = |n: nat| text::dec(n);
    let p = ns.map_values(d);
    lemma_digits(ns.last());
    let l = text::dec(ns.last());
    assert(p.last() == l);
    if ns.len() == 1 {
        assert(version_text(ns) == p[0]);
    } else {
        let t = ns.drop_last();
        lemma_version_text(t);
        assert(p.drop_last() =~= t.map_values(d));
        let s = version_text(t);
        let v = version_text(ns);
        assert(v =~= s + seq!['.'] + l);
        assert(v[0] == s[0]);
        assert forall|i: int| 0 <= i < v.len() implies '0' <= #[trigger] v[i] <= '9' || v[i] == '.' by {
            if i < s.len() {
                assert(v[i] == s[i]);
            } else if i > s.len() {
                assert(v[i] == l[i - s.len() - 1]);
            }
        }
    }
}

proof fn lemma_numbers(ns: Seq<nat>)
    requires
        forall|i: int| 0 <= i < ns.len() ==> #[trigger] ns[i] <= u64::MAX,
    ensures
        numbers(ns.map_values(|n: nat| text::dec(n))) == Some(ns),
    decreases ns.len(),
{
    let d = |n: nat| text::dec(n);
    let p = ns.map_values(d);
    if ns.len() == 0 {
        assert(p =~= Seq::<Seq<char>>::empty());
        assert(ns =~= Seq::<nat>::empty());
    } else {
        let t = ns.drop_last();
        assert forall|i: int| 0 <= i < t.len() implies #[trigger] t[i] <= u64::MAX by {
            assert(t[i] == ns[i]);
        }
        lemma_numbers(t);
        assert(p.drop_last() =~= t.map_values(d));
        let l = text::dec(ns.last());
        assert(p.last() == l);
        lemma_digits(ns.last());
        assert('0' <= l[0] <= '9' && '0' <= l[l.len() - 1] <= '9');
        text::lemma_trimmed_fixed(l);
        text::lemma_dec_round_trip(ns.last());
        assert(ns[ns.len() - 1] <= u64::MAX);
        assert(t.push(ns.last()) =~= ns);
    }
}

/// A version is read as its numbers; what stands behind a `-` or a `+` does not count.
#[verifier::rlimit(30)]
pub proof fn law_versions_are_read_as_their_numbers(ns: Seq<nat>, sign: char, rest: Seq<char>)
    requires
        ns.len() > 0,
        forall|i: int| 0 <= i < ns.len() ==> #[trigger] ns[i] <= u64::MAX,
        sign == '-' || sign == '+',
    ensures
        version_parts(version_text(ns)) == Some(ns),
        version_parts(version_text(ns).push(sign) + rest) == Some(ns),
{
    let v = version_text(ns);
    lemma_version_text(ns);
    assert forall|i: int| 0 <= i < v.len() implies v[i] != '-' && v[i] != '+' by {
        assert('0' <= v[i] <= '9' || v[i] == '.');
    }
    text::lemma_find_is(v, '-', v.len() as int);
    text::lemma_find_is(v, '+', v.len() as int);
    assert(v.take(v.len() as int) =~= v);
    text::lemma_trimmed_fixed(v);
    let w = v.push(sign) + rest;
    assert forall|i: int| 0 <= i < v.len() implies w[i] != '-' && w[i] != '+' by {
        assert(w[i] == v[i]);
        assert('0' <= v[i] <= '9' || v[i] == '.');
    }
    text::lemma_find(w, '-');
    text::lemma_find(w, '+');
    text::lemma_find_is(w, sign, v.len() as int);
    let other = if sign == '-' {
        '+'
    } else {
        '-'
    };
    assert(text::find(w, other) >= v.len()) by {
        if text::find(w, other) < v.len() {
            assert(w[text::find(w, other)] == other);
        }
    }
    assert(w.take(v.len() as int) =~= v);
    let p = ns.map_values(|n: nat| text::dec(n));
    assert forall|i: int| 0 <= i < p.len() implies !(#[trigger] p[i]).contains('.') by {
        lemma_digits(ns[i]);
        if p[i].contains('.') {
            let k = choose|k: int| 0 <= k < p[i].len() && p[i][k] == '.';
            assert('0' <= text::dec(ns[i])[k] <= '9');
        }
    }
    text::law_joining_is_undone_by_splitting(p, '.');
    lemma_numbers(ns);
}

/// Of two versions with as many numbers that one is newer which has the greater number where they first
/// differ; a missing number counts as 0.
#[verifier::rlimit(30)]
pub proof fn law_versions_are_compared_by_their_numbers(a: Seq<nat>, b: Seq<nat>)
    requires
        a.len() > 0,
        a.len() == b.len(),
        forall|i: int| 0 <= i < a.len() ==> #[trigger] a[i] <= u64::MAX,
        forall|i: int| 0 <= i < b.len() ==> #[trigger] b[i] <= u64::MAX,
    ensures
        newer(version_text(a), version_text(b)) <==> exists|i: int|
            0 <= i < a.len() && #[trigger] a[i] > b[i] && forall|j: int|
                0 <= j < i ==> #[trigger] a[j] == b[j],
        !newer(version_text(a.push(0)), version_text(a)),
        !newer(version_text(a), version_text(a.push(0))),
        newer(version_text(a.push(1)), version_text(a)),
{
    law_versions_are_read_as_their_numbers(a, '-', seq![]);
    law_versions_are_read_as_their_numbers(b, '-', seq![]);
    let z = a.push(0);
    let o = a.push(1);
    assert forall|i: int| 0 <= i < z.len() implies #[trigger] z[i] <= u64::MAX by {
        if i < a.len() {
            assert(z[i] == a[i]);
        }
    }
    assert forall|i: int| 0 <= i < o.len() implies #[trigger] o[i] <= u64::MAX by {
        if i < a.len() {
            assert(o[i] == a[i]);
        }
    }
    law_versions_are_read_as_their_numbers(z, '-', seq![]);
    law_versions_are_read_as_their_numbers(o, '-', seq![]);
    assert forall|i: int| 0 <= i implies part(z, i) == part(a, i) by {}
    let n = a.len() as int;
    assert(part(o, n) > part(a, n));
    assert forall|j: int| 0 <= j < n implies #[trigger] part(o, j) == part(a, j) by {}
    if above(a, b) {
        let i = choose|i: int|
            0 <= i && #[trigger] part(a, i) > part(b, i) && forall|j: int|
                0 <= j < i ==> #[trigger] part(a, j) == part(b, j);
        assert(a[i] > b[i]);
        assert forall|j: int| 0 <= j < i implies #[trigger] a[j] == b[j] by {
            assert(part(a, j) == part(b, j));
        }
    }
    if exists|i: int|
        0 <= i < a.len() && #[trigger] a[i] > b[i] && forall|j: int|
            0 <= j < i ==> #[trigger] a[j] == b[j] {
        let i = choose|i: int|
            0 <= i < a.len() && #[trigger] a[i] > b[i] && forall|j: int|
                0 <= j < i ==> #[trigger] a[j] == b[j];
        assert(part(a, i) > part(b, i));
        assert forall|j: int| 0 <= j < i implies #[trigger] part(a, j) == part(b, j) by {
            assert(a[j] == b[j]);
        }
    }
}

/// Where one of two texts is no version, they are compared as texts.
pub proof fn law_other_texts_are_newer_where_they_differ(a: Seq<char>, b: Seq<char>)
    requires
        version_parts(a) is None || version_parts(b) is None,
    ensures
        newer(a, b) <==> a != b,
{
}

} // verus!
