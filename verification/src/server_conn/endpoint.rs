//! The address under which a device on another network can be asked for files.
//!
//! It comes from the other end and goes straight into a request, so nothing but a host and a port is
//! let through: no scheme, no path, no query, no user, no white space.

use vstd::prelude::*;

use crate::text;
use crate::text::{
    alnum, chars_of, concat3, contains_char, digit, find_from, parse_dec, rsplit_once, split_on,
    string_of_range, to_dec, trim, white,
};
use crate::transfer::paths;

verus! {

// ---------------------------------------------------------------------------
// Domains and ports
// ---------------------------------------------------------------------------

/// A label of a domain name.
pub open spec fn is_label(l: Seq<char>) -> bool {
    &&& 1 <= l.len() <= 63
    &&& forall|i: int| 0 <= i < l.len() ==> text::is_alnum(#[trigger] l[i]) || l[i] == '-'
    &&& l[0] != '-'
    &&& l.last() != '-'
}

/// A domain name or an IPv4 address.
pub open spec fn is_domain(h: Seq<char>) -> bool {
    &&& 0 < h.len() <= 253
    &&& forall|i: int| 0 <= i < text::split(h, '.').len() ==> is_label(#[trigger] text::split(h, '.')[i])
}

/// A port from 1 to 65535.
pub open spec fn is_port(p: Seq<char>) -> bool {
    text::parse_dec_spec(p, 65535) matches Some(n) && n != 0
}

fn label_ok(l: &str) -> (r: bool)
    ensures
        r == is_label(l@),
{
    let v = chars_of(l);
    let n: usize = v.len();
    if n == 0 || n > 63 {
        return false;
    }
    let mut i: usize = 0;
    while i < n
        invariant
            i <= n,
            n == v@.len(),
            v@ == l@,
            forall|k: int| 0 <= k < i ==> text::is_alnum(#[trigger] v@[k]) || v@[k] == '-',
        decreases n - i,
    {
        if !alnum(v[i]) && v[i] != '-' {
            assert(!(text::is_alnum(l@[i as int]) || l@[i as int] == '-'));
            return false;
        }
        i += 1;
    }
    v[0] != '-' && v[n - 1] != '-'
}

fn domain_ok(h: &str) -> (r: bool)
    ensures
        r == is_domain(h@),
{
    let v = chars_of(h);
    if v.len() == 0 || v.len() > 253 {
        return false;
    }
    let labels = split_on(h, '.');
    let ghost all = text::split(h@, '.');
    let mut i: usize = 0;
    while i < labels.len()
        invariant
            i <= labels@.len(),
            all == text::views(labels@),
            all == text::split(h@, '.'),
            forall|k: int| 0 <= k < i ==> is_label(#[trigger] all[k]),
        decreases labels@.len() - i,
    {
        assert(all[i as int] == labels@[i as int]@);
        if !label_ok(labels[i].as_str()) {
            assert(!is_label(text::split(h@, '.')[i as int]));
            return false;
        }
        i += 1;
    }
    true
}

fn port_ok(p: &str) -> (r: bool)
    ensures
        r == is_port(p@),
{
    match parse_dec(p, 65535) {
        Some(n) => n != 0,
        None => false,
    }
}

/// `host` or `host:port`, the host a domain name or an IPv4 address.
pub open spec fn is_plain_ep(t: Seq<char>) -> bool {
    match text::rsplit_once_spec(t, ':') {
        Some(p) => is_domain(p.0) && is_port(p.1),
        None => is_domain(t),
    }
}

fn plain_ep_ok(t: &str) -> (r: bool)
    ensures
        r == is_plain_ep(t@),
{
    match rsplit_once(t, ':') {
        Some((h, p)) => domain_ok(h.as_str()) && port_ok(p.as_str()),
        None => domain_ok(t),
    }
}

// ---------------------------------------------------------------------------
// IPv6
// ---------------------------------------------------------------------------

/// A hexadecimal digit.
pub open spec fn is_hex(c: char) -> bool {
    text::is_digit(c) || 'a' <= c <= 'f' || 'A' <= c <= 'F'
}

/// A group of an IPv6 address: one to four hexadecimal digits.
pub open spec fn is_hex_group(g: Seq<char>) -> bool {
    1 <= g.len() <= 4 && forall|i: int| 0 <= i < g.len() ==> is_hex(#[trigger] g[i])
}

/// A part of an IPv4 address: a number up to 255 in one to three digits, without needless zeros.
pub open spec fn is_octet(g: Seq<char>) -> bool {
    &&& 1 <= g.len() <= 3
    &&& text::is_dec(g)
    &&& text::dec_value(g) <= 255
    &&& g.len() > 1 ==> g[0] != '0'
}

/// An IPv4 address.
pub open spec fn is_ipv4(s: Seq<char>) -> bool {
    let p = text::split(s, '.');
    p.len() == 4 && is_octet(p[0]) && is_octet(p[1]) && is_octet(p[2]) && is_octet(p[3])
}

fn hex_group_ok(g: &str) -> (r: bool)
    ensures
        r == is_hex_group(g@),
{
    let v = chars_of(g);
    let n: usize = v.len();
    if n == 0 || n > 4 {
        return false;
    }
    let mut i: usize = 0;
    while i < n
        invariant
            i <= n,
            n == v@.len(),
            v@ == g@,
            forall|k: int| 0 <= k < i ==> is_hex(#[trigger] v@[k]),
        decreases n - i,
    {
        let c = v[i];
        if !(digit(c) || ('a' <= c && c <= 'f') || ('A' <= c && c <= 'F')) {
            assert(!is_hex(g@[i as int]));
            return false;
        }
        i += 1;
    }
    true
}

fn octet_ok(g: &str) -> (r: bool)
    ensures
        r == is_octet(g@),
{
    let v = chars_of(g);
    let n: usize = v.len();
    if n == 0 || n > 3 {
        return false;
    }
    if !digit(v[0]) {
        assert(!text::is_digit(g@[0]));
        return false;
    }
    if n > 1 && v[0] == '0' {
        return false;
    }
    proof {
        assert(text::unsigned_part(g@) == g@);
    }
    parse_dec(g, 255).is_some()
}

fn ipv4_ok(s: &str) -> (r: bool)
    ensures
        r == is_ipv4(s@),
{
    let p = split_on(s, '.');
    let ghost all = text::split(s@, '.');
    assert(all.len() == p@.len());
    if p.len() != 4 {
        return false;
    }
    assert(all[0] == p@[0]@ && all[1] == p@[1]@ && all[2] == p@[2]@ && all[3] == p@[3]@);
    octet_ok(p[0].as_str()) && octet_ok(p[1].as_str()) && octet_ok(p[2].as_str()) && octet_ok(
        p[3].as_str(),
    )
}

/// The number of 16-bit groups that `s` writes out, with colons between them; an IPv4 address at the
/// end stands for two. `None` where `s` is no such row.
pub open spec fn group_count(s: Seq<char>, ipv4_allowed: bool) -> Option<nat> {
    if s.len() == 0 {
        Some(0)
    } else {
        let p = text::split(s, ':');
        if forall|i: int| 0 <= i < p.len() - 1 ==> is_hex_group(#[trigger] p[i]) {
            if is_hex_group(p.last()) {
                Some(p.len())
            } else if ipv4_allowed && is_ipv4(p.last()) {
                Some(p.len() + 1)
            } else {
                None
            }
        } else {
            None
        }
    }
}

fn count_groups(s: &str, ipv4_allowed: bool) -> (r: Option<usize>)
    ensures
        match r {
            Some(n) => group_count(s@, ipv4_allowed) == Some(n as nat),
            None => group_count(s@, ipv4_allowed) is None || group_count(s@, ipv4_allowed)->0 > 100,
        },
{
    if s.is_empty() {
        return Some(0);
    }
    let p = split_on(s, ':');
    let ghost all = text::split(s@, ':');
    let n: usize = p.len();
    assert(all.len() == n);
    let mut i: usize = 0;
    while i < n - 1
        invariant
            i <= n - 1,
            1 <= n,
            n == p@.len(),
            all == text::views(p@),
            all == text::split(s@, ':'),
            s@.len() > 0,
            forall|k: int| 0 <= k < i ==> is_hex_group(#[trigger] all[k]),
        decreases n - i,
    {
        assert(all[i as int] == p@[i as int]@);
        if !hex_group_ok(p[i].as_str()) {
            assert(!is_hex_group(text::split(s@, ':')[i as int]));
            return None;
        }
        i += 1;
    }
    assert(all.last() == p@[n - 1]@);
    if hex_group_ok(p[n - 1].as_str()) {
        Some(n)
    } else if ipv4_allowed && ipv4_ok(p[n - 1].as_str()) {
        if n > 100 {
            None
        } else {
            Some(n + 1)
        }
    } else {
        None
    }
}

/// Where the first `::` stands in `s`; the length of `s` where there is none.
pub open spec fn double_colon(s: Seq<char>) -> int
    decreases s.len(),
{
    if s.len() < 2 {
        s.len() as int
    } else if s[0] == ':' && s[1] == ':' {
        0
    } else {
        1 + double_colon(s.drop_first())
    }
}

proof fn lemma_double_colon(s: Seq<char>, k: int)
    requires
        0 <= k <= s.len(),
        k < s.len() ==> k + 1 < s.len() && s[k] == ':' && s[k + 1] == ':',
        forall|i: int| 0 <= i < k && i + 1 < s.len() ==> !(#[trigger] s[i] == ':' && s[i + 1] == ':'),
    ensures
        double_colon(s) == k,
    decreases s.len(),
{
    if s.len() >= 2 && k > 0 {
        let t = s.drop_first();
        assert(!(s[0] == ':' && s[1] == ':'));
        assert forall|i: int| 0 <= i < k - 1 && i + 1 < t.len() implies !(#[trigger] t[i] == ':' && t[i
            + 1] == ':') by {
            assert(t[i] == s[i + 1]);
            assert(t[i + 1] == s[i + 2]);
        }
        lemma_double_colon(t, k - 1);
    }
}

/// An IPv6 address: eight groups, or fewer with one `::` for the ones that are left out.
pub open spec fn is_ipv6(s: Seq<char>) -> bool {
    let k = double_colon(s);
    if k >= s.len() {
        group_count(s, true) == Some(8nat)
    } else {
        let a = group_count(s.take(k), false);
        let b = group_count(s.skip(k + 2), true);
        a is Some && b is Some && a->0 + b->0 <= 7
    }
}

fn ipv6_ok(s: &str) -> (r: bool)
    ensures
        r == is_ipv6(s@),
{
    let v = chars_of(s);
    let n: usize = v.len();
    let mut k: usize = 0;
    while k < n
        invariant
            k <= n,
            n == v@.len(),
            v@ == s@,
            forall|i: int|
                0 <= i < k && i + 1 < v@.len() ==> !(#[trigger] v@[i] == ':' && v@[i + 1] == ':'),
        decreases n - k,
    {
        if k + 1 < n && v[k] == ':' && v[k + 1] == ':' {
            proof {
                lemma_double_colon(s@, k as int);
            }
            let left = string_of_range(&v, 0, k);
            let right = string_of_range(&v, k + 2, n);
            assert(left@ =~= s@.take(k as int));
            assert(right@ =~= s@.skip(k + 2));
            return match (count_groups(left.as_str(), false), count_groups(right.as_str(), true)) {
                (Some(a), Some(b)) => a <= 7 && b <= 7 && a + b <= 7,
                _ => false,
            };
        }
        k += 1;
    }
    proof {
        lemma_double_colon(s@, n as int);
    }
    match count_groups(s, true) {
        Some(c) => c == 8,
        None => false,
    }
}

/// What stands between the brackets: an IPv6 address, with a scope behind `%` at most.
pub open spec fn is_scoped_ipv6(s: Seq<char>) -> bool {
    match text::split_once_spec(s, '%') {
        Some(p) => is_ipv6(p.0) && text::is_dec(p.1) && text::dec_value(p.1) <= 0xffff_ffff,
        None => is_ipv6(s),
    }
}

/// `[address]:port` with an IPv6 address and a port from 1 to 65535.
pub open spec fn is_bracketed_ep(t: Seq<char>) -> bool {
    &&& t.len() > 0
    &&& t[0] == '['
    &&& ({
        let close = text::find(t, ']');
        &&& close + 1 < t.len()
        &&& t[close + 1] == ':'
        &&& is_scoped_ipv6(t.subrange(1, close))
        &&& text::is_dec(t.skip(close + 2))
        &&& 0 < text::dec_value(t.skip(close + 2)) <= 65535
    })
}

/// Reads a row of digits without a sign.
fn digits_value(s: &str, max: u64) -> (r: Option<u64>)
    ensures
        match r {
            Some(n) => text::is_dec(s@) && text::dec_value(s@) == n && n <= max,
            None => !text::is_dec(s@) || text::dec_value(s@) > max,
        },
{
    let v = chars_of(s);
    if v.len() > 0 && v[0] == '+' {
        assert(!text::is_digit(s@[0]));
        return None;
    }
    assert(text::unsigned_part(s@) == s@);
    parse_dec(s, max)
}

fn scoped_ipv6_ok(s: &str) -> (r: bool)
    ensures
        r == is_scoped_ipv6(s@),
{
    match text::split_once(s, '%') {
        Some((a, scope)) => ipv6_ok(a.as_str()) && digits_value(
            scope.as_str(),
            0xffff_ffff,
        ).is_some(),
        None => ipv6_ok(s),
    }
}

fn bracketed_ep_ok(t: &str) -> (r: bool)
    ensures
        r == is_bracketed_ep(t@),
{
    let v = chars_of(t);
    let n: usize = v.len();
    if n == 0 || v[0] != '[' {
        return false;
    }
    let close: usize = find_from(&v, 0, ']');
    proof {
        assert(v@.skip(0) =~= v@);
        text::lemma_find(v@, ']');
    }
    if close >= n || close + 1 >= n || v[close + 1] != ':' {
        return false;
    }
    assert(close >= 1) by {
        assert(v@[0] != ']');
    }
    let inner = string_of_range(&v, 1, close);
    let port = string_of_range(&v, close + 2, n);
    assert(port@ =~= t@.skip(close + 2));
    if !scoped_ipv6_ok(inner.as_str()) {
        return false;
    }
    match digits_value(port.as_str(), 65535) {
        Some(p) => p != 0,
        None => false,
    }
}

// ---------------------------------------------------------------------------
// The address
// ---------------------------------------------------------------------------

/// `c` has no place in an address.
pub open spec fn is_banned(c: char) -> bool {
    text::is_white(c) || paths::is_control(c) || c == '/' || c == '?' || c == '#' || c == '@'
}

/// `ep` is an address, white space at its ends aside.
pub open spec fn is_valid_ep(ep: Seq<char>) -> bool {
    let t = text::trimmed(ep);
    &&& forall|i: int| 0 <= i < t.len() ==> !is_banned(#[trigger] t[i])
    &&& is_bracketed_ep(t) || is_plain_ep(t)
}

/// Whether `ep` is an address: `host`, `host:port` or `[IPv6]:port`, white space at its ends aside.
///
/// An IPv6 address without brackets is not: its last group could not be told from a port. Port 0 is
/// not either.
pub fn ext_file_ep_is_valid(ep: &str) -> (r: bool)
    ensures
        r == is_valid_ep(ep@),
{
    let t = trim(ep);
    let v = chars_of(t.as_str());
    let mut i: usize = 0;
    while i < v.len()
        invariant
            i <= v@.len(),
            v@ == t@,
            t@ == text::trimmed(ep@),
            forall|k: int| 0 <= k < i ==> !is_banned(#[trigger] v@[k]),
        decreases v@.len() - i,
    {
        let c = v[i];
        if white(c) || c <= '\u{1f}' || ('\u{7f}' <= c && c <= '\u{9f}') || c == '/' || c == '?' || c
            == '#' || c == '@' {
            assert(is_banned(text::trimmed(ep@)[i as int]));
            return false;
        }
        i += 1;
    }
    bracketed_ep_ok(t.as_str()) || plain_ep_ok(t.as_str())
}

/// The address with a port: `default_port` where `ep` names none. No address stays none.
pub open spec fn normalized_ep(ep: Seq<char>, default_port: u16) -> Seq<char> {
    let t = text::trimmed(ep);
    if t.len() == 0 || t.contains(':') {
        t
    } else {
        t + ":"@ + text::dec(default_port as nat)
    }
}

/// The address with a port. The one who tests an address and the one who uses it both go through
/// here, so they cannot disagree about a port that was left out.
pub fn normalize_ext_file_ep(ep: &str, default_port: u16) -> (r: String)
    ensures
        r@ == normalized_ep(ep@, default_port),
{
    let t = trim(ep);
    if t.as_str().is_empty() || contains_char(t.as_str(), ':') {
        t
    } else {
        concat3(t.as_str(), ":", to_dec(default_port as u64).as_str())
    }
}

/// Giving an address a port a second time changes nothing.
pub proof fn law_normalizing_is_idempotent(ep: Seq<char>, default_port: u16)
    ensures
        normalized_ep(normalized_ep(ep, default_port), default_port) == normalized_ep(
            ep,
            default_port,
        ),
{
    reveal_strlit(":");
    let t = text::trimmed(ep);
    text::lemma_trimmed_idempotent(ep);
    if t.len() == 0 || t.contains(':') {
    } else {
        let d = text::dec(default_port as nat);
        text::lemma_dec_round_trip(default_port as nat);
        let s = t + ":"@ + d;
        lemma_trimmed_ends(ep);
        assert(s[0] == t[0]);
        assert(s.last() == d.last());
        assert(text::is_digit(d[d.len() - 1]));
        text::lemma_trimmed_fixed(s);
        assert(s[t.len() as int] == ':');
    }
}

proof fn lemma_trimmed_ends(s: Seq<char>)
    ensures
        text::trimmed(s).len() > 0 ==> !text::is_white(text::trimmed(s)[0]) && !text::is_white(
            text::trimmed(s).last(),
        ),
{
    let a = text::trim_start_spec(s);
    text::lemma_trim_start(s);
    text::lemma_trim_end(a);
    let t = text::trimmed(s);
    if t.len() > 0 {
        assert(t[0] == a[0]);
    }
}

/// A valid address stays valid when it is given a port other than 0.
pub proof fn law_normalized_addresses_are_valid(ep: Seq<char>, default_port: u16)
    requires
        is_valid_ep(ep),
        default_port != 0,
    ensures
        is_valid_ep(normalized_ep(ep, default_port)),
{
    reveal_strlit(":");
    let t = text::trimmed(ep);
    text::lemma_trimmed_idempotent(ep);
    if t.len() == 0 || t.contains(':') {
    } else {
        let d = text::dec(default_port as nat);
        text::lemma_dec_round_trip(default_port as nat);
        let s = t + ":"@ + d;
        lemma_trimmed_ends(ep);
        assert(s[0] == t[0]);
        assert(s.last() == d.last());
        assert(text::is_digit(d[d.len() - 1]));
        text::lemma_trimmed_fixed(s);
        assert forall|i: int| 0 <= i < s.len() implies !is_banned(#[trigger] s[i]) by {
            if i < t.len() {
                assert(s[i] == t[i]);
            } else if i > t.len() {
                assert(s[i] == d[i - t.len() - 1]);
                assert(text::is_digit(d[i - t.len() - 1]));
            }
        }
        assert(s[t.len() as int] == ':');
        assert forall|i: int| t.len() < i < s.len() implies s[i] != ':' by {
            assert(s[i] == d[i - t.len() - 1]);
            assert(text::is_digit(d[i - t.len() - 1]));
        }
        text::lemma_rfind_is(s, ':', t.len() as int);
        text::lemma_rfind(s, ':');
        assert(s.take(t.len() as int) =~= t);
        assert(s.skip(t.len() as int + 1) =~= d);
        assert(!is_bracketed_ep(t)) by {
            if is_bracketed_ep(t) {
                let close = text::find(t, ']');
                text::lemma_find(t, ']');
                assert(t[close + 1] == ':');
            }
        }
        assert(is_plain_ep(t));
        text::lemma_rfind(t, ':');
        assert(is_domain(t));
    }
}

proof fn lemma_joined_chars(parts: Seq<Seq<char>>, c: char, i: int)
    requires
        parts.len() > 0,
        forall|k: int| 0 <= k < parts.len() ==> (#[trigger] parts[k]).len() > 0,
        0 <= i < text::joined(parts, seq![c]).len(),
    ensures
        text::joined(parts, seq![c])[i] == c || exists|k: int, j: int|
            0 <= k < parts.len() && 0 <= j < parts[k].len() && #[trigger] parts[k][j] == text::joined(
                parts,
                seq![c],
            )[i],
        text::joined(parts, seq![c])[0] == parts[0][0],
        text::joined(parts, seq![c]).last() == parts.last().last(),
    decreases parts.len(),
{
    let s = text::joined(parts, seq![c]);
    let n = parts.len() - 1;
    assert(parts[n].len() > 0);
    assert(parts[0].len() > 0);
    if parts.len() == 1 {
        assert(parts[0][i] == s[i]);
    } else {
        let t = parts.drop_last();
        assert forall|k: int| 0 <= k < t.len() implies (#[trigger] t[k]).len() > 0 by {
            assert(t[k] == parts[k]);
        }
        let j = text::joined(t, seq![c]);
        assert(s =~= j + seq![c] + parts[n]);
        lemma_joined_some(t, c);
        if i < j.len() {
            lemma_joined_chars(t, c, i);
            if j[i] != c {
                let (k, m) = choose|k: int, m: int|
                    0 <= k < t.len() && 0 <= m < t[k].len() && #[trigger] t[k][m] == j[i];
                assert(parts[k][m] == s[i]);
            }
        } else if i > j.len() {
            assert(parts[n][i - j.len() - 1] == s[i]);
        }
        lemma_joined_chars(t, c, 0);
        assert(s[0] == j[0]);
    }
}

proof fn lemma_joined_some(parts: Seq<Seq<char>>, c: char)
    requires
        parts.len() > 0,
        forall|k: int| 0 <= k < parts.len() ==> (#[trigger] parts[k]).len() > 0,
    ensures
        text::joined(parts, seq![c]).len() > 0,
{
    assert(parts[0].len() > 0);
    assert(parts[parts.len() - 1].len() > 0);
}

#[verifier::rlimit(30)]
proof fn lemma_names_are_domains(labels: Seq<Seq<char>>)
    requires
        labels.len() > 0,
        forall|k: int|
            0 <= k < labels.len() ==> 1 <= (#[trigger] labels[k]).len() <= 63 && labels[k][0] != '-'
                && labels[k].last() != '-',
        forall|k: int, j: int|
            0 <= k < labels.len() && 0 <= j < labels[k].len() ==> 'a' <= #[trigger] labels[k][j] <= 'z'
                || 'A' <= labels[k][j] <= 'Z' || '0' <= labels[k][j] <= '9' || labels[k][j] == '-',
        text::joined(labels, seq!['.']).len() <= 253,
    ensures
        ({
            let host = text::joined(labels, seq!['.']);
            &&& is_domain(host)
            &&& forall|i: int|
                0 <= i < host.len() ==> 'a' <= #[trigger] host[i] <= 'z' || 'A' <= host[i] <= 'Z' || '0'
                    <= host[i] <= '9' || host[i] == '-' || host[i] == '.'
        }),
{
    let host = text::joined(labels, seq!['.']);
    lemma_joined_some(labels, '.');
    assert forall|i: int| 0 <= i < host.len() implies 'a' <= #[trigger] host[i] <= 'z' || 'A'
        <= host[i] <= 'Z' || '0' <= host[i] <= '9' || host[i] == '-' || host[i] == '.' by {
        lemma_joined_chars(labels, '.', i);
        if host[i] != '.' {
            let (k, j) = choose|k: int, j: int|
                0 <= k < labels.len() && 0 <= j < labels[k].len() && #[trigger] labels[k][j] == host[i];
            assert('a' <= labels[k][j] <= 'z' || 'A' <= labels[k][j] <= 'Z' || '0' <= labels[k][j] <= '9'
                || labels[k][j] == '-');
        }
    }
    assert forall|k: int| 0 <= k < labels.len() implies !(#[trigger] labels[k]).contains('.') by {
        if labels[k].contains('.') {
            let j = choose|j: int| 0 <= j < labels[k].len() && labels[k][j] == '.';
            assert('a' <= labels[k][j] <= 'z' || 'A' <= labels[k][j] <= 'Z' || '0' <= labels[k][j] <= '9'
                || labels[k][j] == '-');
        }
    }
    text::law_joining_is_undone_by_splitting(labels, '.');
    assert forall|k: int| 0 <= k < labels.len() implies is_label(#[trigger] labels[k]) by {
        assert forall|j: int| 0 <= j < labels[k].len() implies text::is_alnum(#[trigger] labels[k][j])
            || labels[k][j] == '-' by {}
    }
}

proof fn lemma_name_alone(host: Seq<char>)
    requires
        is_domain(host),
        forall|i: int|
            0 <= i < host.len() ==> 'a' <= #[trigger] host[i] <= 'z' || 'A' <= host[i] <= 'Z' || '0'
                <= host[i] <= '9' || host[i] == '-' || host[i] == '.',
    ensures
        is_valid_ep(host),
        !host.contains(':'),
        !text::is_white(host[0]),
        !text::is_white(host.last()),
        text::trimmed(host) == host,
{
    assert(!host.contains(':'));
    assert(!text::is_white(host[0]) && !text::is_white(host[host.len() - 1]));
    text::lemma_trimmed_fixed(host);
    assert(text::rsplit_once_spec(host, ':') is None);
    assert(is_plain_ep(host));
}

proof fn lemma_name_and_port(host: Seq<char>, d: Seq<char>, port: nat)
    requires
        is_domain(host),
        forall|i: int|
            0 <= i < host.len() ==> 'a' <= #[trigger] host[i] <= 'z' || 'A' <= host[i] <= 'Z' || '0'
                <= host[i] <= '9' || host[i] == '-' || host[i] == '.',
        port <= 65535,
        d == text::dec(port),
    ensures
        is_valid_ep(host.push(':') + d) <==> port > 0,
        text::trimmed(host.push(':') + d) == host.push(':') + d,
{
    let ep = host.push(':') + d;
    text::lemma_dec_round_trip(port);
    assert(text::parse_dec_spec(d, 65535) == Some(port));
    assert(is_port(d) <==> port > 0);
    assert forall|i: int| 0 <= i < d.len() implies '0' <= #[trigger] d[i] <= '9' by {
        assert(text::is_digit(d[i]));
    }
    assert(!d.contains(':'));
    text::law_cutting_once_keeps_both_parts(host, ':', d);
    assert(text::rsplit_once_spec(ep, ':') == Some((host, d)));
    assert(is_plain_ep(ep) <==> port > 0);
    assert(ep[0] == host[0]);
    assert(ep[0] != '[');
    assert(!is_bracketed_ep(ep));
    assert(ep.last() == d[d.len() - 1]);
    assert(!text::is_white(ep[0]) && !text::is_white(ep.last()));
    text::lemma_trimmed_fixed(ep);
    assert forall|i: int| 0 <= i < ep.len() implies !is_banned(#[trigger] ep[i]) by {
        if i < host.len() {
            assert(ep[i] == host[i]);
        } else if i > host.len() {
            assert(ep[i] == d[i - host.len() - 1]);
        }
    }
}

/// A name of labels with dots between them is an address, alone or with a port from 1 to 65535 behind a
/// colon; with port 0 it is none. A label has up to 63 letters, digits and hyphens, and neither begins nor
/// ends with a hyphen.
pub proof fn law_names_and_ports_are_addresses(labels: Seq<Seq<char>>, port: u16)
    requires
        labels.len() > 0,
        forall|k: int|
            0 <= k < labels.len() ==> 1 <= (#[trigger] labels[k]).len() <= 63 && labels[k][0] != '-'
                && labels[k].last() != '-',
        forall|k: int, j: int|
            0 <= k < labels.len() && 0 <= j < labels[k].len() ==> 'a' <= #[trigger] labels[k][j] <= 'z'
                || 'A' <= labels[k][j] <= 'Z' || '0' <= labels[k][j] <= '9' || labels[k][j] == '-',
        text::joined(labels, seq!['.']).len() <= 253,
    ensures
        ({
            let host = text::joined(labels, seq!['.']);
            let ep = host.push(':') + text::dec(port as nat);
            &&& is_valid_ep(host)
            &&& is_valid_ep(ep) <==> port > 0
            &&& normalized_ep(host, port) == ep
            &&& normalized_ep(ep, 9) == ep
        }),
{
    let host = text::joined(labels, seq!['.']);
    let d = text::dec(port as nat);
    let ep = host.push(':') + d;
    lemma_names_are_domains(labels);
    lemma_name_alone(host);
    lemma_name_and_port(host, d, port as nat);
    assert(ep[host.len() as int] == ':');
    assert(ep.contains(':'));
    reveal_strlit(":");
    assert(host + ":"@ + d =~= ep);
}

/// An address holds no white space, no control character, and nothing that stands in front of or behind
/// the host and port of a larger address.
pub proof fn law_addresses_hold_nothing_else(ep: Seq<char>, i: int)
    requires
        is_valid_ep(ep),
        0 <= i < text::trimmed(ep).len(),
    ensures
        ({
            let c = text::trimmed(ep)[i];
            &&& c > ' ' && !text::is_white(c)
            &&& c != '/' && c != '?' && c != '#' && c != '@'
        }),
        text::trimmed(ep).len() > 0,
{
    assert(!is_banned(text::trimmed(ep)[i]));
}

proof fn lemma_no_double_colon(groups: Seq<Seq<char>>, i: int)
    requires
        groups.len() > 0,
        forall|k: int| 0 <= k < groups.len() ==> is_hex_group(#[trigger] groups[k]),
        0 <= i,
        i + 1 < text::joined(groups, seq![':']).len(),
    ensures
        !(text::joined(groups, seq![':'])[i] == ':' && text::joined(groups, seq![':'])[i + 1] == ':'),
    decreases groups.len(),
{
    let s = text::joined(groups, seq![':']);
    let n = groups.len() - 1;
    let g = groups[n];
    assert(is_hex_group(g));
    assert(is_hex_group(groups[0]));
    if groups.len() == 1 {
        assert(s == g);
        assert(is_hex(g[i]));
    } else {
        let t = groups.drop_last();
        assert forall|k: int| 0 <= k < t.len() implies is_hex_group(#[trigger] t[k]) && t[k].len() > 0 by {
            assert(t[k] == groups[k]);
        }
        let j = text::joined(t, seq![':']);
        assert(s =~= j + seq![':'] + g);
        lemma_joined_some(t, ':');
        if i + 1 < j.len() {
            lemma_no_double_colon(t, i);
        } else if i + 1 == j.len() {
            lemma_joined_chars(t, ':', i);
            let l = t[t.len() - 1];
            assert(is_hex_group(l));
            assert(is_hex(l[l.len() - 1]));
            assert(j.last() == l.last());
        } else {
            assert(is_hex(g[i - j.len()]));
        }
    }
}

#[verifier::rlimit(30)]
proof fn lemma_groups(groups: Seq<Seq<char>>, allowed: bool)
    requires
        groups.len() > 0,
        forall|k: int| 0 <= k < groups.len() ==> is_hex_group(#[trigger] groups[k]),
    ensures
        group_count(text::joined(groups, seq![':']), allowed) == Some(groups.len()),
        double_colon(text::joined(groups, seq![':'])) == text::joined(groups, seq![':']).len(),
        text::joined(groups, seq![':']).len() > 0,
        forall|i: int|
            0 <= i < text::joined(groups, seq![':']).len() ==> is_hex(
                #[trigger] text::joined(groups, seq![':'])[i],
            ) || text::joined(groups, seq![':'])[i] == ':',
        is_hex(text::joined(groups, seq![':'])[0]),
{
    let s = text::joined(groups, seq![':']);
    assert forall|k: int| 0 <= k < groups.len() implies (#[trigger] groups[k]).len() > 0
        && !groups[k].contains(':') by {
        assert(is_hex_group(groups[k]));
        if groups[k].contains(':') {
            let j = choose|j: int| 0 <= j < groups[k].len() && groups[k][j] == ':';
            assert(is_hex(groups[k][j]));
        }
    }
    lemma_joined_some(groups, ':');
    text::law_joining_is_undone_by_splitting(groups, ':');
    assert(is_hex_group(groups[groups.len() - 1]));
    assert forall|i: int| 0 <= i < s.len() && i + 1 < s.len() implies !(#[trigger] s[i] == ':' && s[i + 1]
        == ':') by {
        lemma_no_double_colon(groups, i);
    }
    lemma_double_colon(s, s.len() as int);
    assert forall|i: int| 0 <= i < s.len() implies is_hex(#[trigger] s[i]) || s[i] == ':' by {
        lemma_joined_chars(groups, ':', i);
        if s[i] != ':' {
            let (k, j) = choose|k: int, j: int|
                0 <= k < groups.len() && 0 <= j < groups[k].len() && #[trigger] groups[k][j] == s[i];
            assert(is_hex_group(groups[k]));
        }
    }
    lemma_joined_chars(groups, ':', 0);
    assert(is_hex_group(groups[0]));
    assert(is_hex(groups[0][0]));
}

/// Eight groups of up to four hexadecimal digits with colons between them are an IPv6 address, and so are
/// seven or fewer behind a double colon; fewer or more without one are none.
pub proof fn law_ipv6_addresses_have_eight_groups(groups: Seq<Seq<char>>)
    requires
        groups.len() > 0,
        forall|k: int| 0 <= k < groups.len() ==> 1 <= (#[trigger] groups[k]).len() <= 4,
        forall|k: int, j: int|
            0 <= k < groups.len() && 0 <= j < groups[k].len() ==> '0' <= #[trigger] groups[k][j] <= '9'
                || 'a' <= groups[k][j] <= 'f' || 'A' <= groups[k][j] <= 'F',
    ensures
        is_ipv6(text::joined(groups, seq![':'])) <==> groups.len() == 8,
        is_ipv6(seq![':', ':'] + text::joined(groups, seq![':'])) <==> groups.len() <= 7,
{
    assert forall|k: int| 0 <= k < groups.len() implies is_hex_group(#[trigger] groups[k]) by {
        assert forall|j: int| 0 <= j < groups[k].len() implies is_hex(#[trigger] groups[k][j]) by {}
    }
    lemma_groups(groups, true);
    let s = text::joined(groups, seq![':']);
    let t = seq![':', ':'] + s;
    lemma_double_colon(t, 0);
    assert(t.take(0) =~= Seq::<char>::empty());
    assert(t.skip(2) =~= s);
}

/// An IPv6 address has to stand in brackets with a port behind it; alone it is no address.
#[verifier::rlimit(30)]
pub proof fn law_ipv6_addresses_need_brackets(groups: Seq<Seq<char>>, port: u16)
    requires
        groups.len() == 8,
        forall|k: int| 0 <= k < groups.len() ==> 1 <= (#[trigger] groups[k]).len() <= 4,
        forall|k: int, j: int|
            0 <= k < groups.len() && 0 <= j < groups[k].len() ==> '0' <= #[trigger] groups[k][j] <= '9'
                || 'a' <= groups[k][j] <= 'f' || 'A' <= groups[k][j] <= 'F',
    ensures
        ({
            let ip = text::joined(groups, seq![':']);
            let ep = seq!['['] + ip + seq![']', ':'] + text::dec(port as nat);
            &&& is_valid_ep(ep) <==> port > 0
            &&& !is_valid_ep(ip)
        }),
{
    assert forall|k: int| 0 <= k < groups.len() implies is_hex_group(#[trigger] groups[k]) by {
        assert forall|j: int| 0 <= j < groups[k].len() implies is_hex(#[trigger] groups[k][j]) by {}
    }
    law_ipv6_addresses_have_eight_groups(groups);
    lemma_groups(groups, true);
    let ip = text::joined(groups, seq![':']);
    let d = text::dec(port as nat);
    text::lemma_dec_round_trip(port as nat);
    let ep = seq!['['] + ip + seq![']', ':'] + d;
    let n = ip.len() as int;
    assert forall|i: int| 0 <= i < d.len() implies '0' <= #[trigger] d[i] <= '9' by {
        assert(text::is_digit(d[i]));
    }
    assert forall|i: int| 0 <= i < n + 1 implies ep[i] != ']' by {
        if i > 0 {
            assert(ep[i] == ip[i - 1]);
        }
    }
    assert(ep[n + 1] == ']' && ep[n + 2] == ':');
    text::lemma_find_is(ep, ']', n + 1);
    assert(ep.subrange(1, n + 1) =~= ip);
    assert(ep.skip(n + 3) =~= d);
    assert(!ip.contains('%'));
    assert(is_scoped_ipv6(ip));
    assert(ep[0] == '[');
    assert(ep.last() == d[d.len() - 1]);
    text::lemma_trimmed_fixed(ep);
    assert forall|i: int| 0 <= i < ep.len() implies !is_banned(#[trigger] ep[i]) by {
        if 1 <= i < n + 1 {
            assert(ep[i] == ip[i - 1]);
        } else if i >= n + 3 {
            assert(ep[i] == d[i - n - 3]);
        }
    }
    lemma_bracketed_is_not_plain(ep);
    // The address alone: what stands before its last colon is no name.
    let l = groups[7];
    let t = groups.drop_last();
    assert(ip =~= text::joined(t, seq![':']) + seq![':'] + l);
    let h = text::joined(t, seq![':']);
    assert(is_hex_group(l));
    assert(!l.contains(':')) by {
        if l.contains(':') {
            let j = choose|j: int| 0 <= j < l.len() && l[j] == ':';
            assert(is_hex(l[j]));
        }
    }
    assert(ip =~= h.push(':') + l);
    text::law_cutting_once_keeps_both_parts(h, ':', l);
    assert(is_hex(ip[0]));
    assert(is_hex(l[l.len() - 1]));
    assert(ip.last() == l.last());
    text::lemma_trimmed_fixed(ip);
    let u = t.drop_last();
    assert(h =~= text::joined(u, seq![':']) + seq![':'] + t[6]);
    let c = text::joined(u, seq![':']).len() as int;
    assert(h[c] == ':');
    assert(!h.contains('.')) by {
        assert forall|i: int| 0 <= i < h.len() implies h[i] != '.' by {
            assert(h[i] == ip[i]);
        }
    }
    text::lemma_find(h, '.');
    assert(text::split(h, '.') =~= seq![h]);
    assert(text::split(h, '.')[0] == h);
    assert(!is_label(h)) by {
        assert(!text::is_alnum(h[c]));
    }
    assert(!is_domain(h));
    assert(ip[0] != '[');
}

proof fn lemma_bracketed_is_not_plain(t: Seq<char>)
    requires
        t.len() > 0,
        t[0] == '[',
    ensures
        !is_plain_ep(t),
{
    match text::rsplit_once_spec(t, ':') {
        Some(p) => {
            text::lemma_rfind(t, ':');
            if p.0.len() > 0 {
                assert(p.0[0] == '[');
                lemma_bracket_is_no_domain(p.0);
            }
        },
        None => {
            lemma_bracket_is_no_domain(t);
        },
    }
}

proof fn lemma_bracket_is_no_domain(h: Seq<char>)
    requires
        h.len() > 0,
        h[0] == '[',
    ensures
        !is_domain(h),
{
    text::lemma_find(h, '.');
    let k = text::find(h, '.');
    let p = text::split(h, '.');
    let first = if k < h.len() {
        h.take(k)
    } else {
        h
    };
    assert(k > 0) by {
        if k == 0 {
            assert(h[0] == '.');
        }
    }
    assert(p[0] == first);
    assert(first[0] == '[');
    assert(!is_label(first)) by {
        assert(!text::is_alnum(first[0]));
    }
}

} // verus!
