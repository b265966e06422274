//! Which local network a device is in.
//!
//! Two devices in one local network reach each other directly; an update for a device elsewhere goes
//! through the server. A local network is told by the first three parts of an address.

use vstd::prelude::*;

use crate::text;
use crate::text::{parse_dec, same, split_on, to_dec};

verus! {

/// An IPv4 address.
#[derive(Debug, Clone, Copy, PartialEq, Eq, Structural)]
pub struct Ipv4 {
    pub a: u8,
    pub b: u8,
    pub c: u8,
    pub d: u8,
}

impl Ipv4 {
    /// The address as a number.
    pub open spec fn value(self) -> int {
        self.a * 0x100_0000 + self.b * 0x1_0000 + self.c * 0x100 + self.d
    }

    /// The address with four parts.
    pub fn new(a: u8, b: u8, c: u8, d: u8) -> (r: Self)
        ensures
            r == (Ipv4 { a, b, c, d }),
    {
        Ipv4 { a, b, c, d }
    }

    /// 127.0.0.0/8.
    pub open spec fn is_loopback_spec(self) -> bool {
        self.a == 127
    }

    /// 169.254.0.0/16.
    pub open spec fn is_link_local_spec(self) -> bool {
        self.a == 169 && self.b == 254
    }

    /// 10.0.0.0/8, 172.16.0.0/12 and 192.168.0.0/16.
    pub open spec fn is_private_spec(self) -> bool {
        self.a == 10 || (self.a == 172 && 16 <= self.b <= 31) || (self.a == 192 && self.b == 168)
    }

    /// 198.18.0.0/15, which proxies hand out, and 100.64.0.0/10, which carriers and VPNs use.
    pub open spec fn is_virtual_spec(self) -> bool {
        (self.a == 198 && (self.b == 18 || self.b == 19)) || (self.a == 100 && 64 <= self.b <= 127)
    }

    /// The address may stand for a local network.
    pub open spec fn is_eligible(self) -> bool {
        !self.is_loopback_spec() && !self.is_link_local_spec() && !self.is_virtual_spec()
    }

    /// Whether the address is in a private range.
    pub fn is_private(self) -> (r: bool)
        ensures
            r == self.is_private_spec(),
    {
        self.a == 10 || (self.a == 172 && 16 <= self.b && self.b <= 31) || (self.a == 192 && self.b
            == 168)
    }
}

/// Whether an address is in a range that says nothing about the local network.
pub fn is_virtual_or_reserved(ip: Ipv4) -> (r: bool)
    ensures
        r == ip.is_virtual_spec(),
{
    (ip.a == 198 && (ip.b == 18 || ip.b == 19)) || (ip.a == 100 && 64 <= ip.b && ip.b <= 127)
}

/// Whether an address may stand for a local network.
fn eligible(ip: Ipv4) -> (r: bool)
    ensures
        r == ip.is_eligible(),
{
    ip.a != 127 && !(ip.a == 169 && ip.b == 254) && !is_virtual_or_reserved(ip)
}

fn before(x: Ipv4, y: Ipv4) -> (r: bool)
    ensures
        r == (x.value() < y.value()),
{
    x.a < y.a || (x.a == y.a && (x.b < y.b || (x.b == y.b && (x.c < y.c || (x.c == y.c && x.d < y.d)))))
}

/// `p` is the best among the candidates: eligible; private where any eligible one is; and the least of
/// its kind.
pub open spec fn is_best(c: Seq<Ipv4>, p: Ipv4) -> bool {
    &&& c.contains(p)
    &&& p.is_eligible()
    &&& forall|i: int|
        0 <= i < c.len() && (#[trigger] c[i]).is_eligible() ==> (p.is_private_spec()
            || !c[i].is_private_spec()) && (p.is_private_spec() == c[i].is_private_spec()
            ==> p.value() <= c[i].value())
}

/// The address that stands for this machine's local network. `None` where no candidate can.
///
/// The order of the candidates does not matter: the system does not list its interfaces in a fixed
/// one.
pub fn pick_lan_ipv4(candidates: &[Ipv4]) -> (r: Option<Ipv4>)
    ensures
        match r {
            Some(p) => is_best(candidates@, p),
            None => forall|i: int|
                0 <= i < candidates@.len() ==> !(#[trigger] candidates@[i]).is_eligible(),
        },
{
    let mut best: Option<Ipv4> = None;
    let mut i: usize = 0;
    while i < candidates.len()
        invariant
            i <= candidates@.len(),
            match best {
                Some(p) => is_best(candidates@.take(i as int), p),
                None => forall|k: int| 0 <= k < i ==> !(#[trigger] candidates@[k]).is_eligible(),
            },
        decreases candidates@.len() - i,
    {
        let ip = candidates[i];
        let ghost t = candidates@.take(i as int);
        let ghost u = candidates@.take(i + 1);
        proof {
            assert(u =~= t.push(ip));
            assert(u[i as int] == ip);
            assert forall|k: int| 0 <= k < i implies #[trigger] u[k] == t[k] by {}
        }
        if eligible(ip) {
            let better = match best {
                Some(p) => (ip.is_private() && !p.is_private()) || (ip.is_private()
                    == p.is_private() && before(ip, p)),
                None => true,
            };
            if better {
                best = Some(ip);
            }
        }
        proof {
            if best is Some {
                let p = best->0;
                if t.contains(p) {
                    let k = choose|k: int| 0 <= k < t.len() && t[k] == p;
                    assert(u[k] == p);
                }
                assert forall|k: int| 0 <= k < u.len() && (#[trigger] u[k]).is_eligible() implies (
                p.is_private_spec() || !u[k].is_private_spec()) && (p.is_private_spec()
                    == u[k].is_private_spec() ==> p.value() <= u[k].value()) by {
                    if k < i {
                        assert(u[k] == t[k]);
                        assert(t[k] == candidates@[k]);
                    }
                }
            }
        }
        i += 1;
    }
    assert(candidates@.take(i as int) =~= candidates@);
    best
}

/// The best candidate is the best in whatever order they are listed.
pub proof fn law_the_choice_ignores_order(c: Seq<Ipv4>, e: Seq<Ipv4>, p: Ipv4, q: Ipv4)
    requires
        c.to_set() == e.to_set(),
        is_best(c, p),
        is_best(e, q),
    ensures
        p == q,
{
    assert(c.to_set().contains(p));
    assert(e.to_set().contains(p));
    assert(e.to_set().contains(q));
    assert(c.to_set().contains(q));
    let i = choose|i: int| 0 <= i < e.len() && e[i] == p;
    let j = choose|j: int| 0 <= j < c.len() && c[j] == q;
    assert(e[i].is_eligible());
    assert(c[j].is_eligible());
    assert(p.value() == q.value());
    assert(p.a == q.a && p.b == q.b && p.c == q.c && p.d == q.d) by (nonlinear_arith)
        requires
            p.a * 0x100_0000 + p.b * 0x1_0000 + p.c * 0x100 + p.d == q.a * 0x100_0000 + q.b * 0x1_0000
                + q.c * 0x100 + q.d,
    ;
}

/// The name of a local network: the first three parts of an address.
pub open spec fn group_spec(ip: Ipv4) -> Seq<char> {
    text::dec(ip.a as nat) + "."@ + text::dec(ip.b as nat) + "."@ + text::dec(ip.c as nat)
}

/// The name of a local network.
pub fn group_of(ip: Ipv4) -> (r: String)
    ensures
        r@ == group_spec(ip),
{
    let mut s = to_dec(ip.a as u64);
    s.append(".");
    s.append(to_dec(ip.b as u64).as_str());
    s.append(".");
    s.append(to_dec(ip.c as u64).as_str());
    s
}

/// The name of this machine's local network: the configured one; else that of the best address; else
/// that of the address under which it reaches the outside; else none. `chosen` is what
/// [`pick_lan_ipv4`] gives on the machine's addresses.
pub open spec fn lan_group_spec(
    configured: Seq<char>,
    chosen: Option<Ipv4>,
    outgoing: Option<Ipv4>,
) -> Seq<char> {
    if configured.len() > 0 {
        configured
    } else if chosen is Some {
        group_spec(chosen->0)
    } else if outgoing is Some {
        group_spec(outgoing->0)
    } else {
        ""@
    }
}

/// The name of this machine's local network.
pub fn infer_lan_group(configured: &str, candidates: &[Ipv4], outgoing: Option<Ipv4>) -> (r: String)
    ensures
        exists|chosen: Option<Ipv4>|
            {
                &&& r@ == #[trigger] lan_group_spec(configured@, chosen, outgoing)
                &&& match chosen {
                    Some(p) => is_best(candidates@, p),
                    None => forall|i: int|
                        0 <= i < candidates@.len() ==> !(#[trigger] candidates@[i]).is_eligible(),
                }
            },
{
    let chosen = pick_lan_ipv4(candidates);
    let r = if !configured.is_empty() {
        configured.to_owned()
    } else {
        match chosen {
            Some(ip) => group_of(ip),
            None => match outgoing {
                Some(ip) => group_of(ip),
                None => "".to_owned(),
            },
        }
    };
    assert(r@ == lan_group_spec(configured@, chosen, outgoing));
    r
}

/// The name of a local network says nothing: it does not begin with three numbers up to 255, or they
/// are in a range that proxies, carriers and VPNs use.
pub open spec fn is_unreliable(g: Seq<char>) -> bool {
    let p = text::split(g, '.');
    if p.len() < 3 {
        true
    } else {
        let a = text::parse_dec_spec(p[0], 255);
        let b = text::parse_dec_spec(p[1], 255);
        let c = text::parse_dec_spec(p[2], 255);
        if a is None || b is None || c is None {
            true
        } else {
            (Ipv4 { a: a->0 as u8, b: b->0 as u8, c: c->0 as u8, d: 0 }).is_virtual_spec()
        }
    }
}

/// Whether the name of a local network says nothing.
pub fn group_is_unreliable(g: &str) -> (r: bool)
    ensures
        r == is_unreliable(g@),
{
    let p = split_on(g, '.');
    let ghost all = text::split(g@, '.');
    assert(all.len() == p@.len());
    if p.len() < 3 {
        return true;
    }
    assert(all[0] == p@[0]@ && all[1] == p@[1]@ && all[2] == p@[2]@);
    match (
        parse_dec(p[0].as_str(), 255),
        parse_dec(p[1].as_str(), 255),
        parse_dec(p[2].as_str(), 255),
    ) {
        (Some(a), Some(b), Some(c)) => is_virtual_or_reserved(
            Ipv4 { a: a as u8, b: b as u8, c: c as u8, d: 0 },
        ),
        _ => true,
    }
}

/// Two devices may be in different local networks.
pub open spec fn differ(a: Seq<char>, b: Seq<char>) -> bool {
    is_unreliable(a) || is_unreliable(b) || a != b
}

/// Whether an update between two devices has to go through the server: their networks differ, or it
/// cannot be told. An update too many does less harm than one that is lost.
pub fn lan_differ(a: &str, b: &str) -> (r: bool)
    ensures
        r == differ(a@, b@),
{
    group_is_unreliable(a) || group_is_unreliable(b) || !same(a, b)
}

/// Whether two devices may be in different networks does not depend on which of them asks.
pub proof fn law_differing_is_symmetric(a: Seq<char>, b: Seq<char>)
    ensures
        differ(a, b) == differ(b, a),
{
}

/// Only two devices with the same network name that says something are taken to be in one network.
pub proof fn law_same_network_only_when_certain(a: Seq<char>, b: Seq<char>)
    requires
        !differ(a, b),
    ensures
        a == b,
        !is_unreliable(a),
{
}

/// Which addresses are private, which say nothing of the local network, and which may stand for one.
pub proof fn law_ranges_of_addresses(p: Ipv4)
    ensures
        p.is_private_spec() <==> p.a == 10 || (p.a == 172 && 16 <= p.b < 32) || (p.a == 192 && p.b
            == 168),
        p.is_eligible() <==> p.a != 127 && !(p.a == 169 && p.b == 254) && !(p.a == 198 && 18 <= p.b
            <= 19) && !(p.a == 100 && 64 <= p.b < 128),
{
}

/// The address that stands for the local network is one of the machine's own that may stand for it; it
/// is a private one where there is any, and the least of these.
pub proof fn law_private_addresses_go_first(c: Seq<Ipv4>, p: Ipv4, i: int)
    requires
        is_best(c, p),
        0 <= i < c.len(),
        c[i].is_eligible(),
    ensures
        c.contains(p),
        p.is_eligible(),
        c[i].is_private_spec() ==> p.is_private_spec(),
        c[i].is_private_spec() == p.is_private_spec() ==> p.a < c[i].a || (p.a == c[i].a && (p.b
            < c[i].b || (p.b == c[i].b && (p.c < c[i].c || (p.c == c[i].c && p.d <= c[i].d))))),
{
    let q = c[i];
    if q.is_private_spec() == p.is_private_spec() {
        assert(p.value() <= q.value());
        assert(p.a < q.a || (p.a == q.a && (p.b < q.b || (p.b == q.b && (p.c < q.c || (p.c == q.c && p.d
            <= q.d)))))) by (nonlinear_arith)
            requires
                p.a * 0x100_0000 + p.b * 0x1_0000 + p.c * 0x100 + p.d <= q.a * 0x100_0000 + q.b
                    * 0x1_0000 + q.c * 0x100 + q.d,
        ;
    }
}

proof fn lemma_no_dot(n: nat)
    ensures
        forall|i: int| 0 <= i < text::dec(n).len() ==> #[trigger] text::dec(n)[i] != '.',
        text::dec(n).len() > 0,
{
    text::lemma_dec_round_trip(n);
    assert forall|i: int| 0 <= i < text::dec(n).len() implies #[trigger] text::dec(n)[i] != '.' by {
        assert(text::is_digit(text::dec(n)[i]));
    }
}

proof fn lemma_split_front(x: Seq<char>, rest: Seq<char>)
    requires
        forall|i: int| 0 <= i < x.len() ==> #[trigger] x[i] != '.',
    ensures
        text::split(x.push('.') + rest, '.') == seq![x] + text::split(rest, '.'),
        text::split(x, '.') == seq![x],
{
    let s = x.push('.') + rest;
    assert forall|i: int| 0 <= i < x.len() implies s[i] != '.' by {
        assert(s[i] == x[i]);
    }
    text::lemma_find_is(s, '.', x.len() as int);
    text::lemma_find_is(x, '.', x.len() as int);
    assert(s.take(x.len() as int) =~= x);
    assert(s.skip(x.len() as int + 1) =~= rest);
}

proof fn lemma_group_split(ip: Ipv4)
    ensures
        text::split(group_spec(ip), '.') == seq![
            text::dec(ip.a as nat),
            text::dec(ip.b as nat),
            text::dec(ip.c as nat),
        ],
{
    reveal_strlit(".");
    assert("."@ =~= seq!['.']);
    let (a, b, c) = (text::dec(ip.a as nat), text::dec(ip.b as nat), text::dec(ip.c as nat));
    lemma_no_dot(ip.a as nat);
    lemma_no_dot(ip.b as nat);
    lemma_no_dot(ip.c as nat);
    assert(group_spec(ip) =~= a.push('.') + (b.push('.') + c));
    lemma_split_front(a, b.push('.') + c);
    lemma_split_front(b, c);
    lemma_split_front(c, seq![]);
    assert(seq![a] + (seq![b] + seq![c]) =~= seq![a, b, c]);
}

/// Two devices whose addresses may stand for a local network are taken to be in one exactly where the
/// first three parts of their addresses agree.
pub proof fn law_networks_are_told_by_three_parts(x: Ipv4, y: Ipv4)
    ensures
        group_spec(x) == group_spec(y) <==> x.a == y.a && x.b == y.b && x.c == y.c,
        is_unreliable(group_spec(x)) <==> (x.a == 198 && 18 <= x.b <= 19) || (x.a == 100 && 64 <= x.b
            < 128),
        x.is_eligible() && y.is_eligible() ==> (differ(group_spec(x), group_spec(y)) <==> x.a != y.a
            || x.b != y.b || x.c != y.c),
{
    lemma_group_split(x);
    lemma_group_split(y);
    let p = text::split(group_spec(x), '.');
    let q = text::split(group_spec(y), '.');
    text::lemma_dec_round_trip(x.a as nat);
    text::lemma_dec_round_trip(x.b as nat);
    text::lemma_dec_round_trip(x.c as nat);
    text::lemma_dec_round_trip(y.a as nat);
    text::lemma_dec_round_trip(y.b as nat);
    text::lemma_dec_round_trip(y.c as nat);
    if group_spec(x) == group_spec(y) {
        assert(p[0] == q[0] && p[1] == q[1] && p[2] == q[2]);
    }
}

/// A network name without two dots says nothing, and a device without one may be anywhere.
pub proof fn law_unnamed_networks_may_be_anywhere(a: Seq<char>, b: Seq<char>)
    requires
        forall|i: int| 0 <= i < a.len() ==> #[trigger] a[i] != '.',
    ensures
        is_unreliable(a),
        differ(a, b),
        differ(b, a),
{
    lemma_split_front(a, seq![]);
}

/// What is configured goes before what is found out; the best address goes before the one under which
/// the machine reaches the outside.
pub proof fn law_the_configured_network_goes_first(s: Seq<char>, x: Ipv4, y: Option<Ipv4>)
    ensures
        s.len() > 0 ==> lan_group_spec(s, Some(x), y) == s && lan_group_spec(s, None, y) == s,
        s.len() == 0 ==> lan_group_spec(s, Some(x), y) == group_spec(x),
        s.len() == 0 && y is Some ==> lan_group_spec(s, None, y) == group_spec(y->0),
        s.len() == 0 && y is None ==> lan_group_spec(s, None, y).len() == 0,
{
    reveal_strlit("");
}

} // verus!
