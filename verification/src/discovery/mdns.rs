//! What to do with the services that are found on the local network.
//!
//! Every device announces a service with its identifier, its name and the port on which it listens.

use vstd::prelude::*;

use crate::clipboard::types::DeviceId;
use crate::device::registry::{DeviceRegistry, PairedDevice};
use crate::discovery::DiscoveredPeer;
use crate::strmap::StrMap;
use crate::text;
use crate::text::{chars_of, concat, concat3, ends_with, same, string_of_range, strip_prefix};
use crate::transfer::manager;
use crate::transfer::manager::{addr_key, ConnectionHub};

verus! {

/// The type of the service.
pub const SERVICE_TYPE: &'static str = "_clipsync._tcp.local.";

/// The name of a device's service.
pub open spec fn instance_spec(device_id: Seq<char>) -> Seq<char> {
    "clipsync-"@ + device_id
}

/// The name of a device's service.
pub fn instance_name(device_id: &str) -> (r: String)
    ensures
        r@ == instance_spec(device_id@),
{
    concat("clipsync-", device_id)
}

/// The host name of a device's service. It has to end in `.local.`.
pub fn host_name(device_id: &str) -> (r: String)
    ensures
        r@ == instance_spec(device_id@) + ".local."@,
{
    concat3("clipsync-", device_id, ".local.")
}

/// The full name of a device's service.
pub open spec fn full_name(device_id: Seq<char>) -> Seq<char> {
    instance_spec(device_id) + "._clipsync._tcp.local."@
}

/// The device of a service: what stands between the two fixed parts of the full name, or the whole
/// name where they do not stand there.
pub open spec fn service_device_spec(full: Seq<char>) -> Seq<char> {
    let head = "clipsync-"@;
    let tail = "._clipsync._tcp.local."@;
    if head.is_prefix_of(full) && text::has_suffix(full.skip(head.len() as int), tail) {
        full.subrange(head.len() as int, full.len() - tail.len())
    } else {
        full
    }
}

/// The device of a service that is gone.
pub fn service_device(full: &str) -> (r: String)
    ensures
        r@ == service_device_spec(full@),
{
    match strip_prefix(full, "clipsync-") {
        Some(rest) => {
            if ends_with(rest.as_str(), "._clipsync._tcp.local.") {
                let v = chars_of(rest.as_str());
                let w = chars_of("._clipsync._tcp.local.");
                let r = string_of_range(&v, 0, v.len() - w.len());
                assert(r@ =~= service_device_spec(full@));
                r
            } else {
                full.to_owned()
            }
        },
        None => full.to_owned(),
    }
}

/// The device of a service is the one that announced it.
pub proof fn law_service_names_read_back(device_id: Seq<char>)
    ensures
        service_device_spec(full_name(device_id)) == device_id,
{
    let head = "clipsync-"@;
    let tail = "._clipsync._tcp.local."@;
    let f = full_name(device_id);
    assert(f.subrange(0, head.len() as int) =~= head);
    let rest = f.skip(head.len() as int);
    assert(rest =~= device_id + tail);
    assert(rest.subrange(rest.len() - tail.len(), rest.len() - tail.len() + tail.len()) =~= tail);
    assert(f.subrange(head.len() as int, f.len() - tail.len()) =~= device_id);
}

/// An address of a service.
#[derive(Debug)]
pub struct ServiceAddress {
    pub text: String,
    pub is_ipv4: bool,
    pub is_loopback: bool,
}

/// The position of the first address that other machines can reach.
pub open spec fn first_reachable(a: Seq<ServiceAddress>) -> int
    decreases a.len(),
{
    if a.len() == 0 {
        0
    } else if a[0].is_ipv4 && !a[0].is_loopback {
        0
    } else {
        1 + first_reachable(a.drop_first())
    }
}

/// The address that a device is dialled under: the first IPv4 address that is not the machine's own,
/// else the first of all, else none.
pub open spec fn chosen_address(a: Seq<ServiceAddress>) -> Seq<char> {
    let i = first_reachable(a);
    if 0 <= i < a.len() {
        a[i].text@
    } else if a.len() > 0 {
        a[0].text@
    } else {
        ""@
    }
}

/// The address that a device is dialled under.
pub fn choose_address(a: &Vec<ServiceAddress>) -> (r: String)
    ensures
        r@ == chosen_address(a@),
{
    let mut i: usize = 0;
    assert(a@.skip(0) =~= a@);
    while i < a.len()
        invariant
            i <= a@.len(),
            first_reachable(a@) == i + first_reachable(a@.skip(i as int)),
        decreases a@.len() - i,
    {
        assert(a@.skip(i as int)[0] == a@[i as int]);
        if a[i].is_ipv4 && !a[i].is_loopback {
            return a[i].text.clone();
        }
        assert(a@.skip(i as int).drop_first() =~= a@.skip(i + 1));
        i += 1;
    }
    assert(first_reachable(a@) == a@.len());
    if a.len() > 0 {
        a[0].text.clone()
    } else {
        "".to_owned()
    }
}

/// What a service says of its device.
#[derive(Debug)]
pub struct ResolvedService {
    pub device_id: Option<String>,
    pub device_name: Option<String>,
    pub addresses: Vec<ServiceAddress>,
    pub port: u16,
}

/// What came of a service that was found.
pub enum Resolved {
    /// It belongs to this device, or to none.
    Skip,
    /// It belongs to a paired device, whose entry was refreshed. `replaced` is the identifier that
    /// the device had before, `secret` what has to be stored under the new one.
    Paired { device: PairedDevice, replaced: Option<String>, secret: Option<String> },
    /// It belongs to a device that is not paired.
    Found(DiscoveredPeer),
}

/// `d` with what was found of it.
pub open spec fn refreshed(d: PairedDevice, id: Seq<char>, name: Seq<char>, key: Seq<char>, now: u64, r: PairedDevice) -> bool {
    &&& r.device_id.0@ == id
    &&& r.device_name@ == name
    &&& r.fingerprint == d.fingerprint
    &&& r.trust == d.trust
    &&& r.last_seen == now
    &&& r.last_addr is Some
    &&& r.last_addr->0@ == key
}

/// The name that a service gives, or none.
pub open spec fn name_spec(n: Option<String>) -> Seq<char> {
    match n {
        Some(s) => s@,
        None => ""@,
    }
}

/// `p` is the device of a service.
pub open spec fn describes(p: DiscoveredPeer, id: Seq<char>, info: ResolvedService) -> bool {
    &&& p.device_id@ == id
    &&& p.device_name@ == name_spec(info.device_name)
    &&& p.addr@ == chosen_address(info.addresses@)
    &&& p.port == info.port
}

/// The table of the devices that were found has the device of a service, and is otherwise as before.
pub open spec fn listed(
    before: Map<Seq<char>, DiscoveredPeer>,
    after: Map<Seq<char>, DiscoveredPeer>,
    id: Seq<char>,
    info: ResolvedService,
) -> bool {
    exists|p: DiscoveredPeer| #[trigger] before.insert(id, p) == after && describes(p, id, info)
}

/// Takes in a service that was found. Its device is listed as found, paired or not: the rounds of
/// reconnecting go by that table, and only what is shown of it leaves the paired devices out.
///
/// A paired device is known by its identifier, or, where it came back under a new one, by its
/// address: then its entry and its link secret move to the new identifier. The name, the address
/// and the time of a paired device are refreshed.
pub fn on_resolved(
    hub: &mut ConnectionHub,
    registry: &mut DeviceRegistry,
    discovered: &mut StrMap<DiscoveredPeer>,
    info: ResolvedService,
    now: u64,
) -> (r: Resolved)
    ensures
        info.device_id is None || info.device_id->0@ == old(hub).identity.id.0@ ==> r is Skip
            && *final(hub) == *old(hub) && *final(registry) == *old(registry) && *final(discovered)
            == *old(discovered),
        info.device_id is Some && info.device_id->0@ != old(hub).identity.id.0@ ==> {
            let id = info.device_id->0@;
            let name = name_spec(info.device_name);
            let key = manager::addr_key_spec(chosen_address(info.addresses@), info.port);
            match r {
                Resolved::Skip => false,
                Resolved::Paired { device, replaced: None, secret } => {
                    &&& old(registry)@.dom().contains(id)
                    &&& refreshed(old(registry)@[id], id, name, key, now, device)
                    &&& final(registry)@ == old(registry)@.insert(id, device)
                    &&& secret is None
                    &&& *final(hub) == *old(hub)
                    &&& listed(old(discovered)@, final(discovered)@, id, info)
                },
                Resolved::Paired { device, replaced: Some(gone), secret } => {
                    &&& !old(registry)@.dom().contains(id)
                    &&& old(registry)@.dom().contains(gone@)
                    &&& old(registry)@[gone@].last_addr is Some
                    &&& old(registry)@[gone@].last_addr->0@ == key
                    &&& refreshed(old(registry)@[gone@], id, name, key, now, device)
                    &&& final(registry)@ == old(registry)@.remove(gone@).insert(id, device)
                    &&& match secret {
                        Some(s) => old(hub).paired_codes@.dom().contains(gone@) && final(
                            hub).paired_codes@ == old(hub).paired_codes@.remove(gone@).insert(
                            id,
                            s,
                        ) && s == old(hub).paired_codes@[gone@],
                        None => (gone@ == id || !old(hub).paired_codes@.dom().contains(gone@))
                            && final(hub).paired_codes@ == old(hub).paired_codes@,
                    }
                    &&& listed(old(discovered)@, final(discovered)@, id, info)
                },
                Resolved::Found(p) => {
                    &&& !old(registry)@.dom().contains(id)
                    &&& forall|k: Seq<char>| #[trigger]
                        old(registry)@.dom().contains(k) ==> !(old(registry)@[k].last_addr is Some
                            && old(registry)@[k].last_addr->0@ == key)
                    &&& describes(p, id, info)
                    &&& final(discovered)@ == old(discovered)@.insert(id, p)
                    &&& *final(registry) == *old(registry)
                    &&& *final(hub) == *old(hub)
                },
            }
        },
        *final(hub) == (ConnectionHub {
            paired_codes: final(hub).paired_codes,
            ..*old(hub)
        }),
{
    let id = match info.device_id {
        Some(id) => id,
        None => {
            return Resolved::Skip;
        },
    };
    if same(id.as_str(), hub.identity.id.0.as_str()) {
        return Resolved::Skip;
    }
    let name = match info.device_name {
        Some(n) => n,
        None => "".to_owned(),
    };
    let addr = choose_address(&info.addresses);
    let key = addr_key(addr.as_str(), info.port);
    let device_id = DeviceId(id.clone());
    let peer = DiscoveredPeer {
        device_id: id.clone(),
        device_name: name.clone(),
        addr,
        port: info.port,
    };
    let _ = discovered.insert(id.clone(), peer.clone());
    assert(old(discovered)@.insert(id@, peer) == discovered@);
    let known = match registry.get(&device_id) {
        Some(d) => Some(d.clone()),
        None => None,
    };
    match known {
        Some(d) => {
            let device = PairedDevice {
                device_id,
                device_name: name,
                fingerprint: d.fingerprint,
                trust: d.trust,
                last_seen: now,
                last_addr: Some(key),
            };
            registry.add(device.clone());
            return Resolved::Paired { device, replaced: None, secret: None };
        },
        None => {},
    }
    match registry.find_by_addr(key.as_str()) {
        Some(d) => {
            let gone = d.device_id.0.clone();
            let secret = hub.migrate_pairing(gone.as_str(), id.as_str());
            let device = PairedDevice {
                device_id,
                device_name: name,
                fingerprint: d.fingerprint,
                trust: d.trust,
                last_seen: now,
                last_addr: Some(key),
            };
            let _ = registry.remove(&DeviceId(gone.clone()));
            registry.add(device.clone());
            Resolved::Paired { device, replaced: Some(gone), secret }
        },
        None => Resolved::Found(peer),
    }
}

/// Takes a service out that is gone. Returns its device, and whether that is told: a paired device
/// counts as gone only when its connection ends.
pub fn on_removed(
    hub: &ConnectionHub,
    discovered: &mut StrMap<DiscoveredPeer>,
    full: &str,
) -> (r: (String, bool))
    ensures
        r.0@ == service_device_spec(full@),
        r.1 == !hub.paired_codes@.dom().contains(r.0@),
        final(discovered)@ == old(discovered)@.remove(r.0@),
{
    let id = service_device(full);
    let _ = discovered.remove(id.as_str());
    let tell = !hub.is_paired(id.as_str());
    (id, tell)
}

/// The service of a device carries its identifier between `clipsync-` and the type of the service.
pub proof fn law_services_are_named_after_their_device(id: Seq<char>)
    ensures
        instance_spec(id) == "clipsync-"@ + id,
        full_name(id) == "clipsync-"@ + id + "._clipsync._tcp.local."@,
        service_device_spec("clipsync-"@ + id + "._clipsync._tcp.local."@) == id,
{
    law_service_names_read_back(id);
}

/// A device is dialled under the first of its IPv4 addresses that is not its own loopback; where it has
/// none, under the first address of all.
pub proof fn law_reachable_addresses_go_first(a: Seq<ServiceAddress>, i: int)
    ensures
        0 <= i < a.len() && a[i].is_ipv4 && !a[i].is_loopback && (forall|k: int|
            0 <= k < i ==> !((#[trigger] a[k]).is_ipv4 && !a[k].is_loopback)) ==> chosen_address(a)
            == a[i].text@,
        a.len() > 0 && (forall|k: int|
            0 <= k < a.len() ==> !((#[trigger] a[k]).is_ipv4 && !a[k].is_loopback)) ==> chosen_address(a)
            == a[0].text@,
        a.len() == 0 ==> chosen_address(a).len() == 0,
{
    reveal_strlit("");
    lemma_first_reachable(a);
    let f = first_reachable(a);
    if 0 <= i < a.len() && a[i].is_ipv4 && !a[i].is_loopback && (forall|k: int|
        0 <= k < i ==> !((#[trigger] a[k]).is_ipv4 && !a[k].is_loopback)) {
        if f < i {
            assert(!(a[f].is_ipv4 && !a[f].is_loopback));
        } else if f > i {
            assert(!(a[i].is_ipv4 && !a[i].is_loopback));
        }
    }
    if forall|k: int| 0 <= k < a.len() ==> !((#[trigger] a[k]).is_ipv4 && !a[k].is_loopback) {
        if f < a.len() {
            assert(!(a[f].is_ipv4 && !a[f].is_loopback));
        }
    }
}

proof fn lemma_first_reachable(a: Seq<ServiceAddress>)
    ensures
        0 <= first_reachable(a) <= a.len(),
        first_reachable(a) < a.len() ==> a[first_reachable(a)].is_ipv4
            && !a[first_reachable(a)].is_loopback,
        forall|k: int|
            0 <= k < first_reachable(a) ==> !((#[trigger] a[k]).is_ipv4 && !a[k].is_loopback),
    decreases a.len(),
{
    if a.len() > 0 && !(a[0].is_ipv4 && !a[0].is_loopback) {
        let t = a.drop_first();
        lemma_first_reachable(t);
        assert forall|k: int| 0 <= k < first_reachable(a) implies !((#[trigger] a[k]).is_ipv4
            && !a[k].is_loopback) by {
            if k > 0 {
                assert(a[k] == t[k - 1]);
            }
        }
    }
}

/// A device that is listed as found has the identifier, name, address and port of its service; the other
/// entries of the table stay.
pub proof fn law_found_devices_are_listed_as_they_are(
    before: Map<Seq<char>, DiscoveredPeer>,
    after: Map<Seq<char>, DiscoveredPeer>,
    id: Seq<char>,
    info: ResolvedService,
    other: Seq<char>,
)
    requires
        listed(before, after, id, info),
    ensures
        after.dom().contains(id),
        after[id].device_id@ == id,
        info.device_name is Some ==> after[id].device_name@ == info.device_name->0@,
        after[id].addr@ == chosen_address(info.addresses@),
        after[id].port == info.port,
        other != id ==> after.dom().contains(other) == before.dom().contains(other),
        other != id && before.dom().contains(other) ==> after[other] == before[other],
{
}

/// A paired device that was found keeps its fingerprint and trust, and takes over the identifier, name,
/// address and time.
pub proof fn law_refreshed_devices_keep_their_trust(
    d: PairedDevice,
    id: Seq<char>,
    name: Seq<char>,
    key: Seq<char>,
    now: u64,
    r: PairedDevice,
)
    requires
        refreshed(d, id, name, key, now, r),
    ensures
        r.fingerprint@ == d.fingerprint@,
        r.trust == d.trust,
        r.device_id.0@ == id,
        r.device_name@ == name,
        r.last_seen == now,
        r.last_addr is Some && r.last_addr->0@ == key,
{
}

} // verus!
