//! What the windows ask for.

use vstd::prelude::*;

use crate::cache::file_cache::FileCache;
use crate::config::settings::ManualAddress;
use crate::config::AppConfig;
use crate::crypto::pake;
use crate::crypto::pake::generate_pairing_code;
use crate::device::registry::{DeviceRegistry, PairedDevice, TrustLevel};
use crate::discovery::manual::ManualAddressBook;
use crate::discovery::DiscoveredPeer;
use crate::server_conn::conn::{RemoteNode, ServerConn, ServerStatus};
use crate::strmap::StrMap;
use crate::text;
use crate::text::{chars_of, concat3, find_from, string_of_range, trim};
use crate::transfer::manager::ConnectionHub;

verus! {

// ---------------------------------------------------------------------------
// The settings
// ---------------------------------------------------------------------------

/// The host in an address: what stands before the first `:`, trimmed.
pub open spec fn host_of(ep: Seq<char>) -> Seq<char> {
    text::trimmed(ep.take(text::find(ep, ':')))
}

/// The settings as they are kept: a port must be given, and of the address for other networks only the
/// host counts, for the port is always the one on which this device listens.
pub fn check_config(cfg: AppConfig) -> (r: Result<AppConfig, String>)
    ensures
        match r {
            Ok(c) => {
                &&& cfg.listen_port != 0
                &&& c.ext_file_ep@ == host_of(cfg.ext_file_ep@)
                &&& c == (AppConfig { ext_file_ep: c.ext_file_ep, ..cfg })
            },
            Err(e) => cfg.listen_port == 0 && e@ == "listen_port 不能为 0（有效范围 1..=65535）"@,
        },
{
    if cfg.listen_port == 0 {
        return Err("listen_port 不能为 0（有效范围 1..=65535）".to_owned());
    }
    let mut cfg = cfg;
    let v = chars_of(cfg.ext_file_ep.as_str());
    proof {
        text::lemma_find(v@, ':');
        assert(v@.skip(0) =~= v@);
    }
    let end: usize = find_from(&v, 0, ':');
    let host = string_of_range(&v, 0, end);
    assert(host@ =~= v@.take(end as int));
    cfg.ext_file_ep = trim(host.as_str());
    Ok(cfg)
}

/// The address book that holds these addresses. Of two with one label the later one counts.
pub open spec fn book_spec(addresses: Seq<ManualAddress>) -> Map<Seq<char>, ManualAddress>
    decreases addresses.len(),
{
    if addresses.len() == 0 {
        Map::empty()
    } else {
        book_spec(addresses.drop_last()).insert(addresses.last().label@, addresses.last())
    }
}

/// The address book that holds the addresses of the settings.
pub fn book_of(addresses: &Vec<ManualAddress>) -> (r: ManualAddressBook)
    ensures
        r@ == book_spec(addresses@),
{
    let mut book = ManualAddressBook::new();
    let n: usize = addresses.len();
    let mut i: usize = 0;
    assert(addresses@.take(0) =~= Seq::<ManualAddress>::empty());
    while i < n
        invariant
            n == addresses@.len(),
            i <= n,
            book@ == book_spec(addresses@.take(i as int)),
        decreases n - i,
    {
        assert(addresses@.take(i + 1).drop_last() =~= addresses@.take(i as int));
        book.add(addresses[i].clone());
        i += 1;
    }
    assert(addresses@.take(n as int) =~= addresses@);
    book
}

/// Puts settings into effect: the pairing code, the bounds, and the address book.
pub fn apply_config(hub: &mut ConnectionHub, book: &mut ManualAddressBook, cfg: &AppConfig)
    ensures
        *final(hub) == (ConnectionHub {
            pairing_code: cfg.pairing_code,
            max_folder_files: cfg.max_folder_files,
            auto_pull_enabled: cfg.auto_pull_enabled,
            auto_pull_threshold: cfg.threshold() as u64,
            ..*old(hub)
        }),
        final(book)@ == book_spec(cfg.manual_addresses@),
{
    hub.set_pairing_code(cfg.pairing_code.clone());
    hub.set_max_folder_files(cfg.max_folder_files);
    hub.set_auto_pull(cfg.auto_pull_enabled, cfg.auto_pull_threshold_bytes());
    *book = book_of(&cfg.manual_addresses);
}

/// Puts a new pairing code into the settings. It is in effect once the settings are saved and the
/// code was handed to `ConnectionHub::set_pairing_code`. Devices that are paired do not need it.
pub fn regenerate_pairing_code(cfg: &mut AppConfig) -> (r: String)
    ensures
        pake::is_drawn_code(r@),
        exists|random: Seq<u8>| random.len() == pake::CODE_LEN && r@ == pake::code_of(random),
        pake::is_current_code(r@),
        pake::normalized_code(r@) == r@,
        final(cfg).pairing_code@ == r@,
        *final(cfg) == (AppConfig { pairing_code: final(cfg).pairing_code, ..*old(cfg) }),
{
    let code = generate_pairing_code();
    cfg.pairing_code = code.clone();
    code
}

// ---------------------------------------------------------------------------
// Devices
// ---------------------------------------------------------------------------

/// What is shown of a paired device.
#[derive(Debug)]
pub struct DeviceInfo {
    pub id: String,
    pub name: String,
    pub fingerprint: String,
    pub trusted: bool,
    pub last_seen: u64,
    /// The address under which it was last reached.
    pub last_addr: Option<String>,
}

/// What is shown of a paired device.
pub open spec fn info_of(p: PairedDevice) -> DeviceInfo {
    DeviceInfo {
        id: p.device_id.0,
        name: p.device_name,
        fingerprint: p.fingerprint,
        trusted: p.trust is Verified,
        last_seen: p.last_seen,
        last_addr: p.last_addr,
    }
}

impl From<PairedDevice> for DeviceInfo {
    fn from(p: PairedDevice) -> (r: Self) {
        DeviceInfo {
            id: p.device_id.0,
            name: p.device_name,
            fingerprint: p.fingerprint,
            trusted: match p.trust {
                TrustLevel::Verified => true,
                TrustLevel::Unverified => false,
            },
            last_seen: p.last_seen,
            last_addr: p.last_addr,
        }
    }
}

impl vstd::std_specs::convert::FromSpecImpl<PairedDevice> for DeviceInfo {
    open spec fn obeys_from_spec() -> bool {
        true
    }

    open spec fn from_spec(p: PairedDevice) -> Self {
        info_of(p)
    }
}

/// What is shown of the paired devices, each once.
pub fn get_paired_devices(registry: &DeviceRegistry) -> (r: Vec<DeviceInfo>)
    ensures
        registry.order().no_duplicates(),
        registry.order().to_set() == registry@.dom(),
        r@.len() == registry.order().len(),
        forall|i: int|
            0 <= i < r@.len() ==> #[trigger] r@[i] == info_of(registry@[registry.order()[i]])
                && r@[i].id@ == registry.order()[i],
{
    let all = registry.list();
    let n: usize = all.len();
    let mut out: Vec<DeviceInfo> = Vec::new();
    let mut i: usize = 0;
    while i < n
        invariant
            n == all@.len(),
            n == registry.order().len(),
            i <= n,
            forall|k: int|
                0 <= k < n ==> #[trigger] all@[k] == registry@[registry.order()[k]]
                    && all@[k].device_id.0@ == registry.order()[k],
            out@.len() == i,
            forall|k: int|
                0 <= k < i ==> #[trigger] out@[k] == info_of(registry@[registry.order()[k]])
                    && out@[k].id@ == registry.order()[k],
        decreases n - i,
    {
        let info = DeviceInfo::from(all[i].clone());
        assert(all@[i as int] == registry@[registry.order()[i as int]]);
        out.push(info);
        i += 1;
    }
    out
}

/// The devices of `order` that were found and are not paired.
pub open spec fn unpaired(
    order: Seq<Seq<char>>,
    discovered: Map<Seq<char>, DiscoveredPeer>,
    paired: Set<Seq<char>>,
) -> Seq<DiscoveredPeer>
    decreases order.len(),
{
    if order.len() == 0 {
        seq![]
    } else {
        let init = unpaired(order.drop_last(), discovered, paired);
        let p = discovered[order.last()];
        if paired.contains(p.device_id@) {
            init
        } else {
            init.push(p)
        }
    }
}

/// The devices that were found on the local network and are not paired. A paired one is shown among
/// the paired ones.
pub fn list_discovered_peers(registry: &DeviceRegistry, discovered: &StrMap<DiscoveredPeer>) -> (r: Vec<
    DiscoveredPeer,
>)
    ensures
        discovered.order().no_duplicates(),
        discovered.order().to_set() == discovered@.dom(),
        r@ == unpaired(discovered.order(), discovered@, registry@.dom()),
{
    let n: usize = discovered.len();
    let ghost order = discovered.order();
    let mut out: Vec<DiscoveredPeer> = Vec::new();
    let mut i: usize = 0;
    assert(order.take(0) =~= Seq::<Seq<char>>::empty());
    while i < n
        invariant
            n == order.len(),
            order == discovered.order(),
            i <= n,
            out@ == unpaired(order.take(i as int), discovered@, registry@.dom()),
        decreases n - i,
    {
        assert(order.take(i + 1).drop_last() =~= order.take(i as int));
        assert(order.take(i + 1).last() == order[i as int]);
        let (_key, p) = discovered.at(i);
        if !registry.contains(&crate::clipboard::types::DeviceId(p.device_id.clone())) {
            out.push(p.clone());
        }
        i += 1;
    }
    assert(order.take(n as int) =~= order);
    out
}

/// The device that is to be paired with; an error where it was not found.
pub fn find_discovered(discovered: &StrMap<DiscoveredPeer>, device_id: &str) -> (r: Result<
    DiscoveredPeer,
    String,
>)
    ensures
        match r {
            Ok(p) => discovered@.dom().contains(device_id@) && p == discovered@[device_id@],
            Err(e) => !discovered@.dom().contains(device_id@) && e@ == "未发现设备 "@ + device_id@
                + "（请确认对方已上线且在局域网内）"@,
        },
{
    match discovered.get(device_id) {
        Some(p) => Ok(p.clone()),
        None => Err(concat3("未发现设备 ", device_id, "（请确认对方已上线且在局域网内）")),
    }
}

/// Whether an address that was typed can be dialled: it must not be blank.
pub fn check_manual_addr(addr: &str) -> (r: Result<(), String>)
    ensures
        r is Err <==> text::trimmed(addr@).len() == 0,
        r matches Err(e) ==> e@ == "地址不能为空"@,
{
    if trim(addr).as_str().is_empty() {
        Err("地址不能为空".to_owned())
    } else {
        Ok(())
    }
}

/// Takes an address out of the book; an error where there is none with this label.
pub fn remove_manual_address(book: &mut ManualAddressBook, label: &str) -> (r: Result<(), String>)
    ensures
        final(book)@ == old(book)@.remove(label@),
        r is Ok <==> old(book)@.dom().contains(label@),
        r matches Err(e) ==> e@ == "manual address '"@ + label@ + "' not found"@,
{
    if book.remove(label) {
        Ok(())
    } else {
        Err(concat3("manual address '", label, "' not found"))
    }
}

// ---------------------------------------------------------------------------
// The rest
// ---------------------------------------------------------------------------

/// What is shown of the cache.
#[derive(Debug, Clone, Copy)]
pub struct CacheStats {
    pub entries: usize,
}

/// What is shown of the cache.
pub fn cache_stats(cache: &FileCache) -> (r: CacheStats)
    ensures
        r.entries == cache.entries().len(),
{
    CacheStats { entries: cache.len() }
}

/// The number under which the connection to the server is shown; 0 without one.
pub fn get_server_status(conn: Option<&ServerConn>) -> (r: u8)
    ensures
        r == match conn {
            Some(c) => c.status.code_spec(),
            None => 0,
        },
{
    match conn {
        Some(c) => c.status().code(),
        None => ServerStatus::Disconnected.code(),
    }
}

/// The devices of the network; none without a connection to the server.
pub fn get_server_nodes(conn: Option<&ServerConn>) -> (r: Vec<RemoteNode>)
    ensures
        r@ == match conn {
            Some(c) => c.nodes@,
            None => Seq::<RemoteNode>::empty(),
        },
{
    match conn {
        Some(c) => c.nodes(),
        None => Vec::new(),
    }
}

/// A device that is shown as found is not paired, and every device that was found and is not paired is
/// shown.
pub proof fn law_found_and_paired_do_not_overlap(
    order: Seq<Seq<char>>,
    discovered: Map<Seq<char>, DiscoveredPeer>,
    paired: Set<Seq<char>>,
    k: Seq<char>,
)
    requires
        order.contains(k),
    ensures
        forall|i: int|
            0 <= i < unpaired(order, discovered, paired).len() ==> !paired.contains(
                (#[trigger] unpaired(order, discovered, paired)[i]).device_id@,
            ),
        !paired.contains(discovered[k].device_id@) ==> unpaired(order, discovered, paired).contains(
            discovered[k],
        ),
    decreases order.len(),
{
    let j = choose|j: int| 0 <= j < order.len() && order[j] == k;
    let init = order.drop_last();
    let p = discovered[order.last()];
    let u = unpaired(init, discovered, paired);
    let v = unpaired(order, discovered, paired);
    if init.len() > 0 {
        let m = if j < init.len() {
            k
        } else {
            init[0]
        };
        if j < init.len() {
            assert(init[j] == k);
        } else {
            assert(init[0] == m);
        }
        assert(init.contains(m));
        law_found_and_paired_do_not_overlap(init, discovered, paired, m);
    }
    if !paired.contains(p.device_id@) {
        assert(v == u.push(p));
        assert(v[u.len() as int] == p);
    }
    if j < init.len() && !paired.contains(discovered[k].device_id@) {
        let i = choose|i: int| 0 <= i < u.len() && u[i] == discovered[k];
        assert(v[i] == discovered[k]);
    }
    assert forall|i: int| 0 <= i < v.len() implies !paired.contains((#[trigger] v[i]).device_id@) by {
        if i < u.len() {
            assert(v[i] == u[i]);
        }
    }
}

/// Of an address for other networks the host is kept, whatever port stands behind it.
pub proof fn law_ports_are_left_out(host: Seq<char>, rest: Seq<char>)
    requires
        !host.contains(':'),
        host.len() > 0 ==> !text::is_white(host[0]) && !text::is_white(host.last()),
    ensures
        host_of(host) == host,
        host_of(host.push(':') + rest) == host,
{
    let s = host.push(':') + rest;
    assert forall|i: int| 0 <= i < host.len() implies host[i] != ':' by {
        assert(host.contains(host[i]));
    }
    assert forall|i: int| 0 <= i < host.len() implies s[i] != ':' by {
        assert(s[i] == host[i]);
    }
    text::lemma_find_is(host, ':', host.len() as int);
    text::lemma_find_is(s, ':', host.len() as int);
    assert(host.take(host.len() as int) =~= host);
    assert(s.take(host.len() as int) =~= host);
    text::lemma_trimmed_fixed(host);
}

/// Every address of the settings is in the address book, under its label; of two with one label the
/// later one. Nothing else is in it.
pub proof fn law_every_address_is_in_the_book(a: Seq<ManualAddress>, label: Seq<char>)
    ensures
        book_spec(a).dom().contains(label) <==> exists|i: int|
            0 <= i < a.len() && (#[trigger] a[i]).label@ == label,
        forall|i: int|
            0 <= i < a.len() && (#[trigger] a[i]).label@ == label && (forall|k: int|
                i < k < a.len() ==> (#[trigger] a[k]).label@ != label) ==> book_spec(a)[label] == a[i],
    decreases a.len(),
{
    if a.len() > 0 {
        let t = a.drop_last();
        let n = a.len() - 1;
        law_every_address_is_in_the_book(t, label);
        assert(forall|i: int| 0 <= i < n ==> #[trigger] t[i] == a[i]);
        assert(a[n] == a.last());
        if exists|i: int| 0 <= i < t.len() && (#[trigger] t[i]).label@ == label {
            let i = choose|i: int| 0 <= i < t.len() && (#[trigger] t[i]).label@ == label;
            assert(a[i].label@ == label);
        }
        if exists|i: int| 0 <= i < a.len() && (#[trigger] a[i]).label@ == label {
            let i = choose|i: int| 0 <= i < a.len() && (#[trigger] a[i]).label@ == label;
            if i < n {
                assert(t[i].label@ == label);
            }
        }
        assert forall|i: int|
            0 <= i < a.len() && (#[trigger] a[i]).label@ == label && (forall|k: int|
                i < k < a.len() ==> (#[trigger] a[k]).label@ != label) implies book_spec(a)[label]
            == a[i] by {
            if i < n {
                assert(a[n].label@ != label);
                assert(t[i].label@ == label);
                assert forall|k: int| i < k < t.len() implies (#[trigger] t[k]).label@ != label by {
                    assert(a[k].label@ != label);
                }
            }
        }
    }
}

/// What is shown of a paired device is its own: identifier, name, fingerprint, last time and address;
/// it counts as trusted exactly where its key was confirmed.
pub proof fn law_devices_are_shown_as_they_are(p: PairedDevice)
    ensures
        info_of(p).id@ == p.device_id.0@,
        info_of(p).name@ == p.device_name@,
        info_of(p).fingerprint@ == p.fingerprint@,
        info_of(p).last_seen == p.last_seen,
        info_of(p).last_addr == p.last_addr,
        info_of(p).trusted <==> p.trust == crate::device::registry::TrustLevel::Verified,
{
}

} // verus!
