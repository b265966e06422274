//! What happens when the program starts.

use vstd::prelude::*;

use crate::config::AppConfig;
use crate::crypto::pake;
use crate::crypto::pake::{generate_pairing_code, pairing_code_is_current};
use crate::device::identity;
use crate::device::identity::resolve_device_id;
use crate::device::registry::{DeviceRegistry, PairedDevice};
use crate::strmap::StrMap;
use crate::text;
use crate::text::{concat, concat3};

verus! {

// ---------------------------------------------------------------------------
// The settings
// ---------------------------------------------------------------------------

/// Settles what the settings leave open: a pairing code that is none, or is of an older and weaker
/// form, is replaced, and the device gets its identifier, which it keeps from then on. `hw` is the
/// machine's identifier, empty where there is none.
pub fn settle_config(cfg: AppConfig, hw: &str) -> (r: AppConfig)
    ensures
        r == (AppConfig { pairing_code: r.pairing_code, device_id: r.device_id, ..cfg }),
        pake::is_current_code(r.pairing_code@),
        pake::is_current_code(cfg.pairing_code@) ==> r.pairing_code == cfg.pairing_code,
        !pake::is_current_code(cfg.pairing_code@) ==> pake::is_drawn_code(r.pairing_code@),
        !pake::is_current_code(cfg.pairing_code@) ==> exists|random: Seq<u8>|
            random.len() == pake::CODE_LEN && r.pairing_code@ == pake::code_of(random),
        if text::trimmed(cfg.device_id@).len() > 0 {
            r.device_id == cfg.device_id
        } else if text::trimmed(hw@).len() > 0 {
            r.device_id@ == text::trimmed(hw@)
        } else {
            identity::is_fallback_id(r.device_id@)
        },
{
    let mut cfg = cfg;
    if !pairing_code_is_current(cfg.pairing_code.as_str()) {
        cfg.pairing_code = generate_pairing_code();
    }
    let (id, fresh) = resolve_device_id(cfg.device_id.as_str(), hw);
    if fresh {
        cfg.device_id = id;
    }
    cfg
}

/// The size of the main window.
#[derive(Debug, Clone, Copy, PartialEq, Eq, Structural)]
pub enum WindowSize {
    /// It has this size.
    Fixed { width: u32, height: u32 },
    /// The size in the settings is of no use.
    Invalid,
    /// The settings have no size: the window's own is put there.
    Unset,
}

/// The size of the main window: both of its sides must be set, and neither may be 0.
pub fn window_size(width: Option<u32>, height: Option<u32>) -> (r: WindowSize)
    ensures
        r == match (width, height) {
            (Some(w), Some(h)) => if w == 0 || h == 0 {
                WindowSize::Invalid
            } else {
                WindowSize::Fixed { width: w, height: h }
            },
            _ => WindowSize::Unset,
        },
{
    match (width, height) {
        (Some(w), Some(h)) => if w == 0 || h == 0 {
            WindowSize::Invalid
        } else {
            WindowSize::Fixed { width: w, height: h }
        },
        _ => WindowSize::Unset,
    }
}

/// Puts the window's own size into the settings. Returns whether they have changed: a size of 0 is of
/// no use.
pub fn adopt_window_size(cfg: &mut AppConfig, width: u32, height: u32) -> (r: bool)
    ensures
        r == (width != 0 && height != 0),
        *final(cfg) == if r {
            AppConfig { window_width: Some(width), window_height: Some(height), ..*old(cfg) }
        } else {
            *old(cfg)
        },
{
    if width == 0 || height == 0 {
        return false;
    }
    cfg.window_width = Some(width);
    cfg.window_height = Some(height);
    true
}

// ---------------------------------------------------------------------------
// Paired devices
// ---------------------------------------------------------------------------

/// The devices whose secret is at hand, by their identifiers.
pub open spec fn usable_devices(devices: Seq<PairedDevice>, secrets: Seq<Option<String>>) -> Map<
    Seq<char>,
    PairedDevice,
>
    decreases devices.len(),
{
    if devices.len() == 0 {
        Map::empty()
    } else {
        let init = usable_devices(devices.drop_last(), secrets);
        if secrets[devices.len() - 1] is Some {
            init.insert(devices.last().device_id.0@, devices.last())
        } else {
            init
        }
    }
}

/// The secrets that are at hand, by the devices' identifiers.
pub open spec fn usable_secrets(devices: Seq<PairedDevice>, secrets: Seq<Option<String>>) -> Map<
    Seq<char>,
    String,
>
    decreases devices.len(),
{
    if devices.len() == 0 {
        Map::empty()
    } else {
        let init = usable_secrets(devices.drop_last(), secrets);
        match secrets[devices.len() - 1] {
            Some(s) => init.insert(devices.last().device_id.0@, s),
            None => init,
        }
    }
}

/// Takes the paired devices in again, each with its secret. One whose secret is lost is left out: it
/// could never be reached, and must be paired again. `secrets` has one entry for each device.
pub fn restore_devices(devices: &[PairedDevice], secrets: &[Option<String>]) -> (r: (
    DeviceRegistry,
    StrMap<String>,
))
    requires
        devices@.len() == secrets@.len(),
    ensures
        r.0.wf(),
        r.0@ == usable_devices(devices@, secrets@),
        r.1@ == usable_secrets(devices@, secrets@),
{
    let mut registry = DeviceRegistry::new();
    let mut codes: StrMap<String> = StrMap::new();
    let n: usize = devices.len();
    let mut i: usize = 0;
    assert(devices@.take(0) =~= Seq::<PairedDevice>::empty());
    while i < n
        invariant
            n == devices@.len(),
            n == secrets@.len(),
            i <= n,
            registry@ == usable_devices(devices@.take(i as int), secrets@),
            codes@ == usable_secrets(devices@.take(i as int), secrets@),
        decreases n - i,
    {
        assert(devices@.take(i + 1).drop_last() =~= devices@.take(i as int));
        match &secrets[i] {
            Some(s) => {
                let d = devices[i].clone();
                let _ = codes.insert(d.device_id.0.clone(), s.clone());
                registry.add(d);
            },
            None => {},
        }
        i += 1;
    }
    proof {
        assert(devices@.take(n as int) =~= devices@);
        use_type_invariant(&registry);
    }
    (registry, codes)
}

/// Every device that is taken in has its secret, and no secret is without its device.
pub proof fn law_restored_devices_have_secrets(
    devices: Seq<PairedDevice>,
    secrets: Seq<Option<String>>,
)
    ensures
        usable_devices(devices, secrets).dom() == usable_secrets(devices, secrets).dom(),
    decreases devices.len(),
{
    if devices.len() > 0 {
        law_restored_devices_have_secrets(devices.drop_last(), secrets);
    }
    assert(usable_devices(devices, secrets).dom() =~= usable_secrets(devices, secrets).dom());
}

// ---------------------------------------------------------------------------
// The firewall
// ---------------------------------------------------------------------------

/// The name of the firewall's rule on Windows.
pub const RULE_NAME: &'static str = "ClipSync mDNS (UDP 5353)";

/// How the firewall is asked for the rule.
pub fn firewall_query() -> (r: String)
    ensures
        r@ == "name="@ + RULE_NAME@,
{
    concat("name=", RULE_NAME)
}

/// Whether the firewall has the rule: the query was answered, and with success. One that could not be
/// made counts as no, so that the rule can still be added.
pub fn rule_exists(query: Result<bool, String>) -> (r: bool)
    ensures
        r == (query matches Ok(success) && success),
{
    match query {
        Ok(success) => success,
        Err(_) => false,
    }
}

/// How the rule is added: the arguments, as one text, for a list would be taken apart at the spaces in
/// the rule's name.
pub open spec fn firewall_arguments() -> Seq<char> {
    "advfirewall firewall add rule name=\""@ + RULE_NAME@
        + "\" dir=in action=allow protocol=UDP localport=5353"@
}

/// How the rule is added, with the rights of an administrator.
pub fn firewall_command() -> (r: String)
    ensures
        r@ == "Start-Process netsh -ArgumentList '"@ + firewall_arguments() + "' -Verb runAs -Wait"@,
{
    let arguments = concat3(
        "advfirewall firewall add rule name=\"",
        RULE_NAME,
        "\" dir=in action=allow protocol=UDP localport=5353",
    );
    concat3("Start-Process netsh -ArgumentList '", arguments.as_str(), "' -Verb runAs -Wait")
}

/// A device is taken in exactly where its secret is at hand, as the list has it, and with that secret;
/// the devices before it in the list stay as they are, but for one with the same identifier.
pub proof fn law_devices_with_a_secret_are_taken_in(
    devices: Seq<PairedDevice>,
    d: PairedDevice,
    secrets: Seq<Option<String>>,
)
    requires
        secrets.len() > devices.len(),
    ensures
        usable_devices(seq![], secrets) == Map::<Seq<char>, PairedDevice>::empty(),
        usable_secrets(seq![], secrets) == Map::<Seq<char>, String>::empty(),
        secrets[devices.len() as int] is Some ==> usable_devices(devices.push(d), secrets)
            == usable_devices(devices, secrets).insert(d.device_id.0@, d) && usable_secrets(
            devices.push(d),
            secrets,
        ) == usable_secrets(devices, secrets).insert(
            d.device_id.0@,
            secrets[devices.len() as int]->0,
        ),
        secrets[devices.len() as int] is None ==> usable_devices(devices.push(d), secrets)
            == usable_devices(devices, secrets) && usable_secrets(devices.push(d), secrets)
            == usable_secrets(devices, secrets),
{
    assert(devices.push(d).drop_last() =~= devices);
}

} // verus!
