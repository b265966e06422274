//! The settings.
//!
//! Secrets are not among them: they lie in the system's key store.

use vstd::prelude::*;

use crate::text;
use crate::text::trim;

verus! {

/// The name of a device whose machine has none, and the name that every device once had.
pub const LEGACY_DEFAULT_DEVICE_NAME: &'static str = "ClipSync-Device";

/// An address that the user typed.
#[derive(Debug)]
pub struct ManualAddress {
    pub label: String,
    pub addr: String,
    pub port: u16,
}

impl Clone for ManualAddress {
    fn clone(&self) -> (r: Self)
        ensures
            r == *self,
    {
        ManualAddress { label: self.label.clone(), addr: self.addr.clone(), port: self.port }
    }
}

/// How the windows look.
#[derive(Debug, Clone, Copy, PartialEq, Eq, Structural)]
pub enum Theme {
    System,
    Light,
    Dark,
}

/// The settings of a device.
#[derive(Debug, Clone)]
pub struct AppConfig {
    /// The identifier of this device; empty until it is settled.
    pub device_id: String,
    pub device_name: String,
    pub auto_start: bool,
    /// Whether the main window is shown after a start with the system.
    pub show_main_window_on_launch: bool,
    pub sync_text: bool,
    pub sync_image: bool,
    pub sync_file: bool,
    pub max_file_size_mb: u64,
    pub max_image_size_mb: u32,
    pub listen_port: u16,
    pub enable_mdns: bool,
    /// The pairing code that this device shows.
    pub pairing_code: String,
    pub manual_addresses: Vec<ManualAddress>,
    pub sync_primary_selection: bool,
    pub cache_ttl_hours: u32,
    pub theme: Theme,
    /// Where fetched files are written; the download directory where it is not set.
    pub sync_dir: Option<String>,
    /// Whether small transfers are fetched without asking.
    pub auto_pull_enabled: bool,
    /// Transfers of less than this many MiB are fetched without asking.
    pub auto_pull_threshold_mb: u64,
    /// A copied folder with more files is not offered; 0 for no bound.
    pub max_folder_files: usize,
    /// The server for devices on other networks, as in `ws://host:20070/ws`; empty for none.
    pub server_url: String,
    /// The secret of the network.
    pub network_token: String,
    /// The address under which other networks can fetch files from here, as `host:port`.
    pub ext_file_ep: String,
    /// The name of the local network; empty where it is to be found out.
    pub lan_group: String,
    /// After how many milliseconds the window for a waiting offer closes by itself; 0 for never.
    pub toast_auto_hide_ms: u64,
    pub window_width: Option<u32>,
    pub window_height: Option<u32>,
}

/// Calls `gethostname::gethostname` and takes what is no Unicode out of it. Nothing is promised of
/// the name.
#[verifier::external_body]
fn host_name() -> (r: String) {
    gethostname::gethostname().to_string_lossy().into_owned()
}

/// The name of a device on the machine `host`.
pub open spec fn device_name_spec(host: Seq<char>) -> Seq<char> {
    if text::trimmed(host).len() == 0 {
        LEGACY_DEFAULT_DEVICE_NAME@
    } else {
        text::trimmed(host)
    }
}

/// The name of a device on the machine `host`: the machine's name, or a fixed one where it has none.
pub fn device_name_from(host: &str) -> (r: String)
    ensures
        r@ == device_name_spec(host@),
        r@.len() > 0,
{
    proof {
        reveal_strlit("ClipSync-Device");
    }
    let t = trim(host);
    if t.as_str().is_empty() {
        LEGACY_DEFAULT_DEVICE_NAME.to_owned()
    } else {
        t
    }
}

/// The name that a device has unless another is set: that of its machine.
pub fn default_device_name() -> (r: String)
    ensures
        exists|host: Seq<char>| r@ == #[trigger] device_name_spec(host),
        r@.len() > 0,
{
    let host = host_name();
    let r = device_name_from(host.as_str());
    assert(r@ == device_name_spec(host@));
    r
}

impl AppConfig {
    /// The settings that a device has unless others are set, its name aside.
    pub open spec fn is_default(&self) -> bool {
        &&& self.device_id@ == ""@
        &&& !self.auto_start
        &&& self.show_main_window_on_launch
        &&& self.sync_text
        &&& self.sync_image
        &&& self.sync_file
        &&& self.max_file_size_mb == 10240
        &&& self.max_image_size_mb == 50
        &&& self.listen_port == 20071
        &&& self.enable_mdns
        &&& self.pairing_code@ == "000000"@
        &&& self.manual_addresses@.len() == 0
        &&& !self.sync_primary_selection
        &&& self.cache_ttl_hours == 24
        &&& self.theme == Theme::System
        &&& self.sync_dir is None
        &&& !self.auto_pull_enabled
        &&& self.auto_pull_threshold_mb == 1
        &&& self.max_folder_files == 100
        &&& self.server_url@ == ""@
        &&& self.network_token@ == ""@
        &&& self.ext_file_ep@ == ""@
        &&& self.lan_group@ == ""@
        &&& self.toast_auto_hide_ms == 15000
        &&& self.window_width is None
        &&& self.window_height is None
    }

    /// The default settings with a given name.
    pub fn named(device_name: String) -> (r: Self)
        ensures
            r.is_default(),
            r.device_name == device_name,
    {
        AppConfig {
            device_id: "".to_owned(),
            device_name,
            auto_start: false,
            show_main_window_on_launch: true,
            sync_text: true,
            sync_image: true,
            sync_file: true,
            max_file_size_mb: 10240,
            max_image_size_mb: 50,
            listen_port: 20071,
            enable_mdns: true,
            pairing_code: "000000".to_owned(),
            manual_addresses: Vec::new(),
            sync_primary_selection: false,
            cache_ttl_hours: 24,
            theme: Theme::System,
            sync_dir: None,
            auto_pull_enabled: false,
            auto_pull_threshold_mb: 1,
            max_folder_files: 100,
            server_url: "".to_owned(),
            network_token: "".to_owned(),
            ext_file_ep: "".to_owned(),
            lan_group: "".to_owned(),
            toast_auto_hide_ms: 15000,
            window_width: None,
            window_height: None,
        }
    }

    /// The number of bytes below which a transfer is fetched without asking.
    pub open spec fn threshold(&self) -> nat {
        if self.auto_pull_threshold_mb * 1048576 > u64::MAX {
            u64::MAX as nat
        } else {
            (self.auto_pull_threshold_mb * 1048576) as nat
        }
    }

    /// The number of bytes below which a transfer is fetched without asking, up to the greatest that
    /// fits.
    pub fn auto_pull_threshold_bytes(&self) -> (r: u64)
        ensures
            r == self.threshold(),
    {
        match self.auto_pull_threshold_mb.checked_mul(1048576) {
            Some(n) => n,
            None => u64::MAX,
        }
    }

    /// Whether a transfer of `total_bytes` is fetched without asking: it is switched on and the
    /// transfer is below the bound.
    pub fn should_auto_pull(&self, total_bytes: u64) -> (r: bool)
        ensures
            r == (self.auto_pull_enabled && total_bytes < self.threshold()),
    {
        self.auto_pull_enabled && total_bytes < self.auto_pull_threshold_bytes()
    }
}

impl Default for AppConfig {
    fn default() -> (r: Self)
        ensures
            r.is_default(),
            r.device_name@.len() > 0,
    {
        AppConfig::named(default_device_name())
    }
}

/// Nothing is fetched without asking where that is switched off or the bound is 0.
pub proof fn law_no_automatic_fetch_unless_asked_for(c: AppConfig, total_bytes: u64)
    requires
        !c.auto_pull_enabled || c.auto_pull_threshold_mb == 0,
    ensures
        !(c.auto_pull_enabled && total_bytes < c.threshold()),
{
}

/// A device is named after its machine, without white space round the name; where the machine has no
/// name, it gets a fixed one.
pub proof fn law_devices_are_named_after_their_machine(host: Seq<char>)
    ensures
        host.len() > 0 && !text::is_white(host[0]) && !text::is_white(host.last()) ==> device_name_spec(
            host,
        ) == host,
        text::trimmed(host).len() == 0 ==> device_name_spec(host) == "ClipSync-Device"@,
        text::trimmed(host).len() > 0 ==> device_name_spec(host) == text::trimmed(host),
{
    if host.len() > 0 && !text::is_white(host[0]) && !text::is_white(host.last()) {
        text::lemma_trimmed_fixed(host);
    }
}

/// The bound below which files are fetched without asking is that of the settings, in MiB, as far as it
/// can be told in 64 bits.
pub proof fn law_the_bound_is_in_mebibytes(c: AppConfig)
    ensures
        c.auto_pull_threshold_mb < 0x1000_0000_0000 ==> c.threshold() == c.auto_pull_threshold_mb
            * 1024 * 1024,
        c.auto_pull_threshold_mb >= 0x1000_0000_0000 ==> c.threshold() == 0xffff_ffff_ffff_ffff,
{
}

/// The settings that a device begins with: everything is synchronised and found in the local network,
/// nothing is fetched without asking, and no server is asked.
pub proof fn law_settings_to_begin_with(c: AppConfig)
    requires
        c.is_default(),
    ensures
        c.sync_text && c.sync_image && c.sync_file && c.enable_mdns,
        !c.auto_pull_enabled && c.auto_pull_threshold_mb == 1,
        c.listen_port == 20071,
        c.max_folder_files == 100,
        c.max_file_size_mb == 10240 && c.max_image_size_mb == 50,
        c.cache_ttl_hours == 24,
        c.server_url@.len() == 0 && c.network_token@.len() == 0 && c.ext_file_ep@.len() == 0
            && c.lan_group@.len() == 0 && c.device_id@.len() == 0,
        c.manual_addresses@.len() == 0,
        c.sync_dir is None && c.window_width is None && c.window_height is None,
        c.show_main_window_on_launch && !c.auto_start && !c.sync_primary_selection,
        c.toast_auto_hide_ms == 15000,
{
    reveal_strlit("");
}

} // verus!
