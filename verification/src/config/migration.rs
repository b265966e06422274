//! The version of the configuration file.

use vstd::prelude::*;

use crate::config::settings::AppConfig;
use crate::text;
use crate::text::{concat, concat3, to_dec};

verus! {

/// The version that this program writes.
pub const CURRENT_CONFIG_VERSION: u32 = 1;

/// The settings with the version of the file that they come from.
#[derive(Debug, Clone)]
pub struct ConfigFile {
    pub version: u32,
    pub config: AppConfig,
}

/// Whether this program can read a version.
pub fn is_compatible(version: u32) -> (r: bool)
    ensures
        r == (version <= CURRENT_CONFIG_VERSION),
{
    version <= CURRENT_CONFIG_VERSION
}

/// What is said of a version that this program cannot read.
pub open spec fn too_new_text(version: u32) -> Seq<char> {
    "config version "@ + text::dec(version as nat) + " is newer than supported "@ + text::dec(
        CURRENT_CONFIG_VERSION as nat,
    )
}

/// Brings settings to the current version. Fails on those of a later one.
pub fn migrate(cfg: ConfigFile) -> (r: Result<ConfigFile, String>)
    ensures
        match r {
            Ok(out) => cfg.version <= CURRENT_CONFIG_VERSION && out.version == CURRENT_CONFIG_VERSION
                && out.config == cfg.config,
            Err(m) => cfg.version > CURRENT_CONFIG_VERSION && m@ == too_new_text(cfg.version),
        },
{
    if cfg.version > CURRENT_CONFIG_VERSION {
        let a = concat("config version ", to_dec(cfg.version as u64).as_str());
        let b = to_dec(CURRENT_CONFIG_VERSION as u64);
        return Err(concat3(a.as_str(), " is newer than supported ", b.as_str()));
    }
    let mut out = cfg;
    out.version = CURRENT_CONFIG_VERSION;
    Ok(out)
}

} // verus!
