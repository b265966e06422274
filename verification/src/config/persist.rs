//! Loading and saving the settings.
//!
//! The file lies in the user's home directory. The secret of the network goes to the system's key
//! store and stands in the file only where there is none.

use vstd::prelude::*;

use crate::config::settings;
use crate::config::settings::{AppConfig, LEGACY_DEFAULT_DEVICE_NAME};
use crate::device::store;
use crate::text;
use crate::text::{same, trim};

verus! {

/// The name of the file.
pub const CONFIG_FILE: &'static str = "config.json";

/// The directory below the user's home directory.
pub const CONFIG_DIR_NAME: &'static str = "ClipSync";

/// The key store's service for the secret of the network.
pub const KEYRING_SERVICE: &'static str = "com.clipsync.network";

/// The key store's account for the secret of the network.
pub const KEYRING_ACCOUNT_TOKEN: &'static str = "network_token";

/// What is to be done with a file at the place where an older version kept it.
#[derive(Debug, Clone, Copy, PartialEq, Eq, Structural)]
pub enum LegacyStep {
    /// Leave it.
    Keep,
    /// Copy it to the new place and delete it once that has succeeded.
    Move,
    /// Delete it; where it cannot be deleted, take the secret out of it.
    Scrub,
}

/// What is to be done before loading: a file is moved where the new place has none.
pub open spec fn migrate_step_spec(new_exists: bool, old_exists: bool) -> LegacyStep {
    if !new_exists && old_exists {
        LegacyStep::Move
    } else {
        LegacyStep::Keep
    }
}

/// What is to be done with an old file before loading.
pub fn migrate_from_legacy(new_exists: bool, old_exists: bool) -> (r: LegacyStep)
    ensures
        r == migrate_step_spec(new_exists, old_exists),
{
    if !new_exists && old_exists {
        LegacyStep::Move
    } else {
        LegacyStep::Keep
    }
}

/// What is to be done with an old file afterwards. It is deleted only where it is another file than
/// the new one and the new one exists: else it is the only copy of the settings.
pub fn scrub_legacy_config(old_exists: bool, same_file: bool, new_exists: bool) -> (r: LegacyStep)
    ensures
        r == if old_exists && !same_file && new_exists {
            LegacyStep::Scrub
        } else {
            LegacyStep::Keep
        },
{
    if old_exists && !same_file && new_exists {
        LegacyStep::Scrub
    } else {
        LegacyStep::Keep
    }
}

/// Whether the secret has to be taken out of an old file that could not be deleted: it holds one.
pub fn must_blank_token(token: &Option<String>) -> (r: bool)
    ensures
        r == (token is Some && token->0@.len() > 0),
{
    match token {
        Some(t) => !t.as_str().is_empty(),
        None => false,
    }
}

/// Where the secret of the network comes from.
#[derive(Debug)]
pub enum TokenSource {
    /// The key store has it.
    KeyStore(String),
    /// The file has it: it is to be put into the key store and, where that works, the file written
    /// without it.
    File,
    /// There is none.
    Nowhere,
}

/// Where the secret of the network comes from: what the key store holds counts where it is text and
/// not empty, else what the file holds.
pub fn merge_network_token(in_file: &str, keystore: Option<Vec<u8>>) -> (r: TokenSource)
    ensures
        ({
            let k = store::keystore_text(
                match keystore {
                    Some(b) => Some(b@),
                    None => None,
                },
            );
            if k is Some {
                r matches TokenSource::KeyStore(t) && t@ == k->0
            } else if in_file@.len() > 0 {
                r is File
            } else {
                r is Nowhere
            }
        }),
{
    match keystore {
        Some(b) => match String::from_utf8(b) {
            Ok(t) => {
                if !t.as_str().is_empty() {
                    return TokenSource::KeyStore(t);
                }
            },
            Err(_) => {},
        },
        None => {},
    }
    if !in_file.is_empty() {
        TokenSource::File
    } else {
        TokenSource::Nowhere
    }
}

/// The settings that are in force once the secret was looked for.
pub fn with_token(cfg: AppConfig, source: TokenSource) -> (r: AppConfig)
    ensures
        match source {
            TokenSource::KeyStore(t) => r == (AppConfig { network_token: t, ..cfg }),
            _ => r == cfg,
        },
{
    match source {
        TokenSource::KeyStore(t) => {
            let mut out = cfg;
            out.network_token = t;
            out
        },
        _ => cfg,
    }
}

/// A name that is blank, or the one that every device once had, is replaced.
pub open spec fn needs_name(name: Seq<char>) -> bool {
    text::trimmed(name).len() == 0 || name == LEGACY_DEFAULT_DEVICE_NAME@
}

/// Replaces a name that says nothing by that of the machine `host`. The flag says whether it did, so
/// that the settings are to be saved.
pub fn migrate_device_name(cfg: AppConfig, host: &str) -> (r: (AppConfig, bool))
    ensures
        r.1 == needs_name(cfg.device_name@),
        r.1 ==> r.0 == (AppConfig { device_name: r.0.device_name, ..cfg }) && r.0.device_name@
            == settings::device_name_spec(host@),
        !r.1 ==> r.0 == cfg,
{
    let t = trim(cfg.device_name.as_str());
    if t.as_str().is_empty() || same(cfg.device_name.as_str(), LEGACY_DEFAULT_DEVICE_NAME) {
        let mut out = cfg;
        out.device_name = settings::device_name_from(host);
        (out, true)
    } else {
        (cfg, false)
    }
}

/// What is asked of the key store when the settings are saved.
#[derive(Debug, Clone, Copy, PartialEq, Eq, Structural)]
pub enum TokenStep {
    /// Delete the secret.
    Delete,
    /// Store the secret.
    Store,
}

/// What is asked of the key store when settings with the secret `token` are saved.
pub fn token_step(token: &str) -> (r: TokenStep)
    ensures
        r == if token@.len() == 0 {
            TokenStep::Delete
        } else {
            TokenStep::Store
        },
{
    if token.is_empty() {
        TokenStep::Delete
    } else {
        TokenStep::Store
    }
}

/// The secret that is written to the file: none where the key store took it.
pub open spec fn token_in_file(token: Seq<char>, stored: bool) -> Seq<char> {
    if stored {
        ""@
    } else {
        token
    }
}

/// The secret that is written to the file once the key store was asked.
pub fn token_to_write(token: &str, stored: bool) -> (r: String)
    ensures
        r@ == token_in_file(token@, stored),
{
    if stored {
        "".to_owned()
    } else {
        token.to_owned()
    }
}

/// A secret that was saved is in force again after loading, whether the key store took it or not.
pub proof fn law_the_token_survives_saving(token: Seq<char>, stored: bool)
    requires
        token.len() > 0,
    ensures
        ({
            let kept = if stored {
                Some(text::utf8(token))
            } else {
                None
            };
            let file = token_in_file(token, stored);
            match store::keystore_text(kept) {
                Some(t) => t == token,
                None => file == token,
            }
        }),
{
    vstd::utf8::encode_utf8_valid_utf8(token);
    vstd::utf8::encode_utf8_decode_utf8(token);
}

/// A name is replaced exactly where it is blank or the one that every device once had; an old file is
/// moved exactly where there is one and no new one; and a secret stands in the file exactly where the
/// key store did not take it.
pub proof fn law_what_loading_and_saving_change(
    name: Seq<char>,
    new_exists: bool,
    old_exists: bool,
    token: Seq<char>,
)
    ensures
        needs_name(name) <==> name == "ClipSync-Device"@ || text::trimmed(name).len() == 0,
        migrate_step_spec(new_exists, old_exists) is Move <==> old_exists && !new_exists,
        migrate_step_spec(new_exists, old_exists) is Keep <==> !(old_exists && !new_exists),
        token_in_file(token, true).len() == 0,
        token_in_file(token, false) == token,
{
    reveal_strlit("");
}

} // verus!
