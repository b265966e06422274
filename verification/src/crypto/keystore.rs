//! Where secrets are kept: in the system's key store, and in a file where there is none.
//!
//! A machine without a desktop has no key store that answers. A secret that could not be put there lies
//! in a file of its own, which only its owner can read.

use vstd::prelude::*;

use crate::text;
use crate::text::{concat3, contains_str, same};

verus! {

/// The directory of the files, below the home directory.
pub const FALLBACK_DIR: &'static str = ".clipsync/keystore";

/// The name of a secret in the key store of Windows.
pub fn target_name(service: &str, account: &str) -> (r: String)
    ensures
        r@ == service@ + ":"@ + account@,
{
    concat3(service, ":", account)
}

/// The file of a secret, as the names that lead to it. Without a home directory it is the present one.
pub fn fallback_path(home: Option<String>, service: &str, account: &str) -> (r: (
    String,
    &'static str,
    String,
))
    ensures
        r.0@ == match home {
            Some(h) => h@,
            None => "."@,
        },
        r.1@ == FALLBACK_DIR@,
        r.2@ == service@ + "__"@ + account@,
{
    let dir = match home {
        Some(h) => h,
        None => ".".to_owned(),
    };
    (dir, FALLBACK_DIR, concat3(service, "__", account))
}

/// Whether the key store of macOS is used: where the environment asks for it (`CLIPSYNC_KEYCHAIN` is
/// `1`), and unless the program was built for debugging. It would wait for a window that cannot be
/// shown.
pub fn keychain_enabled(asked: Option<String>, debug: bool) -> (r: bool)
    ensures
        r == ((asked is Some && asked->0@ == "1"@) || !debug),
{
    match asked {
        Some(v) => same(v.as_str(), "1") || !debug,
        None => !debug,
    }
}

/// What is known of the key store.
pub struct Keyring {
    /// It has been told that there is none.
    pub warned: bool,
}

impl Keyring {
    /// Nothing is known.
    pub fn new() -> (r: Self)
        ensures
            !r.warned,
    {
        Keyring { warned: false }
    }

    /// It is to be told that there is no key store. It is told once.
    fn warn(&mut self) -> (r: bool)
        ensures
            r == !old(self).warned,
            final(self).warned,
    {
        let r = !self.warned;
        self.warned = true;
        r
    }
}

/// What is to be done after a secret was given to the key store.
#[derive(Debug, Clone, Copy, PartialEq, Eq, Structural)]
pub enum StoreStep {
    /// The key store has it.
    Stored,
    /// Write it into its file; tell that there is no key store, where that is new.
    File { warn: bool },
}

/// A secret was given to the key store, with this result.
pub fn store(keyring: &mut Keyring, result: &Result<(), String>) -> (r: StoreStep)
    ensures
        match *result {
            Ok(_) => r is Stored && final(keyring).warned == old(keyring).warned,
            Err(_) => r == (StoreStep::File { warn: !old(keyring).warned }) && final(keyring).warned,
        },
{
    match result {
        Ok(_) => StoreStep::Stored,
        Err(_) => StoreStep::File { warn: keyring.warn() },
    }
}

/// A secret: what the key store gave, else what its file holds. Where neither has it, the key store's
/// error stands, and it is told that there is no key store, where that is new. The flag says so.
pub fn load(
    keyring: &mut Keyring,
    result: Result<Vec<u8>, String>,
    file: Result<Vec<u8>, String>,
) -> (r: (Result<Vec<u8>, String>, bool))
    ensures
        match (result, file) {
            (Ok(v), _) => r.0 == Ok::<Vec<u8>, String>(v) && !r.1 && final(keyring).warned == old(
                keyring).warned,
            (Err(_), Ok(v)) => r.0 == Ok::<Vec<u8>, String>(v) && !r.1 && final(keyring).warned == old(
                keyring).warned,
            (Err(e), Err(_)) => r.0 == Err::<Vec<u8>, String>(e) && r.1 == !old(keyring).warned
                && final(keyring).warned,
        },
{
    match result {
        Ok(v) => (Ok(v), false),
        Err(e) => match file {
            Ok(v) => (Ok(v), false),
            Err(_) => {
                let warn = keyring.warn();
                (Err(e), warn)
            },
        },
    }
}

/// A secret was deleted in the key store and in its file. Both are tried, or it would come back; where
/// there is neither a key store nor a file, it is gone.
pub fn delete(result: Result<(), String>, file: Result<(), String>) -> (r: Result<(), String>)
    ensures
        match (result, file) {
            (Ok(_), _) => r is Ok,
            (Err(e), Err(f)) => if text::has_substring(f@, "No such file"@) {
                r is Ok
            } else {
                r == Err::<(), String>(e)
            },
            (Err(e), Ok(_)) => r == Err::<(), String>(e),
        },
{
    match result {
        Ok(_) => Ok(()),
        Err(e) => match file {
            Err(f) => {
                if contains_str(f.as_str(), "No such file") {
                    Ok(())
                } else {
                    Err(e)
                }
            },
            Ok(_) => Err(e),
        },
    }
}

} // verus!
