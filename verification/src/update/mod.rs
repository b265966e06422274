//! Updating the program: where an update comes from, whether it is newer, and whether a package may
//! be installed.
//!
//! There are two ways to an update, which do not touch each other: the server that the user has
//! configured, and the releases on GitHub. In both a package is installed only
//! where this program has fetched it and its digest is the one that was announced.

pub mod package;
pub mod source;
pub mod version;

pub use package::{
    is_in_app_bundle, is_installed_build, DownloadProgress, LatestManifest, PlatformEntry, UpdateInfo,
};
pub use source::{
    basename_of, github_manifest_url, github_url_allowed, platform_key, update_base_from_server_url,
    DownloadSource, GITHUB_REPO,
};
pub use version::is_newer;
