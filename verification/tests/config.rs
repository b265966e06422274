use clipsync::config::migration::{is_compatible, migrate, ConfigFile, CURRENT_CONFIG_VERSION};
use clipsync::config::AppConfig;

#[test]
fn migrate_bumps_old_version() {
    let cfg = ConfigFile {
        version: 0,
        config: AppConfig::default(),
    };
    let out = migrate(cfg).unwrap();
    assert_eq!(out.version, CURRENT_CONFIG_VERSION);
}

#[test]
fn migrate_keeps_current_version() {
    let cfg = ConfigFile {
        version: CURRENT_CONFIG_VERSION,
        config: AppConfig::default(),
    };
    let out = migrate(cfg).unwrap();
    assert_eq!(out.version, CURRENT_CONFIG_VERSION);
}

#[test]
fn migrate_rejects_future_version() {
    let cfg = ConfigFile {
        version: 999,
        config: AppConfig::default(),
    };
    assert!(migrate(cfg).is_err());
}

#[test]
fn compatible_check() {
    assert!(is_compatible(0));
    assert!(is_compatible(CURRENT_CONFIG_VERSION));
    assert!(!is_compatible(CURRENT_CONFIG_VERSION + 1));
}

#[test]
fn auto_pull_threshold_default_is_1mb() {
    let c = AppConfig::default();
    assert_eq!(c.auto_pull_threshold_mb, 1);
    assert_eq!(c.auto_pull_threshold_bytes(), 1024 * 1024);
}

#[test]
fn auto_pull_threshold_bytes_scales() {
    let c = AppConfig {
        auto_pull_threshold_mb: 10,
        ..AppConfig::default()
    };
    assert_eq!(c.auto_pull_threshold_bytes(), 10 * 1024 * 1024);
    let z = AppConfig {
        auto_pull_threshold_mb: 0,
        ..AppConfig::default()
    };
    assert_eq!(z.auto_pull_threshold_bytes(), 0);
}
