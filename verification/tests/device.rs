use clipsync::clipboard::types::DeviceId;
use clipsync::device::identity::{
    resolve_device_id, DeviceIdentity, FALLBACK_ID_PREFIX, FALLBACK_ID_RANDOM_LEN,
};
use clipsync::device::registry::{PairedDevice, TrustLevel};
use clipsync::device::store::PairedRecord;

#[test]
fn identity_persists_across_loads() {
    let (a, fresh) =
        DeviceIdentity::new(None, DeviceId("test-id".into()), "test-device").unwrap();
    assert!(fresh);
    // The secret key was stored; the second time it is loaded.
    let stored = a.secret().to_vec();
    let (b, fresh) =
        DeviceIdentity::new(Some(stored), DeviceId("test-id".into()), "test-device").unwrap();
    assert!(!fresh);
    assert_eq!(a.public_key_bytes(), b.public_key_bytes());
}

#[test]
fn resolve_prefers_configured_value() {
    let (id, fresh) = resolve_device_id("  existing-id  ", "some-machine-guid");
    assert_eq!(id, "existing-id");
    assert!(!fresh, "configured value must not be re-resolved");
}

#[test]
fn resolve_falls_back_to_hardware_id() {
    let (id, fresh) = resolve_device_id("", "machine-guid-value");
    assert_eq!(id, "machine-guid-value");
    assert!(fresh, "hardware-derived id must be persisted");
}

#[test]
fn resolve_generates_marked_fallback_when_no_hardware_id() {
    let (id, fresh) = resolve_device_id("", "");
    assert!(fresh);
    assert!(
        id.starts_with(FALLBACK_ID_PREFIX),
        "fallback id must carry the 000000 marker, got {id}"
    );
    assert_eq!(id.len(), FALLBACK_ID_PREFIX.len() + FALLBACK_ID_RANDOM_LEN);
    assert!(
        id.chars()
            .skip(FALLBACK_ID_PREFIX.len())
            .all(|c| c.is_ascii_hexdigit()),
        "random part must be hex, got {id}"
    );
    let (other, _) = resolve_device_id("", "");
    assert_ne!(id, other);
}

#[test]
fn record_round_trips_through_paired_device() {
    let original = PairedDevice {
        device_id: DeviceId("dev-1".into()),
        device_name: "笔记本".into(),
        fingerprint: "abcdef".into(),
        trust: TrustLevel::Verified,
        last_seen: 42,
        last_addr: None,
    };
    let back: PairedDevice = PairedRecord::from(&original).into();
    assert_eq!(back.device_id, original.device_id);
    assert_eq!(back.device_name, original.device_name);
    assert_eq!(back.fingerprint, original.fingerprint);
    assert_eq!(back.trust, original.trust);
    assert_eq!(back.last_seen, original.last_seen);
}
