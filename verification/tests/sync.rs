use clipsync::clipboard::types::{ClipboardContent, DeviceId, SyncId, SyncMark};
use clipsync::sync::anti_loop::{content_hash, AntiLoop};

#[test]
fn content_hash_stable() {
    let a = ClipboardContent::Text("hello".into());
    let b = ClipboardContent::Text("hello".into());
    let c = ClipboardContent::Text("world".into());
    assert_eq!(content_hash(&a), content_hash(&b));
    assert_ne!(content_hash(&a), content_hash(&c));
}

#[test]
fn lamport_increments_on_outgoing() {
    let mut al = AntiLoop::new();
    let dev = DeviceId("dev-a".into());
    let m1 = al.mark_outgoing(&dev, &ClipboardContent::Text("x".into()));
    assert!(al.is_loopback(&m1.sync_id));
    let m2 = al.mark_outgoing(&dev, &ClipboardContent::Text("y".into()));
    assert_eq!(m2.lamport, m1.lamport + 1);
    assert!(al.is_loopback(&m2.sync_id));
    assert!(!al.is_loopback(&m1.sync_id));
}

#[test]
fn record_applied_advances_lamport() {
    let mut al = AntiLoop::new();
    let mark = SyncMark {
        device_id: DeviceId("dev-b".into()),
        sync_id: SyncId("remote-1".into()),
        timestamp: 0,
        lamport: 42,
        content_hash: "abc".into(),
    };
    al.record_applied(&mark);
    let next = al.mark_outgoing(
        &DeviceId("dev-a".into()),
        &ClipboardContent::Text("z".into()),
    );
    assert_eq!(next.lamport, 43);
    assert!(!al.is_loopback(&SyncId("remote-1".into())));
}
