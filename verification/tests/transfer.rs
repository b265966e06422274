use clipsync::bytes::ct_eq;
use clipsync::clipboard::types::{DeviceId, FileMeta};
use clipsync::crypto::pake::{start_initiator, start_responder};
use clipsync::device::identity::DeviceIdentity;
use clipsync::transfer::handshake::{derive_link_secret, derive_session_key, verify_tag};
use clipsync::transfer::manager::ConnectionHub;
use clipsync::transfer::offers::offer_fingerprint;
use clipsync::transfer::paths::safe_segment;
use clipsync::transfer::websocket::{FileFrame, MessageFrame, MessageType};

#[test]
fn verify_tags_cross_match_with_same_code() {
    let pw = "123456";
    let init = start_initiator(pw);
    let resp = start_responder(pw);
    let init_msg = init.message.clone();
    let k_a = derive_session_key(&init.finish(&resp.message).unwrap()).unwrap();
    let k_b = derive_session_key(&resp.finish(&init_msg).unwrap()).unwrap();
    assert_eq!(k_a, k_b, "相同配对码应派生出相同会话密钥");

    let (id_a, id_b) = ("device-a", "device-b");
    assert!(ct_eq(&verify_tag(&k_a, id_a), &verify_tag(&k_b, id_a)));
    assert!(ct_eq(&verify_tag(&k_b, id_b), &verify_tag(&k_a, id_b)));
}

#[test]
fn verify_tags_mismatch_with_wrong_code() {
    let init = start_initiator("123456");
    let resp = start_responder("654321");
    let init_msg = init.message.clone();
    let k_a = derive_session_key(&init.finish(&resp.message).unwrap()).unwrap();
    let k_b = derive_session_key(&resp.finish(&init_msg).unwrap()).unwrap();
    assert!(!ct_eq(
        &verify_tag(&k_a, "device-a"),
        &verify_tag(&k_b, "device-a")
    ));
}

#[test]
fn link_secret_matches_on_both_sides() {
    let pw = "482913";
    let init = start_initiator(pw);
    let resp = start_responder(pw);
    let init_msg = init.message.clone();
    let k_a = derive_session_key(&init.finish(&resp.message).unwrap()).unwrap();
    let k_b = derive_session_key(&resp.finish(&init_msg).unwrap()).unwrap();

    let link_a = derive_link_secret(&k_a);
    let link_b = derive_link_secret(&k_b);
    assert_eq!(link_a, link_b);
    assert_eq!(link_a.len(), 64);
    assert_ne!(link_a, pw);
}

#[test]
fn link_secret_differs_from_verify_tag() {
    let key = [7u8; 32];
    let tag_hex: String = verify_tag(&key, "")
        .iter()
        .map(|b| format!("{:02x}", b))
        .collect();
    assert_ne!(derive_link_secret(&key), tag_hex);
}

#[test]
fn ct_eq_rejects_length_and_content_diff() {
    assert!(ct_eq(b"abc", b"abc"));
    assert!(!ct_eq(b"abc", b"abd"));
    assert!(!ct_eq(b"abc", b"ab"));
}

fn hub(name: &str) -> ConnectionHub {
    let (identity, _) = DeviceIdentity::new(None, DeviceId(format!("{name}-id")), name).unwrap();
    ConnectionHub::new(identity)
}

#[test]
fn local_file_echo_from_peer_is_dropped() {
    let mut hub = hub("echo-test-node");

    // A file was copied here.
    let content = b"hello clipsync";
    let copied = FileMeta {
        file_name: "clipsync_echo_test.txt".to_string(),
        file_size: content.len() as u64,
        is_dir: false,
        relative_path: "clipsync_echo_test.txt".to_string(),
        modified_at: 1,
        mime_type: String::new(),
        hash: None,
    };
    hub.offer_local_files(
        "local-transfer".to_string(),
        vec![copied],
        vec!["/tmp/clipsync_echo_test.txt".to_string()],
        vec!["clipsync_echo_test.txt".to_string()],
        false,
    );
    assert!(
        !hub.active_offers.is_empty(),
        "本机复制后 active_offers 应非空"
    );
    assert!(hub.pending_offers.is_empty());

    // Another device offers the same file.
    let echo_files = vec![FileMeta {
        file_name: "clipsync_echo_test.txt".to_string(),
        file_size: content.len() as u64,
        is_dir: false,
        relative_path: "clipsync_echo_test.txt".to_string(),
        modified_at: 0,
        mime_type: String::new(),
        hash: None,
    }];
    let echo_offer = FileFrame::Offer {
        transfer_id: "echo-transfer-1".to_string(),
        device_id: "fake-peer-not-self".to_string(),
        device_name: "WindowsPC".to_string(),
        files: echo_files,
        top_names: vec![],
        has_folder: false,
    };
    hub.handle_file_frame(echo_offer);
    assert!(
        hub.pending_offers.is_empty(),
        "回环 Offer 不应进入本机待拉取列表"
    );
}

#[test]
fn genuine_remote_offer_is_accepted() {
    let mut hub = hub("echo-test-node-2");
    let remote_files = vec![FileMeta {
        file_name: "photo.png".to_string(),
        file_size: 9999,
        is_dir: false,
        relative_path: "photo.png".to_string(),
        modified_at: 0,
        mime_type: String::new(),
        hash: None,
    }];
    let offer = FileFrame::Offer {
        transfer_id: "remote-transfer-1".to_string(),
        device_id: "genuine-peer".to_string(),
        device_name: "WindowsPC".to_string(),
        files: remote_files,
        top_names: vec![],
        has_folder: false,
    };
    hub.handle_file_frame(offer);
    assert_eq!(
        hub.pending_offers.len(),
        1,
        "真实对端 Offer 应进入待拉取列表"
    );
}

#[test]
fn offer_fingerprint_ignores_relative_path_and_size() {
    let a = FileMeta {
        file_name: "doc.txt".into(),
        file_size: 1234,
        is_dir: false,
        relative_path: "doc.txt".into(),
        modified_at: 0,
        mime_type: String::new(),
        hash: None,
    };
    let mut b = a.clone();
    b.relative_path = "nested/sub/doc.txt".into();
    assert_eq!(
        offer_fingerprint(std::slice::from_ref(&a)),
        offer_fingerprint(std::slice::from_ref(&b))
    );

    let mut c = a.clone();
    c.file_size = 9999;
    assert_ne!(offer_fingerprint(&[a]), offer_fingerprint(&[c]));
}

#[test]
fn strips_traversal_and_absolute_paths() {
    assert_eq!(safe_segment("../../../../x.txt"), "x.txt");
    assert_eq!(safe_segment(r"C:\Windows\System32\evil.bat"), "evil.bat");
    assert_eq!(safe_segment("/etc/passwd"), "passwd");
    assert_eq!(safe_segment(r"..\..\a\b\c.txt"), "c.txt");
}

#[test]
fn rejects_dot_only_and_empty() {
    assert_eq!(safe_segment(".."), "unnamed");
    assert_eq!(safe_segment("."), "unnamed");
    assert_eq!(safe_segment(""), "unnamed");
    assert_eq!(safe_segment("   "), "unnamed");
    assert_eq!(safe_segment("/"), "unnamed");
}

#[test]
fn keeps_ordinary_names_including_chinese() {
    assert_eq!(safe_segment("photo.png"), "photo.png");
    assert_eq!(safe_segment("我的文档.txt"), "我的文档.txt");
    assert_eq!(safe_segment("nested/sub/doc.txt"), "doc.txt");
}

#[test]
fn handles_windows_reserved_names() {
    assert_eq!(safe_segment("CON"), "_CON");
    assert_eq!(safe_segment("nul.txt"), "_nul.txt");
    assert_eq!(safe_segment("normal"), "normal");
}

#[test]
fn truncates_overlong_names() {
    let long = "a".repeat(500);
    assert_eq!(safe_segment(&long).chars().count(), 120);
}

#[test]
fn encode_decode_roundtrip() {
    let frame = MessageFrame::new(MessageType::Signal, b"hello".to_vec());
    let bytes = frame.encode();
    assert_eq!(bytes[0], 0x01);
    let decoded = MessageFrame::decode(&bytes).unwrap();
    assert_eq!(decoded, frame);
}

#[test]
fn decode_rejects_empty() {
    assert!(MessageFrame::decode(&[]).is_err());
}

#[test]
fn decode_rejects_unknown_type() {
    assert!(MessageFrame::decode(&[0x09, 0x00]).is_err());
}

#[test]
fn type_from_u8() {
    assert_eq!(MessageType::from_u8(0x01), Some(MessageType::Signal));
    assert_eq!(MessageType::from_u8(0x04), Some(MessageType::Heartbeat));
    assert_eq!(MessageType::from_u8(0x00), None);
}

#[test]
fn signal_json_roundtrip() {
    let json = serde_json::to_vec(&std::collections::BTreeMap::from([("hello", "world")]))
        .map_err(|e| e.to_string());
    let frame = MessageFrame::signal_json(json).unwrap();
    assert_eq!(frame.msg_type, MessageType::Signal);
    let decoded = MessageFrame::decode(&frame.encode()).unwrap();
    assert_eq!(decoded.msg_type, MessageType::Signal);
}
