//! Pairing, connecting, relaying and fetching, as the hub sees them.

use clipsync::clipboard::types::{ClipboardContent, DeviceId, FileMeta, SyncId, SyncMark};
use clipsync::config::settings::ManualAddress;
use clipsync::device::identity::DeviceIdentity;
use clipsync::device::registry::{DeviceRegistry, PairedDevice, TrustLevel};
use clipsync::discovery::mdns::{
    choose_address, host_name, instance_name, on_removed, on_resolved, service_device, Resolved,
    ResolvedService, ServiceAddress,
};
use clipsync::discovery::DiscoveredPeer;
use clipsync::strmap::StrMap;
use clipsync::sync::engine::SyncEvent;
use clipsync::transfer::handshake::{
    handshake_input, mismatch_notice, open_frame, seal_frame, seal_frame_with, session_input,
    Connection, HandshakeError, HandshakeInput, HelloPayload, Incoming, Phase, Role, SessionInput,
    SocketMessage,
};
use clipsync::transfer::manager::{
    addr_key, is_file_request, pair_step, parse_host_port, refreshed_addr, toast_position,
    ConnectionHub, LocalStep, PairOutcome, PairStep,
};
use clipsync::transfer::offers::{percent, ChunkCursor, FileAction, PullProgress};
use clipsync::transfer::relay::{next_hop, RelaySeen, SyncEnvelope, SEEN_CAP};
use clipsync::transfer::websocket::{FileChunkResponsePayload, FileFrame, MessageFrame, MessageType};

fn hub(id: &str) -> ConnectionHub {
    let identity = DeviceIdentity::from_secret([5u8; 32], DeviceId(id.to_string()), id);
    ConnectionHub::new(identity)
}

fn file(name: &str, size: u64) -> FileMeta {
    FileMeta {
        file_name: name.to_string(),
        file_size: size,
        is_dir: false,
        relative_path: name.to_string(),
        modified_at: 0,
        mime_type: String::new(),
        hash: None,
    }
}

fn mark(id: &str) -> SyncMark {
    SyncMark {
        device_id: DeviceId(id.to_string()),
        sync_id: SyncId("s".to_string()),
        timestamp: 0,
        lamport: 1,
        content_hash: "h".to_string(),
    }
}

fn device(id: &str, last_addr: Option<&str>) -> PairedDevice {
    PairedDevice {
        device_id: DeviceId(id.to_string()),
        device_name: id.to_string(),
        fingerprint: "f".to_string(),
        trust: TrustLevel::Verified,
        last_seen: 1,
        last_addr: last_addr.map(|a| a.to_string()),
    }
}

fn found(id: &str, addr: &str, port: u16) -> DiscoveredPeer {
    DiscoveredPeer {
        device_id: id.to_string(),
        device_name: id.to_string(),
        addr: addr.to_string(),
        port,
    }
}

/// Runs a handshake between two hubs; `typed` is what the initiator's user typed.
fn shake(
    a: &mut ConnectionHub,
    b: &mut ConnectionHub,
    typed: Option<&str>,
) -> (Connection, Connection, Result<(), HandshakeError>) {
    let mut ca = Connection::new(
        Role::Initiator,
        &a.identity.id.0,
        "10.0.0.2:20071",
        typed.map(|t| t.to_string()),
    );
    let mut cb = Connection::new(Role::Responder, &b.identity.id.0, "10.0.0.1:51000", None);
    let code_a = a.pairing_code();
    let code_b = b.pairing_code();
    let m = match ca.on_hello(b.hello(), &a.paired_codes, &code_a) {
        Ok(m) => m.unwrap(),
        Err(e) => return (ca, cb, Err(e)),
    };
    assert!(cb.on_hello(a.hello(), &b.paired_codes, &code_b).unwrap().is_none());
    let rb = cb.on_exchange(&m);
    let ra = ca.on_exchange(&rb.message.unwrap());
    assert!(ra.message.is_none());
    let first = ca.on_code(&rb.code.unwrap());
    let second = cb.on_code(&ra.code.unwrap());
    assert_eq!(first.is_ok(), second.is_ok());
    (ca, cb, first)
}

#[test]
fn devices_pair_and_reconnect() {
    let mut a = hub("a");
    let mut b = hub("b");
    b.set_pairing_code("2345-6789-ABCD".to_string());
    b.listen_port = 20071;
    let (mut ra, mut rb) = (DeviceRegistry::new(), DeviceRegistry::new());

    let (ca, cb, end) = shake(&mut a, &mut b, Some(" 23456789abcd "));
    assert!(end.is_ok());
    assert!(ca.fresh && cb.fresh);
    let ga = a.register(&mut ra, &ca, 100).unwrap();
    let gb = b.register(&mut rb, &cb, 101).unwrap();
    assert_eq!(ga.link_secret, gb.link_secret);
    assert_eq!(ga.conn_id, 1);
    assert_eq!(ga.last_addr.as_deref(), Some("10.0.0.2:20071"));
    assert_eq!(gb.last_addr, None);
    assert!(a.is_paired("b") && b.is_paired("a"));
    assert_eq!(a.connected_peer_ids(), vec!["b"]);
    assert!(a.connected_addrs.contains("10.0.0.2:20071"));
    assert!(!b.connected_addrs.contains("10.0.0.1:51000"));
    let known = ra.get(&DeviceId("b".to_string())).unwrap();
    assert_eq!(known.last_seen, 100);
    assert_eq!(known.trust, TrustLevel::Verified);

    // The next connection needs no code and keeps the secret.
    b.set_pairing_code("ZZZZZZZZZZZZ".to_string());
    let (ca, _, end) = shake(&mut a, &mut b, None);
    assert!(end.is_ok());
    assert!(!ca.fresh);
    let again = a.register(&mut ra, &ca, 200).unwrap();
    assert_eq!(again.link_secret, None);
    assert_eq!(again.conn_id, 2);

    // The older connection ends; the newer one stays.
    assert!(!a.close("b", 1, "elsewhere"));
    assert_eq!(a.connected_peer_ids(), vec!["b"]);
    assert!(a.close("b", 2, "10.0.0.2:20071"));
    assert!(a.connected_peer_ids().is_empty());
    assert!(!a.connected_addrs.contains("10.0.0.2:20071"));

    assert!(a.unpair(&mut ra, "b"));
    assert!(!a.is_paired("b"));
    assert!(!a.unpair(&mut ra, "b"));
}

#[test]
fn wrong_code_is_told_apart() {
    let mut a = hub("a");
    let mut b = hub("b");
    b.set_pairing_code("23456789ABCD".to_string());
    let (ca, _, end) = shake(&mut a, &mut b, Some("23456789ABCE"));
    assert!(matches!(end, Err(HandshakeError::CodeMismatch)));
    assert!(matches!(ca.phase, Phase::Failed));
    assert_eq!(
        mismatch_notice(Role::Responder, true, "甲"),
        Some("与「甲」的配对码不一致".to_string())
    );
    assert_eq!(mismatch_notice(Role::Responder, false, "甲"), None);
    assert_eq!(mismatch_notice(Role::Initiator, true, "甲"), None);
}

#[test]
fn handshakes_that_cannot_start() {
    let mut a = hub("a");
    let mut b = hub("b");
    let (_, _, end) = shake(&mut a, &mut b, None);
    assert!(matches!(end, Err(HandshakeError::NoCode)));
    let mut twin = hub("a");
    let (_, _, end) = shake(&mut a, &mut twin, Some("x"));
    assert!(matches!(end, Err(HandshakeError::SelfConnection)));
    assert_eq!(HandshakeError::SelfConnection.text(), "拒绝与自身建立连接");
    assert_eq!(HandshakeError::CodeMismatch.text(), "配对码不一致");
    let mut c = Connection::new(Role::Initiator, "a", "x:1", None);
    assert!(matches!(c.on_exchange(b"x").code, Err(HandshakeError::OutOfTurn)));
    assert!(matches!(c.on_code(b"x"), Err(HandshakeError::OutOfTurn)));
    let mut c = Connection::new(Role::Responder, "a", "x:1", None);
    let hello = b.hello();
    c.on_hello(hello, &StrMap::new(), "CODE").unwrap();
    let reply = c.on_exchange(b"x");
    assert_eq!(reply.message.unwrap().len(), 33);
    match reply.code {
        Err(e) => assert_eq!(e.text(), "spake2 finish: WrongLength"),
        Ok(_) => panic!("a short message was taken"),
    }
}

#[test]
fn unreadable_public_key_is_refused() {
    let mut a = hub("a");
    let mut registry = DeviceRegistry::new();
    let conn = Connection {
        role: Role::Initiator,
        my_id: "a".to_string(),
        peer_addr: "h:1".to_string(),
        given_code: None,
        peer: Some(HelloPayload {
            device_id: "b".to_string(),
            device_name: "b".to_string(),
            public_key: "***".to_string(),
            listen_port: 1,
        }),
        fresh: true,
        phase: Phase::Confirmed { key: [1; 32] },
    };
    let refused: HandshakeError = a.register(&mut registry, &conn, 1).err().unwrap();
    assert!(matches!(refused, HandshakeError::BadPublicKey(_)));
    assert_eq!(refused.text(), "bad peer public key: Invalid symbol 42, offset 0.");
    assert!(registry.is_empty());
    assert!(!a.is_paired("b"));
}

#[test]
fn encrypted_frames_read_back() {
    let key = [1u8; 32];
    let b = seal_frame(&key, MessageType::Sync, b"hello").unwrap();
    assert_eq!(b[0], 5);
    assert_eq!(b.len(), 1 + 12 + 5 + 16);
    assert!(matches!(open_frame(&key, &b), Incoming::Sync(p) if p == b"hello"));
    let f = seal_frame_with(&key, &[0; 12], MessageType::File, b"piece").unwrap();
    assert!(matches!(open_frame(&key, &f), Incoming::File(p) if p == b"piece"));
    assert!(matches!(open_frame(&[2; 32], &f), Incoming::Unreadable));
    assert!(matches!(open_frame(&key, &[5, 1, 2]), Incoming::TooShort));
    assert!(matches!(open_frame(&key, &[4]), Incoming::Other));
    assert!(matches!(open_frame(&key, &[]), Incoming::NotAFrame));
    assert!(matches!(open_frame(&key, &[99]), Incoming::NotAFrame));
    // Two frames of one message differ.
    assert_ne!(b, seal_frame(&key, MessageType::Sync, b"hello").unwrap());
}

#[test]
fn messages_of_a_socket() {
    let hello = MessageFrame::new(MessageType::Hello, b"{}".to_vec()).encode();
    match handshake_input(SocketMessage::Binary(hello)) {
        HandshakeInput::Frame(f) => assert_eq!(f.payload, b"{}"),
        _ => panic!("a frame was not read"),
    }
    assert!(matches!(handshake_input(SocketMessage::Other), HandshakeInput::Skip));
    match handshake_input(SocketMessage::Closed) {
        HandshakeInput::Over(m) => assert_eq!(m, "connection closed during handshake"),
        _ => panic!("a closed socket was not seen"),
    }
    match handshake_input(SocketMessage::Binary(vec![])) {
        HandshakeInput::Over(m) => assert_eq!(m, "decode frame: empty frame"),
        _ => panic!("an empty message was read"),
    }
    let key = [1u8; 32];
    assert!(matches!(session_input(&key, SocketMessage::Closed), SessionInput::Over));
    assert!(matches!(session_input(&key, SocketMessage::Other), SessionInput::Skip));
    assert!(matches!(
        session_input(&key, SocketMessage::Binary(vec![9])),
        SessionInput::Read(Incoming::NotAFrame)
    ));
}

#[test]
fn addresses() {
    assert_eq!(addr_key("10.0.0.1", 20071), "10.0.0.1:20071");
    assert_eq!(parse_host_port(" 10.0.0.1:80 "), Some(("10.0.0.1".to_string(), 80)));
    assert_eq!(parse_host_port(":80"), None);
    assert_eq!(parse_host_port("host"), None);
    assert_eq!(parse_host_port("host:65536"), None);
    assert_eq!(parse_host_port(""), None);
    let known = Some("192.168.1.5:1".to_string());
    assert_eq!(refreshed_addr("127.0.0.1:9", 20071, &known).unwrap(), "192.168.1.5:20071");
    assert_eq!(refreshed_addr("10.0.0.9:9", 20071, &known).unwrap(), "10.0.0.9:20071");
    assert_eq!(refreshed_addr("10.0.0.9:9", 0, &known), known);
    assert_eq!(refreshed_addr("127.0.0.1:9", 7, &None).unwrap(), "127.0.0.1:7");
    assert_eq!(refreshed_addr("", 7, &known).unwrap(), "192.168.1.5:7");
}

#[test]
fn requests_for_files_are_told_from_sockets() {
    assert!(is_file_request(b"GET /file/abc HTTP/1.1\r\nHost: x\r\n\r\n"));
    assert!(!is_file_request(b"GET / HTTP/1.1\r\nUpgrade: websocket\r\n\r\n"));
    assert!(!is_file_request(b"GET /file/abc HTTP/1.1"));
    assert!(!is_file_request(b""));
    assert!(!is_file_request(b"GET\r\n/file/"));
}

#[test]
fn steps_of_a_pairing() {
    assert!(matches!(pair_step(0, PairOutcome::Connected, true), PairStep::Done));
    assert!(matches!(pair_step(0, PairOutcome::Failed("boom".to_string()), false), PairStep::Retry));
    assert!(matches!(
        pair_step(23, PairOutcome::Failed("boom".to_string()), false),
        PairStep::Tell(m) if m.starts_with("配对超时")
    ));
    assert!(matches!(
        pair_step(0, PairOutcome::Failed("connect failed: refused".to_string()), false),
        PairStep::Tell(m) if m.starts_with("对端不可达")
    ));
    assert!(matches!(
        pair_step(0, PairOutcome::CodeMismatch, false),
        PairStep::Tell(m) if m == "配对码不一致，请核对对方界面显示的配对码"
    ));
    assert!(matches!(
        pair_step(0, PairOutcome::CodeMismatch, true),
        PairStep::Tell(m) if m.starts_with("重连失败")
    ));
}

#[test]
fn whom_to_dial() {
    let mut h = hub("me");
    h.paired_codes.insert("p".to_string(), "secret".to_string());
    h.paired_codes.insert("q".to_string(), "secret".to_string());
    h.peers.insert("q".to_string(), 1);
    let near = [found("p", "10.0.0.3", 1), found("stranger", "10.0.0.4", 1), found("q", "10.0.0.5", 1)];
    let book = [
        ManualAddress { label: "one".to_string(), addr: "10.0.0.6".to_string(), port: 2 },
        ManualAddress { label: "two".to_string(), addr: "10.0.0.7".to_string(), port: 2 },
    ];
    let paired = [
        device("p", Some("10.0.0.8:3")),
        device("q", Some("10.0.0.9:3")),
        device("r", Some("nonsense")),
        device("s", None),
    ];
    assert!(h.begin_connecting("10.0.0.7", 2));
    assert!(!h.begin_connecting("10.0.0.7", 2));
    let round: Vec<String> =
        h.reconnect_round(&near, &book, &paired).iter().map(|p| addr_key(&p.addr, p.port)).collect();
    assert_eq!(round, vec!["10.0.0.3:1", "10.0.0.6:2", "10.0.0.8:3"]);
    h.end_connecting("10.0.0.7", 2);
    assert!(h.should_connect_addr("10.0.0.7", 2));
    let all = h.reconnect_round(&[], &book, &[]);
    assert_eq!(all.len(), 2);
    assert_eq!(all[0].device_name, "手动/已知地址");
    assert_eq!(all[0].device_id, "");
}

#[test]
fn updates_are_relayed_once() {
    let mut h = hub("me");
    h.peers.insert("a".to_string(), 1);
    h.peers.insert("b".to_string(), 2);
    let env = SyncEnvelope {
        mark: mark("a"),
        content: ClipboardContent::Text("x".to_string()),
        msg_id: "m1".to_string(),
        ttl: 3,
    };
    let plan = h.on_envelope("a", env.clone()).unwrap();
    assert_eq!(plan.to, vec!["b"]);
    assert_eq!(plan.forward.unwrap().ttl, 2);
    assert_eq!(plan.apply.msg_id, "m1");
    assert!(h.on_envelope("b", env.clone()).is_none());
    let last = SyncEnvelope { msg_id: "m2".to_string(), ttl: 1, ..env };
    let plan = h.on_envelope("a", last.clone()).unwrap();
    assert!(plan.forward.is_none());
    assert!(plan.to.is_empty());
    assert!(next_hop(&last).is_none());
}

#[test]
fn own_updates_do_not_come_back() {
    let mut h = hub("me");
    h.peers.insert("a".to_string(), 1);
    let step = h.on_event(SyncEvent::LocalClipboardChanged {
        mark: mark("me"),
        content: ClipboardContent::Text("x".to_string()),
    });
    match step {
        LocalStep::Send { envelope, to } => {
            assert_eq!(to, vec!["a"]);
            assert_eq!(envelope.ttl, 32);
            assert_eq!(envelope.msg_id.len(), 36);
            assert_eq!(&envelope.msg_id[14..15], "4");
            assert!(h.on_envelope("a", envelope).is_none());
        }
        _ => panic!("a change was not sent"),
    }
    assert!(matches!(
        h.on_event(SyncEvent::RemoteClipboardApplied {
            mark: mark("a"),
            content: ClipboardContent::Text("y".to_string())
        }),
        LocalStep::Nothing
    ));
    assert!(matches!(
        h.on_event(SyncEvent::LocalFilesCopied { paths: vec!["/x".to_string()] }),
        LocalStep::Offer(p) if p == vec!["/x".to_string()]
    ));
}

#[test]
fn the_oldest_update_is_forgotten() {
    let mut seen = RelaySeen::new();
    for i in 0..SEEN_CAP {
        assert!(!seen.note(&i.to_string()));
    }
    assert!(seen.knows("0"));
    assert!(seen.note("0"));
    assert!(!seen.note("one more"));
    assert!(!seen.knows("0"));
    assert!(seen.knows("1"));
}

#[test]
fn an_offer_is_fetched() {
    let mut sender = hub("sender");
    let mut receiver = hub("receiver");
    sender.peers.insert("receiver".to_string(), 1);
    receiver.peers.insert("sender".to_string(), 1);
    let offer = sender
        .offer_local_files(
            "t".to_string(),
            vec![file("a.txt", 5), file("../b.txt", 7)],
            vec!["/home/a.txt".to_string(), "/home/b.txt".to_string()],
            vec!["a.txt".to_string()],
            false,
        )
        .unwrap();
    match receiver.handle_file_frame(offer) {
        FileAction::Offered { transfer_id, total, auto_pull } => {
            assert_eq!(transfer_id, "t");
            assert_eq!(total, 12);
            assert!(!auto_pull);
        }
        _ => panic!("the offer was not taken up"),
    }
    let shown = receiver.pending_offers_snapshot();
    assert_eq!(shown.len(), 1);
    assert_eq!(shown[0].total_size, 12);

    let plan = receiver.pull_files("t", "/down").unwrap();
    assert_eq!(plan.target_dir, "/down/sender");
    assert_eq!(plan.targets, vec!["/down/sender/a.txt", "/down/sender/b.txt"]);
    assert_eq!(plan.file_indices, vec![0, 1]);
    let piece = |file_index: usize, offset: u64| FileChunkResponsePayload {
        transfer_id: "t".to_string(),
        file_index,
        offset,
        data: vec![1],
    };
    let first = plan.write_of(&piece(1, 0)).unwrap();
    assert_eq!((first.path.as_str(), first.offset, first.anew), ("/down/sender/b.txt", 0, true));
    let second = plan.write_of(&piece(1, 1)).unwrap();
    assert_eq!((second.path.as_str(), second.offset, second.anew), ("/down/sender/b.txt", 1, false));
    assert!(plan.write_of(&piece(2, 0)).is_none());
    assert!(receiver.pull_files("t", "/down").is_none());

    let request = FileFrame::PullRequest { transfer_id: "t".to_string(), file_indices: vec![1, 9, 0] };
    match sender.handle_file_frame(request) {
        FileAction::Send { files, .. } => assert_eq!(
            files,
            vec![(1, "/home/b.txt".to_string()), (0, "/home/a.txt".to_string())]
        ),
        _ => panic!("the request was not answered"),
    }
    let mut cursor = ChunkCursor::new("t".to_string(), 0);
    match receiver.handle_file_frame(cursor.next(vec![1, 2, 3])) {
        FileAction::Write(c) => assert_eq!((c.offset, c.data), (0, vec![1, 2, 3])),
        _ => panic!("the piece was not written"),
    }
    match receiver.handle_file_frame(cursor.next(vec![4, 5])) {
        FileAction::Write(c) => assert_eq!((c.offset, c.file_index), (3, 0)),
        _ => panic!("the piece was not written"),
    }
    let end = FileFrame::Complete { transfer_id: "t".to_string() };
    assert!(matches!(receiver.handle_file_frame(end), FileAction::Finish { .. }));
    let cancel = FileFrame::PullCancel { transfer_id: "t".to_string() };
    assert!(matches!(receiver.handle_file_frame(cancel), FileAction::Cancelled { .. }));
    assert!(matches!(
        receiver.handle_file_frame(cursor.next(vec![6])),
        FileAction::Unknown { .. }
    ));
    let end = FileFrame::Complete { transfer_id: "t".to_string() };
    assert!(matches!(receiver.handle_file_frame(end), FileAction::Ignore));
    let request = FileFrame::PullRequest { transfer_id: "u".to_string(), file_indices: vec![] };
    assert!(matches!(sender.handle_file_frame(request), FileAction::Unknown { .. }));
}

#[test]
fn offers_wait_for_their_device() {
    let mut h = hub("me");
    h.set_auto_pull(true, 100);
    let offer = |t: &str, size: u64| FileFrame::Offer {
        transfer_id: t.to_string(),
        device_id: "far".to_string(),
        device_name: "far".to_string(),
        files: vec![file(t, size)],
        top_names: vec![],
        has_folder: false,
    };
    assert!(matches!(h.handle_file_frame(offer("small", 99)), FileAction::Offered { auto_pull: true, .. }));
    assert!(matches!(h.handle_file_frame(offer("large", 100)), FileAction::Offered { auto_pull: false, .. }));
    assert!(h.pull_files("small", "/d").is_none());
    assert_eq!(h.pending_offers.len(), 2);
    assert_eq!(h.drop_pending_offers(&["small".to_string(), "none".to_string()]), 1);
    assert_eq!(h.pending_offers.len(), 1);
    let own = FileFrame::Offer {
        transfer_id: "own".to_string(),
        device_id: "me".to_string(),
        device_name: "me".to_string(),
        files: vec![file("z", 1)],
        top_names: vec![],
        has_folder: false,
    };
    assert!(matches!(h.handle_file_frame(own), FileAction::Ignore));
    h.set_max_folder_files(2);
    assert!(h.refuses_folder(true, true));
    assert!(!h.refuses_folder(false, true));
    h.set_max_folder_files(0);
    assert!(!h.refuses_folder(true, true));
    assert!(h.offer_local_files("t".to_string(), vec![], vec![], vec![], false).is_none());
}

#[test]
fn progress_of_a_fetch() {
    assert_eq!(percent(1, 3), 33);
    assert_eq!(percent(5, 0), 500);
    let mut p = PullProgress::new(1000, 0);
    p.wrote("/d/a", 40);
    assert_eq!(p.report(10), None);
    p.wrote("/d/a", 10);
    assert_eq!(p.report(11), Some(5));
    p.wrote("/d/b", 1);
    assert_eq!(p.report(200), None);
    assert_eq!(p.report(211), Some(5));
    assert_eq!(p.received, vec!["/d/a", "/d/b"]);
    assert_eq!(p.written, 51);
    assert_eq!(toast_position(1920, 1080), (1564, 816));
}

#[test]
fn pairings_are_restored_and_moved() {
    let mut h = hub("me");
    let mut secrets = StrMap::new();
    secrets.insert("a".to_string(), "s1".to_string());
    h.restore_paired(&secrets);
    assert!(h.is_paired("a"));
    assert_eq!(h.migrate_pairing("a", "a"), None);
    assert_eq!(h.migrate_pairing("a", "b"), Some("s1".to_string()));
    assert!(!h.is_paired("a") && h.is_paired("b"));
    assert_eq!(h.migrate_pairing("a", "c"), None);
}

#[test]
fn services_on_the_network() {
    assert_eq!(instance_name("d1"), "clipsync-d1");
    assert_eq!(host_name("d1"), "clipsync-d1.local.");
    assert_eq!(service_device("clipsync-d1._clipsync._tcp.local."), "d1");
    assert_eq!(service_device("other"), "other");
    let address = |t: &str, v4: bool, own: bool| ServiceAddress {
        text: t.to_string(),
        is_ipv4: v4,
        is_loopback: own,
    };
    assert_eq!(
        choose_address(&vec![
            address("fe80::1", false, false),
            address("127.0.0.1", true, true),
            address("10.0.0.2", true, false)
        ]),
        "10.0.0.2"
    );
    assert_eq!(choose_address(&vec![address("fe80::1", false, false)]), "fe80::1");
    assert_eq!(choose_address(&vec![]), "");

    let mut h = hub("me");
    let mut registry = DeviceRegistry::new();
    let mut near: StrMap<DiscoveredPeer> = StrMap::new();
    let service = |id: Option<&str>, addr: &str| ResolvedService {
        device_id: id.map(|i| i.to_string()),
        device_name: Some("name".to_string()),
        addresses: vec![ServiceAddress { text: addr.to_string(), is_ipv4: true, is_loopback: false }],
        port: 20071,
    };
    assert!(matches!(
        on_resolved(&mut h, &mut registry, &mut near, service(None, "10.0.0.2"), 1),
        Resolved::Skip
    ));
    assert!(matches!(
        on_resolved(&mut h, &mut registry, &mut near, service(Some("me"), "10.0.0.2"), 1),
        Resolved::Skip
    ));
    assert!(matches!(
        on_resolved(&mut h, &mut registry, &mut near, service(Some("x"), "10.0.0.2"), 1),
        Resolved::Found(_)
    ));
    assert!(near.contains_key("x"));
    assert_eq!(on_removed(&h, &mut near, "clipsync-x._clipsync._tcp.local."), ("x".to_string(), true));
    assert!(near.is_empty());

    // A paired device came back under a new identifier.
    registry.add(device("old", Some("10.0.0.3:20071")));
    h.paired_codes.insert("old".to_string(), "secret".to_string());
    match on_resolved(&mut h, &mut registry, &mut near, service(Some("new"), "10.0.0.3"), 9) {
        Resolved::Paired { device, replaced, secret } => {
            assert_eq!(device.last_seen, 9);
            assert_eq!(replaced.as_deref(), Some("old"));
            assert_eq!(secret.as_deref(), Some("secret"));
        }
        _ => panic!("the device was not recognised"),
    }
    assert!(h.is_paired("new") && !h.is_paired("old"));
    // A paired device is in the table too.
    assert_eq!(near.get("new").unwrap().addr, "10.0.0.3");
    assert_eq!(registry.len(), 1);
    assert!(matches!(
        on_resolved(&mut h, &mut registry, &mut near, service(Some("new"), "10.0.0.4"), 10),
        Resolved::Paired { replaced: None, .. }
    ));
    assert_eq!(near.get("new").unwrap().addr, "10.0.0.4");
    assert!(registry.find_by_addr("10.0.0.4:20071").is_some());
    assert!(registry.find_by_addr("10.0.0.3:20071").is_none());
}
