//! The server, its messages, and files from other networks.

use clipsync::clipboard::types::{DeviceId, FileMeta};
use clipsync::crypto::file_auth::auth_token;
use clipsync::crypto::kdf::derive_network_key;
use clipsync::device::registry::{DeviceRegistry, PairedDevice, TrustLevel};
use clipsync::discovery::DiscoveredPeer;
use clipsync::file_server::{
    answer, answer_bytes, body_head, head_step, header_value, sealed_body, status_head, status_text,
    write_status, FileAnswer, HeadStep,
};
use clipsync::file_share::{build_meta, FileShare, LocalFile};
use clipsync::received::{select_over_cap, ReceivedOffers};
use clipsync::server_conn::conn::{
    link_is_dead, open_relay, seal_relay, seal_relay_with, summarize_manifest, ClientToServer,
    ConnectOutcome, CrossLanOffer, ManifestItem, Reconnector, RemoteNode, ServerConn, ServerFrame,
    ServerStatus, ServerToClient,
};
use clipsync::server_conn::lan::{group_of, infer_lan_group, is_virtual_or_reserved, Ipv4};
use clipsync::server_conn::os_info::{linux_version, macos_version, windows_version};
use clipsync::server_conn::pull::{
    cross_routes, decrypt_download, device_dir, explain_http_status, explain_send_err, BodyStep,
    ChunkStep, CrossPull, DownloadFault, PullStep, Reply, Route, SendFault,
};
use clipsync::strmap::StrMap;

fn node(id: &str, group: &str) -> RemoteNode {
    RemoteNode {
        device_id: id.to_string(),
        name: format!("{id}-name"),
        lan_group: group.to_string(),
        ext_file_ep: String::new(),
        platform: "linux".to_string(),
    }
}

fn meta(name: &str, size: u64, hash: &str) -> FileMeta {
    FileMeta {
        file_name: name.to_string(),
        file_size: size,
        is_dir: false,
        relative_path: String::new(),
        modified_at: 0,
        mime_type: String::new(),
        hash: Some(hash.to_string()),
    }
}

fn offer(from: &str, manifest: &str, at: u64) -> CrossLanOffer {
    CrossLanOffer {
        from: from.to_string(),
        from_name: from.to_string(),
        manifest: manifest.to_string(),
        ext_file_ep: String::new(),
        received_at: at,
    }
}

fn welcomed() -> ServerConn {
    let mut c = ServerConn::new();
    c.our_lan_group = "192.168.1".to_string();
    let r = c.handle_server_message(
        ServerFrame::Message(ServerToClient::Welcome {
            status: "active".to_string(),
            network_id: "net-1".to_string(),
            nodes: vec![node("far", "10.9.9"), node("near", "192.168.1")],
        }),
        "token",
        1,
    );
    assert!(r.keep && r.show_nodes);
    assert_eq!(r.outcome, Some(ConnectOutcome::Authed));
    assert_eq!(r.status, Some(2));
    c
}

#[test]
fn text_goes_to_other_networks_only() {
    let c = welcomed();
    assert_eq!(c.network_key, Some(derive_network_key("token", "net-1")));
    let out = c.route_text(b"hello");
    assert_eq!(out.len(), 1);
    match &out[0] {
        ClientToServer::RelayText { to, ct } => {
            assert_eq!(to, "far");
            assert_eq!(c.handle_relay_text(ct).unwrap(), b"hello");
            assert_eq!(open_relay(&[0; 32], ct), None);
        }
        _ => panic!("another message was made"),
    }
    assert!(c.offers_files("host:1"));
    assert!(!c.offers_files("  "));
    let idle = ServerConn::new();
    assert!(idle.route_text(b"hello").is_empty());
    assert!(idle.handle_relay_text("x").is_none());
}

#[test]
fn relayed_text_reads_back() {
    let key = [9u8; 32];
    let ct = seal_relay(&key, "你好".as_bytes()).unwrap();
    assert_eq!(open_relay(&key, &ct).unwrap(), "你好".as_bytes());
    // Twelve zero bytes of nonce and the known answer for no text.
    assert_eq!(
        seal_relay_with(&[0; 32], &[0; 12], b"").unwrap(),
        "AAAAAAAAAAAAAAAAUw+K+8dFNrmpY7TxxMtziw=="
    );
    assert_eq!(open_relay(&key, "not base64"), None);
    assert_eq!(open_relay(&key, "AAAA"), None);
}

#[test]
fn reactions_to_the_server() {
    let mut c = welcomed();
    let say = |c: &mut ServerConn, m: ServerToClient| {
        c.handle_server_message(ServerFrame::Message(m), "token", 5)
    };
    assert_eq!(say(&mut c, ServerToClient::Deactivated).status, Some(1));
    assert_eq!(c.status(), ServerStatus::Pending);
    assert_eq!(say(&mut c, ServerToClient::Activated).status, Some(2));
    assert!(say(&mut c, ServerToClient::HeartbeatAck).keep);
    let r = say(&mut c, ServerToClient::NodesUpdate { nodes: vec![node("far", "g")] });
    assert!(r.show_nodes);
    assert_eq!(c.nodes().len(), 1);
    let r = say(
        &mut c,
        ServerToClient::FileNotify {
            from: "far".to_string(),
            manifest: "[]".to_string(),
            ext_file_ep: "h:1".to_string(),
        },
    );
    let o = r.offer.unwrap();
    assert_eq!(o.from_name, "far-name");
    assert_eq!(o.received_at, 5);
    let r = say(&mut c, ServerToClient::Error { code: "x".to_string(), msg: String::new() });
    assert!(r.keep && r.outcome.is_none());
    let r = say(&mut c, ServerToClient::Error { code: "bad_token".to_string(), msg: String::new() });
    assert!(!r.keep);
    assert_eq!(r.outcome, Some(ConnectOutcome::AuthRejected));
    let r = say(&mut c, ServerToClient::Removed);
    assert!(!r.keep && r.tell_removed && c.removed);
    assert!(c.handle_server_message(ServerFrame::Ping, "t", 1).pong);
    assert!(!c.handle_server_message(ServerFrame::Close, "t", 1).keep);
    assert!(c.handle_server_message(ServerFrame::Unreadable, "t", 1).keep);
    assert_eq!(ServerStatus::from_str("pending"), ServerStatus::Pending);
    assert_eq!(ServerStatus::from_str("?"), ServerStatus::Disconnected);
}

#[test]
fn the_first_message_to_the_server() {
    let mut c = ServerConn::new();
    assert_eq!(
        c.auth_message(" ", "id", "n", "", "linux").err().unwrap(),
        "network_token 为空，无法连接服务端"
    );
    match c.auth_message("t", "id", "n", "", "linux").unwrap() {
        ClientToServer::Auth { device, .. } => assert_eq!(device.hardware_id, "id"),
        _ => panic!("another message was made"),
    }
    c.remember_device_info("hw".to_string(), "os 1".to_string());
    c.remember_device_info("other".to_string(), "os 2".to_string());
    match c.auth_message("t", "id", "n", "", "linux").unwrap() {
        ClientToServer::Auth { device, .. } => {
            assert_eq!(device.hardware_id, "hw");
            assert_eq!(device.os_version, "os 2");
        }
        _ => panic!("another message was made"),
    }
}

#[test]
fn waiting_before_the_next_try() {
    let mut c = ServerConn::new();
    let mut r = Reconnector::new();
    assert_eq!(r.before(&mut c), None);
    assert_eq!(r.target(&mut c, "", "g".to_string()), Some(10));
    assert_eq!(r.target(&mut c, "wss://x", "g".to_string()), None);
    assert_eq!(c.our_lan_group, "g");
    assert_eq!(r.ended(&mut c, Some(ConnectOutcome::Disconnected)), (false, 2));
    for wait in [4, 8, 16, 32, 60, 60] {
        r.waited();
        assert_eq!(r.ended(&mut c, None).1, wait);
    }
    assert_eq!(r.ended(&mut c, Some(ConnectOutcome::AuthRejected)), (true, 60));
    assert_eq!(r.ended(&mut c, Some(ConnectOutcome::AuthRejected)), (false, 60));
    assert_eq!(r.ended(&mut c, Some(ConnectOutcome::Authed)), (false, 2));
    c.removed = true;
    assert_eq!(r.before(&mut c), Some(30));
    r.waited();
    r.after_removed_wait(true);
    assert_eq!(r.backoff, 2);
    c.reconnect();
    assert!(!c.removed);
    assert!(!link_is_dead(0, 89_999));
    assert!(link_is_dead(0, 90_000));
    assert!(!link_is_dead(5, 0));
}

#[test]
fn manifests_are_summed_up() {
    let items = [
        ManifestItem { file_name: Some("a".to_string()), file_size: Some(u64::MAX) },
        ManifestItem { file_name: None, file_size: Some(2) },
    ];
    let (n, size, text) = summarize_manifest(Some(&items));
    assert_eq!((n, size), (2, u64::MAX));
    assert!(text.contains('a'));
    assert_eq!(summarize_manifest(None), (0, 0, "<manifest 不是数组>".to_string()));
}

#[test]
fn cancelled_fetches() {
    let mut c = ServerConn::new();
    c.begin_cross_pull("p", "far", "[]", "h:1", 3);
    assert!(c.cancel_cross_pull("p"));
    assert!(!c.cancel_cross_pull("p"));
    assert!(c.take_cancel("p"));
    assert!(!c.take_cancel("p"));
    assert_eq!(c.take_cross_pull_origin("p").unwrap().from, "far");
    assert!(c.take_cross_pull_origin("p").is_none());
    c.begin_cross_pull("p", "far", "[]", "h:1", 3);
    c.drop_cross_pull_origin("p");
    assert!(c.take_cross_pull_origin("p").is_none());
}

#[test]
fn local_networks() {
    assert!(Ipv4::new(172, 16, 0, 1).is_private());
    assert!(!Ipv4::new(172, 32, 0, 1).is_private());
    assert!(is_virtual_or_reserved(Ipv4::new(198, 19, 0, 1)));
    assert!(is_virtual_or_reserved(Ipv4::new(100, 127, 0, 1)));
    assert!(!is_virtual_or_reserved(Ipv4::new(100, 128, 0, 1)));
    assert_eq!(group_of(Ipv4::new(192, 168, 1, 77)), "192.168.1");
    assert_eq!(infer_lan_group("mine", &[], None), "mine");
    assert_eq!(
        infer_lan_group("", &[Ipv4::new(192, 168, 7, 2)], None),
        "192.168.7"
    );
    assert_eq!(
        infer_lan_group("", &[Ipv4::new(169, 254, 1, 1)], Some(Ipv4::new(8, 8, 4, 4))),
        "8.8.4"
    );
    assert_eq!(infer_lan_group("", &[], None), "");
}

#[test]
fn versions_of_the_system() {
    assert_eq!(
        windows_version("  ProductName    REG_SZ    Windows 10 Pro\r\n"),
        "10 Pro"
    );
    assert_eq!(windows_version("nothing"), "");
    assert_eq!(linux_version("NAME=x\nPRETTY_NAME=\"Debian 12\"\n"), "Debian 12");
    assert_eq!(linux_version("NAME=x"), "");
    assert_eq!(macos_version(" 14.5\n"), "14.5");
}

fn share_of(content: &[u8]) -> (FileShare, String) {
    let mut share = FileShare::new();
    let metas = share.register(&[
        LocalFile { path: "/home/a.txt".to_string(), is_dir: false, data: content.to_vec() },
        LocalFile { path: "/home/dir".to_string(), is_dir: true, data: vec![] },
        LocalFile { path: "/".to_string(), is_dir: true, data: vec![] },
    ]);
    assert_eq!(metas.len(), 2);
    assert_eq!(metas[0].file_name, "a.txt");
    assert_eq!(metas[1].hash, None);
    (share, metas[0].hash.clone().unwrap())
}

#[test]
fn files_are_found_by_their_digest() {
    let (share, hash) = share_of(b"abc");
    assert_eq!(hash, "ba7816bf8f01cfea414140de5dae2223b00361a396177a9cb410ff61f20015ad");
    assert_eq!(share.path_of(&hash), Some("/home/a.txt".to_string()));
    assert_eq!(share.path_of("x"), None);
    let dir = LocalFile { path: "..".to_string(), is_dir: true, data: vec![] };
    assert!(build_meta(&dir).is_none());
}

#[test]
fn answers_to_requests_for_files() {
    let (share, hash) = share_of(b"abc");
    let key = Some([7u8; 32]);
    let token = auth_token(&[7; 32], &hash);
    let status = |a: FileAnswer| match a {
        FileAnswer::Status { code, message } => (code, message.to_string()),
        FileAnswer::Serve { path } => (0, path),
    };
    let ask = |line: &str, auth: &str| format!("{line}\r\nX-ClipSync-AUTH: {auth}\r\n\r\n");
    let good = format!("GET /file/{hash}?x=1 HTTP/1.1");
    assert_eq!(status(answer(&ask(&good, &token), &key, &share)), (0, "/home/a.txt".to_string()));
    assert_eq!(
        status(answer_bytes(ask(&good, &token).as_bytes(), &key, &share)),
        (0, "/home/a.txt".to_string())
    );
    assert_eq!(status(answer(&ask(&good, "bad"), &key, &share)).0, 401);
    assert_eq!(status(answer(&format!("{good}\r\n\r\n"), &key, &share)).0, 401);
    assert_eq!(status(answer(&ask(&good, &token), &None, &share)).0, 503);
    assert_eq!(status(answer(&ask("POST /file/x HTTP/1.1", &token), &key, &share)).0, 405);
    assert_eq!(status(answer(&ask("GET / HTTP/1.1", &token), &key, &share)).0, 200);
    let other = auth_token(&[7; 32], "zz");
    assert_eq!(status(answer(&ask("GET /file/zz HTTP/1.1", &other), &key, &share)).0, 404);
    assert_eq!(header_value("GET /\r\nHost: h\r\n", "HOST"), Some("h".to_string()));
    assert_eq!(header_value("GET /\r\nHost: h\r\n", "other"), None);
}

#[test]
fn heads_of_requests() {
    assert_eq!(head_step(b"GET / HTTP/1.1\r\n\r\nrest"), HeadStep::Complete(18));
    assert_eq!(head_step(b"GET /"), HeadStep::More);
    assert_eq!(head_step(&vec![b'x'; 16_385]), HeadStep::TooLong);
    assert_eq!(head_step(&vec![b'x'; 16_384]), HeadStep::More);
    assert_eq!(status_text(404), "Not Found");
    assert!(status_head(404, 9).starts_with("HTTP/1.1 404 Not Found\r\n"));
    assert!(body_head(5).contains("Content-Length: 5"));
    let whole = String::from_utf8(write_status(401, "unauthorized")).unwrap();
    assert!(whole.starts_with("HTTP/1.1 401"));
    assert!(whole.ends_with("\r\n\r\nunauthorized"));
}

#[test]
fn served_files_open_under_the_key() {
    let key = [7u8; 32];
    let body = sealed_body(&key, b"content").unwrap();
    assert_eq!(decrypt_download(Some(key), &body).unwrap(), b"content");
    assert!(matches!(decrypt_download(None, &body), Err(DownloadFault::NoKey)));
    assert!(matches!(decrypt_download(Some(key), &body[..27]), Err(DownloadFault::TooShort)));
    assert!(matches!(
        decrypt_download(Some([8; 32]), &body),
        Err(DownloadFault::Undecryptable(_))
    ));
    assert_eq!(DownloadFault::TooShort.message(), "跨 LAN 文件格式异常（长度不足）");
    assert_eq!(DownloadFault::TooShort.report(), "跨 LAN 文件格式异常（长度不足）");
    assert_eq!(
        decrypt_download(Some([8; 32]), &body).err().unwrap().report(),
        "跨 LAN 文件解密失败（密钥不匹配或数据损坏）: aead::Error"
    );
}

#[test]
fn routes_to_a_device() {
    let mut near = StrMap::new();
    near.insert(
        "far".to_string(),
        DiscoveredPeer {
            device_id: "far".to_string(),
            device_name: "far".to_string(),
            addr: "10.0.0.2".to_string(),
            port: 20071,
        },
    );
    let routes = cross_routes(&near, "far", "example.org", 20071);
    let bases: Vec<(String, bool)> = routes.iter().map(|r| (r.base.clone(), r.lan)).collect();
    assert_eq!(
        bases,
        vec![
            ("http://10.0.0.2:20071".to_string(), true),
            ("http://example.org:20071".to_string(), false)
        ]
    );
    assert_eq!(cross_routes(&near, "far", "10.0.0.2", 20071).len(), 1);
    assert!(cross_routes(&StrMap::new(), "far", "", 20071).is_empty());
    let mut registry = DeviceRegistry::new();
    assert_eq!(device_dir(&registry, "far"), "far");
    registry.add(PairedDevice {
        device_id: DeviceId("far".to_string()),
        device_name: "Far away".to_string(),
        fingerprint: String::new(),
        trust: TrustLevel::Verified,
        last_seen: 0,
        last_addr: None,
    });
    assert_eq!(device_dir(&registry, "far"), "Far away");
}

fn routes(n: usize) -> Vec<Route> {
    (0..n).map(|i| Route { base: format!("http://h{i}"), lan: i == 0 }).collect()
}

#[test]
fn a_fetch_tries_its_routes() {
    let mut conn = welcomed();
    let key = conn.network_key.unwrap();
    let files = vec![meta("a/../x.txt", 10, "h1"), meta("y.txt", 30, "h2")];
    let mut p = match CrossPull::begin("p".to_string(), files, routes(2)) {
        Ok(p) => p,
        Err(_) => panic!("there are routes"),
    };
    match p.next_file(&mut conn) {
        PullStep::Request { url, auth } => {
            assert_eq!(url, "http://h0/file/h1");
            assert_eq!(auth, auth_token(&key, "h1"));
        }
        _ => panic!("nothing was asked for"),
    }
    match p.on_reply(Reply::Fault(SendFault::Timeout), 0) {
        PullStep::Request { url, .. } => assert_eq!(url, "http://h1/file/h1"),
        _ => panic!("the second route was not tried"),
    }
    match p.on_reply(Reply::Status { code: 200, text: "200 OK".to_string() }, 5) {
        PullStep::Download { file_name, first, lan } => {
            assert_eq!(file_name, "x.txt");
            assert!(first && !lan);
        }
        _ => panic!("the file was not taken"),
    }
    assert!(matches!(p.on_chunk(&mut conn, "/d/t", 0, 38, 6), ChunkStep::Silent));
    assert!(matches!(
        p.on_chunk(&mut conn, "/d/t", 38, 38, 7),
        ChunkStep::Report { received: 10, percent: 25 }
    ));
    assert_eq!(p.on_saved("/d/x.txt".to_string()), (10, 25));
    // The route that worked comes first now.
    match p.next_file(&mut conn) {
        PullStep::Request { url, .. } => assert_eq!(url, "http://h1/file/h2"),
        _ => panic!("nothing was asked for"),
    }
    p.on_reply(Reply::Status { code: 404, text: "404 Not Found".to_string() }, 8);
    match p.on_reply(Reply::Status { code: 404, text: "404 Not Found".to_string() }, 8) {
        PullStep::Failed(m) => assert!(m.contains(explain_http_status(404))),
        _ => panic!("the fetch went on"),
    }
    assert!(explain_send_err("http://h/", SendFault::Connect).starts_with("对端文件地址 h 连接被拒绝或不可达。"));
}

#[test]
fn a_fetch_that_ends_early_leaves_nothing() {
    let mut conn = welcomed();
    let key = conn.network_key.unwrap();
    let files = vec![meta("a", 7, "h1"), meta("b", 7, "h2")];
    let mut p = CrossPull::begin("p".to_string(), files, routes(1)).ok().unwrap();
    let body = sealed_body(&key, b"content").unwrap();
    match p.on_body(Some(key), "/d/t", &body) {
        BodyStep::Save { plain, remove } => {
            assert_eq!(plain, b"content");
            assert_eq!(remove, vec!["/d/t"]);
        }
        _ => panic!("the file was not taken"),
    }
    p.on_saved("/d/a".to_string());
    let ends = |key: Option<[u8; 32]>, raw: &[u8]| match p.on_body(key, "/d/t", raw) {
        BodyStep::Abort(d) => {
            assert_eq!(d.remove, vec!["/d/a", "/d/t"]);
            d.report
        }
        _ => panic!("the body was taken"),
    };
    assert_eq!(ends(None, &body), "网络密钥未就绪，无法解密跨 LAN 文件（请确认已连接服务端）");
    assert_eq!(ends(Some(key), &body[..27]), "跨 LAN 文件格式异常（长度不足）");
    assert_eq!(
        ends(Some([9; 32]), &body),
        "跨 LAN 文件解密失败（密钥不匹配或数据损坏）: aead::Error"
    );
    conn.cancel_cross_pull("p");
    match p.on_chunk(&mut conn, "/d/t", 1, 35, 0) {
        ChunkStep::Cancelled(d) => {
            assert_eq!(d.remove, vec!["/d/a", "/d/t"]);
            assert_eq!(d.report, "__CANCELLED__");
        }
        _ => panic!("the fetch went on"),
    }
    assert!(p.cancelled(&mut conn, None).is_none());
    p.on_saved("/d/b".to_string());
    match p.next_file(&mut conn) {
        PullStep::Finished { paths } => assert_eq!(paths, vec!["/d/a", "/d/b"]),
        _ => panic!("the fetch went on"),
    }
}

#[test]
fn a_fetch_ends() {
    let mut conn = welcomed();
    assert!(CrossPull::begin("p".to_string(), vec![], vec![]).is_err());
    let mut p = CrossPull::begin("p".to_string(), vec![], routes(1)).ok().unwrap();
    assert!(matches!(p.next_file(&mut conn), PullStep::Finished { paths } if paths.is_empty()));
    let big = vec![meta("big", 536_870_913, "h")];
    let mut p = CrossPull::begin("p".to_string(), big, routes(1)).ok().unwrap();
    assert!(matches!(p.next_file(&mut conn), PullStep::Failed(m) if m.starts_with("跨 LAN 单文件上限 512 MiB：big 为 512 MiB")));
    let mut p = CrossPull::begin("p".to_string(), vec![meta("a", 1, "h")], routes(1)).ok().unwrap();
    conn.cancel_cross_pull("p");
    match p.next_file(&mut conn) {
        PullStep::Cancelled(d) => {
            assert!(d.remove.is_empty());
            assert_eq!(d.report, "__CANCELLED__");
        }
        _ => panic!("the fetch went on"),
    }
    assert!(matches!(p.next_file(&mut conn), PullStep::Request { .. }));
}

#[test]
fn the_newest_offers_are_kept() {
    let pending: Vec<(String, u64)> =
        vec![("old".to_string(), 1), ("mid".to_string(), 5), ("new".to_string(), 9)];
    let (ids, spots) = select_over_cap(&pending, &[(0, 7), (1, 2)], 3);
    assert_eq!(ids, vec!["old".to_string()]);
    assert_eq!(spots, vec![1]);
    assert_eq!(select_over_cap(&pending, &[], 3), (vec![], vec![]));

    let mut r = ReceivedOffers::new();
    r.note_pending("p", Some(4));
    for (i, at) in [1u64, 5, 6, 7].iter().enumerate() {
        r.push_cross_lan_offer(offer("far", &format!("[{i}]"), *at));
    }
    assert_eq!(r.cross.len(), 3);
    assert_eq!(r.enforce_received_cap(), vec!["p".to_string()]);
    assert_eq!(r.cross.len(), 3);
    r.note_pending("q", Some(100));
    assert!(r.enforce_received_cap().is_empty());
    assert_eq!(r.cross.iter().map(|o| o.received_at).collect::<Vec<_>>(), vec![6, 7]);
    r.note_pending("q", None);
    assert!(r.pending.is_empty());
}
