//! What holds of several operations taken together, on chosen values.

use clipsync::clipboard::types::{ClipboardContent, DeviceId, SyncId, SyncMark};
use clipsync::config::persist::{merge_network_token, token_to_write, with_token, TokenSource};
use clipsync::config::AppConfig;
use clipsync::crypto::pake::{normalize_pairing_code, pairing_code_from};
use clipsync::fingerprint::fingerprint_of;
use clipsync::log_viewer::{read_history, split_lines, Tail};
use clipsync::server_conn::endpoint::{ext_file_ep_is_valid, normalize_ext_file_ep};
use clipsync::server_conn::lan::{lan_differ, pick_lan_ipv4, Ipv4};
use clipsync::sync::anti_loop::content_hash;
use clipsync::transfer::local_files::common_root;
use clipsync::transfer::manager::{addr_key, parse_host_port, PullPlan};
use clipsync::transfer::offers::ChunkCursor;
use clipsync::transfer::paths::safe_segment;
use clipsync::transfer::relay::{next_hop, others_of, SyncEnvelope, RELAY_MAX_TTL};
use clipsync::transfer::websocket::{FileFrame, MessageFrame, MessageType};
use clipsync::update::is_newer;

const TYPES: [MessageType; 8] = [
    MessageType::Signal,
    MessageType::FileChunkRequest,
    MessageType::FileChunkResponse,
    MessageType::Heartbeat,
    MessageType::Sync,
    MessageType::Hello,
    MessageType::Verify,
    MessageType::File,
];

#[test]
fn every_frame_reads_back() {
    for t in TYPES {
        let f = MessageFrame::new(t, vec![1, 2, 3]);
        assert_eq!(MessageFrame::decode(&f.encode()).unwrap(), f);
        assert_eq!(TYPES.iter().filter(|u| u.to_u8() == t.to_u8()).count(), 1);
    }
}

#[test]
fn pieces_make_the_file_whole() {
    let content: Vec<u8> = (0..1000u32).map(|i| (i % 251) as u8).collect();
    for size in [1, 7, 999, 1000, 4096] {
        let mut cursor = ChunkCursor::new("t".to_string(), 0);
        let mut rebuilt: Vec<u8> = Vec::new();
        for piece in content.chunks(size) {
            match cursor.next(piece.to_vec()) {
                FileFrame::Chunk(c) => {
                    let at = c.offset as usize;
                    rebuilt.resize(rebuilt.len().max(at + c.data.len()), 0);
                    rebuilt[at..at + c.data.len()].copy_from_slice(&c.data);
                }
                _ => panic!("a piece is a chunk"),
            }
        }
        assert_eq!(rebuilt, content);
    }
}

#[test]
fn a_fetched_file_replaces_an_older_one() {
    let plan = PullPlan {
        transfer_id: "t".to_string(),
        device_id: "d".to_string(),
        device_name: "d".to_string(),
        target_dir: "/down/d".to_string(),
        targets: vec!["/down/d/x".to_string(), "/down/d/x".to_string()],
        total: 0,
        file_indices: vec![0, 1],
    };
    let mut target: Vec<u8> = vec![7; 50];
    // Two files of one name, the second shorter than the first, over a longer older one.
    for (index, content) in [(0usize, vec![1u8; 30]), (1usize, vec![2u8; 9])] {
        let mut cursor = ChunkCursor::new("t".to_string(), index);
        for piece in content.chunks(4) {
            match cursor.next(piece.to_vec()) {
                FileFrame::Chunk(c) => {
                    let w = plan.write_of(&c).unwrap();
                    if w.anew {
                        target.clear();
                    }
                    let at = w.offset as usize;
                    target.resize(target.len().max(at + c.data.len()), 0);
                    target[at..at + c.data.len()].copy_from_slice(&c.data);
                }
                _ => panic!("a piece is a chunk"),
            }
        }
        assert_eq!(target, content);
    }
}

#[test]
fn a_relayed_update_dies_out() {
    let mut e = SyncEnvelope {
        mark: SyncMark {
            device_id: DeviceId("d".to_string()),
            sync_id: SyncId("s".to_string()),
            timestamp: 0,
            lamport: 0,
            content_hash: String::new(),
        },
        content: ClipboardContent::Text("x".to_string()),
        msg_id: "m".to_string(),
        ttl: RELAY_MAX_TTL,
    };
    let mut hops = 0;
    while let Some(n) = next_hop(&e) {
        assert_eq!(n.msg_id, "m");
        e = n;
        hops += 1;
    }
    assert_eq!(hops, 31);
    let peers = vec!["a".to_string(), "b".to_string(), "c".to_string()];
    assert_eq!(others_of(&peers, "b"), vec!["a", "c"]);
}

#[test]
fn order_does_not_matter_to_fingerprints_and_choices() {
    let items = vec![("a".to_string(), 1), ("b".to_string(), 2), ("a".to_string(), 3)];
    let mut turned = items.clone();
    turned.reverse();
    assert_eq!(fingerprint_of(items, true), fingerprint_of(turned, true));
    let a = Ipv4::new(192, 168, 5, 9);
    let b = Ipv4::new(10, 1, 1, 1);
    assert_eq!(pick_lan_ipv4(&[a, b]), pick_lan_ipv4(&[b, a]));
}

#[test]
fn networks_differ_both_ways() {
    for (a, b) in [("192.168.1", "10.0.0"), ("192.168.1", "192.168.1"), ("", "10.0.0")] {
        assert_eq!(lan_differ(a, b), lan_differ(b, a));
    }
}

#[test]
fn versions_are_ordered() {
    assert!(!is_newer("1.2.3", "1.2.3"));
    assert!(is_newer("1.10.0", "1.9.9"));
    assert!(!is_newer("1.9.9", "1.10.0"));
    assert!(is_newer("2.0.0", "1.9.9") && is_newer("2.0.0", "1.0.0"));
}

#[test]
fn normal_forms_are_stable() {
    let once = normalize_pairing_code(" ab-12 cd ");
    assert_eq!(normalize_pairing_code(&once), once);
    let code = pairing_code_from(&[9; 12]);
    assert_eq!(normalize_pairing_code(&code), code);
    let ep = normalize_ext_file_ep("http://example.org/", 20071);
    assert_eq!(normalize_ext_file_ep(&ep, 20071), ep);
    let ep = normalize_ext_file_ep("example.org", 20071);
    assert!(ext_file_ep_is_valid(&ep));
    assert_eq!(ep, "example.org:20071");
}

#[test]
fn names_never_lead_elsewhere() {
    for raw in ["../../etc/passwd", "a\\b\\c", "..", "COM1", "a\0b", "x/..", "...", "a:b"] {
        let s = safe_segment(raw);
        assert!(!s.is_empty() && s != "." && s != "..");
        assert!(!s.contains('/') && !s.contains('\\'));
    }
}

#[test]
fn device_names_are_avoided_within_the_length_limit() {
    let long = format!("CON.{}", "a".repeat(200));
    assert_eq!(safe_segment(&long), format!("_CON.{}", "a".repeat(115)));
    let full = format!("lpt9.{}", "b".repeat(115));
    assert_eq!(full.len(), 120);
    assert_eq!(safe_segment(&full), format!("_lpt9.{}", "b".repeat(114)));
    let plain = format!("CON{}", "a".repeat(200));
    assert_eq!(safe_segment(&plain), format!("CON{}", "a".repeat(117)));
}

#[test]
fn the_common_root_is_the_longest() {
    let paths: Vec<String> =
        ["/a/b/c/1", "/a/b/d/2", "/a/b/c/3"].iter().map(|s| s.to_string()).collect();
    assert_eq!(common_root(&paths), vec!["/", "a", "b"]);
}

#[test]
fn addresses_read_back() {
    assert_eq!(parse_host_port(&addr_key("h", 0)), Some(("h".to_string(), 0)));
    assert_eq!(parse_host_port(&addr_key("::1", 65535)), Some(("::1".to_string(), 65535)));
}

#[test]
fn copies_have_the_same_hash() {
    let c = ClipboardContent::Html { html: "<i>".to_string(), text: "i".to_string() };
    assert_eq!(content_hash(&c), content_hash(&c.clone()));
}

#[test]
fn a_saved_token_comes_back() {
    for stored in [true, false] {
        let in_file = token_to_write("secret", stored);
        let keystore = if stored { Some(b"secret".to_vec()) } else { None };
        let mut cfg = AppConfig::default();
        cfg.network_token = in_file.clone();
        let source: TokenSource = merge_network_token(&in_file, keystore);
        assert_eq!(with_token(cfg, source).network_token, "secret");
    }
}

#[test]
fn no_line_is_lost_however_the_log_is_cut() {
    let log = "first\nzweite\r\n第三\nlast\n".as_bytes();
    let all = split_lines(log);
    assert_eq!(all, vec!["first", "zweite", "第三", "last"]);
    for cut in 0..=log.len() {
        let (mut lines, from) = read_history(&log[..cut], 0);
        let mut t = Tail::new(Some(from));
        t.scanned(Some(("clipsync.log".to_string(), cut as u64)));
        if let Some((a, b)) = t.measured(Some(log.len() as u64)).range {
            for parcel in t.read(&log[a as usize..b as usize], b) {
                lines.extend(parcel);
            }
        }
        assert_eq!(lines, all, "cut at {cut}");
    }
}

#[test]
fn an_unfinished_line_is_never_skipped() {
    let log = "first\nzweite\r\nlast\n".as_bytes();
    for start in 1..log.len() {
        for cut in start..=log.len() {
            let (mut lines, from) = read_history(&log[start..cut], start as u64);
            lines.extend(split_lines(&log[from as usize..]));
            let passed = log[start..cut].iter().position(|&b| b == 10).map_or(0, |i| i + 1);
            assert_eq!(lines, split_lines(&log[start + passed..]), "from {start} to {cut}");
        }
    }
}
