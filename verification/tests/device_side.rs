//! The clipboard, the cache, the settings, the log and the updates of one device.

use std::time::Duration;

use clipsync::cache::file_cache::{cache_key_for, CacheEntry, FileCache};
use clipsync::clipboard::access::{
    content_from, text_of, text_to_write, CountWatch, TextWatch, WriteFault,
};
use clipsync::clipboard::hdrop::{decode_drop_list, encode_drop_list};
use clipsync::clipboard::types::{
    checked_sum_sizes, sum_sizes, ClipboardContent, DeviceId, FileMeta, SyncId, SyncMark,
};
use clipsync::clipboard::uri_list::{
    hexval, parse_uri_list, paths_to_uri_list, percent_decode, uri_to_path,
};
use clipsync::commands::{
    apply_config, cache_stats, check_config, check_manual_addr, find_discovered,
    get_paired_devices, get_server_nodes, get_server_status, list_discovered_peers,
    regenerate_pairing_code, remove_manual_address,
};
use clipsync::config::persist::{
    merge_network_token, migrate_device_name, migrate_from_legacy, must_blank_token,
    scrub_legacy_config, token_step, token_to_write, with_token, LegacyStep, TokenSource, TokenStep,
};
use clipsync::config::settings::{device_name_from, AppConfig, ManualAddress};
use clipsync::crypto::keystore::{
    delete, fallback_path, keychain_enabled, load, store, target_name, Keyring, StoreStep,
};
use clipsync::crypto::pake::pairing_code_is_current;
use clipsync::device::hardware::{linux_hardware_id, macos_hardware_id, windows_hardware_id};
use clipsync::device::identity::{fallback_from, DeviceIdentity};
use clipsync::device::registry::{DeviceRegistry, PairedDevice, TrustLevel};
use clipsync::device::store::{load_devices, save_devices, FallbackSecrets};
use clipsync::discovery::manual::ManualAddressBook;
use clipsync::discovery::DiscoveredPeer;
use clipsync::log_viewer::{
    history_start, newest_log, read_history, split_lines, LogEntry, Tail, TailGate,
};
use clipsync::obs::logging::log_dir;
use clipsync::outbox::{judge_send, SendNotice, SendOutcome};
use clipsync::server_conn::conn::ServerConn;
use clipsync::startup::{
    adopt_window_size, firewall_command, firewall_query, restore_devices, settle_config,
    window_size, WindowSize,
};
use clipsync::strmap::{StrMap, StrSet};
use clipsync::sync::conflict::LamportClock;
use clipsync::sync::engine::{
    content_kind, file_paths_hash, normalized_file_paths_hash, ClipboardChangedPayload, FileStep,
    SyncEngine, SyncEvent,
};
use clipsync::transfer::local_files::{
    build_file_meta, common_root, components_of, file_name_of, folder_label, relative_path,
    single_file_exceeds, EntryKind, LimitWalk,
};
use clipsync::transfer::manager::ConnectionHub;
use clipsync::transfer::paths::{portable_path, resolve_sync_dir, target_path, to_slashes};
use clipsync::tray::{update_prompt, Clicks, TrayDots};
use clipsync::update::package::{
    download_percent, is_installed_build, is_stale_download, judge_manifest, judge_manifest_status,
    leftover, linux_package, may_open_package, may_start_package, settle_download, verify_download,
    Download, InstallFacts,
    LatestManifest, LinuxPackage, PendingUpdate, PlatformEntry, UpdateInfo,
};
use clipsync::update::source::{
    basename_of, download_target, judge_download, platform_key, read_url, server_manifest_url,
    DownloadSource,
};

fn strings(v: &[&str]) -> Vec<String> {
    v.iter().map(|s| s.to_string()).collect()
}

fn identity() -> DeviceIdentity {
    DeviceIdentity::from_secret([5u8; 32], DeviceId("me".to_string()), "me")
}

fn paired(id: &str) -> PairedDevice {
    PairedDevice {
        device_id: DeviceId(id.to_string()),
        device_name: format!("{id}-name"),
        fingerprint: "f".to_string(),
        trust: TrustLevel::Verified,
        last_seen: 7,
        last_addr: Some("10.0.0.1:1".to_string()),
    }
}

fn file(name: &str, size: u64) -> FileMeta {
    FileMeta {
        file_name: name.to_string(),
        file_size: size,
        is_dir: false,
        relative_path: String::new(),
        modified_at: 0,
        mime_type: String::new(),
        hash: None,
    }
}

#[test]
fn maps_and_sets_of_strings() {
    let mut m: StrMap<u32> = StrMap::new();
    assert!(m.is_empty());
    assert_eq!(m.insert("a".to_string(), 1), None);
    assert_eq!(m.insert("b".to_string(), 2), None);
    assert_eq!(m.insert("a".to_string(), 3), Some(1));
    assert_eq!(m.len(), 2);
    assert_eq!(m.get("a"), Some(&3));
    assert_eq!(m.get("c"), None);
    let mut keys = m.keys();
    keys.sort();
    assert_eq!(keys, vec!["a", "b"]);
    assert_eq!(m.remove("a"), Some(3));
    assert_eq!(m.remove("a"), None);
    assert_eq!(m.at(0), (&"b".to_string(), &2));
    let mut s = StrSet::new();
    assert!(s.insert("x".to_string()));
    assert!(!s.insert("x".to_string()));
    assert!(s.contains("x"));
    assert!(s.remove("x"));
    assert!(!s.remove("x"));
}

#[test]
fn reading_and_writing_the_clipboard() {
    match content_from(Some("t".to_string()), Some(vec![1]), 9) {
        Ok(ClipboardContent::Text(t)) => assert_eq!(t, "t"),
        _ => panic!("text comes first"),
    }
    assert!(matches!(
        content_from(None, Some(vec![1]), 9),
        Ok(ClipboardContent::Image { max_size: 9, .. })
    ));
    assert_eq!(content_from(None, None, 9).err().unwrap(), "剪贴板中无可识别的格式");
    let image = ClipboardContent::Image { data: vec![1], max_size: 9 };
    assert!(matches!(text_to_write(image.clone()), Err(WriteFault::Image)));
    assert_eq!(text_to_write(ClipboardContent::Text("x".to_string())).unwrap(), "x");
    let fault = text_to_write(ClipboardContent::Files(vec![])).err().unwrap();
    assert_eq!(fault.message(), "不支持写入的剪贴板内容");
    assert_eq!(text_of(image).err().unwrap(), "clipboard does not contain text");
    assert_eq!(text_of(ClipboardContent::Text("x".to_string())).unwrap(), "x");
    let mut w = TextWatch::new(None);
    assert!(w.changed(Some("a".to_string())));
    assert!(!w.changed(Some("a".to_string())));
    assert!(!w.changed(None));
    let mut c = CountWatch::new(4);
    assert!(!c.changed(4));
    assert!(c.changed(5));
}

#[test]
fn lists_of_uris() {
    assert_eq!(hexval(b'f'), Some(15));
    assert_eq!(hexval(b'A'), Some(10));
    assert_eq!(hexval(b'g'), None);
    assert_eq!(percent_decode("a%20b%C3%A9"), "a bé");
    assert_eq!(percent_decode("100%"), "100%");
    assert_eq!(percent_decode("%ff"), "\u{fffd}");
    assert_eq!(uri_to_path("file:///tmp/a%20b"), Some("/tmp/a b".to_string()));
    assert_eq!(uri_to_path("http://x"), None);
    assert_eq!(
        parse_uri_list(b"# comment\r\nfile:///a\r\nfile:///b%20c\r\n"),
        strings(&["/a", "/b c"])
    );
    let paths = strings(&["/tmp/x y", "/tmp/é"]);
    let list = paths_to_uri_list(&paths);
    assert_eq!(parse_uri_list(&list), paths);
}

#[test]
fn drop_lists() {
    let paths = strings(&["C:\\a.txt", "D:\\日本\\𝄞.txt"]);
    let units = encode_drop_list(&paths);
    assert_eq!(units[0], b'C' as u16);
    assert_eq!(&units[units.len() - 2..], &[0, 0]);
    assert_eq!(decode_drop_list(&units), paths);
    assert_eq!(decode_drop_list(&[0xd800, 0, 0]), strings(&["\u{fffd}"]));
    assert_eq!(decode_drop_list(&[]), Vec::<String>::new());
}

#[test]
fn the_engine_tells_news_once() {
    let mut e = SyncEngine::new(identity());
    assert_eq!(e.device_id().0, "me");
    let text = ClipboardContent::Text("x".to_string());
    match e.on_content(Some(text.clone())) {
        Some(SyncEvent::LocalClipboardChanged { mark, .. }) => {
            assert_eq!(mark.lamport, 1);
            assert_eq!(mark.device_id.0, "me");
            assert!(mark.timestamp > 1_600_000_000);
        }
        _ => panic!("a change was not told"),
    }
    assert!(e.on_content(Some(text.clone())).is_none());
    assert!(e.on_content(None).is_none());
    let remote = ClipboardContent::Text("y".to_string());
    let mark = SyncMark::new(&DeviceId("far".to_string()), "h", 40);
    assert!(e.apply_remote(mark, remote.clone()).is_some());
    assert_eq!(e.anti_loop.lamport, 40);
    assert!(e.on_content(Some(remote)).is_none());
    assert!(e.on_content(Some(text)).is_some());
    let mark = SyncMark::new(&DeviceId("far".to_string()), "h", 1);
    assert!(e.apply_remote(mark, ClipboardContent::Files(vec![])).is_none());
}

#[test]
fn copied_files_are_offered_once() {
    let mut e = SyncEngine::new(identity());
    let paths = strings(&["/a", "/b"]);
    assert!(matches!(e.on_paths(Some(paths.clone()), 0), FileStep::Offer(p) if p == paths));
    assert!(matches!(e.on_paths(Some(strings(&["/b", "/a"])), 1), FileStep::Drop));
    assert!(matches!(e.on_paths(Some(vec![]), 2), FileStep::ReadContent));
    assert!(matches!(e.on_paths(None, 2), FileStep::ReadContent));
    assert!(matches!(e.on_paths(Some(paths.clone()), 3), FileStep::Offer(_)));
    // What the program itself wrote is an echo, however it is spelled.
    e.suppress_next_file_offer(&strings(&["C:\\Down\\É.txt"]), 10_000);
    assert!(matches!(e.on_paths(Some(strings(&["c:/down/é.TXT"])), 99_000), FileStep::Drop));
    e.suppress_next_file_offer(&strings(&["/x"]), 10_000);
    assert!(matches!(e.on_paths(Some(strings(&["/y"])), 11_499), FileStep::Drop));
    e.suppress_next_file_offer(&strings(&["/x"]), 10_000);
    assert!(matches!(e.on_paths(Some(strings(&["/z"])), 11_500), FileStep::Offer(_)));
    assert_eq!(file_paths_hash(&strings(&["/a", "/b"])), file_paths_hash(&strings(&["/b", "/a"])));
    assert_ne!(file_paths_hash(&strings(&["/A"])), file_paths_hash(&strings(&["/a"])));
    assert_eq!(
        normalized_file_paths_hash(&strings(&["/A\\b"])),
        file_paths_hash(&strings(&["/a/b"]))
    );
}

#[test]
fn what_is_shown_of_a_change() {
    let shown = |c: &ClipboardContent| {
        ClipboardChangedPayload::from_content(&SyncId("s".to_string()), &DeviceId("d".to_string()), c)
    };
    let p = shown(&ClipboardContent::Image { data: vec![0; 9], max_size: 1 });
    assert_eq!((p.kind.as_str(), p.text, p.size), ("image", None, Some(9)));
    let p = shown(&ClipboardContent::Files(vec![file("a", 3), file("b", 4)]));
    assert_eq!((p.kind.as_str(), p.size), ("files", Some(7)));
    let p = shown(&ClipboardContent::Html { html: "<b>".to_string(), text: "b".to_string() });
    assert_eq!(p.text.as_deref(), Some("b"));
    assert_eq!(content_kind(&ClipboardContent::Text(String::new())), "text");
    assert_eq!(sum_sizes(&[file("a", 1), file("b", 2)]), 3);
    assert_eq!(checked_sum_sizes(&[file("a", u64::MAX), file("b", 1)]), None);
    assert_eq!(checked_sum_sizes(&[]), Some(0));
}

#[test]
fn logical_time() {
    let mut c = LamportClock::new();
    assert_eq!(c.tick(), 1);
    assert_eq!(c.observe(9), 10);
    assert_eq!(c.observe(3), 11);
    assert_eq!(c.current(), 11);
}

#[test]
fn the_cache_forgets_the_oldest() {
    let mut c = FileCache::new(2, 1);
    assert!(c.is_empty());
    c.insert("a", CacheEntry::new("/a".to_string(), 1));
    c.insert("b", CacheEntry::new("/b".to_string(), 1));
    assert_eq!(c.get("a"), Some("/a".to_string()));
    c.insert("c", CacheEntry::new("/c".to_string(), 1));
    assert_eq!(c.len(), 2);
    assert!(!c.contains("b"));
    assert!(c.contains("a"));
    assert_eq!(c.get("none"), None);
    c.evict_expired();
    assert_eq!(cache_stats(&c).entries, 2);
    assert_eq!(c.if_fresh("/x".to_string(), 3_600_000_000_000), Some("/x".to_string()));
    assert_eq!(c.if_fresh("/x".to_string(), 3_600_000_000_001), None);
    c.evict_aged(&vec![3_600_000_000_001, 0]);
    assert_eq!(c.len(), 1);
    assert!(!c.contains("a"));
    assert_eq!(cache_key_for(&SyncId("s".to_string()), 3), "s-3");
    let mut one = FileCache::new(0, 0);
    one.insert("a", CacheEntry::new("/a".to_string(), 1));
    one.insert("b", CacheEntry::new("/b".to_string(), 1));
    assert_eq!(one.len(), 1);
}

#[test]
fn what_expired_is_no_hit() {
    let mut c = FileCache::new(4, 1);
    let stored = |path: &str, secs: u64| {
        let mut e = CacheEntry::new(path.to_string(), 1);
        e.stored_at = e.stored_at.checked_sub(Duration::from_secs(secs)).unwrap();
        e
    };
    c.insert("old", stored("/old", 3_601));
    c.insert("young", stored("/young", 3_000));
    c.insert("new", stored("/new", 0));
    assert_eq!(c.get("old"), None);
    assert!(!c.contains("old"));
    assert_eq!(c.get("young"), Some("/young".to_string()));
    assert!(c.contains("new"));
    assert_eq!(c.len(), 3);
    c.evict_expired();
    assert_eq!(c.len(), 2);
    assert!(c.contains("young") && c.contains("new"));
}

#[test]
fn devices_stand_under_their_identifier() {
    let mut registry = DeviceRegistry::new();
    for id in ["a", "b", "a"] {
        registry.add(paired(id));
    }
    let listed = registry.list();
    assert_eq!(listed.len(), 2);
    for d in &listed {
        assert_eq!(registry.get(&d.device_id).unwrap().device_id, d.device_id);
    }
    assert!(registry.remove(&DeviceId("a".to_string())));
    assert_eq!(registry.list()[0].device_id.0, "b");
}

#[test]
fn paths_on_this_device() {
    assert_eq!(components_of("/a//b/./c/"), strings(&["/", "a", "b", "c"]));
    let root = common_root(&strings(&["/home/u/x/a.txt", "/home/u/y/b.txt"]));
    assert_eq!(root, strings(&["/", "home", "u"]));
    assert_eq!(relative_path("/home/u/x/a.txt", &root), "x/a.txt");
    assert_eq!(file_name_of("/home/u/a.txt"), Some("a.txt".to_string()));
    assert_eq!(file_name_of("/.."), None);
    let m = build_file_meta("/home/u/x/a.txt", &root, 5, false, 9).unwrap();
    assert_eq!((m.file_name.as_str(), m.relative_path.as_str(), m.file_size), ("a.txt", "x/a.txt", 5));
    assert!(single_file_exceeds(0));
    assert!(!single_file_exceeds(1));
    assert_eq!(folder_label(&vec![]), "该");
    assert_eq!(folder_label(&strings(&["a", "b"])), "a、b");
    assert_eq!(to_slashes("a\\b/c"), "a/b/c");
    let native = "C:\\x\\y.txt";
    assert_eq!(file_name_of(&portable_path(native, true)).unwrap(), "y.txt");
    assert_eq!(file_name_of(&portable_path(native, false)).unwrap(), native);
    let copied: Vec<String> =
        ["C:\\x\\y.txt", "C:\\x\\d\\z.txt"].iter().map(|p| portable_path(p, true)).collect();
    let root = common_root(&copied);
    assert_eq!(root, vec!["C:", "x"]);
    assert_eq!(relative_path(&copied[1], &root), "d/z.txt");
    assert_eq!(target_path("/down", "../dev", "x/../../y"), "/down/dev/y");
    assert_eq!(resolve_sync_dir(None, None), "Downloads");
    assert_eq!(resolve_sync_dir(Some("/dl".to_string()), Some("/mine".to_string())), "/mine");
}

#[test]
fn counting_files_up_to_a_limit() {
    let mut w = LimitWalk::new("/d", 2);
    assert_eq!(w.next_dir(), Some("/d".to_string()));
    let entries = vec![
        ("/d/a".to_string(), EntryKind::File),
        ("/d/sub".to_string(), EntryKind::Dir),
        ("/d/link".to_string(), EntryKind::Other),
        ("/d/b".to_string(), EntryKind::File),
    ];
    assert!(!w.entries(&entries));
    assert_eq!(w.next_dir(), Some("/d/sub".to_string()));
    assert!(w.entries(&vec![("/d/sub/c".to_string(), EntryKind::File)]));
}

#[test]
fn settings() {
    assert_eq!(device_name_from("host"), "host");
    let named = AppConfig::named("n".to_string());
    assert_eq!(named.device_name, "n");
    assert!(!AppConfig::default().device_name.is_empty());
    let mut zero = AppConfig::default();
    zero.listen_port = 0;
    assert_eq!(check_config(zero).err().unwrap(), "listen_port 不能为 0（有效范围 1..=65535）");
    assert!(check_config(AppConfig::default()).is_ok());
    let mut on = AppConfig::default();
    on.auto_pull_enabled = true;
    on.auto_pull_threshold_mb = 1;
    assert!(on.should_auto_pull(1_048_575));
    assert!(!on.should_auto_pull(1_048_576));
    assert!(!AppConfig::default().should_auto_pull(0));
    let (c, changed) = migrate_device_name(AppConfig::named("ClipSync-Device".to_string()), "host");
    assert!(changed);
    assert_eq!(c.device_name, "host");
    assert!(!migrate_device_name(AppConfig::named("mine".to_string()), "host").1);
}

/// A code as the generator gives it: twelve symbols of the alphabet.
fn is_drawn(code: &str) -> bool {
    code.chars().count() == 12
        && code.chars().all(|c| "23456789ABCDEFGHJKMNPQRSTUVWXYZ".contains(c))
}

#[test]
fn settings_take_effect() {
    let mut hub = ConnectionHub::new(identity());
    let mut book = ManualAddressBook::new();
    let mut cfg = AppConfig::default();
    cfg.pairing_code = "CODE".to_string();
    cfg.max_folder_files = 7;
    cfg.manual_addresses =
        vec![ManualAddress { label: "l".to_string(), addr: "h".to_string(), port: 1 }];
    apply_config(&mut hub, &mut book, &cfg);
    assert_eq!(hub.pairing_code(), "CODE");
    assert_eq!(hub.max_folder_files, 7);
    assert_eq!(book.list().len(), 1);
    assert_eq!(book.get("l").unwrap().addr, "h");
    assert!(remove_manual_address(&mut book, "l").is_ok());
    assert_eq!(
        remove_manual_address(&mut book, "l").err().unwrap(),
        "manual address 'l' not found"
    );
    let code = regenerate_pairing_code(&mut cfg);
    assert!(is_drawn(&code));
    assert_eq!(cfg.pairing_code, code);
    assert_ne!(regenerate_pairing_code(&mut cfg), code);
    assert_eq!(hub.pairing_code(), "CODE");
    hub.set_pairing_code(cfg.pairing_code.clone());
    assert_eq!(hub.pairing_code(), cfg.pairing_code);
    assert!(check_manual_addr(" ").is_err());
    assert!(check_manual_addr("h").is_ok());
}

#[test]
fn lists_for_the_user() {
    let mut registry = DeviceRegistry::new();
    registry.add(paired("a"));
    let shown = get_paired_devices(&registry);
    assert_eq!(shown.len(), 1);
    assert_eq!((shown[0].id.as_str(), shown[0].trusted), ("a", true));
    let mut near = StrMap::new();
    for id in ["a", "b"] {
        near.insert(
            id.to_string(),
            DiscoveredPeer {
                device_id: id.to_string(),
                device_name: id.to_string(),
                addr: "h".to_string(),
                port: 1,
            },
        );
    }
    let list = list_discovered_peers(&registry, &near);
    assert_eq!(list.len(), 1);
    assert_eq!(list[0].device_id, "b");
    assert!(find_discovered(&near, "a").is_ok());
    assert!(find_discovered(&near, "z").err().unwrap().starts_with("未发现设备 z"));
    assert_eq!(get_server_status(None), 0);
    assert!(get_server_nodes(Some(&ServerConn::new())).is_empty());
}

#[test]
fn the_token_of_the_network() {
    assert!(matches!(
        merge_network_token("", Some(b"t".to_vec())),
        TokenSource::KeyStore(t) if t == "t"
    ));
    assert!(matches!(merge_network_token("f", Some(vec![0xff])), TokenSource::File));
    assert!(matches!(merge_network_token("f", None), TokenSource::File));
    assert!(matches!(merge_network_token("", None), TokenSource::Nowhere));
    let c = with_token(AppConfig::default(), TokenSource::KeyStore("t".to_string()));
    assert_eq!(c.network_token, "t");
    assert_eq!(token_step(""), TokenStep::Delete);
    assert_eq!(token_step("t"), TokenStep::Store);
    assert_eq!(token_to_write("t", true), "");
    assert_eq!(token_to_write("t", false), "t");
    assert!(must_blank_token(&Some("t".to_string())));
    assert!(!must_blank_token(&None));
    assert_eq!(migrate_from_legacy(false, true), LegacyStep::Move);
    assert_eq!(migrate_from_legacy(true, false), LegacyStep::Keep);
    assert_eq!(scrub_legacy_config(true, false, true), LegacyStep::Scrub);
    assert_eq!(scrub_legacy_config(true, true, true), LegacyStep::Keep);
}

#[test]
fn secrets_of_devices() {
    let mut s = FallbackSecrets { map: StrMap::new() };
    assert!(s.store_secret(false, "d", "x"));
    assert_eq!(s.load_secret(None, "d"), Some("x".to_string()));
    assert_eq!(s.load_secret(Some(b"k".to_vec()), "d"), Some("k".to_string()));
    assert_eq!(s.load_secret(Some(vec![0xff]), "d"), Some("x".to_string()));
    assert!(s.store_secret(true, "d", "y"));
    assert_eq!(s.load_secret(None, "d"), None);
    assert!(!s.delete_secret("d"));
    let records = save_devices(&[paired("a")]);
    let back = load_devices(Some(records));
    assert_eq!(back[0].device_id.0, "a");
    assert_eq!(back[0].trust, TrustLevel::Verified);
    assert!(load_devices(None).is_empty());
}

#[test]
fn the_key_store_and_its_stand_in() {
    assert_eq!(target_name("s", "a"), "s:a");
    assert_eq!(
        fallback_path(None, "s", "a"),
        (".".to_string(), ".clipsync/keystore", "s__a".to_string())
    );
    assert!(keychain_enabled(None, false));
    assert!(!keychain_enabled(None, true));
    assert!(keychain_enabled(Some("1".to_string()), true));
    let mut k = Keyring::new();
    assert!(matches!(store(&mut k, &Ok(())), StoreStep::Stored));
    assert!(matches!(store(&mut k, &Err("e".to_string())), StoreStep::File { warn: true }));
    assert!(matches!(store(&mut k, &Err("e".to_string())), StoreStep::File { warn: false }));
    let mut k = Keyring::new();
    assert_eq!(load(&mut k, Err("e".to_string()), Ok(vec![1])), (Ok(vec![1]), false));
    assert_eq!(
        load(&mut k, Err("e".to_string()), Err("f".to_string())),
        (Err("e".to_string()), true)
    );
    assert_eq!(delete(Err("e".to_string()), Err("No such file".to_string())), Ok(()));
    assert_eq!(delete(Err("e".to_string()), Ok(())), Err("e".to_string()));
}

#[test]
fn identifiers_of_the_machine() {
    assert_eq!(macos_hardware_id("  \"IOPlatformUUID\" = \"ABC-1\"\n"), "ABC-1");
    assert_eq!(macos_hardware_id("none"), "");
    assert_eq!(windows_hardware_id("MachineGuid  REG_SZ  g-1\r\n\r\n"), "g-1");
    assert_eq!(windows_hardware_id(""), "");
    assert_eq!(linux_hardware_id("abc\n"), "abc");
    assert_eq!(fallback_from("01234567-89ab-4def-8123-456789abcdef").len(), 18);
}

#[test]
fn start_of_the_program() {
    let mut cfg = AppConfig::default();
    cfg.pairing_code = "123456".to_string();
    cfg.device_id = String::new();
    let settled = settle_config(cfg, " hw-1\n");
    assert_eq!(settled.device_id, "hw-1");
    assert!(pairing_code_is_current(&settled.pairing_code));
    assert!(is_drawn(&settled.pairing_code));
    let mut typed = AppConfig::default();
    typed.pairing_code = "1111-1111-1111".to_string();
    assert_eq!(settle_config(typed, "hw").pairing_code, "1111-1111-1111");
    assert_eq!(window_size(Some(3), Some(4)), WindowSize::Fixed { width: 3, height: 4 });
    assert_eq!(window_size(Some(0), Some(4)), WindowSize::Invalid);
    assert_eq!(window_size(None, Some(4)), WindowSize::Unset);
    let mut c = AppConfig::default();
    assert!(!adopt_window_size(&mut c, 0, 5));
    assert!(adopt_window_size(&mut c, 6, 5));
    assert_eq!(c.window_width, Some(6));
    let (registry, secrets) =
        restore_devices(&[paired("a"), paired("b")], &[None, Some("s".to_string())]);
    assert_eq!(registry.len(), 1);
    assert_eq!(secrets.get("b"), Some(&"s".to_string()));
    let mut dots = TrayDots::new();
    let first = dots.tray_dot();
    let second = dots.tray_dot();
    assert!(!dots.is_over(first));
    assert!(dots.is_over(second));
    let mut clicks = Clicks::new();
    assert!(!clicks.click(1000));
    assert!(clicks.click(1500));
    assert!(!clicks.click(1501));
    assert!(!clicks.click(2002));
    assert_eq!(firewall_query(), "name=ClipSync mDNS (UDP 5353)");
    assert!(firewall_command().contains("localport=5353"));
    assert_eq!(
        log_dir(None, Some("/h".to_string()), "linux"),
        strings(&["/h", ".local", "share", "clipsync", "logs"])
    );
    assert_eq!(log_dir(None, None, "linux"), strings(&["logs"]));
}

#[test]
fn messages_that_do_not_leave() {
    let (ok, n) = judge_send(SendOutcome::Queued, "w", "c", 10);
    assert!(ok && matches!(n, SendNotice::Silent));
    let (ok, n) = judge_send(SendOutcome::Closed, "w", "c", 10);
    assert!(!ok && matches!(n, SendNotice::Debug(m) if m == "c 已断开，w 未发送"));
    let (ok, n) = judge_send(SendOutcome::TimedOut, "w", "c", 10);
    assert!(!ok && matches!(n, SendNotice::Warn(m) if m.contains("等待 10s 仍满")));
}

#[test]
fn following_the_log() {
    let entry = |name: &str, at: u128| LogEntry {
        name: name.to_string(),
        is_file: true,
        modified: Some(at),
    };
    let entries =
        [entry("clipsync.log.2024-01-01", 1), entry("clipsync.log.2024-01-02", 2), entry("other", 9)];
    assert_eq!(newest_log(&entries), Some(1));
    assert_eq!(newest_log(&[]), None);
    assert_eq!(split_lines(b"a\r\nb\n\nc"), strings(&["a", "b", ""]));
    assert_eq!(history_start(204_801), 1);
    let (lines, from) = read_history(b"a\nb\nhalf", 0);
    assert_eq!(lines, strings(&["a", "b"]));
    assert_eq!(from, 4);
    let (lines, _) = read_history(b"cut\nb\n", 10);
    assert_eq!(lines, strings(&["b"]));
    assert_eq!(read_history(b"cut\nhalf", 10), (strings(&[]), 14));
    assert_eq!(read_history(b"half", 10), (strings(&[]), 10));

    let mut t = Tail::new(Some(from));
    assert!(t.must_scan());
    t.scanned(Some(("clipsync.log".to_string(), 8)));
    assert!(!t.must_scan());
    assert_eq!(t.measured(Some(12)).range, Some((4, 12)));
    let parcels = t.read(b"half done\n", 14);
    assert_eq!(parcels, vec![strings(&["half done"])]);
    assert!(t.measured(Some(3)).reset);
    for _ in 0..25 {
        t.ticked();
    }
    assert!(t.must_scan());
    assert!(t.measured(None).range.is_none());
    assert!(t.path.is_none());

    let mut g = TailGate::new();
    let first = g.claim_tail_start().unwrap();
    assert!(g.claim_tail_start().is_none());
    g.invalidate_tail();
    assert!(!g.is_current(first));
    let second = g.claim_tail_start().unwrap();
    g.finish(first);
    assert!(g.claim_tail_start().is_none());
    g.finish(second);
    assert!(g.claim_tail_start().is_some());
}

fn manifest(version: &str) -> LatestManifest {
    let mut platforms = StrMap::new();
    platforms.insert(
        "linux-x86_64".to_string(),
        PlatformEntry { url: "https://h/p.deb".to_string(), sha256: "aa".to_string() },
    );
    LatestManifest {
        version: version.to_string(),
        notes: " news ".to_string(),
        pub_date: "2024".to_string(),
        platforms,
    }
}

#[test]
fn manifests_of_updates() {
    assert_eq!(judge_manifest_status(404, "404 Not Found"), Ok(false));
    assert_eq!(judge_manifest_status(200, "200 OK"), Ok(true));
    assert_eq!(judge_manifest_status(500, "500 X").err().unwrap(), "更新清单返回 HTTP 500 X");
    assert!(judge_manifest(manifest("1.0.0"), "1.0.0", "linux-x86_64").unwrap().is_none());
    let u: UpdateInfo = judge_manifest(manifest("1.0.1"), "1.0.0", "linux-x86_64").unwrap().unwrap();
    assert_eq!(u.url, "https://h/p.deb");
    assert_eq!(update_prompt(&u), "发现新版本 1.0.1（2024）\n\nnews");
    assert_eq!(
        judge_manifest(manifest("1.0.1"), "1.0.0", "mac").err().unwrap(),
        "更新清单缺少本平台（mac）安装包"
    );
    assert_eq!(platform_key("linux", "x86_64"), "linux-x86_64");
}

#[test]
fn downloads_of_updates() {
    assert_eq!(download_percent(1, 0), None);
    assert_eq!(download_percent(1, 3), Some(33));
    let mut d = Download::new(100);
    assert_eq!(d.on_chunk(1).unwrap().percent, Some(1));
    assert!(d.on_chunk(4).is_none());
    assert_eq!(d.on_chunk(1).unwrap().percent, Some(6));
    assert_eq!(d.progress("done", None).downloaded, 6);
    let digest = "BA7816BF8F01CFEA414140DE5DAE2223B00361A396177A9CB410FF61F20015AD";
    assert_eq!(verify_download(b"abc", &format!(" {digest}\n")).unwrap(), digest.to_lowercase());
    assert!(verify_download(b"abd", digest).err().unwrap().starts_with("sha256 校验失败"));
    assert!(is_stale_download("clipsync-update-1", false, Some(3_600_000_000_001)));
    assert!(!is_stale_download("clipsync-update-1", true, Some(3_600_000_000_001)));
    assert!(!is_stale_download("other", false, Some(3_600_000_000_001)));
    assert!(!is_stale_download("clipsync-update-1", false, None));
}

#[test]
fn only_checked_packages_are_pending() {
    let digest = "ba7816bf8f01cfea414140de5dae2223b00361a396177a9cb410ff61f20015ad";
    let mut pending: Option<PendingUpdate> = None;
    let bad = verify_download(b"abd", digest);
    assert_eq!(leftover("/t/x.download".to_string(), &bad).as_deref(), Some("/t/x.download"));
    let said = bad.as_ref().err().unwrap().clone();
    assert_eq!(settle_download(&mut pending, "/t/x".to_string(), bad), Err(said));
    assert!(pending.is_none());
    let good = verify_download(b"abc", digest);
    assert_eq!(leftover("/t/y.download".to_string(), &good), None);
    assert_eq!(settle_download(&mut pending, "/t/y".to_string(), good), Ok("/t/y".to_string()));
    let broken = Err("下载中断: reset".to_string());
    assert_eq!(
        settle_download(&mut pending, "/t/z".to_string(), broken),
        Err("下载中断: reset".to_string())
    );
    let kept = pending.unwrap();
    assert_eq!((kept.path.as_str(), kept.digest.as_str()), ("/t/y", digest));
    assert!(may_start_package(&kept, b"abc").is_ok());
}

#[test]
fn packages_that_may_start() {
    let pending = PendingUpdate {
        path: "/t/p.deb".to_string(),
        digest: "ba7816bf8f01cfea414140de5dae2223b00361a396177a9cb410ff61f20015ad".to_string(),
    };
    assert!(may_start_package(&pending, b"abc").is_ok());
    assert!(may_start_package(&pending, b"abd").is_err());
    let some = Some(pending);
    assert!(may_open_package(true, &some, "/t/p.deb", true).is_ok());
    assert!(may_open_package(true, &some, "/t/q.deb", true).is_err());
    assert!(may_open_package(true, &None, "/t/p.deb", true).is_err());
    assert!(may_open_package(false, &some, "/t/p.deb", true).is_err());
    assert!(may_open_package(true, &some, "/t/p.deb", false).is_err());
    assert_eq!(linux_package("x.AppImage"), LinuxPackage::AppImage);
    assert_eq!(linux_package("x.deb"), LinuxPackage::Deb);
    assert_eq!(linux_package("x.rpm"), LinuxPackage::Other);
    let facts = InstallFacts {
        forced: false,
        debug: false,
        is_macos: false,
        exe: None,
        files: vec![],
    };
    assert!(!is_installed_build(&facts));
    assert!(is_installed_build(&InstallFacts { debug: true, ..facts }));
}

#[test]
fn sources_of_packages() {
    let u = read_url("HTTPS://Example.org:8443/a/b").unwrap();
    assert_eq!((u.scheme.as_str(), u.host.as_deref(), u.port), ("https", Some("example.org"), Some(8443)));
    assert!(read_url("no url").is_err());
    assert!(u.same_origin(&read_url("https://example.org:8443/other").unwrap()));
    assert!(!u.same_origin(&read_url("https://example.org/other").unwrap()));
    assert_eq!(basename_of("https://h/x/p.deb?y"), "p.deb?y");
    assert!(server_manifest_url("").is_err());
    let ok = download_target(true, "https://relay.example/p.deb", DownloadSource::Relay, "wss://relay.example/ws");
    assert!(ok.is_ok());
    let other = download_target(true, "https://other.example/p.deb", DownloadSource::Relay, "wss://relay.example/ws");
    assert!(other.is_err());
    assert!(download_target(false, "https://relay.example/p.deb", DownloadSource::Relay, "wss://relay.example/ws").is_err());
    let judged = judge_download(
        true,
        "https://h/p.deb",
        DownloadSource::Relay,
        Some("https://h".to_string()),
        read_url("https://h/p.deb"),
        read_url("https://h"),
    );
    assert!(judged.is_ok());
}
