//! The clipboards of the systems, the icon in the tray, and the log window.

use clipsync::clipboard::selection::{on_request, Atoms, FileQuery, SelectionData, NONE};
use clipsync::clipboard::types::ClipboardContent;
use clipsync::clipboard::wide::{content_from_wide, from_wide, to_wide, wide_data, WideData};
use clipsync::log_viewer::{OpenStep, TailGate};
use clipsync::startup::rule_exists;
use clipsync::transfer::local_files::OfferList;
use clipsync::transfer::manager::ConnectionHub;
use clipsync::tray::{
    closes_to_tray, tray_menu, TrayItem, UpdateEvent, UpdateStep, UpdateTalk,
};
use clipsync::update::package::UpdateInfo;

#[test]
fn wide_text_is_read_back() {
    assert_eq!(to_wide("aé"), vec![0x61, 0xe9, 0]);
    assert_eq!(to_wide("\u{1f600}"), vec![0xd83d, 0xde00, 0]);
    assert_eq!(from_wide(&[0xd83d, 0xde00, 0, 0x61]), "\u{1f600}");
    for s in ["", "剪贴板", "a\u{10ffff}b\u{ffff}\u{10000}"] {
        assert_eq!(from_wide(&to_wide(s)), s);
    }
}

#[test]
fn lone_surrogates_become_replacement_characters() {
    assert_eq!(from_wide(&[0xd800]), "\u{fffd}");
    assert_eq!(from_wide(&[0xdc00, 0x61]), "\u{fffd}a");
    assert_eq!(from_wide(&[0xd800, 0x61]), "\u{fffd}a");
    assert_eq!(from_wide(&[0xd800, 0xd83d, 0xde00]), "\u{fffd}\u{1f600}");
}

#[test]
fn windows_clipboard_contents() {
    assert!(matches!(
        content_from_wide(Some(vec![0x61, 0]), Some(vec![1]), 7),
        Ok(ClipboardContent::Text(t)) if t == "a"
    ));
    assert!(matches!(
        content_from_wide(None, Some(vec![1, 2]), 7),
        Ok(ClipboardContent::Image { data, max_size: 7 }) if data == vec![1, 2]
    ));
    assert_eq!(
        content_from_wide(None, None, 7).err().unwrap(),
        "clipboard contains no supported format"
    );
    assert!(matches!(
        wide_data(ClipboardContent::Text("a".to_string())),
        Ok(WideData::Text(u)) if u == vec![0x61, 0]
    ));
    assert!(matches!(
        wide_data(ClipboardContent::Image { data: vec![3], max_size: 1 }),
        Ok(WideData::Bitmap(b)) if b == vec![3]
    ));
    assert!(wide_data(ClipboardContent::Files(Vec::new())).is_err());
}

fn atoms() -> Atoms {
    Atoms { clipboard: 1, gnome_files: 2, uri_list: 3, targets: 4, atom: 5 }
}

#[test]
fn an_owner_answers_requests() {
    let list = b"file:///a\n".to_vec();
    assert!(on_request(&atoms(), &list, 9, 3, 7).is_none());
    let forms = on_request(&atoms(), &list, 1, 4, 7).unwrap();
    assert_eq!(forms.property, 7);
    assert!(matches!(forms.data, Some((5, SelectionData::Numbers(n))) if n == vec![3]));
    let files = on_request(&atoms(), &list, 1, 3, 7).unwrap();
    assert!(matches!(files.data, Some((3, SelectionData::Bytes(b))) if b == list));
    let refused = on_request(&atoms(), &list, 1, 2, 7).unwrap();
    assert!(refused.data.is_none());
    assert_eq!(refused.property, NONE);
}

#[test]
fn a_query_asks_for_both_forms() {
    assert!(FileQuery::begin(NONE).is_none());
    let mut q = FileQuery::begin(8).unwrap();
    assert_eq!(q.next_form(&atoms()), Some(2));
    assert!(!q.on_answer(&atoms(), 1, NONE));
    assert_eq!(q.next_form(&atoms()), Some(3));
    assert!(q.on_answer(&atoms(), 1, 6));
    assert!(!q.on_answer(&atoms(), 2, 6));
    assert_eq!(q.next_form(&atoms()), None);
}

#[test]
fn the_menu_of_the_tray() {
    let items = tray_menu(true);
    assert_eq!(items.len(), 7);
    assert_eq!(tray_menu(false).len(), 6);
    assert!(!tray_menu(false).contains(&TrayItem::CheckUpdate));
    for i in items {
        if i == TrayItem::Separator {
            assert_eq!(TrayItem::from_id(i.id()), None);
        } else {
            assert_eq!(TrayItem::from_id(i.id()), Some(i));
        }
    }
    assert_eq!(TrayItem::Quit.label(), "退出 ClipSync");
    assert_eq!(TrayItem::from_id("other"), None);
    assert!(closes_to_tray("main"));
    assert!(!closes_to_tray("log-viewer"));
}

fn update() -> UpdateInfo {
    UpdateInfo {
        version: "2.0".to_string(),
        notes: " ".to_string(),
        pub_date: "d".to_string(),
        url: "u".to_string(),
        sha256: "h".to_string(),
    }
}

#[test]
fn the_talk_about_an_update() {
    let mut t = UpdateTalk::new();
    assert!(matches!(t.on_event(UpdateEvent::Answered(true)), UpdateStep::Nothing));
    let asked = t.on_event(UpdateEvent::Checked(Ok(Some(update()))));
    assert!(matches!(
        asked,
        UpdateStep::Ask { message } if message == "发现新版本 2.0（d）\n\n（无更新说明）"
    ));
    assert!(matches!(
        t.on_event(UpdateEvent::Answered(true)),
        UpdateStep::Fetch { url, sha256 } if url == "u" && sha256 == "h"
    ));
    assert!(matches!(
        t.on_event(UpdateEvent::Fetched(Ok("p".to_string()))),
        UpdateStep::Start { path } if path == "p"
    ));
    assert!(matches!(
        t.on_event(UpdateEvent::Started(Err("e".to_string()))),
        UpdateStep::Tell { message, error: true, .. } if message == "启动安装失败：e"
    ));
    let mut t = UpdateTalk::new();
    assert!(matches!(
        t.on_event(UpdateEvent::Checked(Ok(None))),
        UpdateStep::Tell { title: "检查更新", error: false, .. }
    ));
    let mut t = UpdateTalk::new();
    assert!(matches!(
        t.on_event(UpdateEvent::Checked(Err("e".to_string()))),
        UpdateStep::Tell { message, error: true, .. } if message == "检查更新失败：e"
    ));
    let mut t = UpdateTalk::new();
    t.on_event(UpdateEvent::Checked(Ok(Some(update()))));
    assert!(matches!(t.on_event(UpdateEvent::Answered(false)), UpdateStep::Nothing));
    assert!(matches!(t, UpdateTalk::Over));
    let mut t = UpdateTalk::new();
    t.on_event(UpdateEvent::Checked(Ok(Some(update()))));
    t.on_event(UpdateEvent::Answered(true));
    assert!(matches!(
        t.on_event(UpdateEvent::Fetched(Err("e".to_string()))),
        UpdateStep::Tell { message, .. } if message == "下载失败：e"
    ));
}

#[test]
fn the_log_window_is_opened() {
    let mut g = TailGate::new();
    assert_eq!(g.open_window(false), OpenStep::Create(1));
    assert_eq!(g.ready_timed_out(0), None);
    assert_eq!(g.ready_timed_out(1), Some(2));
    assert_eq!(g.ready_timed_out(2), None);
    assert_eq!(g.open_window(true), OpenStep::Focus);
    g.finish(2);
    assert_eq!(g.open_window(true), OpenStep::FocusAndFollow(3));
    assert_eq!(g.open_window(false), OpenStep::Create(4));
    assert!(!g.is_current(3));
}

#[test]
fn offered_files_keep_their_paths() {
    let copied = vec!["/d/a.txt".to_string(), "/d/sub".to_string()];
    let mut list = OfferList::new(&copied);
    assert!(list.put("/d/a.txt", 3, false, 9));
    assert!(!list.put("/", 0, false, 0));
    assert!(list.put("/d/sub/b.txt", 4, false, 8));
    assert_eq!(list.paths, vec!["/d/a.txt".to_string(), "/d/sub/b.txt".to_string()]);
    assert_eq!(list.files.len(), 2);
    assert_eq!(list.files[1].file_name, "b.txt");
    assert_eq!(list.files[1].relative_path, "sub/b.txt");
    assert_eq!(list.files[1].file_size, 4);
    assert_eq!(list.files[1].modified_at, 8);
}

#[test]
fn typed_addresses_and_firewall_answers() {
    let p = ConnectionHub::pair_with_manual_address("10.0.0.2".to_string(), 20071);
    assert_eq!(p.device_id, "");
    assert_eq!(p.device_name, "10.0.0.2");
    assert_eq!(p.addr, "10.0.0.2");
    assert_eq!(p.port, 20071);
    assert!(rule_exists(Ok(true)));
    assert!(!rule_exists(Ok(false)));
    assert!(!rule_exists(Err("no netsh".to_string())));
}
