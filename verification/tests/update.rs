use clipsync::update::package::detect_installed_in;
use clipsync::update::source::read_url;
use clipsync::update::{
    github_manifest_url, github_url_allowed, is_in_app_bundle, is_newer,
    update_base_from_server_url, GITHUB_REPO,
};

#[test]
fn base_from_server_url_uses_configured_scheme() {
    assert_eq!(
        update_base_from_server_url("wss://sync.example.com/ws"),
        Some("https://sync.example.com".into())
    );
    assert_eq!(
        update_base_from_server_url("https://a.com:8443"),
        Some("https://a.com:8443".into())
    );
    assert_eq!(
        update_base_from_server_url("ws://sync.example.com/ws"),
        Some("http://sync.example.com".into())
    );
    assert_eq!(
        update_base_from_server_url("http://a.com"),
        Some("http://a.com".into())
    );
    assert_eq!(
        update_base_from_server_url("ws://127.0.0.1:20075/ws"),
        Some("http://127.0.0.1:20075".into())
    );
    assert_eq!(
        update_base_from_server_url("host:20070"),
        Some("http://host:20070".into())
    );
    assert_eq!(
        update_base_from_server_url("127.0.0.1:20070"),
        Some("http://127.0.0.1:20070".into())
    );
    assert_eq!(update_base_from_server_url(""), None);
    assert_eq!(update_base_from_server_url("   "), None);
}

#[test]
fn version_compare() {
    assert!(is_newer("0.1.1", "0.1.0"));
    assert!(is_newer("1.0.0", "0.9.9"));
    assert!(is_newer("0.2", "0.1.5"));
    assert!(!is_newer("0.1.0", "0.1.0"));
    assert!(!is_newer("0.1.0", "0.2.0"));
    assert!(is_newer("beta-2", "0.1.0"));
}

#[test]
fn github_download_url_policy() {
    let ok = |u: &str| github_url_allowed(&read_url(u).unwrap()).is_ok();

    assert!(ok(
        "https://github.com/dumengzhao/ClipSync/releases/download/v1/a.exe"
    ));
    assert!(ok("https://release-assets.githubusercontent.com/a/b"));
    assert!(ok("https://objects.githubusercontent.com/a/b"));

    assert!(!ok(
        "http://github.com/dumengzhao/ClipSync/releases/download/v1/a.exe"
    ));

    assert!(!ok("https://evil.tld/a.exe"));
    assert!(!ok(
        "https://raw.githubusercontent.com/dumengzhao/ClipSync/main/a.exe"
    ));

    assert!(!ok("https://github.com.evil.tld/a.exe"));
    assert!(!ok("https://evilgithub.com/a.exe"));
    assert!(!ok("https://notgithub.com/a.exe"));
    assert!(!ok("https://githubusercontent.com/a.exe"));
}

#[test]
fn github_manifest_url_uses_assets_path() {
    let u = github_manifest_url();
    assert_eq!(
        u,
        format!("https://github.com/{GITHUB_REPO}/releases/latest/download/latest.json")
    );
    assert!(u.ends_with("/releases/latest/download/latest.json"));
}

#[test]
fn installed_marker_is_required_green_version_anywhere() {
    let dir = |names: &[&str]| names.iter().map(|n| n.to_string()).collect::<Vec<String>>();
    assert!(
        !detect_installed_in(&dir(&["clipsync.exe"])),
        "无 marker 也无 uninstall.exe → 必须判定为绿色版（用户拷 exe 到任意目录的场景）"
    );
    assert!(
        detect_installed_in(&dir(&["clipsync.exe", "installed.marker"])),
        "有 installed.marker → 判定安装版（NSIS 新装路径）"
    );
    assert!(
        detect_installed_in(&dir(&["clipsync.exe", "uninstall.exe"])),
        "无 marker 但有 uninstall.exe → fallback 判定安装版（兼容 0.1.0 旧版）"
    );
    assert!(
        !detect_installed_in(&dir(&["clipsync.exe", "uninstall.exe.bak"])),
        "只有 uninstall.exe.bak → 判定绿色版（说明 marker 缺失时也不能靠同名文件误判）"
    );
}

#[test]
fn macos_bundle_path_is_recognized() {
    assert!(
        is_in_app_bundle("/Applications/ClipSync.app/Contents/MacOS/clipsync"),
        "标准安装路径 /Applications 必须识别为 bundle"
    );
    assert!(
        is_in_app_bundle("/Users/dmz/Applications/ClipSync.app/Contents/MacOS/clipsync"),
        "用户级 ~/Applications 安装也必须识别"
    );
    assert!(!is_in_app_bundle("/tmp/clipsync"), "裸可执行文件不算 bundle");
    assert!(
        !is_in_app_bundle("/tmp/ClipSync.app/MacOS/clipsync"),
        "缺少 Contents 层不算标准 bundle"
    );
}
