use clipsync::server_conn::endpoint::{ext_file_ep_is_valid, normalize_ext_file_ep};
use clipsync::server_conn::lan::{group_is_unreliable, lan_differ, pick_lan_ipv4, Ipv4};

#[test]
fn unreliable_lan_group_detection() {
    assert!(group_is_unreliable(""));
    assert!(group_is_unreliable("10.0"));
    assert!(group_is_unreliable("abc.def.ghi"));
    assert!(group_is_unreliable("198.18.0"));
    assert!(group_is_unreliable("100.64.0"));
    assert!(!group_is_unreliable("10.0.0"));
    assert!(!group_is_unreliable("192.168.1"));
}

#[test]
fn lan_differ_is_conservative_for_unreliable_groups() {
    assert!(!lan_differ("10.0.0", "10.0.0"));
    assert!(lan_differ("10.0.0", "10.0.1"));
    assert!(lan_differ("", "10.0.0"));
    assert!(lan_differ("198.18.0", "198.18.0"));
}

#[test]
fn virtual_ranges_are_ignored_when_picking_lan_ip() {
    assert_eq!(pick_lan_ipv4(&[Ipv4::new(198, 18, 114, 130)]), None);
    assert_eq!(pick_lan_ipv4(&[Ipv4::new(100, 64, 0, 5)]), None);
    assert_eq!(
        pick_lan_ipv4(&[
            Ipv4::new(198, 18, 0, 1),
            Ipv4::new(103, 40, 14, 14),
            Ipv4::new(10, 0, 0, 146),
        ]),
        Some(Ipv4::new(10, 0, 0, 146))
    );
    assert_eq!(
        pick_lan_ipv4(&[Ipv4::new(103, 40, 14, 14), Ipv4::new(101, 1, 1, 1)]),
        Some(Ipv4::new(101, 1, 1, 1))
    );
    assert_eq!(
        pick_lan_ipv4(&[Ipv4::new(127, 0, 0, 1), Ipv4::new(169, 254, 1, 1)]),
        None
    );
}

#[test]
fn ep_without_port_gets_default() {
    assert_eq!(
        normalize_ext_file_ep("192.0.2.10", 20071),
        "192.0.2.10:20071"
    );
    assert_eq!(
        normalize_ext_file_ep("  relay.example.com  ", 20071),
        "relay.example.com:20071"
    );
}

#[test]
fn ep_with_port_kept_verbatim() {
    assert_eq!(
        normalize_ext_file_ep("192.0.2.10:30080", 20071),
        "192.0.2.10:30080"
    );
    assert_eq!(normalize_ext_file_ep("1.2.3.4:80", 20071), "1.2.3.4:80");
}

#[test]
fn ep_validation_rejects_injection_forms() {
    let ok = ext_file_ep_is_valid;
    assert!(ok("192.0.2.10"));
    assert!(ok("192.0.2.10:20071"));
    assert!(ok("relay.example.com:443"));
    assert!(ok("[2001:db8::1]:20071"));
    assert!(!ok("2001:db8::1"));
    assert!(!ok(""));
    assert!(!ok("http://evil.example"));
    assert!(!ok("192.0.2.10/file/x"));
    assert!(!ok("user@evil.example"));
    assert!(!ok("192.0.2.10:0"));
    assert!(!ok("192.0.2.10:70000"));
    assert!(!ok("evil example.com"));
    assert!(!ok("evil
.example.com"));
    assert!(!ok(":20071"));
}

#[test]
fn empty_ep_stays_empty() {
    assert_eq!(normalize_ext_file_ep("", 20071), "");
    assert_eq!(normalize_ext_file_ep("   ", 20071), "");
}
