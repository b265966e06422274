use clipsync::crypto::file_auth::{auth_token, verify};
use clipsync::crypto::pake::{
    generate_pairing_code, normalize_pairing_code, pairing_code_is_current, start_initiator,
    start_responder, CODE_ALPHABET, CODE_LEN,
};

#[test]
fn round_trip() {
    let key = [7u8; 32];
    let t = auth_token(&key, "abc123");
    assert!(verify(&key, "abc123", &t));
    // Another hash, another key and no credential are refused.
    assert!(!verify(&key, "other", &t));
    assert!(!verify(&[8u8; 32], "abc123", &t));
    assert!(!verify(&key, "abc123", ""));
    assert!(!verify(&key, "abc123", &t[..t.len() - 1]));
}

#[test]
fn hex_is_lowercase_and_fixed_len() {
    assert_eq!(auth_token(&[0u8; 32], "x").len(), 64);
    assert!(auth_token(&[0u8; 32], "x")
        .chars()
        .all(|c| c.is_ascii_hexdigit() && !c.is_ascii_uppercase()));
}

#[test]
fn spake2_roundtrip_same_password() {
    let pw = "123456";
    let init = start_initiator(pw);
    let resp = start_responder(pw);
    let init_msg = init.message.clone();
    let k1 = init.finish(&resp.message).unwrap();
    let k2 = resp.finish(&init_msg).unwrap();
    assert_eq!(k1, k2);
    assert_eq!(k1.len(), 32);
}

#[test]
fn spake2_wrong_password_mismatch() {
    let init = start_initiator("123456");
    let resp = start_responder("000000");
    let init_msg = init.message.clone();
    let k1 = init.finish(&resp.message).unwrap();
    let k2 = resp.finish(&init_msg).unwrap();
    // A wrong code is no error, but the keys differ.
    assert_ne!(k1, k2);
}

#[test]
fn pairing_code_is_twelve_base32_chars() {
    let code = generate_pairing_code();
    assert_eq!(code.len(), CODE_LEN);
    assert!(pairing_code_is_current(&code));
    for c in code.chars() {
        assert!(CODE_ALPHABET.contains(c));
        assert!(!"01ILO".contains(c));
    }
}

#[test]
fn pairing_codes_do_not_repeat() {
    let a = generate_pairing_code();
    let b = generate_pairing_code();
    assert_ne!(a, b);
}

#[test]
fn legacy_six_digit_code_is_rejected() {
    assert!(!pairing_code_is_current("537390"));
    assert!(!pairing_code_is_current("000000"));
    assert!(!pairing_code_is_current(""));
    assert!(!pairing_code_is_current("ABC"));
    assert!(!pairing_code_is_current("ABCDEFGHIJK0"));
}

#[test]
fn normalize_tolerates_separators_and_case() {
    assert_eq!(normalize_pairing_code("a1b2-c3d4-e5f6"), "A1B2C3D4E5F6");
    assert_eq!(normalize_pairing_code(" A1B2 C3D4 E5F6 "), "A1B2C3D4E5F6");
    assert_eq!(normalize_pairing_code("A1B2-C3D4-E5F6"), "A1B2C3D4E5F6");
    assert!(pairing_code_is_current(&normalize_pairing_code(
        "a1b2-c3d4-e5f6"
    )));
}
