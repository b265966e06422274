//! What the cryptographic and textual building blocks give on known values.

use std::hash::{Hash, Hasher};
use std::time::{Duration, UNIX_EPOCH};

use clipsync::bytes::{digit_of, range, to_hex};
use clipsync::clipboard::types::{ClipboardContent, DeviceId};
use clipsync::clock::{monotonic, nanos_between, nanos_since, now_secs, secs_at};
use clipsync::crypto::aead::{decrypt, decrypt_in_place, encrypt, in_place_overhead};
use clipsync::crypto::file_auth::{auth_token, verify};
use clipsync::crypto::kdf::{derive_network_key, derive_session_keys, split_keys};
use clipsync::crypto::pake::{
    choose_bytes, pairing_code_from, pairing_code_is_current, start_initiator, start_responder,
};
use clipsync::device::identity::DeviceIdentity;
use clipsync::error::CryptoError;
use clipsync::fingerprint::{fingerprint_of, sort_items, str_less, to_hex_numeral};
use clipsync::sync::anti_loop::content_hash;
use clipsync::text::{
    contains_str, lines_of, parse_dec, rsplit_once, split_on, split_once, strip_prefix, to_dec,
    to_lower, trim,
};
use clipsync::transfer::handshake::{
    derive_link_secret, derive_session_key, key_fingerprint, sha256_hex, verify_tag,
};
use clipsync::transfer::manager::ConnectionHub;

fn unhex(s: &str) -> Vec<u8> {
    (0..s.len() / 2)
        .map(|i| u8::from_str_radix(&s[2 * i..2 * i + 2], 16).unwrap())
        .collect()
}

#[test]
fn hexadecimal_digits() {
    assert_eq!(digit_of(9), '9');
    assert_eq!(digit_of(10), 'a');
    assert_eq!(to_hex(&[0x00, 0x0f, 0xa0, 0xff]), "000fa0ff");
    assert_eq!(to_hex(&[]), "");
    assert_eq!(clipsync::bytes::concat(&[1, 2], &[3]), vec![1, 2, 3]);
    assert_eq!(range(&[1, 2, 3, 4], 1, 3), vec![2, 3]);
}

#[test]
fn sha256_of_abc() {
    assert_eq!(
        sha256_hex(b"abc"),
        "ba7816bf8f01cfea414140de5dae2223b00361a396177a9cb410ff61f20015ad"
    );
}

#[test]
fn blake3_of_contents() {
    assert_eq!(
        content_hash(&ClipboardContent::Text("abc".to_string())),
        "6437b3ac38465133ffb63b75273a8db548c558465d79db03fd359c6cd5bd9d85"
    );
    assert_eq!(
        content_hash(&ClipboardContent::Image { data: vec![], max_size: 5 }),
        "af1349b9f5f9a1a6a0404dea36dcc9499bcb25c9adc112b7cc9a93cae41f3262"
    );
    // The two parts of rich text count as one.
    assert_eq!(
        content_hash(&ClipboardContent::Html { html: "a".to_string(), text: "bc".to_string() }),
        content_hash(&ClipboardContent::Text("abc".to_string()))
    );
}

#[test]
fn codes_and_secrets_of_a_key() {
    let key = [7u8; 32];
    assert_eq!(
        to_hex(&verify_tag(&key, "device-a")),
        "547ad8f5440c6cf55fba000a81ed06a47f6d3217de57727ada4ffbe5aca02cd0"
    );
    assert_eq!(
        derive_link_secret(&key),
        "fa7363459df5930b82a014b5f259e1e53a21ad3866a2a23653e1291731f0fd25"
    );
    assert_eq!(
        auth_token(&key, "abc123"),
        "38d6bb79e5723cb868c6e1a2a46a5a174a5e5597d14204f06655aed96dfc8410"
    );
}

#[test]
fn credential_may_stand_between_blanks() {
    let key = [7u8; 32];
    let t = format!("  {}\t", auth_token(&key, "abc123"));
    assert!(verify(&key, "abc123", &t));
    assert!(!verify(&key, "abc123", "   "));
}

#[test]
fn derived_keys() {
    assert_eq!(
        to_hex(&derive_network_key("token", "net-1")),
        "f1b0b36a070099cba1c48c5b5c9676a01097a3e2dded996e96e3e8864edf357f"
    );
    assert_ne!(derive_network_key("token", "net-1"), derive_network_key("token", "net-2"));
    let mut shared = [0u8; 32];
    for i in 0..32 {
        shared[i] = i as u8;
    }
    let okm = derive_session_keys(&shared, b"clipsync-session-v1").unwrap();
    assert_eq!(
        to_hex(&okm),
        "79bf321ea823efb9439518abbf6272e30d659028489a1941c1464cf064bcde42cfee27d9cb3f8e675454372b70a2c6f4a975b0dd49f3da80423501a376fec5ab"
    );
    let (enc, mac) = split_keys(okm);
    assert_eq!(to_hex(&enc) + &to_hex(&mac), to_hex(&okm));
    assert_eq!(derive_session_key(&shared).unwrap(), enc);
}

#[test]
fn aes_gcm_known_answers() {
    let key = [0u8; 32];
    let nonce = [0u8; 12];
    assert_eq!(
        to_hex(&encrypt(&key, &nonce, b"").unwrap()),
        "530f8afbc74536b9a963b4f1c4cb738b"
    );
    let sealed = encrypt(&key, &nonce, &[0u8; 16]).unwrap();
    assert_eq!(
        to_hex(&sealed),
        "cea7403d4d606b6e074ec5d3baf39d18d0d1c8a799996bf0265b98b5d48ab919"
    );
    assert_eq!(decrypt(&key, &nonce, &sealed).unwrap(), vec![0u8; 16]);
}

#[test]
fn changed_ciphertext_does_not_open() {
    let key = [3u8; 32];
    let nonce = [4u8; 12];
    let mut sealed = encrypt(&key, &nonce, b"hello").unwrap();
    assert_eq!(sealed.len(), 5 + 16);
    assert!(matches!(decrypt(&[9u8; 32], &nonce, &sealed), Err(CryptoError::Decryption(_))));
    assert!(matches!(decrypt(&key, &[5u8; 12], &sealed), Err(CryptoError::Decryption(_))));
    sealed[0] ^= 1;
    assert!(matches!(decrypt(&key, &nonce, &sealed), Err(CryptoError::Decryption(_))));
    assert!(matches!(decrypt(&key, &nonce, b"short"), Err(CryptoError::Decryption(_))));
}

#[test]
fn decrypting_in_place_leaves_the_plaintext() {
    let key = [3u8; 32];
    let nonce = [4u8; 12];
    let mut buf = encrypt(&key, &nonce, b"hello").unwrap();
    assert!(decrypt_in_place(&key, &nonce, &mut buf).is_ok());
    assert_eq!(buf, b"hello");
    assert_eq!(in_place_overhead(), 16);
    assert!(decrypt_in_place(&key, &nonce, &mut buf).is_err());
}

#[test]
fn identity_of_a_known_secret() {
    let mut secret = [0u8; 32];
    secret.copy_from_slice(&unhex(
        "77076d0a7318a57d3c16c17251b26645df4c2f87ebc0992ab177fba51db92c2a",
    ));
    let id = DeviceIdentity::from_secret(secret, DeviceId("me".to_string()), "My device");
    assert_eq!(
        to_hex(&id.public_key_bytes()),
        "8520f0098930a754748b7ddcb43ef75a0dbf3a0d26381af4eba4a98eaa9b4e6a"
    );
    assert_eq!(key_fingerprint(&id.public_key), "300c9c9603b92a4b39ed3958bf924011");
    assert_eq!(id.secret(), &secret);
    // What is said first on a connection carries the key in Base64.
    let hello = ConnectionHub::new(id).hello();
    assert_eq!(hello.public_key, "hSDwCYkwp1R0i33ctD73Wg2/Og0mOBr066SpjqqbTmo=");
    assert_eq!(hello.device_id, "me");
    assert_eq!(hello.device_name, "My device");
    assert_eq!(hello.listen_port, 0);
}

#[test]
fn two_new_identities_differ() {
    let (a, made) = DeviceIdentity::new(None, DeviceId("a".to_string()), "a").unwrap();
    let (b, _) = DeviceIdentity::new(None, DeviceId("b".to_string()), "b").unwrap();
    assert!(made);
    assert_ne!(a.secret_key, b.secret_key);
    assert_ne!(a.secret_key, [0u8; 32]);
    let wrong = DeviceIdentity::new(Some(vec![1; 31]), DeviceId("a".to_string()), "a");
    assert_eq!(wrong.err().unwrap(), "stored identity key has wrong length");
}

#[test]
fn pairing_code_of_given_bytes() {
    assert_eq!(pairing_code_from(&[0, 1, 7, 8, 30, 31, 255]), "239AZ29");
    assert!(pairing_code_is_current("2345-6789-ABCD"));
    assert!(!pairing_code_is_current("2345-6789-ABCO"));
}

#[test]
fn exchange_faults() {
    let i = start_initiator("code");
    let r = start_responder("code");
    assert_eq!(i.message.len(), 33);
    assert_eq!(i.message[0], b'A');
    assert_eq!(r.message[0], b'B');
    let own = i.message.clone();
    assert!(matches!(i.finish(&own), Err(CryptoError::InvalidKey(m)) if m == "BadSide"));
    let i = start_initiator("code");
    assert!(matches!(i.finish(b"B"), Err(CryptoError::InvalidKey(m)) if m == "WrongLength"));
    // About half of all encodings hold no element of the group.
    let corrupt = (0..20u8)
        .filter(|y| {
            let mut bad = vec![0u8; 33];
            bad[0] = b'B';
            bad[1] = *y;
            matches!(
                start_initiator("code").finish(&bad),
                Err(CryptoError::InvalidKey(m)) if m == "CorruptMessage"
            )
        })
        .count();
    assert!(corrupt > 0);
    assert!(matches!(r.finish(b""), Err(CryptoError::InvalidKey(m)) if m == "WrongLength"));
}

#[test]
fn fingerprints_are_those_of_the_standard_hasher() {
    let mut items = vec![("b.txt".to_string(), 2u64), ("a.txt".to_string(), 1u64)];
    let ours = fingerprint_of(items.clone(), true);
    items.sort();
    let mut h = std::collections::hash_map::DefaultHasher::new();
    items.hash(&mut h);
    assert_eq!(ours, format!("{:x}", h.finish()));

    let mut names = vec!["b".to_string(), "a".to_string()];
    let ours = fingerprint_of(names.iter().map(|n| (n.clone(), 0)).collect(), false);
    names.sort();
    let mut h = std::collections::hash_map::DefaultHasher::new();
    names.hash(&mut h);
    assert_eq!(ours, format!("{:x}", h.finish()));
}

#[test]
fn sorting_items() {
    let sorted = sort_items(vec![
        ("b".to_string(), 1),
        ("a".to_string(), 9),
        ("a".to_string(), 2),
        ("".to_string(), 5),
    ]);
    assert_eq!(
        sorted,
        vec![
            ("".to_string(), 5),
            ("a".to_string(), 2),
            ("a".to_string(), 9),
            ("b".to_string(), 1)
        ]
    );
    assert!(str_less("a", "b"));
    assert!(str_less("", "a"));
    assert!(!str_less("a", "a"));
    assert!(str_less("a", "ab"));
    assert!(str_less("z", "é"));
    assert_eq!(to_hex_numeral(0), "0");
    assert_eq!(to_hex_numeral(0xdead_beef), "deadbeef");
}

#[test]
fn pieces_of_text() {
    assert_eq!(split_on("a,b,,c", ','), vec!["a", "b", "", "c"]);
    assert_eq!(split_once("k: v: w", ':'), Some(("k".to_string(), " v: w".to_string())));
    assert_eq!(rsplit_once("h:1:2", ':'), Some(("h:1".to_string(), "2".to_string())));
    assert_eq!(split_once("none", ':'), None);
    assert_eq!(lines_of("a\r\nb\n\nc"), vec!["a", "b", "", "c"]);
    assert_eq!(lines_of("a\n"), vec!["a"]);
    assert_eq!(lines_of(""), Vec::<String>::new());
    assert_eq!(trim(" \t x y \n"), "x y");
    assert_eq!(trim("\u{3000}x\u{a0}"), "x");
    assert_eq!(strip_prefix("abc", "ab"), Some("c".to_string()));
    assert_eq!(strip_prefix("abc", "b"), None);
    assert!(contains_str("abcd", "bc"));
    assert!(!contains_str("abcd", "cb"));
    assert_eq!(to_lower("AbC-É"), "abc-É");
    assert_eq!(parse_dec("65535", 65535), Some(65535));
    assert_eq!(parse_dec("65536", 65535), None);
    assert_eq!(parse_dec("+7", 65535), Some(7));
    assert_eq!(parse_dec("", 65535), None);
    assert_eq!(parse_dec("1a", 65535), None);
    assert_eq!(to_dec(0), "0");
    assert_eq!(to_dec(u64::MAX), "18446744073709551615");
}

#[test]
fn wall_clock_in_whole_seconds() {
    assert_eq!(secs_at(UNIX_EPOCH), 0);
    assert_eq!(secs_at(UNIX_EPOCH + Duration::from_millis(5_999)), 5);
    assert_eq!(secs_at(UNIX_EPOCH + Duration::from_secs(1_700_000_000)), 1_700_000_000);
    assert_eq!(secs_at(UNIX_EPOCH - Duration::from_secs(7)), 0);
    let before = std::time::SystemTime::now();
    let now = now_secs();
    assert!(secs_at(before) <= now);
    assert!(now > 1_600_000_000);
}

#[test]
fn monotonic_clock_in_nanoseconds() {
    let start = monotonic();
    let nanos = nanos_since(&start);
    assert!(nanos < 20_000_000_000);
    let past = start.checked_sub(Duration::from_millis(1_500)).unwrap();
    assert_eq!(nanos_between(&start, &past), 1_500_000_000);
    assert_eq!(nanos_between(&past, &start), 0);
    assert!(nanos_since(&past) >= nanos + 1_500_000_000);
}

#[test]
fn bytes_that_would_favour_a_symbol_are_passed_over() {
    let mut drawn: Vec<u8> = vec![255, 248];
    drawn.extend(0..=12u8);
    assert_eq!(choose_bytes(&drawn), (0..12u8).collect::<Vec<_>>());
    let few = [250u8, 1, 251, 2, 252, 253, 254, 255, 248, 249, 250, 251];
    assert_eq!(choose_bytes(&few), [1, 2, 250, 1, 251, 2, 252, 253, 254, 255, 248, 249]);
    let mut counts = [0usize; 31];
    for b in 0..248usize {
        counts[b % 31] += 1;
    }
    assert_eq!(counts, [8; 31]);
}
