use sbb::crypto::{decrypt_binary, encrypt_binary, NONCE_LEN, TAG_LEN};

const KNOWN_PAYLOAD: [u8; 33] = [
    0, 1, 2, 3, 4, 5, 6, 7, 8, 9, 10, 11, 95, 136, 144, 31, 35, 174, 35, 130, 132, 227, 237, 34,
    155, 181, 54, 28, 8, 149, 47, 118, 141,
];

#[test]
fn decrypt_undoes_encrypt() {
    let plaintext = b"\x7fELF not really a program".to_vec();
    let encrypted = encrypt_binary("some key", &plaintext).unwrap();
    assert_eq!(decrypt_binary("some key", &encrypted), Some(plaintext));
}

#[test]
fn decrypt_undoes_encrypt_of_nothing() {
    let encrypted = encrypt_binary("", b"").unwrap();
    assert_eq!(encrypted.len(), NONCE_LEN + TAG_LEN);
    assert_eq!(decrypt_binary("", &encrypted), Some(vec![]));
}

#[test]
fn encrypted_payload_has_nonce_and_tag() {
    let plaintext = vec![7u8; 1000];
    let encrypted = encrypt_binary("k", &plaintext).unwrap();
    assert_eq!(encrypted.len(), 12 + 1000 + 16);
    assert_ne!(&encrypted[12..1012], &plaintext[..]);
}

#[test]
fn nonce_is_fresh_each_time() {
    let first = encrypt_binary("k", b"same").unwrap();
    let second = encrypt_binary("k", b"same").unwrap();
    assert_ne!(first[..12], second[..12]);
    assert_ne!(first, second);
}

#[test]
fn decrypt_known_payload() {
    assert_eq!(
        decrypt_binary("correct horse battery staple", &KNOWN_PAYLOAD),
        Some(b"HELLO".to_vec())
    );
}

#[test]
fn decrypt_fails_under_another_key() {
    let encrypted = encrypt_binary("key one", b"secret").unwrap();
    assert_eq!(decrypt_binary("key two", &encrypted), None);
    assert_eq!(decrypt_binary("correct horse battery stapl", &KNOWN_PAYLOAD), None);
}

#[test]
fn decrypt_fails_on_any_flipped_byte() {
    let encrypted = encrypt_binary("key", b"HELLO WORLD").unwrap();
    for index in 0..encrypted.len() {
        let mut changed = encrypted.clone();
        changed[index] ^= 0x01;
        assert_eq!(decrypt_binary("key", &changed), None);
        assert_eq!(decrypt_binary("another key", &changed), None);
    }
}

#[test]
fn decrypt_fails_on_short_input() {
    assert_eq!(decrypt_binary("key", b""), None);
    assert_eq!(decrypt_binary("key", &[0u8; 11]), None);
    assert_eq!(decrypt_binary("key", &[0u8; 12]), None);
    assert_eq!(decrypt_binary("key", &[0u8; 27]), None);
    assert_eq!(decrypt_binary("correct horse battery staple", &KNOWN_PAYLOAD[..32]), None);
}
