use sbb::builder::{
    assemble_image, get_stub_path, key_file_path, output_path, parse_key_file, resolve_key,
    secure_binary, Args, BuildError, KeySource,
};
use sbb::crypto::decrypt_binary;
use sbb::embed::{extract_from_stub, MAGIC_FOOTER, MAGIC_HEADER};
use sbb::fingerprint::generate_fingerprint;
use sbb::launcher::{classify_segments, unpack, unpack_with_device_key, KeyChoice};
use sysinfo::Networks;

/// Whether the device has at most one network hardware address that is not
/// all zero, so that its key string does not depend on the order in which
/// the interfaces are walked.
fn device_key_is_stable() -> bool {
    let networks = Networks::new_with_refreshed_list();
    let mut macs: Vec<String> = networks
        .iter()
        .map(|(_name, net)| net.mac_address().to_string())
        .filter(|mac| mac != "00:00:00:00:00:00")
        .collect();
    macs.sort();
    macs.dedup();
    macs.len() <= 1
}

fn args(key: Option<&str>, encrypt: bool, windows: bool, linux: bool) -> Args {
    Args { input: "program".to_string(), key: key.map(|k| k.to_string()), encrypt, windows, linux }
}

#[test]
fn build_with_random_key_end_to_end() {
    let base = b"STUB";
    let plaintext = b"HELLO";
    let carrier = secure_binary(base, plaintext, &KeySource::Random).unwrap();
    assert_eq!(
        carrier.len(),
        base.len() + 2 * (MAGIC_HEADER.len() + MAGIC_FOOTER.len()) + 64 + 12 + plaintext.len() + 16
    );
    assert_eq!(&carrier[..4], base);

    let roles = classify_segments(extract_from_stub(&carrier)).unwrap();
    let key = match roles.key {
        KeyChoice::Embedded(key) => key,
        other => panic!("expected an embedded key, got {:?}", other),
    };
    assert_eq!(key.len(), 64);
    assert_eq!(decrypt_binary(&key, &roles.payload), Some(plaintext.to_vec()));
    assert_eq!(unpack(&carrier), Ok(plaintext.to_vec()));
}

#[test]
fn build_with_external_key_ships_the_key() {
    let key = "device-01_rack:7-device-01_rack:7";
    let carrier =
        secure_binary(b"STUB", b"HELLO", &KeySource::External(key.to_string())).unwrap();
    assert_eq!(carrier.len(), 4 + 2 * 28 + key.len() + 12 + 5 + 16);
    let segments = extract_from_stub(&carrier);
    assert_eq!(segments.len(), 2);
    assert_eq!(segments[0], key.as_bytes());
    assert_eq!(decrypt_binary(key, &segments[1]), Some(b"HELLO".to_vec()));
    assert_eq!(unpack_with_device_key(&carrier, "unrelated"), Ok(b"HELLO".to_vec()));
}

#[test]
fn build_with_device_key_ships_no_key() {
    let carrier = secure_binary(b"STUB", b"HELLO", &KeySource::DeriveDevice).unwrap();
    assert_eq!(carrier.len(), 4 + 28 + 12 + 5 + 16);
    let segments = extract_from_stub(&carrier);
    assert_eq!(segments.len(), 1);
    assert_eq!(segments[0].len(), 12 + 5 + 16);
    if device_key_is_stable() {
        assert_eq!(
            decrypt_binary(&generate_fingerprint(), &segments[0]),
            Some(b"HELLO".to_vec())
        );
        assert_eq!(unpack(&carrier), Ok(b"HELLO".to_vec()));
    }
}

#[test]
fn build_of_an_empty_program() {
    let carrier = secure_binary(b"", b"", &KeySource::Random).unwrap();
    assert_eq!(carrier.len(), 2 * 28 + 64 + 12 + 16);
    assert_eq!(unpack(&carrier), Ok(vec![]));
}

#[test]
fn resolve_key_follows_the_source() {
    assert_eq!(resolve_key(&KeySource::External("given".to_string())), "given");
    if device_key_is_stable() {
        assert_eq!(resolve_key(&KeySource::DeriveDevice), generate_fingerprint());
    }
    assert_eq!(resolve_key(&KeySource::DeriveDevice).len(), 64);
    assert_eq!(resolve_key(&KeySource::Random).len(), 64);
}

#[test]
fn assemble_image_writes_the_segments() {
    assert_eq!(
        assemble_image(b"B", Some("key"), b"enc".to_vec()),
        b"B--EMBED_START--key--EMBED_END----EMBED_START--enc--EMBED_END--".to_vec()
    );
    assert_eq!(
        assemble_image(b"B", None, b"enc".to_vec()),
        b"B--EMBED_START--enc--EMBED_END--".to_vec()
    );
}

#[test]
fn stub_path_follows_the_platform() {
    let linux = "/home/ahmed/Projects/collage/sbb/target/release/stub";
    let windows = "/home/ahmed/Projects/collage/sbb/target/x86_64-pc-windows-gnu/release/stub.exe";
    assert_eq!(get_stub_path(&args(None, false, false, false)), linux);
    assert_eq!(get_stub_path(&args(None, false, false, true)), linux);
    assert_eq!(get_stub_path(&args(None, false, true, false)), windows);
    assert_eq!(get_stub_path(&args(None, false, true, true)), windows);
}

#[test]
fn output_path_appends_secured() {
    assert_eq!(output_path("bin/program"), "bin/program.secured");
    assert_eq!(output_path(""), ".secured");
}

#[test]
fn key_file_is_read_only_for_encrypt() {
    assert_eq!(
        key_file_path(&args(Some("key.txt"), true, false, false)),
        Ok(Some("key.txt".to_string()))
    );
    assert_eq!(key_file_path(&args(Some("key.txt"), false, false, false)), Ok(None));
    assert_eq!(key_file_path(&args(None, false, false, false)), Ok(None));
    assert_eq!(key_file_path(&args(None, true, false, false)), Err(BuildError::KeyFileRequired));
}

#[test]
fn key_file_holds_one_line() {
    assert_eq!(parse_key_file(b"secret"), Ok("secret".to_string()));
    assert_eq!(parse_key_file(b"secret\n"), Ok("secret".to_string()));
    assert_eq!(parse_key_file(b"secret\r\n"), Ok("secret".to_string()));
    assert_eq!(parse_key_file(b"secret\r"), Ok("secret\r".to_string()));
    assert_eq!(parse_key_file(b"cl\xc3\xa9\n"), Ok("cl\u{e9}".to_string()));
    assert_eq!(parse_key_file(b"\n"), Ok(String::new()));
    assert_eq!(parse_key_file(b"\r\n"), Ok(String::new()));
}

#[test]
fn key_file_errors() {
    assert_eq!(parse_key_file(b""), Err(BuildError::KeyFileEmpty));
    assert_eq!(parse_key_file(b"one\ntwo"), Err(BuildError::KeyFileMultipleLines));
    assert_eq!(parse_key_file(b"one\n\n"), Err(BuildError::KeyFileMultipleLines));
    assert_eq!(parse_key_file(b"one\n\xff"), Err(BuildError::KeyFileMultipleLines));
    assert_eq!(parse_key_file(b"\xff\xfe"), Err(BuildError::KeyFileNotText));
    assert_eq!(parse_key_file(b"\xff\nsecond"), Err(BuildError::KeyFileNotText));
}

#[test]
fn build_errors_have_their_descriptions() {
    assert_eq!(BuildError::KeyFileRequired.message(), "Key file required when --encrypt is used");
    assert_eq!(BuildError::KeyFileEmpty.message(), "Key file is empty");
    assert_eq!(BuildError::KeyFileMultipleLines.message(), "Key file should contain only one line");
    assert_eq!(BuildError::KeyFileNotText.message(), "Key file is not valid UTF-8");
    assert_eq!(BuildError::EncryptionFailed.message(), "Encryption failed");
}
