use sbb::fingerprint::{
    fingerprint_from_attributes, generate_fingerprint, generate_random_key, key_from_seed,
};
use sysinfo::Networks;

/// Whether the device has at most one network hardware address that is not
/// all zero, so that its key string does not depend on the order in which
/// the interfaces are walked.
fn device_key_is_stable() -> bool {
    let networks = Networks::new_with_refreshed_list();
    let mut macs: Vec<String> = networks
        .iter()
        .map(|(_name, net)| net.mac_address().to_string())
        .filter(|mac| mac != "00:00:00:00:00:00")
        .collect();
    macs.sort();
    macs.dedup();
    macs.len() <= 1
}

fn strings(items: &[&str]) -> Vec<String> {
    items.iter().map(|item| item.to_string()).collect()
}

#[test]
fn fingerprint_joins_attributes_in_order() {
    let fingerprint = fingerprint_from_attributes(
        &strings(&["Intel(R) Xeon(R)", "other cpu"]),
        &Some("myhost".to_string()),
        &strings(&["00:00:00:00:00:00", "52:54:00:12:34:56", "aa:bb:cc:dd:ee:ff"]),
    );
    assert_eq!(fingerprint, "1847a514d5bd92299385ea9e664124c2fb882ffe24961f59c7b3c5197f89555c");
}

#[test]
fn fingerprint_skips_missing_attributes() {
    let fingerprint = fingerprint_from_attributes(
        &strings(&[]),
        &Some("myhost".to_string()),
        &strings(&["00:00:00:00:00:00"]),
    );
    assert_eq!(fingerprint, "a5638e331e759fd40553616c8c41331acbcd9fc2e6f6ca611b361b75ae292a06");
}

#[test]
fn fingerprint_hashes_utf8_bytes() {
    let fingerprint = fingerprint_from_attributes(&strings(&["Ryzen\u{e9}"]), &None, &strings(&[]));
    assert_eq!(fingerprint, "85a667425c5055ddf618073e691ff5bf63e3421c88ea68b78ee4c0c8d6e276fa");
}

#[test]
fn fingerprint_falls_back_when_nothing_is_known() {
    let expected = "5c7ee2074b65853f71fc5a01ce194ff26deedf6daacdb715c6beefdfd3f31b35";
    assert_eq!(fingerprint_from_attributes(&strings(&[]), &None, &strings(&[])), expected);
    assert_eq!(
        fingerprint_from_attributes(
            &strings(&[""]),
            &Some(String::new()),
            &strings(&["00:00:00:00:00:00"])
        ),
        expected
    );
}

#[test]
fn device_fingerprint_is_stable() {
    let first = generate_fingerprint();
    let second = generate_fingerprint();
    if device_key_is_stable() {
        assert_eq!(first, second);
    }
    for fingerprint in [first, second] {
        assert_eq!(fingerprint.len(), 64);
        assert!(fingerprint.chars().all(|c| c.is_ascii_digit() || ('a'..='f').contains(&c)));
    }
}

#[test]
fn random_keys_differ() {
    let first = generate_random_key();
    let second = generate_random_key();
    assert_ne!(first, second);
    assert_eq!(first.len(), 64);
    assert!(first.chars().all(|c| c.is_ascii_digit() || ('a'..='f').contains(&c)));
}

#[test]
fn key_from_seed_is_the_hex_digest() {
    let seed: Vec<u8> = (0u8..128).collect();
    assert_eq!(
        key_from_seed(&seed),
        "471fb943aa23c511f6f72f8d1652d9c880cfa392ad80503120547703e56a2be5"
    );
}

#[test]
fn fingerprint_ignores_the_order_of_a_single_address() {
    let cpus = strings(&["cpu"]);
    let host = Some("host".to_string());
    let first = fingerprint_from_attributes(
        &cpus,
        &host,
        &strings(&["00:00:00:00:00:00", "52:54:00:12:34:56"]),
    );
    let second = fingerprint_from_attributes(
        &cpus,
        &host,
        &strings(&["52:54:00:12:34:56", "00:00:00:00:00:00", "52:54:00:12:34:56"]),
    );
    assert_eq!(first, second);
}

#[test]
fn fingerprint_follows_the_order_of_several_addresses() {
    let first = fingerprint_from_attributes(
        &strings(&[]),
        &None,
        &strings(&["52:54:00:12:34:56", "aa:bb:cc:dd:ee:ff"]),
    );
    let second = fingerprint_from_attributes(
        &strings(&[]),
        &None,
        &strings(&["aa:bb:cc:dd:ee:ff", "52:54:00:12:34:56"]),
    );
    assert_ne!(first, second);
}
