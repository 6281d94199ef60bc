//! Key material: a string derived from stable attributes of the device, or
//! from secure randomness. Either way the SHA-256 digest, in lowercase hex.

use crate::crypto::{sha256, sha256_digest, KEY_LEN};
use rand::Rng;
use sysinfo::{NetworkData, Networks, System};
use vstd::prelude::*;
use vstd::string::StringExecFns;
use vstd::utf8::encode_utf8;

verus! {

/// Number of random bytes that a random key is the digest of.
pub const RANDOM_SEED_LEN: usize = 128;

/// Number of characters of a key string made here.
pub const FINGERPRINT_LEN: usize = 64;

/// `System` of the sysinfo crate: what the system reports of itself. Nothing
/// of it is seen here; it is carried from one call to the next.
#[verifier::external_type_specification]
#[verifier::external_body]
pub struct ExSystem(System);

/// `Networks` of the sysinfo crate: the network interfaces of the system.
/// Nothing of it is seen here; it is carried from one call to the next.
#[verifier::external_type_specification]
#[verifier::external_body]
pub struct ExNetworks(Networks);

/// `NetworkData` of the sysinfo crate: one network interface, which
/// `Networks` derefs to a map of. Nothing of it is seen here.
#[verifier::external_type_specification]
#[verifier::external_body]
pub struct ExNetworkData(NetworkData);

/// The sixteen digits of lowercase hexadecimal, by value.
pub open spec fn hex_digits() -> Seq<char> {
    seq!['0', '1', '2', '3', '4', '5', '6', '7', '8', '9', 'a', 'b', 'c', 'd', 'e', 'f']
}

/// Lowercase hexadecimal text of a byte string: two digits for each byte, the
/// high half first.
pub open spec fn hex_lower(bytes: Seq<u8>) -> Seq<char> {
    Seq::new(
        2 * bytes.len(),
        |i: int|
            if i % 2 == 0 {
                hex_digits()[bytes[i / 2] as int / 16]
            } else {
                hex_digits()[bytes[i / 2] as int % 16]
            },
    )
}

/// A digit of lowercase hexadecimal.
pub open spec fn lower_hex_digit(c: char) -> bool {
    ('0' <= c && c <= '9') || ('a' <= c && c <= 'f')
}

/// Text that has the form of a key string made here: 64 digits of lowercase
/// hexadecimal.
pub open spec fn digest_text(text: Seq<char>) -> bool {
    text.len() == FINGERPRINT_LEN && forall|i: int|
        0 <= i < text.len() ==> lower_hex_digit(#[trigger] text[i])
}

/// The lowercase hex text of 32 bytes is 64 digits of lowercase hexadecimal.
pub proof fn lemma_hex_lower_is_digest_text(bytes: Seq<u8>)
    requires
        bytes.len() == KEY_LEN,
    ensures
        digest_text(hex_lower(bytes)),
{
    let text = hex_lower(bytes);
    assert forall|i: int| 0 <= i < text.len() implies lower_hex_digit(#[trigger] text[i]) by {
        let value = bytes[i / 2] as int;
        let digit = if i % 2 == 0 {
            value / 16
        } else {
            value % 16
        };
        assert(0 <= digit < 16);
        assert(text[i] == hex_digits()[digit]);
    }
}

/// The text form of a network hardware address with every byte zero.
pub open spec fn unspecified_mac() -> Seq<char> {
    "00:00:00:00:00:00"@
}

/// The views of a list of strings.
pub open spec fn string_views(strings: Seq<String>) -> Seq<Seq<char>> {
    Seq::new(strings.len(), |i: int| strings[i]@)
}

/// The first address of a list that is not the all-zero address; empty where
/// there is none.
pub open spec fn first_specified_mac(macs: Seq<Seq<char>>) -> Seq<char>
    decreases macs.len(),
{
    if macs.len() == 0 {
        Seq::empty()
    } else if macs[0] != unspecified_mac() {
        macs[0]
    } else {
        first_specified_mac(macs.drop_first())
    }
}

/// The text that identifies a device: the model of its first CPU, its host
/// name, and its first network hardware address that is not all zero, one
/// behind the other; an attribute that is missing adds nothing.
pub open spec fn device_attributes(
    cpu_brands: Seq<Seq<char>>,
    host_name: Option<Seq<char>>,
    macs: Seq<Seq<char>>,
) -> Seq<char> {
    (if cpu_brands.len() > 0 {
        cpu_brands[0]
    } else {
        Seq::empty()
    }) + (match host_name {
        Some(name) => name,
        None => Seq::empty(),
    }) + first_specified_mac(macs)
}

/// The key string that stands for a device's identifying text: the SHA-256
/// digest, in lowercase hex, of its UTF-8 bytes, or of the word `fallback`
/// where the text is empty.
pub open spec fn fingerprint_of(attributes: Seq<char>) -> Seq<char> {
    hex_lower(
        sha256(
            encode_utf8(
                if attributes.len() == 0 {
                    "fallback"@
                } else {
                    attributes
                },
            ),
        ),
    )
}

/// The first specified address of a list is one of its addresses that is not
/// all zero, or empty where every address is all zero.
pub proof fn lemma_first_specified_mac(macs: Seq<Seq<char>>)
    ensures
        ({
            let found = first_specified_mac(macs);
            if forall|i: int| 0 <= i < macs.len() ==> #[trigger] macs[i] == unspecified_mac() {
                found == Seq::<char>::empty()
            } else {
                found != unspecified_mac() && macs.contains(found)
            }
        }),
    decreases macs.len(),
{
    if macs.len() == 0 {
    } else if macs[0] != unspecified_mac() {
    } else {
        let rest = macs.drop_first();
        lemma_first_specified_mac(rest);
        if forall|i: int| 0 <= i < rest.len() ==> #[trigger] rest[i] == unspecified_mac() {
            assert forall|i: int| 0 <= i < macs.len() implies #[trigger] macs[i]
                == unspecified_mac() by {
                if i > 0 {
                    assert(rest[i - 1] == macs[i]);
                }
            }
        } else {
            let i = choose|i: int| 0 <= i < rest.len() && #[trigger] rest[i] != unspecified_mac();
            assert(macs[i + 1] == rest[i]);
            let found = first_specified_mac(rest);
            let at = choose|at: int| 0 <= at < rest.len() && rest[at] == found;
            assert(macs[at + 1] == found);
        }
    }
}

/// On a device with at most one network hardware address that is not all
/// zero, the key string does not depend on the order in which the addresses
/// are met, nor on how often.
pub proof fn lemma_fingerprint_ignores_walk_order(
    cpu_brands: Seq<Seq<char>>,
    host_name: Option<Seq<char>>,
    first_walk: Seq<Seq<char>>,
    second_walk: Seq<Seq<char>>,
)
    requires
        forall|mac: Seq<char>| first_walk.contains(mac) <==> second_walk.contains(mac),
        forall|i: int, j: int|
            0 <= i < first_walk.len() && 0 <= j < first_walk.len() && #[trigger] first_walk[i]
                != unspecified_mac() && #[trigger] first_walk[j] != unspecified_mac()
                ==> first_walk[i] == first_walk[j],
    ensures
        fingerprint_of(device_attributes(cpu_brands, host_name, first_walk)) == fingerprint_of(
            device_attributes(cpu_brands, host_name, second_walk),
        ),
{
    lemma_first_specified_mac(first_walk);
    lemma_first_specified_mac(second_walk);
    let one = first_specified_mac(first_walk);
    let other = first_specified_mac(second_walk);
    if forall|i: int| 0 <= i < first_walk.len() ==> #[trigger] first_walk[i] == unspecified_mac() {
        if !(forall|i: int|
            0 <= i < second_walk.len() ==> #[trigger] second_walk[i] == unspecified_mac()) {
            assert(second_walk.contains(other));
            assert(first_walk.contains(other));
        }
    } else {
        assert(first_walk.contains(one));
        assert(second_walk.contains(one));
        let at = choose|at: int| 0 <= at < second_walk.len() && second_walk[at] == one;
        assert(second_walk[at] != unspecified_mac());
        assert(second_walk.contains(other));
        assert(first_walk.contains(other));
    }
    assert(one == other);
}

/// The key string that stands for a run of random bytes: their SHA-256
/// digest in lowercase hex.
pub open spec fn random_key_of(seed: Seq<u8>) -> Seq<char> {
    hex_lower(sha256(seed))
}

/// Calls `hex::encode`. The contract states what its documentation says: two
/// lowercase hex digits for each byte.
#[verifier::external_body]
fn hex_encode(bytes: &[u8]) -> (text: String)
    ensures
        text@ == hex_lower(bytes@),
{
    hex::encode(bytes)
}

/// Calls `Rng::random` of the rand crate on the thread's generator. Nothing
/// is claimed of the byte.
#[verifier::external_body]
fn random_byte() -> u8 {
    rand::rng().random()
}

/// Calls `System::new_all` of the sysinfo crate.
#[verifier::external_body]
fn system_new_all() -> System {
    System::new_all()
}

/// Calls `System::refresh_all` of the sysinfo crate.
#[verifier::external_body]
fn system_refresh_all(system: &mut System) {
    system.refresh_all()
}

/// Calls `System::cpus` of the sysinfo crate and hands out each CPU's
/// `brand`, in the order of the list. Nothing is claimed of them.
#[verifier::external_body]
fn system_cpu_brands(system: &System) -> Vec<String> {
    system.cpus().iter().map(|cpu| cpu.brand().to_string()).collect()
}

/// Calls `System::host_name` of the sysinfo crate.
#[verifier::external_body]
fn system_host_name() -> Option<String> {
    System::host_name()
}

/// Calls `Networks::new_with_refreshed_list` of the sysinfo crate.
#[verifier::external_body]
fn networks_new_with_refreshed_list() -> Networks {
    Networks::new_with_refreshed_list()
}

/// Walks the interfaces with `Networks::iter` of the sysinfo crate and hands
/// out the text form of each one's `mac_address`, in the order of the walk.
/// Nothing is claimed of them, nor of their order.
#[verifier::external_body]
fn networks_mac_addresses(networks: &Networks) -> Vec<String> {
    networks.iter().map(|(_name, net)| net.mac_address().to_string()).collect()
}

/// Picks the first address that is not the all-zero address.
fn first_specified<'a>(macs: &'a Vec<String>) -> (found: Option<&'a String>)
    ensures
        match found {
            Some(mac) => mac@ == first_specified_mac(string_views(macs@)) && mac@
                != unspecified_mac(),
            None => first_specified_mac(string_views(macs@)) == Seq::<char>::empty(),
        },
{
    let zero = String::from_str("00:00:00:00:00:00");
    let mut index: usize = 0;
    assert(string_views(macs@).skip(0) =~= string_views(macs@));
    while index < macs.len()
        invariant
            index <= macs.len(),
            zero@ == unspecified_mac(),
            first_specified_mac(string_views(macs@)) == first_specified_mac(
                string_views(macs@).skip(index as int),
            ),
        decreases macs.len() - index,
    {
        let ghost rest = string_views(macs@).skip(index as int);
        assert(rest[0] == macs@[index as int]@);
        assert(rest.drop_first() =~= string_views(macs@).skip(index + 1));
        if macs[index] != zero {
            return Some(&macs[index]);
        }
        index += 1;
    }
    None
}

/// Derives the key string of a device from its attributes as they were read:
/// the CPUs' models in their order, the host name if there is one, and the
/// network hardware addresses in the order in which they were met.
pub fn fingerprint_from_attributes(
    cpu_brands: &Vec<String>,
    host_name: &Option<String>,
    macs: &Vec<String>,
) -> (fingerprint: String)
    ensures
        fingerprint@ == fingerprint_of(
            device_attributes(
                string_views(cpu_brands@),
                match host_name {
                    Some(name) => Some(name@),
                    None => None,
                },
                string_views(macs@),
            ),
        ),
        digest_text(fingerprint@),
{
    let mut raw_data = String::new();
    if cpu_brands.len() > 0 {
        raw_data.append(cpu_brands[0].as_str());
    }
    if let Some(name) = host_name {
        raw_data.append(name.as_str());
    }
    if let Some(mac) = first_specified(macs) {
        raw_data.append(mac.as_str());
    }
    proof {
        assert(raw_data@ =~= device_attributes(
            string_views(cpu_brands@),
            match host_name {
                Some(name) => Some(name@),
                None => None,
            },
            string_views(macs@),
        ));
    }
    if raw_data.as_str().is_empty() {
        raw_data = String::from_str("fallback");
    }
    let hash = sha256_digest(raw_data.as_str().as_bytes());
    proof {
        lemma_hex_lower_is_digest_text(hash@);
    }
    hex_encode(hash.as_slice())
}

/// The key string of this device: `fingerprint_from_attributes` of what the
/// system reports. It is 64 digits of lowercase hexadecimal whatever that
/// is.
pub fn generate_fingerprint() -> (fingerprint: String)
    ensures
        exists|cpu_brands: Seq<Seq<char>>, host_name: Option<Seq<char>>, macs: Seq<Seq<char>>|
            fingerprint@ == fingerprint_of(
                #[trigger] device_attributes(cpu_brands, host_name, macs),
            ),
        exists|attributes: Seq<char>| fingerprint@ == #[trigger] fingerprint_of(attributes),
        digest_text(fingerprint@),
{
    let mut system = system_new_all();
    system_refresh_all(&mut system);
    let cpu_brands = system_cpu_brands(&system);
    let host_name = system_host_name();
    let networks = networks_new_with_refreshed_list();
    let macs = networks_mac_addresses(&networks);
    fingerprint_from_attributes(&cpu_brands, &host_name, &macs)
}

/// The key string made of a run of random bytes.
pub fn key_from_seed(seed: &[u8]) -> (key: String)
    ensures
        key@ == random_key_of(seed@),
        digest_text(key@),
{
    let hash = sha256_digest(seed);
    proof {
        lemma_hex_lower_is_digest_text(hash@);
    }
    hex_encode(hash.as_slice())
}

/// A fresh key string that owes nothing to the device: the digest of 128
/// random bytes. It is 64 digits of lowercase hexadecimal whatever was drawn.
pub fn generate_random_key() -> (key: String)
    ensures
        exists|seed: Seq<u8>|
            seed.len() == RANDOM_SEED_LEN && key@ == #[trigger] random_key_of(seed),
        digest_text(key@),
{
    let mut random_bytes: Vec<u8> = Vec::new();
    while random_bytes.len() < RANDOM_SEED_LEN
        invariant
            random_bytes.len() <= RANDOM_SEED_LEN,
        decreases RANDOM_SEED_LEN - random_bytes.len(),
    {
        random_bytes.push(random_byte());
    }
    key_from_seed(random_bytes.as_slice())
}

} // verus!
