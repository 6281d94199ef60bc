//! Authenticated encryption of a payload under a key derived from a key
//! string: SHA-256 for the key, AES-256-GCM for the payload.

use aes_gcm::aead::generic_array::GenericArray;
use aes_gcm::aead::Aead;
use aes_gcm::{Aes256Gcm, KeyInit};
use rand::Rng;
use sha2::{Digest, Sha256};
use vstd::prelude::*;
use vstd::slice::{slice_subrange, slice_to_vec};
use vstd::utf8::encode_utf8;

verus! {

/// Length of the nonce that precedes the ciphertext, in bytes.
pub const NONCE_LEN: usize = 12;

/// Length of the integrity tag that ends the ciphertext, in bytes.
pub const TAG_LEN: usize = 16;

/// Length of a SHA-256 digest, and of the cipher's key, in bytes.
pub const KEY_LEN: usize = 32;

/// The longest plaintext that the cipher accepts, in bytes.
pub const MAX_PLAINTEXT_LEN: u64 = 0x10_0000_0000;

/// The SHA-256 digest of a message.
pub uninterp spec fn sha256(message: Seq<u8>) -> Seq<u8>;

/// The AES-256-GCM ciphertext, tag included, of a plaintext under a key and a
/// nonce, with no associated data.
pub uninterp spec fn aes256_gcm_seal(key: Seq<u8>, nonce: Seq<u8>, plaintext: Seq<u8>) -> Seq<u8>;

/// The plaintext that AES-256-GCM recovers from a ciphertext with its tag
/// under a key and a nonce, with no associated data; `None` where the tag
/// does not verify.
pub uninterp spec fn aes256_gcm_open(key: Seq<u8>, nonce: Seq<u8>, sealed: Seq<u8>) -> Option<
    Seq<u8>,
>;

/// Calls `Sha256::digest` of the sha2 crate. The contract names the digest
/// and states its length, which the digest's type fixes at 32 bytes.
#[verifier::external_body]
pub(crate) fn sha256_digest(message: &[u8]) -> (digest: Vec<u8>)
    ensures
        digest@ == sha256(message@),
        digest@.len() == KEY_LEN,
{
    Sha256::digest(message).to_vec()
}

/// Calls `Rng::fill` of the rand crate on the thread's generator. Nothing is
/// claimed of the bytes.
#[verifier::external_body]
fn random_nonce() -> (nonce: [u8; 12]) {
    let mut nonce = [0u8; 12];
    rand::rng().fill(&mut nonce);
    nonce
}

/// Calls `Aead::encrypt` of the aes-gcm crate on the cipher that
/// `KeyInit::new` makes of the key. The contract names the result. It states
/// what the crate's source shows: the call fails exactly on a plaintext
/// longer than `P_MAX`, the result is the plaintext's length plus a 16-byte
/// tag, and decryption under the same key and nonce gives the plaintext back.
#[verifier::external_body]
fn aead_seal(key: &[u8], nonce: &[u8], plaintext: &[u8]) -> (sealed: Option<Vec<u8>>)
    requires
        key@.len() == KEY_LEN,
        nonce@.len() == NONCE_LEN,
    ensures
        sealed is Some <==> plaintext@.len() <= MAX_PLAINTEXT_LEN,
        sealed matches Some(bytes) ==> {
            &&& bytes@ == aes256_gcm_seal(key@, nonce@, plaintext@)
            &&& bytes@.len() == plaintext@.len() + TAG_LEN
            &&& aes256_gcm_open(key@, nonce@, bytes@) == Some(plaintext@)
        },
{
    let cipher = Aes256Gcm::new(GenericArray::from_slice(key));
    cipher.encrypt(GenericArray::from_slice(nonce), plaintext).ok()
}

/// Calls `Aead::decrypt` of the aes-gcm crate on the cipher that
/// `KeyInit::new` makes of the key. The contract names the result, and states
/// what the crate's source shows: input shorter than the tag is refused, and
/// a plaintext is the input's length less the 16-byte tag.
#[verifier::external_body]
fn aead_open(key: &[u8], nonce: &[u8], sealed: &[u8]) -> (plaintext: Option<Vec<u8>>)
    requires
        key@.len() == KEY_LEN,
        nonce@.len() == NONCE_LEN,
    ensures
        match plaintext {
            Some(bytes) => {
                &&& aes256_gcm_open(key@, nonce@, sealed@) == Some(bytes@)
                &&& bytes@.len() + TAG_LEN == sealed@.len()
            },
            None => aes256_gcm_open(key@, nonce@, sealed@) is None,
        },
        sealed@.len() < TAG_LEN ==> plaintext is None,
{
    let cipher = Aes256Gcm::new(GenericArray::from_slice(key));
    cipher.decrypt(GenericArray::from_slice(nonce), sealed).ok()
}

/// The cipher key that stands for a key string: the SHA-256 digest of its
/// UTF-8 bytes.
pub open spec fn cipher_key(key_material: Seq<char>) -> Seq<u8> {
    sha256(encode_utf8(key_material))
}

/// An encrypted payload: the nonce, then the ciphertext with its tag.
pub open spec fn encrypted_payload(
    key_material: Seq<char>,
    nonce: Seq<u8>,
    plaintext: Seq<u8>,
) -> Seq<u8> {
    nonce + aes256_gcm_seal(cipher_key(key_material), nonce, plaintext)
}

/// What decryption of an encrypted payload under a key string gives: nothing
/// for input shorter than a nonce, else what the cipher recovers from the
/// bytes behind the nonce.
pub open spec fn decrypted_payload(key_material: Seq<char>, encrypted: Seq<u8>) -> Option<Seq<u8>> {
    if encrypted.len() < NONCE_LEN {
        None
    } else {
        aes256_gcm_open(
            cipher_key(key_material),
            encrypted.subrange(0, NONCE_LEN as int),
            encrypted.subrange(NONCE_LEN as int, encrypted.len() as int),
        )
    }
}

/// Puts a nonce in front of the ciphertext that belongs to it.
fn prepend_nonce(nonce: &[u8], sealed: &[u8]) -> (output: Vec<u8>)
    ensures
        output@ == nonce@ + sealed@,
{
    let mut output = slice_to_vec(nonce);
    output.extend_from_slice(sealed);
    assert(output@ =~= nonce@ + sealed@);
    output
}

/// Encrypts `data` under the key string `fingerprint` with a fresh random
/// nonce. The result is the nonce followed by the ciphertext and its tag; it
/// decrypts under the same key string to `data`. Fails only on data longer
/// than the cipher accepts.
pub fn encrypt_binary(fingerprint: &str, data: &[u8]) -> (encrypted: Option<Vec<u8>>)
    ensures
        encrypted is Some <==> data@.len() <= MAX_PLAINTEXT_LEN,
        encrypted matches Some(bytes) ==> {
            &&& exists|nonce: Seq<u8>|
                nonce.len() == NONCE_LEN && bytes@ == #[trigger] encrypted_payload(
                    fingerprint@,
                    nonce,
                    data@,
                )
            &&& bytes@.len() == NONCE_LEN + data@.len() + TAG_LEN
            &&& decrypted_payload(fingerprint@, bytes@) == Some(data@)
        },
{
    let key_bytes = sha256_digest(fingerprint.as_bytes());
    let nonce_bytes = random_nonce();
    match aead_seal(key_bytes.as_slice(), nonce_bytes.as_slice(), data) {
        Some(ciphertext) => {
            let output = prepend_nonce(nonce_bytes.as_slice(), ciphertext.as_slice());
            proof {
                assert(output@.subrange(0, NONCE_LEN as int) =~= nonce_bytes@);
                assert(output@.subrange(NONCE_LEN as int, output@.len() as int) =~= ciphertext@);
                assert(output@ == encrypted_payload(fingerprint@, nonce_bytes@, data@));
            }
            Some(output)
        },
        None => None,
    }
}

/// Decrypts what `encrypt_binary` produced under the key string
/// `fingerprint`. Fails on input shorter than a nonce and where the integrity
/// tag does not verify; gives no partial output.
pub fn decrypt_binary(fingerprint: &str, encrypted: &[u8]) -> (decrypted: Option<Vec<u8>>)
    ensures
        match decrypted {
            Some(bytes) => decrypted_payload(fingerprint@, encrypted@) == Some(bytes@),
            None => decrypted_payload(fingerprint@, encrypted@) is None,
        },
        encrypted@.len() < NONCE_LEN + TAG_LEN ==> decrypted is None,
{
    if encrypted.len() < NONCE_LEN {
        return None;
    }
    let nonce = slice_subrange(encrypted, 0, NONCE_LEN);
    let ciphertext = slice_subrange(encrypted, NONCE_LEN, encrypted.len());
    let key_bytes = sha256_digest(fingerprint.as_bytes());
    aead_open(key_bytes.as_slice(), nonce, ciphertext)
}

} // verus!
