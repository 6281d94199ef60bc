//! What the launcher recovers from what the builder made.

use crate::builder::protected_image;
use crate::crypto::decrypted_payload;
use crate::embed::{carrier_segments, embedded, lemma_occurs_at_byte, mark_end, occurs_at};
use crate::fingerprint::digest_text;
use crate::launcher::{
    classified, hex_digit, hex_key, judged_candidate, looks_like_key, opened, unpacked,
    ClassifiedView, KeyChoiceView, LaunchError, MAX_KEY_BYTES, MIN_KEY_BYTES,
};
use crate::roundtrip::{clean_base, delimitable, lemma_extract_embedded};
use vstd::prelude::*;
use vstd::utf8::{
    encode_utf8, encode_utf8_decode_utf8, encode_utf8_valid_utf8, is_ascii_chars,
    is_ascii_chars_encode_utf8,
};

verus! {

/// A key string made here has the shape of a key string.
pub proof fn lemma_digest_text_is_hex_key(text: Seq<char>)
    requires
        digest_text(text),
    ensures
        hex_key(text),
        looks_like_key(text),
{
    assert forall|i: int| 0 <= i < text.len() implies hex_digit(#[trigger] text[i]) by {}
}

/// The UTF-8 bytes of text that has the shape of a key string, if they are
/// between 32 and 128, are taken as that key string.
pub proof fn lemma_key_text_is_accepted(text: Seq<char>)
    requires
        looks_like_key(text),
        MIN_KEY_BYTES <= encode_utf8(text).len() <= MAX_KEY_BYTES,
    ensures
        judged_candidate(encode_utf8(text)) == KeyChoiceView::Embedded(text),
{
    encode_utf8_valid_utf8(text);
    encode_utf8_decode_utf8(text);
}

/// A key string of 64 hexadecimal digits is 64 bytes that hold no piece of a
/// marker, and is taken as the key string that it is.
pub proof fn lemma_hex_key_bytes(text: Seq<char>)
    requires
        hex_key(text),
    ensures
        encode_utf8(text).len() == 64,
        delimitable(encode_utf8(text)),
        judged_candidate(encode_utf8(text)) == KeyChoiceView::Embedded(text),
{
    let bytes = encode_utf8(text);
    assert(is_ascii_chars(text)) by {
        assert forall|i: int| 0 <= i < text.len() implies '\0' <= #[trigger] text[i]
            <= '\u{7f}' by {
            assert(hex_digit(text[i]));
        }
    }
    is_ascii_chars_encode_utf8(text);
    assert forall|j: int| 0 <= j < bytes.len() implies !occurs_at(
        bytes + mark_end(),
        mark_end(),
        j,
    ) by {
        assert(hex_digit(text[j]));
        assert(bytes[j] == text[j] as u8);
        if occurs_at(bytes + mark_end(), mark_end(), j) {
            lemma_occurs_at_byte(bytes + mark_end(), mark_end(), j, 0);
        }
    }
    lemma_key_text_is_accepted(text);
}

/// A carrier with one segment gives that segment as the payload, with the
/// device's key.
pub proof fn lemma_lone_payload_roles(base: Seq<u8>, payload: Seq<u8>)
    requires
        clean_base(base),
        delimitable(payload),
    ensures
        classified(carrier_segments(embedded(base, seq![payload]))) == Some(
            ClassifiedView { key: KeyChoiceView::DeriveDevice, payload },
        ),
{
    let segments = seq![payload];
    assert(segments.len() == 1 && segments[0] == payload);
    lemma_extract_embedded(base, segments);
}

proof fn lemma_pair_delimitable(segments: Seq<Seq<u8>>, first: Seq<u8>, second: Seq<u8>)
    requires
        segments.len() == 2,
        segments[0] == first,
        segments[1] == second,
        delimitable(first),
        delimitable(second),
    ensures
        forall|i: int| 0 <= i < 2 ==> delimitable(#[trigger] segments[i]),
{
    assert forall|i: int| 0 <= i < 2 implies delimitable(#[trigger] segments[i]) by {
        if i == 0 {
            assert(segments[i] == first);
        } else {
            assert(segments[i] == second);
        }
    }
}

/// A carrier with two segments gives the second as the payload, and the key
/// as the first is judged.
pub proof fn lemma_candidate_and_payload_roles(
    base: Seq<u8>,
    candidate: Seq<u8>,
    payload: Seq<u8>,
)
    requires
        clean_base(base),
        delimitable(candidate),
        delimitable(payload),
    ensures
        classified(carrier_segments(embedded(base, seq![candidate, payload]))) == Some(
            ClassifiedView { key: judged_candidate(candidate), payload },
        ),
{
    let segments = seq![candidate, payload];
    assert(segments.len() == 2 && segments[0] == candidate && segments[1] == payload);
    lemma_pair_delimitable(segments, candidate, payload);
    lemma_extract_embedded(base, segments);
}

/// A carrier with a key string of 64 hexadecimal digits and a payload gives
/// that key string and that payload.
pub proof fn lemma_hex_key_and_payload_roles(base: Seq<u8>, key: Seq<char>, payload: Seq<u8>)
    requires
        clean_base(base),
        hex_key(key),
        delimitable(payload),
    ensures
        classified(carrier_segments(embedded(base, seq![encode_utf8(key), payload]))) == Some(
            ClassifiedView { key: KeyChoiceView::Embedded(key), payload },
        ),
{
    lemma_hex_key_bytes(key);
    lemma_candidate_and_payload_roles(base, encode_utf8(key), payload);
}

/// A key string that comes back from a carrier as it went in: it has the
/// shape of a key string, is between 32 and 128 bytes, and its bytes are
/// delimitable.
pub open spec fn shippable_key(key: Seq<char>) -> bool {
    &&& looks_like_key(key)
    &&& MIN_KEY_BYTES <= encode_utf8(key).len() <= MAX_KEY_BYTES
    &&& delimitable(encode_utf8(key))
}

/// A key string made here comes back from a carrier as it went in.
pub proof fn lemma_digest_text_is_shippable(key: Seq<char>)
    requires
        digest_text(key),
    ensures
        shippable_key(key),
{
    lemma_digest_text_is_hex_key(key);
    lemma_hex_key_bytes(key);
}

/// Unpacking undoes the build: a protected image gives the program back,
/// under the key string that it ships, if that is shippable, or else under
/// the device's key string, if that is the one it was built with.
pub proof fn lemma_unpack_protected_image(
    base: Seq<u8>,
    shipped: Option<Seq<char>>,
    key: Seq<char>,
    device_key: Seq<char>,
    encrypted: Seq<u8>,
    plaintext: Seq<u8>,
)
    requires
        clean_base(base),
        delimitable(encrypted),
        decrypted_payload(key, encrypted) == Some(plaintext),
        match shipped {
            Some(text) => text == key && shippable_key(key),
            None => device_key == key,
        },
    ensures
        unpacked(protected_image(base, shipped, encrypted), device_key) == Ok::<
            Seq<u8>,
            LaunchError,
        >(plaintext),
{
    match shipped {
        Some(text) => {
            lemma_key_text_is_accepted(key);
            lemma_candidate_and_payload_roles(base, encode_utf8(key), encrypted);
        },
        None => {
            lemma_lone_payload_roles(base, encrypted);
        },
    }
}

/// A key string that is shipped and is not shippable is lost: where its
/// bytes are delimitable and not taken as the key string, the launcher falls
/// back on the device's key string.
pub proof fn lemma_unshippable_key_falls_back(
    base: Seq<u8>,
    key: Seq<char>,
    device_key: Seq<char>,
    encrypted: Seq<u8>,
)
    requires
        clean_base(base),
        delimitable(encode_utf8(key)),
        delimitable(encrypted),
        !(looks_like_key(key) && MIN_KEY_BYTES <= encode_utf8(key).len() <= MAX_KEY_BYTES),
    ensures
        unpacked(protected_image(base, Some(key), encrypted), device_key) == opened(
            device_key,
            encrypted,
        ),
{
    encode_utf8_valid_utf8(key);
    encode_utf8_decode_utf8(key);
    lemma_candidate_and_payload_roles(base, encode_utf8(key), encrypted);
}

} // verus!
