//! The build side: from a carrier base, a program and a key source to a
//! protected image.

use crate::crypto::{
    decrypted_payload, encrypt_binary, encrypted_payload, MAX_PLAINTEXT_LEN, NONCE_LEN, TAG_LEN,
};
use crate::embed::{
    embed_multiple_into_stub, embedded, find_marker, first_occurrence, lemma_first_occurrence,
    lemma_frames_push, mark_end, mark_start, segment_views,
};
use crate::fingerprint::{
    digest_text, fingerprint_of, generate_fingerprint, generate_random_key, lower_hex_digit,
    random_key_of, FINGERPRINT_LEN, RANDOM_SEED_LEN,
};
use crate::text::str_from_utf8;
use vstd::prelude::*;
use vstd::slice::{slice_subrange, slice_to_vec};
use vstd::string::StringExecFns;
use vstd::utf8::{
    decode_utf8, encode_utf8, is_ascii_chars, is_ascii_chars_encode_utf8, valid_utf8,
};

verus! {

/// Where the build takes the carrier base for Linux from.
pub const LINUX_STUB_PATH: &'static str = "/home/ahmed/Projects/collage/sbb/target/release/stub";

/// Where the build takes the carrier base for Windows from.
pub const WINDOWS_STUB_PATH: &'static str =
    "/home/ahmed/Projects/collage/sbb/target/x86_64-pc-windows-gnu/release/stub.exe";

/// What the command line of the builder says.
#[derive(Debug, Clone, PartialEq, Eq)]
pub struct Args {
    /// Path of the program to protect.
    pub input: String,
    /// Path of the key file, if one was given.
    pub key: Option<String>,
    /// Encrypt under the key of the key file.
    pub encrypt: bool,
    /// Build for Windows.
    pub windows: bool,
    /// Build for Linux.
    pub linux: bool,
}

/// The path of the carrier base for the platform that was asked for: the
/// Windows base where Windows was asked for, the Linux base otherwise.
pub fn get_stub_path(args: &Args) -> (path: String)
    ensures
        path@ == (if args.windows {
            WINDOWS_STUB_PATH@
        } else {
            LINUX_STUB_PATH@
        }),
{
    if args.windows {
        String::from_str(WINDOWS_STUB_PATH)
    } else {
        String::from_str(LINUX_STUB_PATH)
    }
}

/// Why a build ended without a protected image.
#[derive(Debug, Clone, Copy, PartialEq, Eq, Structural)]
pub enum BuildError {
    /// Encryption under a key file was asked for and no key file was named.
    KeyFileRequired,
    /// The key file holds nothing.
    KeyFileEmpty,
    /// The key file holds more than one line.
    KeyFileMultipleLines,
    /// The key file's line is not valid UTF-8.
    KeyFileNotText,
    /// The cipher refused the program.
    EncryptionFailed,
}

/// What the builder says of an error.
pub open spec fn build_error_text(error: BuildError) -> Seq<char> {
    match error {
        BuildError::KeyFileRequired => "Key file required when --encrypt is used"@,
        BuildError::KeyFileEmpty => "Key file is empty"@,
        BuildError::KeyFileMultipleLines => "Key file should contain only one line"@,
        BuildError::KeyFileNotText => "Key file is not valid UTF-8"@,
        BuildError::EncryptionFailed => "Encryption failed"@,
    }
}

impl BuildError {
    /// The description of this error.
    pub fn message(&self) -> (text: String)
        ensures
            text@ == build_error_text(*self),
    {
        match self {
            BuildError::KeyFileRequired => String::from_str(
                "Key file required when --encrypt is used",
            ),
            BuildError::KeyFileEmpty => String::from_str("Key file is empty"),
            BuildError::KeyFileMultipleLines => String::from_str(
                "Key file should contain only one line",
            ),
            BuildError::KeyFileNotText => String::from_str("Key file is not valid UTF-8"),
            BuildError::EncryptionFailed => String::from_str("Encryption failed"),
        }
    }
}

/// Where the key of a build comes from.
#[derive(Debug, Clone, PartialEq, Eq)]
pub enum KeySource {
    /// The key string of the device that builds; the image ships no key and
    /// runs only where the same key is derived again.
    DeriveDevice,
    /// A fresh random key string, which the image ships.
    Random,
    /// A key string from outside, which the image ships.
    External(String),
}

/// The view of a `KeySource`.
pub enum KeySourceView {
    DeriveDevice,
    Random,
    External(Seq<char>),
}

impl View for KeySource {
    type V = KeySourceView;

    open spec fn view(&self) -> KeySourceView {
        match self {
            KeySource::DeriveDevice => KeySourceView::DeriveDevice,
            KeySource::Random => KeySourceView::Random,
            KeySource::External(key) => KeySourceView::External(key@),
        }
    }
}

/// The path of the key file that the command line asks to read: none where
/// no encryption under a key file was asked for, an error where it was and no
/// key file was named.
pub fn key_file_path(args: &Args) -> (path: Result<Option<String>, BuildError>)
    ensures
        match path {
            Ok(Some(name)) => args.encrypt && args.key == Some(name),
            Ok(None) => !args.encrypt,
            Err(error) => args.encrypt && args.key.is_none() && error
                == BuildError::KeyFileRequired,
        },
{
    if args.encrypt {
        match &args.key {
            Some(given) => Ok(Some(given.clone())),
            None => Err(BuildError::KeyFileRequired),
        }
    } else {
        Ok(None)
    }
}

/// The path under which the protected image of a program is written: the
/// program's path with `.secured` behind it.
pub fn output_path(input: &str) -> (path: String)
    ensures
        path@ == input@ + ".secured"@,
{
    String::from_str(input).concat(".secured")
}

/// The line feed that ends a line.
pub open spec fn line_feed() -> Seq<u8> {
    seq![10u8]
}

/// The first line of a file, without what ends it: the bytes before the first
/// line feed, less a carriage return right before it; the whole file where it
/// holds no line feed.
pub open spec fn first_line(contents: Seq<u8>) -> Seq<u8> {
    match first_occurrence(contents, line_feed(), 0) {
        Some(end) => if end > 0 && contents[end - 1] == 13 {
            contents.subrange(0, end - 1)
        } else {
            contents.subrange(0, end)
        },
        None => contents,
    }
}

/// Whether anything stands behind the first line of a file.
pub open spec fn has_second_line(contents: Seq<u8>) -> bool {
    match first_occurrence(contents, line_feed(), 0) {
        Some(end) => end + 1 < contents.len(),
        None => false,
    }
}

/// What a key file holds: the text of its one line. An empty file, a line
/// that is not valid UTF-8, and anything behind the first line are errors, in
/// that order.
pub open spec fn parsed_key_file(contents: Seq<u8>) -> Result<Seq<char>, BuildError> {
    if contents.len() == 0 {
        Err(BuildError::KeyFileEmpty)
    } else if !valid_utf8(first_line(contents)) {
        Err(BuildError::KeyFileNotText)
    } else if has_second_line(contents) {
        Err(BuildError::KeyFileMultipleLines)
    } else {
        Ok(decode_utf8(first_line(contents)))
    }
}

/// Reads the key string out of the contents of a key file.
pub fn parse_key_file(contents: &[u8]) -> (key: Result<String, BuildError>)
    ensures
        match key {
            Ok(text) => parsed_key_file(contents@) == Ok::<Seq<char>, BuildError>(text@),
            Err(error) => parsed_key_file(contents@) == Err::<Seq<char>, BuildError>(error),
        },
{
    if contents.len() == 0 {
        return Err(BuildError::KeyFileEmpty);
    }
    let newline: [u8; 1] = [10];
    proof {
        assert(newline@ =~= line_feed());
        lemma_first_occurrence(contents@, line_feed(), 0);
    }
    let (line, more) = match find_marker(contents, newline.as_slice(), 0) {
        Some(end) => {
            let stop: usize = if end > 0 && contents[end - 1] == 13 {
                end - 1
            } else {
                end
            };
            (slice_subrange(contents, 0, stop), end + 1 < contents.len())
        },
        None => {
            assert(contents@.subrange(0, contents@.len() as int) =~= contents@);
            (slice_subrange(contents, 0, contents.len()), false)
        },
    };
    match str_from_utf8(line) {
        Some(text) => {
            if more {
                Err(BuildError::KeyFileMultipleLines)
            } else {
                Ok(String::from_str(text))
            }
        },
        None => Err(BuildError::KeyFileNotText),
    }
}

/// The key string that an image ships with: none where the key is the
/// device's, which the launcher derives again.
pub open spec fn shipped_key(source: KeySourceView, key: Seq<char>) -> Option<Seq<char>> {
    match source {
        KeySourceView::DeriveDevice => None,
        _ => Some(key),
    }
}

/// The segments of a protected image: the encrypted payload, with the key
/// string's UTF-8 bytes before it where the image ships its key.
pub open spec fn image_segments(shipped: Option<Seq<char>>, encrypted: Seq<u8>) -> Seq<Seq<u8>> {
    match shipped {
        Some(key) => seq![encode_utf8(key), encrypted],
        None => seq![encrypted],
    }
}

/// A protected image: the carrier base with the image's segments embedded.
pub open spec fn protected_image(
    carrier_base: Seq<u8>,
    shipped: Option<Seq<char>>,
    encrypted: Seq<u8>,
) -> Seq<u8> {
    embedded(carrier_base, image_segments(shipped, encrypted))
}

/// The bytes that the two markers add to each segment.
pub open spec fn frame_overhead() -> nat {
    mark_start().len() + mark_end().len()
}

/// The length of a protected image.
pub open spec fn protected_image_len(
    carrier_base: Seq<u8>,
    shipped: Option<Seq<char>>,
    encrypted: Seq<u8>,
) -> nat {
    carrier_base.len() + (match shipped {
        Some(key) => frame_overhead() + encode_utf8(key).len(),
        None => 0,
    }) + frame_overhead() + encrypted.len()
}

/// A protected image is as long as its parts: the base, and for each segment
/// the two markers and the segment.
pub proof fn lemma_protected_image_len(
    carrier_base: Seq<u8>,
    shipped: Option<Seq<char>>,
    encrypted: Seq<u8>,
)
    ensures
        protected_image(carrier_base, shipped, encrypted).len() == protected_image_len(
            carrier_base,
            shipped,
            encrypted,
        ),
{
    let none = Seq::<Seq<u8>>::empty();
    match shipped {
        Some(key) => {
            lemma_frames_push(none, encode_utf8(key));
            lemma_frames_push(none.push(encode_utf8(key)), encrypted);
            assert(none.push(encode_utf8(key)).push(encrypted) =~= image_segments(
                shipped,
                encrypted,
            ));
        },
        None => {
            lemma_frames_push(none, encrypted);
            assert(none.push(encrypted) =~= image_segments(shipped, encrypted));
        },
    }
}

/// Whether a key string can be what a key source gave: for the device's key
/// and for a random key, a digest in lowercase hex; else the key string that
/// was handed in.
pub open spec fn key_from_source(source: KeySourceView, key: Seq<char>) -> bool {
    match source {
        KeySourceView::DeriveDevice => digest_text(key) && exists|attributes: Seq<char>|
            key == #[trigger] fingerprint_of(attributes),
        KeySourceView::Random => digest_text(key) && exists|seed: Seq<u8>|
            seed.len() == RANDOM_SEED_LEN && key == #[trigger] random_key_of(seed),
        KeySourceView::External(given) => key == given,
    }
}

/// The length of what a build from a key source adds for the key: nothing
/// for the device's key, a framed key string otherwise.
pub open spec fn shipped_key_len(source: KeySourceView) -> nat {
    match source {
        KeySourceView::DeriveDevice => 0,
        KeySourceView::Random => frame_overhead() + FINGERPRINT_LEN as nat,
        KeySourceView::External(key) => frame_overhead() + encode_utf8(key).len(),
    }
}

/// The length of the protected image of a program: the base, the framed key
/// string if one is shipped, and the framed payload, which is the nonce, the
/// program and the tag.
pub open spec fn secured_len(carrier_base: nat, source: KeySourceView, plaintext: nat) -> nat {
    carrier_base + shipped_key_len(source) + frame_overhead() + NONCE_LEN as nat + plaintext
        + TAG_LEN as nat
}

/// A digest in lowercase hex is as many bytes as characters.
pub proof fn lemma_digest_text_bytes(text: Seq<char>)
    requires
        digest_text(text),
    ensures
        encode_utf8(text).len() == FINGERPRINT_LEN,
{
    assert(is_ascii_chars(text)) by {
        assert forall|i: int| 0 <= i < text.len() implies '\0' <= #[trigger] text[i]
            <= '\u{7f}' by {
            assert(lower_hex_digit(text[i]));
        }
    }
    is_ascii_chars_encode_utf8(text);
}

/// Gives the key string of a key source: the device's, a fresh random one, or
/// the one that was handed in.
pub fn resolve_key(source: &KeySource) -> (key: String)
    ensures
        key_from_source(source@, key@),
{
    match source {
        KeySource::DeriveDevice => generate_fingerprint(),
        KeySource::Random => generate_random_key(),
        KeySource::External(given) => given.clone(),
    }
}

/// Puts a protected image together: the carrier base, then the key string if
/// the image ships one, then the encrypted payload, each between the two
/// markers.
pub fn assemble_image(carrier_base: &[u8], shipped: Option<&str>, encrypted: Vec<u8>) -> (image:
    Vec<u8>)
    ensures
        image@ == protected_image(
            carrier_base@,
            match shipped {
                Some(key) => Some(key@),
                None => None,
            },
            encrypted@,
        ),
        image@.len() == protected_image_len(
            carrier_base@,
            match shipped {
                Some(key) => Some(key@),
                None => None,
            },
            encrypted@,
        ),
{
    let ghost key_view = match shipped {
        Some(key) => Some(key@),
        None => None,
    };
    let ghost payload = encrypted@;
    let mut payloads: Vec<Vec<u8>> = Vec::new();
    if let Some(key) = shipped {
        payloads.push(slice_to_vec(key.as_bytes()));
    }
    payloads.push(encrypted);
    proof {
        assert(segment_views(payloads@) =~= image_segments(key_view, payload));
        lemma_protected_image_len(carrier_base@, key_view, payload);
    }
    embed_multiple_into_stub(payloads.as_slice(), carrier_base)
}

/// Builds the protected image of a program: resolves the key string,
/// encrypts the program under it, and embeds the result in the carrier base,
/// behind the key string unless the key is the device's. Fails only where
/// the cipher refuses the program for its length.
pub fn secure_binary(carrier_base: &[u8], plaintext: &[u8], key_source: &KeySource) -> (image:
    Result<Vec<u8>, BuildError>)
    ensures
        image is Ok <==> plaintext@.len() <= MAX_PLAINTEXT_LEN,
        image matches Err(error) ==> error == BuildError::EncryptionFailed,
        image matches Ok(bytes) ==> bytes@.len() == secured_len(
            carrier_base@.len(),
            key_source@,
            plaintext@.len(),
        ),
        image matches Ok(bytes) ==> exists|key: Seq<char>, nonce: Seq<u8>|
            {
                let encrypted = #[trigger] encrypted_payload(key, nonce, plaintext@);
                let shipped = shipped_key(key_source@, key);
                &&& key_from_source(key_source@, key)
                &&& nonce.len() == NONCE_LEN
                &&& encrypted.len() == NONCE_LEN + plaintext@.len() + TAG_LEN
                &&& decrypted_payload(key, encrypted) == Some(plaintext@)
                &&& bytes@ == protected_image(carrier_base@, shipped, encrypted)
            },
{
    let key = resolve_key(key_source);
    proof {
        if !(key_source@ is External) {
            lemma_digest_text_bytes(key@);
        }
    }
    let encrypted = match encrypt_binary(key.as_str(), plaintext) {
        Some(encrypted) => encrypted,
        None => {
            return Err(BuildError::EncryptionFailed);
        },
    };
    let image = match key_source {
        KeySource::DeriveDevice => assemble_image(carrier_base, None, encrypted),
        _ => assemble_image(carrier_base, Some(key.as_str()), encrypted),
    };
    Ok(image)
}

} // verus!
