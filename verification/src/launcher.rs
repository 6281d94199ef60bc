//! The run-time side: telling the segments of a carrier apart, choosing the
//! key, and recovering the protected program.

use crate::crypto::{decrypt_binary, decrypted_payload};
use crate::embed::{carrier_segments, extract_from_stub, segment_views};
use crate::fingerprint::{fingerprint_of, generate_fingerprint};
use crate::text::str_from_utf8;
use vstd::prelude::*;
use vstd::string::{StrSliceExecFns, StringExecFns};
use vstd::utf8::{decode_utf8, valid_utf8};

verus! {

/// Whether std's `char::is_alphanumeric` holds of a character: whether it is
/// alphabetic or numeric in Unicode.
pub uninterp spec fn unicode_alphanumeric(c: char) -> bool;

/// An ASCII letter or digit.
pub open spec fn ascii_alphanumeric(c: char) -> bool {
    ('0' <= c && c <= '9') || ('a' <= c && c <= 'z') || ('A' <= c && c <= 'Z')
}

/// A hexadecimal digit, of either case.
pub open spec fn hex_digit(c: char) -> bool {
    ('0' <= c && c <= '9') || ('a' <= c && c <= 'f') || ('A' <= c && c <= 'F')
}

/// An alphanumeric character: on ASCII a letter or a digit, beyond ASCII
/// what std's `char::is_alphanumeric` holds of.
pub open spec fn alphanumeric(c: char) -> bool {
    if c <= '\x7f' {
        ascii_alphanumeric(c)
    } else {
        unicode_alphanumeric(c)
    }
}

/// A character that a key string may hold: alphanumeric, or one of `-`, `_`
/// and `:`.
pub open spec fn key_char(c: char) -> bool {
    alphanumeric(c) || c == '-' || c == '_' || c == ':'
}

/// Calls `char::is_alphanumeric` of std. The contract names the result, and
/// states that on ASCII it holds of the letters and the digits, which are the
/// ASCII characters of the Unicode classes that the documentation names.
#[verifier::external_body]
fn char_is_alphanumeric(c: char) -> (r: bool)
    ensures
        r == unicode_alphanumeric(c),
        r == alphanumeric(c),
{
    c.is_alphanumeric()
}

/// Whether a character is a hexadecimal digit.
fn char_is_hex_digit(c: char) -> (r: bool)
    ensures
        r == hex_digit(c),
{
    ('0' <= c && c <= '9') || ('a' <= c && c <= 'f') || ('A' <= c && c <= 'F')
}

/// Text of exactly 64 hexadecimal digits.
pub open spec fn hex_key(text: Seq<char>) -> bool {
    text.len() == 64 && forall|i: int| 0 <= i < text.len() ==> hex_digit(#[trigger] text[i])
}

/// Text of 16 to 128 characters, each one alphanumeric or one of `-`, `_`
/// and `:`.
pub open spec fn plain_key(text: Seq<char>) -> bool {
    16 <= text.len() <= 128 && forall|i: int| 0 <= i < text.len() ==> key_char(#[trigger] text[i])
}

/// Text that has the shape of a key string.
pub open spec fn looks_like_key(text: Seq<char>) -> bool {
    hex_key(text) || plain_key(text)
}

/// Whether every character of a string of `len` characters is a hexadecimal
/// digit.
fn all_hex_digits(s: &str, len: usize) -> (r: bool)
    requires
        len == s@.len(),
    ensures
        r == forall|i: int| 0 <= i < s@.len() ==> hex_digit(#[trigger] s@[i]),
{
    let mut index: usize = 0;
    while index < len
        invariant
            index <= len,
            len == s@.len(),
            forall|i: int| 0 <= i < index ==> hex_digit(#[trigger] s@[i]),
        decreases len - index,
    {
        if !char_is_hex_digit(s.get_char(index)) {
            return false;
        }
        index += 1;
    }
    true
}

/// Whether every character of a string of `len` characters may stand in a
/// key string.
fn all_key_chars(s: &str, len: usize) -> (r: bool)
    requires
        len == s@.len(),
    ensures
        r == forall|i: int| 0 <= i < s@.len() ==> key_char(#[trigger] s@[i]),
{
    let mut index: usize = 0;
    while index < len
        invariant
            index <= len,
            len == s@.len(),
            forall|i: int| 0 <= i < index ==> key_char(#[trigger] s@[i]),
        decreases len - index,
    {
        let c = s.get_char(index);
        if !(char_is_alphanumeric(c) || c == '-' || c == '_' || c == ':') {
            return false;
        }
        index += 1;
    }
    true
}

/// Whether a string has the shape of a key string: exactly 64 hexadecimal
/// digits, or 16 to 128 characters that are alphanumeric or one of `-`, `_`
/// and `:`.
pub fn is_valid_fingerprint(s: &str) -> (valid: bool)
    ensures
        valid == looks_like_key(s@),
{
    let len: usize = s.unicode_len();
    if len == 64 && all_hex_digits(s, len) {
        return true;
    }
    if len >= 16 && len <= 128 && all_key_chars(s, len) {
        return true;
    }
    false
}

/// Least length, in bytes, of a segment that may be a key string.
pub const MIN_KEY_BYTES: usize = 32;

/// Greatest length, in bytes, of a segment that may be a key string.
pub const MAX_KEY_BYTES: usize = 128;

/// Why a segment that stood where a key would stand was not taken as one.
#[derive(Debug, Clone, Copy, PartialEq, Eq, Structural)]
pub enum FallbackReason {
    /// Its length is not between 32 and 128 bytes.
    Length,
    /// It is not valid UTF-8.
    NotText,
    /// Its text does not have the shape of a key string.
    Format,
}

/// Where the key of a carrier comes from.
#[derive(Debug, Clone, PartialEq, Eq)]
pub enum KeyChoice {
    /// The carrier holds the key string: its second-to-last segment.
    Embedded(String),
    /// The carrier holds the payload alone: the key is that of the device.
    DeriveDevice,
    /// The segment before the payload is no key string: the key is that of
    /// the device.
    Fallback(FallbackReason),
}

/// The view of a `KeyChoice`.
pub enum KeyChoiceView {
    Embedded(Seq<char>),
    DeriveDevice,
    Fallback(FallbackReason),
}

impl View for KeyChoice {
    type V = KeyChoiceView;

    open spec fn view(&self) -> KeyChoiceView {
        match self {
            KeyChoice::Embedded(key) => KeyChoiceView::Embedded(key@),
            KeyChoice::DeriveDevice => KeyChoiceView::DeriveDevice,
            KeyChoice::Fallback(reason) => KeyChoiceView::Fallback(*reason),
        }
    }
}

/// The segments of a carrier by their roles.
#[derive(Debug, Clone, PartialEq, Eq)]
pub struct Classified {
    /// Where the key comes from.
    pub key: KeyChoice,
    /// The encrypted payload: the last segment.
    pub payload: Vec<u8>,
}

/// The view of a `Classified`.
pub struct ClassifiedView {
    pub key: KeyChoiceView,
    pub payload: Seq<u8>,
}

impl View for Classified {
    type V = ClassifiedView;

    open spec fn view(&self) -> ClassifiedView {
        ClassifiedView { key: self.key@, payload: self.payload@ }
    }
}

/// What becomes of the segment that stands before the payload: taken as the
/// key string if its length is between 32 and 128 bytes, it is valid UTF-8,
/// and its text has the shape of a key string; else the first of these that
/// fails is the reason to fall back on the device's key.
pub open spec fn judged_candidate(candidate: Seq<u8>) -> KeyChoiceView {
    if !(MIN_KEY_BYTES <= candidate.len() <= MAX_KEY_BYTES) {
        KeyChoiceView::Fallback(FallbackReason::Length)
    } else if !valid_utf8(candidate) {
        KeyChoiceView::Fallback(FallbackReason::NotText)
    } else if !looks_like_key(decode_utf8(candidate)) {
        KeyChoiceView::Fallback(FallbackReason::Format)
    } else {
        KeyChoiceView::Embedded(decode_utf8(candidate))
    }
}

/// The roles of a carrier's segments: the last is the payload; alone, its
/// key is the device's; the one before it, if there is one, is judged as a
/// key string. No segment, no roles.
pub open spec fn classified(segments: Seq<Seq<u8>>) -> Option<ClassifiedView> {
    if segments.len() == 0 {
        None
    } else if segments.len() == 1 {
        Some(ClassifiedView { key: KeyChoiceView::DeriveDevice, payload: segments[0] })
    } else {
        Some(
            ClassifiedView {
                key: judged_candidate(segments[segments.len() - 2]),
                payload: segments[segments.len() - 1],
            },
        )
    }
}

/// Judges the segment that stands before the payload.
pub fn judge_candidate(candidate: Vec<u8>) -> (choice: KeyChoice)
    ensures
        choice@ == judged_candidate(candidate@),
{
    if candidate.len() < MIN_KEY_BYTES || candidate.len() > MAX_KEY_BYTES {
        return KeyChoice::Fallback(FallbackReason::Length);
    }
    match str_from_utf8(candidate.as_slice()) {
        Some(text) => {
            if is_valid_fingerprint(text) {
                KeyChoice::Embedded(String::from_str(text))
            } else {
                KeyChoice::Fallback(FallbackReason::Format)
            }
        },
        None => KeyChoice::Fallback(FallbackReason::NotText),
    }
}

/// Tells the segments of a carrier apart by their place, since they carry no
/// tag of their own.
pub fn classify_segments(segments: Vec<Vec<u8>>) -> (roles: Option<Classified>)
    ensures
        match roles {
            Some(found) => classified(segment_views(segments@)) == Some(found@),
            None => classified(segment_views(segments@)) is None,
        },
{
    let mut segments = segments;
    let ghost all = segments@;
    let payload = match segments.pop() {
        Some(payload) => payload,
        None => {
            return None;
        },
    };
    match segments.pop() {
        Some(candidate) => {
            assert(segment_views(all)[all.len() - 2] == candidate@);
            assert(segment_views(all)[all.len() - 1] == payload@);
            Some(Classified { key: judge_candidate(candidate), payload })
        },
        None => {
            assert(segment_views(all)[0] == payload@);
            Some(Classified { key: KeyChoice::DeriveDevice, payload })
        },
    }
}

/// Why a launch ended without the protected program running.
#[derive(Debug, Clone, Copy, PartialEq, Eq, Structural)]
pub enum LaunchError {
    /// The launcher could not read its own image.
    Io,
    /// The image holds no complete segment.
    Format,
    /// The payload did not decrypt under the chosen key: the wrong device,
    /// a changed image or a broken build.
    Crypto,
    /// The recovered program could not be started.
    Execution,
}

/// What the launcher says of an error before it exits.
pub open spec fn launch_error_text(error: LaunchError) -> Seq<char> {
    match error {
        LaunchError::Io => "Failed to read current executable"@,
        LaunchError::Format => "No embedded binary found in stub."@,
        LaunchError::Crypto => "Decryption failed. Wrong fingerprint or corrupted data."@,
        LaunchError::Execution => "Failed to run binary"@,
    }
}

/// The exit status of a launch that ended in an error. When the protected
/// program starts, the launcher is replaced by it and has no status of its
/// own.
pub const FAILURE_EXIT_CODE: i32 = 1;

impl LaunchError {
    /// The diagnostic for this error.
    pub fn message(&self) -> (text: String)
        ensures
            text@ == launch_error_text(*self),
    {
        match self {
            LaunchError::Io => String::from_str("Failed to read current executable"),
            LaunchError::Format => String::from_str("No embedded binary found in stub."),
            LaunchError::Crypto => String::from_str(
                "Decryption failed. Wrong fingerprint or corrupted data.",
            ),
            LaunchError::Execution => String::from_str("Failed to run binary"),
        }
    }
}

/// The view of what unpacking returns.
pub open spec fn outcome_view(outcome: Result<Vec<u8>, LaunchError>) -> Result<
    Seq<u8>,
    LaunchError,
> {
    match outcome {
        Ok(binary) => Ok(binary@),
        Err(error) => Err(error),
    }
}

/// The key string that a choice stands for, on a device with the key string
/// `device_key`.
pub open spec fn chosen_key(choice: KeyChoiceView, device_key: Seq<char>) -> Seq<char> {
    match choice {
        KeyChoiceView::Embedded(key) => key,
        _ => device_key,
    }
}

/// What decryption of a payload under a key string comes to.
pub open spec fn opened(key: Seq<char>, payload: Seq<u8>) -> Result<Seq<u8>, LaunchError> {
    match decrypted_payload(key, payload) {
        Some(binary) => Ok(binary),
        None => Err(LaunchError::Crypto),
    }
}

/// What unpacking an image comes to on a device with the key string
/// `device_key`: a format error where the image holds no segment; else the
/// payload, decrypted under the embedded key if one was accepted and under
/// the device's key if not, or a crypto error where that fails.
pub open spec fn unpacked(image: Seq<u8>, device_key: Seq<char>) -> Result<Seq<u8>, LaunchError> {
    match classified(carrier_segments(image)) {
        None => Err(LaunchError::Format),
        Some(roles) => opened(chosen_key(roles.key, device_key), roles.payload),
    }
}

/// Extracts the segments of an image and tells them apart. An image without
/// a complete segment is a format error.
pub fn classify_image(image: &[u8]) -> (roles: Result<Classified, LaunchError>)
    ensures
        match roles {
            Ok(found) => classified(carrier_segments(image@)) == Some(found@),
            Err(error) => error == LaunchError::Format && classified(carrier_segments(image@))
                is None,
        },
{
    match classify_segments(extract_from_stub(image)) {
        Some(found) => Ok(found),
        None => Err(LaunchError::Format),
    }
}

/// Decrypts the payload under the key string. Failure is final: it is a
/// crypto error whatever its cause.
pub fn decrypt_payload(key: &str, payload: &[u8]) -> (outcome: Result<Vec<u8>, LaunchError>)
    ensures
        outcome_view(outcome) == opened(key@, payload@),
{
    match decrypt_binary(key, payload) {
        Some(binary) => Ok(binary),
        None => Err(LaunchError::Crypto),
    }
}

/// Recovers the protected program from an image on a device whose key string
/// is given.
pub fn unpack_with_device_key(image: &[u8], device_key: &str) -> (outcome: Result<
    Vec<u8>,
    LaunchError,
>)
    ensures
        outcome_view(outcome) == unpacked(image@, device_key@),
{
    match classify_image(image) {
        Ok(roles) => match roles.key {
            KeyChoice::Embedded(key) => decrypt_payload(key.as_str(), roles.payload.as_slice()),
            _ => decrypt_payload(device_key, roles.payload.as_slice()),
        },
        Err(error) => Err(error),
    }
}

/// Gives the key string that a choice stands for: the embedded one, or this
/// device's, which is derived only now.
pub fn launch_key(choice: KeyChoice) -> (key: String)
    ensures
        exists|attributes: Seq<char>|
            key@ == chosen_key(choice@, #[trigger] fingerprint_of(attributes)),
{
    match choice {
        KeyChoice::Embedded(key) => {
            assert(key@ == chosen_key(choice@, fingerprint_of(Seq::empty())));
            key
        },
        _ => generate_fingerprint(),
    }
}

/// Recovers the protected program from an image on this device: the
/// device's key string is derived only where the image ships no key that is
/// accepted.
pub fn unpack(image: &[u8]) -> (outcome: Result<Vec<u8>, LaunchError>)
    ensures
        exists|attributes: Seq<char>|
            outcome_view(outcome) == unpacked(image@, #[trigger] fingerprint_of(attributes)),
{
    match classify_image(image) {
        Ok(roles) => {
            let key = launch_key(roles.key);
            decrypt_payload(key.as_str(), roles.payload.as_slice())
        },
        Err(error) => {
            assert(outcome_view(Err(error)) == unpacked(image@, fingerprint_of(Seq::empty())));
            Err(error)
        },
    }
}

} // verus!
