//! The launcher as a state machine: a launch goes through its stages in
//! order, once, and ends in success or in the first error.

use crate::embed::{carrier_segments, extract_from_stub, segment_views};
use crate::fingerprint::fingerprint_of;
use crate::launcher::{
    chosen_key, classified, classify_segments, decrypt_payload, launch_key, opened, unpacked,
    Classified, ClassifiedView, LaunchError,
};
use vstd::prelude::*;

verus! {

/// A stage of a launch, with what it works on.
#[derive(Debug, Clone, PartialEq, Eq)]
pub enum Launch {
    /// The launcher's own image is to be read.
    ReadSelf,
    /// The segments of the image are to be extracted.
    ExtractSegments { image: Vec<u8> },
    /// The segments are to be told apart.
    ClassifySegments { segments: Vec<Vec<u8>> },
    /// The key string is to be chosen.
    ResolveKey { roles: Classified },
    /// The payload is to be decrypted.
    Decrypt { key: String, payload: Vec<u8> },
    /// The recovered program is to be started.
    Execute { binary: Vec<u8> },
    /// The recovered program was started.
    Success,
    /// The launch ended in an error.
    Fail(LaunchError),
}

/// The view of a `Launch`.
pub enum LaunchView {
    ReadSelf,
    ExtractSegments { image: Seq<u8> },
    ClassifySegments { segments: Seq<Seq<u8>> },
    ResolveKey { roles: ClassifiedView },
    Decrypt { key: Seq<char>, payload: Seq<u8> },
    Execute { binary: Seq<u8> },
    Success,
    Fail(LaunchError),
}

impl View for Launch {
    type V = LaunchView;

    open spec fn view(&self) -> LaunchView {
        match self {
            Launch::ReadSelf => LaunchView::ReadSelf,
            Launch::ExtractSegments { image } => LaunchView::ExtractSegments { image: image@ },
            Launch::ClassifySegments { segments } => LaunchView::ClassifySegments {
                segments: segment_views(segments@),
            },
            Launch::ResolveKey { roles } => LaunchView::ResolveKey { roles: roles@ },
            Launch::Decrypt { key, payload } => LaunchView::Decrypt {
                key: key@,
                payload: payload@,
            },
            Launch::Execute { binary } => LaunchView::Execute { binary: binary@ },
            Launch::Success => LaunchView::Success,
            Launch::Fail(error) => LaunchView::Fail(*error),
        }
    }
}

/// What the work outside the library came to.
#[derive(Debug, Clone, PartialEq, Eq)]
pub enum Outcome {
    /// The launcher's own image was read.
    ImageRead(Vec<u8>),
    /// The launcher's own image could not be read.
    ImageUnreadable,
    /// The recovered program was started.
    Started,
    /// The recovered program could not be started.
    NotStarted,
}

/// The view of an `Outcome`.
pub enum OutcomeView {
    ImageRead(Seq<u8>),
    ImageUnreadable,
    Started,
    NotStarted,
}

impl View for Outcome {
    type V = OutcomeView;

    open spec fn view(&self) -> OutcomeView {
        match self {
            Outcome::ImageRead(image) => OutcomeView::ImageRead(image@),
            Outcome::ImageUnreadable => OutcomeView::ImageUnreadable,
            Outcome::Started => OutcomeView::Started,
            Outcome::NotStarted => OutcomeView::NotStarted,
        }
    }
}

/// The view of an outcome that may be missing.
pub open spec fn outcome_of(outcome: Option<Outcome>) -> Option<OutcomeView> {
    match outcome {
        Some(outcome) => Some(outcome@),
        None => None,
    }
}

/// Whether a stage is the end of a launch.
pub open spec fn terminal(state: LaunchView) -> bool {
    state is Success || state is Fail
}

/// Whether a stage waits for work outside the library: reading the
/// launcher's image, or starting the recovered program.
pub open spec fn awaits_outcome(state: LaunchView) -> bool {
    state is ReadSelf || state is Execute
}

/// The place of a stage in the order of a launch.
pub open spec fn stage_number(state: LaunchView) -> nat {
    match state {
        LaunchView::ReadSelf => 0,
        LaunchView::ExtractSegments { .. } => 1,
        LaunchView::ClassifySegments { .. } => 2,
        LaunchView::ResolveKey { .. } => 3,
        LaunchView::Decrypt { .. } => 4,
        LaunchView::Execute { .. } => 5,
        LaunchView::Success => 6,
        LaunchView::Fail(_) => 6,
    }
}

/// The stage that follows a stage, on a device with the key string
/// `device_key`. A stage that waits for an outcome stays until the outcome
/// that belongs to it comes; the end of a launch stays for good.
pub open spec fn advanced(
    state: LaunchView,
    outcome: Option<OutcomeView>,
    device_key: Seq<char>,
) -> LaunchView {
    match state {
        LaunchView::ReadSelf => match outcome {
            Some(OutcomeView::ImageRead(image)) => LaunchView::ExtractSegments { image },
            Some(OutcomeView::ImageUnreadable) => LaunchView::Fail(LaunchError::Io),
            _ => state,
        },
        LaunchView::ExtractSegments { image } => if carrier_segments(image).len() == 0 {
            LaunchView::Fail(LaunchError::Format)
        } else {
            LaunchView::ClassifySegments { segments: carrier_segments(image) }
        },
        LaunchView::ClassifySegments { segments } => match classified(segments) {
            Some(roles) => LaunchView::ResolveKey { roles },
            None => LaunchView::Fail(LaunchError::Format),
        },
        LaunchView::ResolveKey { roles } => LaunchView::Decrypt {
            key: chosen_key(roles.key, device_key),
            payload: roles.payload,
        },
        LaunchView::Decrypt { key, payload } => match opened(key, payload) {
            Ok(binary) => LaunchView::Execute { binary },
            Err(error) => LaunchView::Fail(error),
        },
        LaunchView::Execute { binary } => match outcome {
            Some(OutcomeView::Started) => LaunchView::Success,
            Some(OutcomeView::NotStarted) => LaunchView::Fail(LaunchError::Execution),
            _ => state,
        },
        LaunchView::Success => state,
        LaunchView::Fail(_) => state,
    }
}

/// Takes a launch one stage further. The caller does the work that a stage
/// waits for and hands in what it came to; for the other stages it hands in
/// nothing.
pub fn advance(state: Launch, outcome: Option<Outcome>) -> (next: Launch)
    ensures
        exists|attributes: Seq<char>|
            next@ == advanced(state@, outcome_of(outcome), #[trigger] fingerprint_of(attributes)),
{
    let ghost any_key = fingerprint_of(Seq::empty());
    match state {
        Launch::ReadSelf => {
            let next = match outcome {
                Some(Outcome::ImageRead(image)) => Launch::ExtractSegments { image },
                Some(Outcome::ImageUnreadable) => Launch::Fail(LaunchError::Io),
                _ => Launch::ReadSelf,
            };
            assert(next@ == advanced(state@, outcome_of(outcome), any_key));
            next
        },
        Launch::ExtractSegments { image } => {
            let segments = extract_from_stub(image.as_slice());
            let next = if segments.len() == 0 {
                Launch::Fail(LaunchError::Format)
            } else {
                Launch::ClassifySegments { segments }
            };
            assert(next@ == advanced(state@, outcome_of(outcome), any_key));
            next
        },
        Launch::ClassifySegments { segments } => {
            let next = match classify_segments(segments) {
                Some(roles) => Launch::ResolveKey { roles },
                None => Launch::Fail(LaunchError::Format),
            };
            assert(next@ == advanced(state@, outcome_of(outcome), any_key));
            next
        },
        Launch::ResolveKey { roles } => {
            let key = launch_key(roles.key);
            Launch::Decrypt { key, payload: roles.payload }
        },
        Launch::Decrypt { key, payload } => {
            let next = match decrypt_payload(key.as_str(), payload.as_slice()) {
                Ok(binary) => Launch::Execute { binary },
                Err(error) => Launch::Fail(error),
            };
            assert(next@ == advanced(state@, outcome_of(outcome), any_key));
            next
        },
        Launch::Execute { binary } => {
            let next = match outcome {
                Some(Outcome::Started) => Launch::Success,
                Some(Outcome::NotStarted) => Launch::Fail(LaunchError::Execution),
                _ => Launch::Execute { binary },
            };
            assert(next@ == advanced(state@, outcome_of(outcome), any_key));
            next
        },
        Launch::Success => {
            assert(state@ == advanced(state@, outcome_of(outcome), any_key));
            Launch::Success
        },
        Launch::Fail(error) => {
            assert(state@ == advanced(state@, outcome_of(outcome), any_key));
            Launch::Fail(error)
        },
    }
}

/// Nothing is retried: the end of a launch stays what it is, whatever comes.
pub proof fn lemma_terminal_stays(
    state: LaunchView,
    outcome: Option<OutcomeView>,
    device_key: Seq<char>,
)
    requires
        terminal(state),
    ensures
        advanced(state, outcome, device_key) == state,
{
}

/// A launch goes through its stages in order: a step leads to the next
/// stage or to an error, and only a stage that waits for an outcome can stay.
pub proof fn lemma_stages_in_order(
    state: LaunchView,
    outcome: Option<OutcomeView>,
    device_key: Seq<char>,
)
    requires
        !terminal(state),
    ensures
        ({
            let next = advanced(state, outcome, device_key);
            ||| stage_number(next) == stage_number(state) + 1
            ||| next is Fail
            ||| next == state && awaits_outcome(state)
        }),
{
}

/// The stages between reading the image and starting the program come to
/// what unpacking the image comes to.
pub proof fn lemma_stages_unpack(image: Seq<u8>, device_key: Seq<char>)
    ensures
        ({
            let extract = LaunchView::ExtractSegments { image };
            let classify = advanced(extract, None, device_key);
            let resolve = advanced(classify, None, device_key);
            let decrypt = advanced(resolve, None, device_key);
            let execute = advanced(decrypt, None, device_key);
            match unpacked(image, device_key) {
                Ok(binary) => execute == LaunchView::Execute { binary },
                Err(error) => execute == LaunchView::Fail(error),
            }
        }),
{
}

} // verus!
