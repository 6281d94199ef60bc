use sbb::crypto::encrypt_binary;
use sbb::embed::embed_multiple_into_stub;
use sbb::launcher::{Classified, KeyChoice, LaunchError};
use sbb::stages::{advance, Launch, Outcome};

const HEX_KEY: &str = "471fb943aa23c511f6f72f8d1652d9c880cfa392ad80503120547703e56a2be5";

fn carrier() -> Vec<u8> {
    let encrypted = encrypt_binary(HEX_KEY, b"HELLO").unwrap();
    embed_multiple_into_stub(&[HEX_KEY.as_bytes().to_vec(), encrypted], b"STUB")
}

#[test]
fn launch_goes_through_its_stages() {
    let image = carrier();
    let state = advance(Launch::ReadSelf, Some(Outcome::ImageRead(image.clone())));
    assert_eq!(state, Launch::ExtractSegments { image });

    let state = advance(state, None);
    let segments = match &state {
        Launch::ClassifySegments { segments } => segments.clone(),
        other => panic!("unexpected stage {:?}", other),
    };
    assert_eq!(segments.len(), 2);
    assert_eq!(segments[0], HEX_KEY.as_bytes());

    let state = advance(state, None);
    assert_eq!(
        state,
        Launch::ResolveKey {
            roles: Classified {
                key: KeyChoice::Embedded(HEX_KEY.to_string()),
                payload: segments[1].clone()
            }
        }
    );

    let state = advance(state, None);
    assert_eq!(state, Launch::Decrypt { key: HEX_KEY.to_string(), payload: segments[1].clone() });

    let state = advance(state, None);
    assert_eq!(state, Launch::Execute { binary: b"HELLO".to_vec() });

    let state = advance(state, Some(Outcome::Started));
    assert_eq!(state, Launch::Success);
}

#[test]
fn launch_fails_at_the_stage_that_fails() {
    assert_eq!(
        advance(Launch::ReadSelf, Some(Outcome::ImageUnreadable)),
        Launch::Fail(LaunchError::Io)
    );
    assert_eq!(
        advance(Launch::ExtractSegments { image: b"no segments".to_vec() }, None),
        Launch::Fail(LaunchError::Format)
    );
    assert_eq!(
        advance(Launch::ClassifySegments { segments: vec![] }, None),
        Launch::Fail(LaunchError::Format)
    );
    assert_eq!(
        advance(Launch::Decrypt { key: "key".to_string(), payload: vec![0; 40] }, None),
        Launch::Fail(LaunchError::Crypto)
    );
    assert_eq!(
        advance(Launch::Execute { binary: vec![1] }, Some(Outcome::NotStarted)),
        Launch::Fail(LaunchError::Execution)
    );
}

#[test]
fn waiting_stages_stay_until_their_outcome_comes() {
    assert_eq!(advance(Launch::ReadSelf, None), Launch::ReadSelf);
    assert_eq!(advance(Launch::ReadSelf, Some(Outcome::Started)), Launch::ReadSelf);
    let execute = Launch::Execute { binary: vec![1, 2] };
    assert_eq!(advance(execute.clone(), None), execute);
    assert_eq!(advance(execute.clone(), Some(Outcome::ImageUnreadable)), execute);
}

#[test]
fn the_end_of_a_launch_stays() {
    for outcome in [
        None,
        Some(Outcome::ImageRead(carrier())),
        Some(Outcome::ImageUnreadable),
        Some(Outcome::Started),
        Some(Outcome::NotStarted),
    ] {
        assert_eq!(advance(Launch::Success, outcome.clone()), Launch::Success);
        assert_eq!(
            advance(Launch::Fail(LaunchError::Crypto), outcome),
            Launch::Fail(LaunchError::Crypto)
        );
    }
}

#[test]
fn outcomes_are_ignored_where_none_is_awaited() {
    let state = advance(
        Launch::ExtractSegments { image: carrier() },
        Some(Outcome::ImageUnreadable),
    );
    assert!(matches!(state, Launch::ClassifySegments { .. }));
}
