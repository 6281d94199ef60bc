use sbb::embed::{
    embed_into_stub, embed_multiple_into_stub, extract_from_stub, find_marker, MAGIC_FOOTER,
    MAGIC_HEADER,
};

fn create_mock_stub() -> Vec<u8> {
    b"Mock stub binary content".to_vec()
}

#[test]
fn test_extract_multiple_payloads() {
    let mut mock_stub = create_mock_stub();

    let payload1 = b"First payload";
    let payload2 = b"Second payload";
    let payload3 = b"Third payload";

    mock_stub.extend_from_slice(&MAGIC_HEADER);
    mock_stub.extend_from_slice(payload1);
    mock_stub.extend_from_slice(&MAGIC_FOOTER);

    mock_stub.extend_from_slice(&MAGIC_HEADER);
    mock_stub.extend_from_slice(payload2);
    mock_stub.extend_from_slice(&MAGIC_FOOTER);

    mock_stub.extend_from_slice(&MAGIC_HEADER);
    mock_stub.extend_from_slice(payload3);
    mock_stub.extend_from_slice(&MAGIC_FOOTER);

    let extracted = extract_from_stub(&mock_stub);
    assert_eq!(extracted.len(), 3);
    assert_eq!(extracted[0], payload1);
    assert_eq!(extracted[1], payload2);
    assert_eq!(extracted[2], payload3);
}

#[test]
fn test_embed_single_payload() {
    let stub_data = b"STUB_BINARY_DATA";

    let payload = vec![0x41, 0x42, 0x43];
    let payloads = vec![payload.clone()];

    let result = embed_multiple_into_stub(&payloads, stub_data);

    let expected_size =
        stub_data.len() + MAGIC_HEADER.len() + payload.len() + MAGIC_FOOTER.len();
    assert_eq!(result.len(), expected_size);

    assert_eq!(&result[..stub_data.len()], stub_data);

    let header_start = stub_data.len();
    assert_eq!(&result[header_start..header_start + MAGIC_HEADER.len()], MAGIC_HEADER);

    let payload_start = header_start + MAGIC_HEADER.len();
    assert_eq!(&result[payload_start..payload_start + payload.len()], &payload);

    let footer_start = payload_start + payload.len();
    assert_eq!(&result[footer_start..footer_start + MAGIC_FOOTER.len()], MAGIC_FOOTER);
}

#[test]
fn test_embed_multiple_payloads() {
    let stub_data = b"STUB";

    let payload1 = vec![0x01, 0x02];
    let payload2 = vec![0x03, 0x04, 0x05];
    let payloads = vec![payload1.clone(), payload2.clone()];

    let result = embed_multiple_into_stub(&payloads, stub_data);

    let expected_size = stub_data.len()
        + 2 * (MAGIC_HEADER.len() + MAGIC_FOOTER.len())
        + payload1.len()
        + payload2.len();
    assert_eq!(result.len(), expected_size);

    let mut pos = stub_data.len();

    assert_eq!(&result[pos..pos + MAGIC_HEADER.len()], MAGIC_HEADER);
    pos += MAGIC_HEADER.len();
    assert_eq!(&result[pos..pos + payload1.len()], &payload1);
    pos += payload1.len();
    assert_eq!(&result[pos..pos + MAGIC_FOOTER.len()], MAGIC_FOOTER);
    pos += MAGIC_FOOTER.len();

    assert_eq!(&result[pos..pos + MAGIC_HEADER.len()], MAGIC_HEADER);
    pos += MAGIC_HEADER.len();
    assert_eq!(&result[pos..pos + payload2.len()], &payload2);
    pos += payload2.len();
    assert_eq!(&result[pos..pos + MAGIC_FOOTER.len()], MAGIC_FOOTER);
}

#[test]
fn test_embed_empty_payloads() {
    let stub_data = b"STUB";

    let payloads: Vec<Vec<u8>> = vec![];

    let result = embed_multiple_into_stub(&payloads, stub_data);

    assert_eq!(result.len(), stub_data.len());
    assert_eq!(result, stub_data);
}

#[test]
fn test_embed_large_payload() {
    let large_payload = vec![0xAA; 1024 * 1024];
    let payloads = vec![large_payload.clone()];

    let result = embed_multiple_into_stub(&payloads, b"STUB");

    let expected_size = 4 + MAGIC_HEADER.len() + large_payload.len() + MAGIC_FOOTER.len();
    assert_eq!(result.len(), expected_size);

    let payload_start = 4 + MAGIC_HEADER.len();
    assert_eq!(&result[payload_start..payload_start + large_payload.len()], &large_payload);
}

#[test]
fn markers_are_the_documented_text() {
    assert_eq!(&MAGIC_HEADER[..], b"--EMBED_START--");
    assert_eq!(&MAGIC_FOOTER[..], b"--EMBED_END--");
}

#[test]
fn embed_writes_the_exact_carrier() {
    let carrier = embed_multiple_into_stub(&[b"ab".to_vec(), b"".to_vec()], b"BASE");
    assert_eq!(
        carrier,
        b"BASE--EMBED_START--ab--EMBED_END----EMBED_START----EMBED_END--".to_vec()
    );
}

#[test]
fn embed_into_stub_frames_one_payload() {
    let carrier = embed_into_stub(b"payload", b"stub");
    assert_eq!(carrier, b"stub--EMBED_START--payload--EMBED_END--".to_vec());
    assert_eq!(carrier, embed_multiple_into_stub(&[b"payload".to_vec()], b"stub"));
}

#[test]
fn extract_undoes_embed() {
    let segments = vec![
        b"first".to_vec(),
        vec![],
        vec![0u8, 255, 45, 45, 13, 10],
        b"--EMBED_START--".to_vec(),
    ];
    let carrier = embed_multiple_into_stub(&segments, b"\x7fELF base image");
    assert_eq!(extract_from_stub(&carrier), segments);
}

#[test]
fn extract_of_plain_base_is_empty() {
    assert_eq!(extract_from_stub(b"no segments here"), Vec::<Vec<u8>>::new());
    assert_eq!(extract_from_stub(b""), Vec::<Vec<u8>>::new());
}

#[test]
fn extract_drops_unterminated_segment() {
    assert_eq!(extract_from_stub(b"STUB--EMBED_START--partial"), Vec::<Vec<u8>>::new());
    assert_eq!(extract_from_stub(b"STUB--EMBED_START--"), Vec::<Vec<u8>>::new());
    assert_eq!(
        extract_from_stub(b"--EMBED_END--STUB--EMBED_START--partial"),
        Vec::<Vec<u8>>::new()
    );
}

#[test]
fn extract_keeps_segments_before_trailing_garbage() {
    let mut carrier = embed_multiple_into_stub(&[b"one".to_vec(), b"two".to_vec()], b"STUB");
    carrier.extend_from_slice(b"--EMBED_START--cut off");
    assert_eq!(extract_from_stub(&carrier), vec![b"one".to_vec(), b"two".to_vec()]);
}

#[test]
fn extract_skips_bytes_between_segments() {
    let carrier =
        b"a--EMBED_START--x--EMBED_END--junk--EMBED_END--more--EMBED_START--y--EMBED_END--";
    assert_eq!(extract_from_stub(carrier), vec![b"x".to_vec(), b"y".to_vec()]);
}

#[test]
fn segment_ending_in_part_of_the_closing_marker_is_cut_short() {
    let carrier = embed_multiple_into_stub(&[b"data--EMBED_END".to_vec()], b"STUB");
    assert_eq!(extract_from_stub(&carrier), vec![b"data".to_vec()]);
}

#[test]
fn base_ending_in_part_of_the_opening_marker_shifts_the_scan() {
    let carrier = embed_multiple_into_stub(&[b"data".to_vec()], b"STUB--EMBED_START");
    assert_eq!(extract_from_stub(&carrier), vec![b"EMBED_START--data".to_vec()]);
}

#[test]
fn find_marker_gives_the_first_place() {
    assert_eq!(find_marker(b"abcabc", b"bc", 0), Some(1));
    assert_eq!(find_marker(b"abcabc", b"bc", 2), Some(4));
    assert_eq!(find_marker(b"abcabc", b"bc", 5), None);
    assert_eq!(find_marker(b"abcabc", b"cb", 0), None);
    assert_eq!(find_marker(b"ab", b"abc", 0), None);
    assert_eq!(find_marker(b"ab", b"b", 7), None);
    assert_eq!(find_marker(b"ab", b"", 2), Some(2));
}
