use ravyn::native_protocol::{decode_framed_json, decode_json_body};

#[test]
fn accepts_one_complete_frame() {
    let body = br#"{"id":"one"}"#;
    let mut frame = Vec::new();
    frame.extend_from_slice(&(body.len() as u32).to_le_bytes());
    frame.extend_from_slice(body);
    assert_eq!(decode_framed_json(&frame, 1024).unwrap()["id"], "one");
}

#[test]
fn rejects_truncated_and_trailing_frames() {
    assert!(decode_framed_json(&[1, 0, 0], 1024).is_err());
    assert!(decode_framed_json(&[2, 0, 0, 0, b'{'], 1024).is_err());
    assert!(decode_framed_json(&[2, 0, 0, 0, b'{', b'}', b'x'], 1024).is_err());
}

#[test]
fn rejects_zero_and_oversized_lengths() {
    assert!(decode_framed_json(&[0, 0, 0, 0], 1024).is_err());
    assert!(decode_framed_json(&[1, 4, 0, 0], 1024).is_err());
}

#[test]
fn frame_errors_say_what_went_wrong() {
    assert_eq!(
        decode_framed_json(&[1, 0], 8).unwrap_err(),
        "native frame is missing its four-byte length prefix"
    );
    assert_eq!(
        decode_framed_json(&[9, 0, 0, 0], 8).unwrap_err(),
        "native message length must be between 1 and 8 bytes"
    );
    assert_eq!(
        decode_framed_json(&[2, 0, 0, 0, b'{'], 8).unwrap_err(),
        "native frame length does not match its payload"
    );
    assert!(decode_framed_json(&[2, 0, 0, 0, b'{', b'x'], 8)
        .unwrap_err()
        .starts_with("failed to decode the native message: "));
    assert!(decode_json_body(b"[1,2]", 8).unwrap().is_array());
    assert!(decode_json_body(b"", 8).is_err());
}
