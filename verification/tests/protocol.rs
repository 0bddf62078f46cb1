use anytalk::protocol::{
    build_audio_only_request, build_full_client_request, build_header, parse_server_message,
    COMPRESSION_NONE, FLAG_NO_SEQUENCE, MSG_FULL_CLIENT_REQUEST, SERIALIZATION_JSON,
};

#[test]
fn test_build_header() {
    let header = build_header(
        MSG_FULL_CLIENT_REQUEST,
        FLAG_NO_SEQUENCE,
        SERIALIZATION_JSON,
        COMPRESSION_NONE,
    );
    // b0: version(0001) << 4 | header_size(0001) = 0x11
    // b1: msg_type(0001) << 4 | flags(0000) = 0x10
    // b2: serialization(0001) << 4 | compression(0000) = 0x10
    assert_eq!(header[0], 0x11);
    assert_eq!(header[1], 0x10);
    assert_eq!(header[2], 0x10);
    assert_eq!(header[3], 0x00);
}

#[test]
fn test_build_full_client_request() {
    let payload = r#"{"test": "value"}"#;
    let msg = build_full_client_request(payload);

    // Should be: 4 bytes header + 4 bytes length + payload
    assert_eq!(msg.len(), 4 + 4 + payload.len());

    // Check header
    assert_eq!(msg[0], 0x11); // version + header_size
    assert_eq!(msg[1], 0x10); // msg_type + flags
    assert_eq!(msg[2], 0x10); // serialization + compression

    // Check payload length (big endian)
    let len = u32::from_be_bytes([msg[4], msg[5], msg[6], msg[7]]) as usize;
    assert_eq!(len, payload.len());

    // Check payload
    assert_eq!(&msg[8..], payload.as_bytes());
}

#[test]
fn test_build_audio_only_request_not_last() {
    let audio_data = vec![0x01, 0x02, 0x03, 0x04];
    let msg = build_audio_only_request(&audio_data, false);

    assert_eq!(msg.len(), 4 + 4 + audio_data.len());
    // msg_type = AUDIO_ONLY (0010), flags = NO_SEQUENCE (0000)
    assert_eq!(msg[1] & 0xF0, 0x20); // audio only request
    assert_eq!(msg[1] & 0x0F, 0x00); // not last
}

#[test]
fn test_build_audio_only_request_last() {
    let audio_data = vec![0x01, 0x02, 0x03, 0x04];
    let msg = build_audio_only_request(&audio_data, true);

    assert_eq!(msg.len(), 4 + 4 + audio_data.len());
    // flags = LAST_NO_SEQUENCE (0010)
    assert_eq!(msg[1] & 0x0F, 0x02); // is last
}

#[test]
fn test_parse_server_message_too_short() {
    let short_data = vec![0x11, 0x90, 0x10];
    let result = parse_server_message(&short_data);
    assert_eq!(result.kind, "unknown");
}

#[test]
fn test_parse_server_message_invalid_version() {
    // Wrong version (0010 instead of 0001)
    let data = vec![0x21, 0x90, 0x10, 0x00];
    let result = parse_server_message(&data);
    assert_eq!(result.kind, "unknown");
}

#[test]
fn test_parse_server_message_response() {
    // Build a valid response message
    let json_payload = r#"{"type":"result"}"#;
    let payload_bytes = json_payload.as_bytes();

    let mut data = vec![
        0x11, // version + header_size
        0x90, // MSG_FULL_SERVER_RESPONSE (1001) << 4 | flags (0000)
        0x10, // serialization + compression
        0x00, // reserved
        0x00, 0x00, 0x00, 0x00, // sequence (4 bytes)
        0x00, 0x00, 0x00, payload_bytes.len() as u8, // payload size
    ];
    data.extend_from_slice(payload_bytes);

    let result = parse_server_message(&data);
    assert_eq!(result.kind, "response");
    assert_eq!(result.json_text, Some(json_payload.to_string()));
}

#[test]
fn test_parse_server_message_error_frame() {
    let message = "bad".as_bytes();
    let mut data = vec![
        0x11, // version + header_size
        0xF0, // MSG_ERROR_RESPONSE (1111) << 4 | flags (0000)
        0x10, 0x00, // serialization + reserved
        0x00, 0x00, 0x00, 42, // error code, big endian
        0x00, 0x00, 0x00, message.len() as u8, // message size
    ];
    data.extend_from_slice(message);

    let result = parse_server_message(&data);
    assert_eq!(result.kind, "error");
    assert_eq!(result._error_code, Some(42));
    assert_eq!(result.error_msg, Some("bad".to_string()));
    assert_eq!(result.json_text, None);
}

#[test]
fn test_parse_server_message_truncated_payload() {
    // Declared length larger than the buffer: decoded as unknown.
    let data = vec![
        0x11, 0x90, 0x10, 0x00, //
        0x00, 0x00, 0x00, 0x00, //
        0x00, 0x00, 0x00, 0x09, // says 9 payload bytes
        0x41, 0x42, // only 2 present
    ];
    let result = parse_server_message(&data);
    assert_eq!(result.kind, "unknown");
}

#[test]
fn test_response_round_trip_unicode() {
    // A frame built around UTF-8 text parses back to the identical text.
    let text = "héllo wörld — 你好";
    let payload = text.as_bytes();
    let mut data = vec![0x11, 0x93, 0x10, 0x00, 0x00, 0x00, 0x00, 0x00];
    data.extend_from_slice(&(payload.len() as u32).to_be_bytes());
    data.extend_from_slice(payload);

    let result = parse_server_message(&data);
    assert_eq!(result.kind, "response");
    assert_eq!(result.flags, 0b0011);
    assert_eq!(result.json_text, Some(text.to_string()));
}
