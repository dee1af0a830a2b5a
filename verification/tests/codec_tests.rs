use message_server::codec::{
    decode_client, decode_echo_message, decode_server, encode_client, encode_echo_message,
    encode_server,
};
use message_server::message::{
    AddRequest, AddResponse, ClientMessage, ClientPayload, EchoMessage, ServerMessage,
    ServerPayload,
};

fn echo_client(content: &str) -> ClientMessage {
    ClientMessage {
        message: Some(ClientPayload::EchoMessage(EchoMessage { content: content.to_string() })),
    }
}

fn add_client(a: i32, b: i32) -> ClientMessage {
    ClientMessage { message: Some(ClientPayload::AddRequest(AddRequest { a, b })) }
}

#[test]
fn encode_bare_echo_bytes() {
    let m = EchoMessage { content: "ABC".to_string() };
    assert_eq!(encode_echo_message(&m), vec![0x0A, 0x03, 0x41, 0x42, 0x43]);
}

#[test]
fn encode_bare_echo_empty_is_empty_frame() {
    let m = EchoMessage { content: String::new() };
    assert_eq!(encode_echo_message(&m), Vec::<u8>::new());
}

#[test]
fn encode_client_echo_bytes() {
    let bytes = encode_client(&echo_client("ABC"));
    assert_eq!(bytes, vec![0x0A, 0x05, 0x0A, 0x03, 0x41, 0x42, 0x43]);
}

#[test]
fn encode_client_add_bytes() {
    let bytes = encode_client(&add_client(1, 2));
    assert_eq!(bytes, vec![0x12, 0x04, 0x08, 0x01, 0x10, 0x02]);
}

#[test]
fn encode_client_add_zero_operands() {
    // Zero fields are omitted: the request body is empty.
    let bytes = encode_client(&add_client(0, 0));
    assert_eq!(bytes, vec![0x12, 0x00]);
}

#[test]
fn encode_client_add_negative_sign_extends() {
    // -1 sign-extends to 64 set bits: nine 0xFF continuation bytes, then 0x01.
    let bytes = encode_client(&add_client(-1, 0));
    let mut expected = vec![0x12, 0x0B, 0x08];
    expected.extend([0xFF; 9]);
    expected.push(0x01);
    assert_eq!(bytes, expected);
}

#[test]
fn encode_server_add_response_bytes() {
    let m = ServerMessage {
        message: Some(ServerPayload::AddResponse(AddResponse { result: 40 })),
    };
    assert_eq!(encode_server(&m), vec![0x12, 0x02, 0x08, 0x28]);
}

#[test]
fn encode_server_empty_envelope_is_no_bytes() {
    let m = ServerMessage { message: None };
    assert_eq!(encode_server(&m), Vec::<u8>::new());
}

#[test]
fn client_roundtrip_echo() {
    let m = echo_client("Hello, World!");
    assert_eq!(decode_client(&encode_client(&m)), Some(m));
}

#[test]
fn client_roundtrip_echo_empty() {
    let m = echo_client("");
    assert_eq!(decode_client(&encode_client(&m)), Some(m));
}

#[test]
fn client_roundtrip_add_boundaries() {
    for (a, b) in [(i32::MAX, i32::MIN), (i32::MIN, i32::MIN), (-7, 40), (0, -1)] {
        let m = add_client(a, b);
        assert_eq!(decode_client(&encode_client(&m)), Some(m));
    }
}

#[test]
fn client_roundtrip_absent_payload() {
    let m = ClientMessage { message: None };
    assert_eq!(decode_client(&encode_client(&m)), Some(m));
}

#[test]
fn server_roundtrip_all_variants() {
    let cases = vec![
        ServerMessage { message: None },
        ServerMessage {
            message: Some(ServerPayload::EchoMessage(EchoMessage { content: "hi".to_string() })),
        },
        ServerMessage {
            message: Some(ServerPayload::AddResponse(AddResponse { result: -40 })),
        },
    ];
    for m in cases {
        assert_eq!(decode_server(&encode_server(&m)), Some(m));
    }
}

#[test]
fn decode_empty_frame_is_absent_payload() {
    assert_eq!(decode_client(&[]), Some(ClientMessage { message: None }));
}

#[test]
fn decode_skips_unknown_fields() {
    // Field 3 (length-delimited) and field 4 (varint) are not in the
    // schema: they are skipped and leave no payload.
    assert_eq!(decode_client(&[0x1A, 0x01, 0xFF]), Some(ClientMessage { message: None }));
    assert_eq!(decode_client(&[0x20, 0x05]), Some(ClientMessage { message: None }));
    // A known payload before an unknown field still decodes.
    assert_eq!(
        decode_client(&[0x12, 0x00, 0x20, 0x05]),
        Some(ClientMessage { message: Some(ClientPayload::AddRequest(AddRequest { a: 0, b: 0 })) })
    );
}

#[test]
fn decode_last_payload_wins() {
    // Two payload fields: the second replaces the first.
    let frame = [0x0A, 0x03, 0x0A, 0x01, 0x41, 0x12, 0x00];
    assert_eq!(
        decode_client(&frame),
        Some(ClientMessage { message: Some(ClientPayload::AddRequest(AddRequest { a: 0, b: 0 })) })
    );
}

#[test]
fn decode_rejects_truncated_frames() {
    assert_eq!(decode_client(&[0x0A]), None);
    assert_eq!(decode_client(&[0x0A, 0x05, 0x0A]), None);
    assert_eq!(decode_client(&[0x80]), None);
    assert_eq!(decode_client(&[0x0A, 0x7F]), None);
}

#[test]
fn decode_rejects_varint_wider_than_64_bits() {
    let mut frame = vec![0x20];
    frame.extend([0xFF; 11]);
    frame.push(0x01);
    assert_eq!(decode_client(&frame), None);
}

#[test]
fn decode_rejects_unskippable_wire_type() {
    // Field 1 with wire type 5 cannot be skipped or read.
    assert_eq!(decode_client(&[0x0D, 0x00, 0x00, 0x00, 0x00]), None);
}

#[test]
fn decode_rejects_invalid_utf8_content() {
    let frame = [0x0A, 0x04, 0x0A, 0x02, 0xC3, 0x28];
    assert_eq!(decode_client(&frame), None);
}

#[test]
fn decode_bare_echo_last_content_wins() {
    let frame = [0x0A, 0x01, 0x41, 0x0A, 0x01, 0x42];
    assert_eq!(decode_echo_message(&frame), Some(EchoMessage { content: "B".to_string() }));
}

#[test]
fn frame_truncated_to_read_buffer_fails_to_decode() {
    // A message longer than a 1024-byte read buffer arrives cut off and
    // is rejected rather than misread.
    let frame = encode_client(&echo_client(&"a".repeat(10_000)));
    assert!(frame.len() > 1024);
    assert_eq!(decode_client(&frame[..1024]), None);
}

#[test]
fn roundtrip_multibyte_utf8() {
    let m = echo_client("héllo ✓ žluťoučký");
    assert_eq!(decode_client(&encode_client(&m)), Some(m));
}
