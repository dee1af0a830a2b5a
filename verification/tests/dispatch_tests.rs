use message_server::codec::{decode_server, encode_client};
use message_server::dispatch::{handle_message, process_message};
use message_server::handler::handle_frame;
use message_server::message::{
    AddRequest, AddResponse, ClientMessage, ClientPayload, EchoMessage, ServerMessage,
    ServerPayload,
};

fn echo_request(content: &str) -> ClientMessage {
    ClientMessage {
        message: Some(ClientPayload::EchoMessage(EchoMessage { content: content.to_string() })),
    }
}

fn add_request(a: i32, b: i32) -> ClientMessage {
    ClientMessage { message: Some(ClientPayload::AddRequest(AddRequest { a, b })) }
}

/// Send one encoded request through the whole pipeline and decode the
/// reply, as a client would.
fn exchange(request: &ClientMessage) -> ServerMessage {
    let frame = encode_client(request);
    let reply = handle_frame(&frame).expect("well-formed frame must be answered");
    decode_server(&reply).expect("reply must decode")
}

#[test]
fn handle_message_echoes_content() {
    let r = handle_message(ClientPayload::EchoMessage(EchoMessage {
        content: "Hello, World!".to_string(),
    }));
    assert_eq!(
        r,
        Ok(ServerPayload::EchoMessage(EchoMessage { content: "Hello, World!".to_string() }))
    );
}

#[test]
fn handle_message_adds() {
    let r = handle_message(ClientPayload::AddRequest(AddRequest { a: 15, b: 25 }));
    assert_eq!(r, Ok(ServerPayload::AddResponse(AddResponse { result: 40 })));
}

#[test]
fn process_message_unsupported_gives_empty_response() {
    let r = process_message(ClientMessage { message: None });
    assert_eq!(r, ServerMessage { message: None });
}

#[test]
fn test_single_client_echo() {
    let reply = exchange(&echo_request("Hello, World!"));
    assert_eq!(
        reply,
        ServerMessage {
            message: Some(ServerPayload::EchoMessage(EchoMessage {
                content: "Hello, World!".to_string()
            }))
        }
    );
}

#[test]
fn test_single_client_add_request() {
    let reply = exchange(&add_request(15, 25));
    assert_eq!(
        reply,
        ServerMessage { message: Some(ServerPayload::AddResponse(AddResponse { result: 40 })) }
    );
}

#[test]
fn echo_identity_empty_string() {
    let reply = exchange(&echo_request(""));
    assert_eq!(
        reply,
        ServerMessage {
            message: Some(ServerPayload::EchoMessage(EchoMessage { content: String::new() }))
        }
    );
}

#[test]
fn test_large_message() {
    let payload: String = "a".repeat(10_000);
    let reply = exchange(&echo_request(&payload));
    match reply.message {
        Some(ServerPayload::EchoMessage(e)) => assert_eq!(e.content, payload),
        other => panic!("Expected EchoMessage, but received something else: {:?}", other),
    }
}

#[test]
fn add_wraps_at_boundaries() {
    // The documented overflow policy: silent two's-complement wraparound.
    let reply = exchange(&add_request(i32::MAX, 1));
    assert_eq!(
        reply,
        ServerMessage {
            message: Some(ServerPayload::AddResponse(AddResponse { result: i32::MIN }))
        }
    );
    let reply = exchange(&add_request(i32::MIN, -1));
    assert_eq!(
        reply,
        ServerMessage {
            message: Some(ServerPayload::AddResponse(AddResponse { result: i32::MAX }))
        }
    );
    let reply = exchange(&add_request(i32::MAX, i32::MIN));
    assert_eq!(
        reply,
        ServerMessage { message: Some(ServerPayload::AddResponse(AddResponse { result: -1 })) }
    );
}

#[test]
fn unsupported_variant_yields_empty_response() {
    // A frame carrying only field 3 — a variant this dispatcher does not
    // recognize — is answered, with the empty response envelope.
    let frame = [0x1A, 0x01, 0x00];
    let reply = handle_frame(&frame).expect("unsupported variant is not an error");
    assert_eq!(reply, Vec::<u8>::new());
    assert_eq!(decode_server(&reply), Some(ServerMessage { message: None }));
}

#[test]
fn malformed_frame_is_dropped_not_answered() {
    assert_eq!(handle_frame(&[0x0A, 0x05, 0x0A]), None);
}
