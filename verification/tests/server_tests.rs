use message_server::codec::{decode_server, encode_client};
use message_server::handler::{handler_step, session_responses, HandlerAction, ReadEvent};
use message_server::message::{
    ClientMessage, ClientPayload, EchoMessage, ServerMessage, ServerPayload,
};
use message_server::server::{accept_step, AcceptAction, AcceptEvent, Lifecycle, Phase};

fn echo_frame_for(content: &str) -> Vec<u8> {
    encode_client(&ClientMessage {
        message: Some(ClientPayload::EchoMessage(EchoMessage { content: content.to_string() })),
    })
}

fn echoed_content(reply: &[u8]) -> String {
    match decode_server(reply) {
        Some(ServerMessage { message: Some(ServerPayload::EchoMessage(e)) }) => e.content,
        other => panic!("Expected EchoMessage, got {:?}", other),
    }
}

#[test]
fn lifecycle_single_use() {
    let mut l = Lifecycle::new();
    assert_eq!(l.phase(), Phase::Created);
    assert!(!l.is_running());
    l.start();
    assert_eq!(l.phase(), Phase::Running);
    assert!(l.is_running());
    l.stop();
    assert_eq!(l.phase(), Phase::Stopped);
    assert!(!l.is_running());
}

#[test]
fn stop_is_idempotent() {
    let mut l = Lifecycle::new();
    l.start();
    l.stop();
    l.stop();
    assert_eq!(l.phase(), Phase::Stopped);
}

#[test]
fn stopped_server_never_restarts() {
    let mut l = Lifecycle::new();
    l.start();
    l.stop();
    l.start();
    assert_eq!(l.phase(), Phase::Stopped);
}

#[test]
fn stop_before_start_leaves_server_stopped() {
    let mut l = Lifecycle::new();
    l.stop();
    l.start();
    assert_eq!(l.phase(), Phase::Stopped);
}

#[test]
fn accept_loop_exits_once_stopped() {
    // Graceful shutdown: with the flag cleared, every accept outcome
    // leads the loop to exit on its next poll.
    for ev in [AcceptEvent::Connected, AcceptEvent::WouldBlock, AcceptEvent::Failed] {
        assert_eq!(accept_step(false, ev), AcceptAction::Exit);
    }
}

#[test]
fn accept_loop_running_actions() {
    assert_eq!(accept_step(true, AcceptEvent::Connected), AcceptAction::Spawn);
    assert_eq!(accept_step(true, AcceptEvent::WouldBlock), AcceptAction::Sleep);
    // A single failed accept is logged and survived, never fatal.
    assert_eq!(accept_step(true, AcceptEvent::Failed), AcceptAction::Ignore);
}

#[test]
fn handler_exits_cleanly_on_disconnect() {
    // A client closing its socket ends that handler without error.
    let action = handler_step(true, ReadEvent::Disconnected);
    assert!(matches!(action, HandlerAction::ExitClean));
}

#[test]
fn handler_exits_cleanly_on_shutdown() {
    let action = handler_step(false, ReadEvent::Data(echo_frame_for("late")));
    assert!(matches!(action, HandlerAction::ExitClean));
}

#[test]
fn handler_retries_on_would_block_and_dies_on_error() {
    assert!(matches!(handler_step(true, ReadEvent::WouldBlock), HandlerAction::Retry));
    assert!(matches!(handler_step(true, ReadEvent::Failed), HandlerAction::ExitError));
}

#[test]
fn handler_replies_to_a_frame() {
    let action = handler_step(true, ReadEvent::Data(echo_frame_for("ping")));
    match action {
        HandlerAction::Reply(bytes) => assert_eq!(echoed_content(&bytes), "ping"),
        other => panic!("expected a reply, got {:?}", other),
    }
}

#[test]
fn handler_skips_malformed_frame_without_closing() {
    let action = handler_step(true, ReadEvent::Data(vec![0x0A, 0x05, 0x0A]));
    assert!(matches!(action, HandlerAction::Skip));
}

#[test]
fn test_multiple_clients() {
    // Ten clients, each sending the same greeting: every one reads its
    // own reply back intact.
    for _client in 0..10 {
        let frames = vec![echo_frame_for("Hello from client!")];
        let responses = session_responses(&frames);
        let bytes = responses[0].as_ref().expect("echo is answered");
        assert_eq!(echoed_content(bytes), "Hello from client!");
    }
}

#[test]
fn test_shared_state_consistency() {
    // One connection repeating the same request: every reply is
    // identical — no state leaks between exchanges.
    let frames: Vec<Vec<u8>> = (0..10).map(|_| echo_frame_for("Consistency Test")).collect();
    for response in session_responses(&frames) {
        let bytes = response.expect("echo is answered");
        assert_eq!(echoed_content(&bytes), "Consistency Test");
    }
}

#[test]
fn per_connection_ordering() {
    // N sequential echo requests with distinct payloads: the replies
    // come back in exactly the order the requests went in.
    let payloads: Vec<String> = (0..10).map(|i| format!("request number {}", i)).collect();
    let frames: Vec<Vec<u8>> = payloads.iter().map(|p| echo_frame_for(p)).collect();
    let responses = session_responses(&frames);
    assert_eq!(responses.len(), payloads.len());
    for (i, response) in responses.iter().enumerate() {
        let bytes = response.as_ref().expect("each well-formed request is answered");
        assert_eq!(echoed_content(bytes), payloads[i]);
    }
}

#[test]
fn concurrent_isolation_scenario() {
    // M connections, each repeating its own payload K times: every
    // connection reads back exactly its own payload every time.
    let m = 10;
    let k = 10;
    let sessions: Vec<Vec<Vec<u8>>> = (0..m)
        .map(|c| (0..k).map(|_| echo_frame_for(&format!("client {}", c))).collect())
        .collect();
    for (c, frames) in sessions.iter().enumerate() {
        let responses = session_responses(frames);
        assert_eq!(responses.len(), k);
        for response in responses {
            let bytes = response.expect("echo is always answered");
            assert_eq!(echoed_content(&bytes), format!("client {}", c));
        }
    }
}
