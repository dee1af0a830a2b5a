//! The per-connection handler: what one read-decode-dispatch-encode-write
//! turn decides.
//!
//! The loop that owns a socket reports each read as a `ReadEvent`;
//! `handler_step` answers with the `HandlerAction` the loop must take.
//! Within one connection requests are handled strictly in arrival order,
//! each response formed before the next read, so `session_responses`
//! yields the responses in exactly the order the requests came.

use vstd::prelude::*;
use vstd::utf8::encode_utf8;

use crate::codec::{
    decode_client, decode_echo_message, echo_body, echo_msg_of, encode_echo_message,
    encode_server, lemma_client_roundtrip, lemma_decoded_client_wf, lemma_server_roundtrip,
    server_wf, spec_decode_client, spec_decode_server, spec_encode_client, spec_encode_server,
    WIRE_LEN_MAX,
};
use crate::dispatch::{process_message, spec_dispatch};
use crate::message::{
    AddRequestView, AddResponseView, ClientMessageView, ClientPayloadView, EchoMessageView,
    ServerMessageView, ServerPayloadView,
};

verus! {

/// What one read on a connection produced: a frame of bytes, an orderly
/// disconnect, nothing yet (a non-blocking read with no data), or an
/// unrecoverable I/O failure.
#[derive(Clone, Debug, PartialEq)]
pub enum ReadEvent {
    Data(Vec<u8>),
    Disconnected,
    WouldBlock,
    Failed,
}

/// What the connection loop does next: write a reply and continue, keep
/// the connection but send nothing (a malformed frame), sleep briefly
/// and retry, exit cleanly, or exit reporting the connection lost.
#[derive(Clone, Debug, PartialEq)]
pub enum HandlerAction {
    Reply(Vec<u8>),
    Skip,
    Retry,
    ExitClean,
    ExitError,
}

/// The response frame owed to one request frame: decode, dispatch,
/// encode.  `None` when the frame does not decode; the connection then
/// stays open and nothing is written.
pub open spec fn frame_response(s: Seq<u8>) -> Option<Seq<u8>> {
    match spec_decode_client(s) {
        None => None,
        Some(m) => Some(spec_encode_server(spec_dispatch(m))),
    }
}

/// Decode one request frame, dispatch it, and encode the response.
pub fn handle_frame(buf: &[u8]) -> (r: Option<Vec<u8>>)
    ensures
        match r {
            Some(v) => frame_response(buf@) == Some(v@),
            None => frame_response(buf@) is None,
        },
{
    match decode_client(buf) {
        None => None,
        Some(m) => {
            let resp = process_message(m);
            Some(encode_server(&resp))
        },
    }
}

/// The reply a bare echo frame is owed: the same message, re-encoded.
pub open spec fn echo_frame_response(s: Seq<u8>) -> Option<Seq<u8>> {
    match echo_msg_of(s) {
        None => None,
        Some(e) => Some(echo_body(e.content)),
    }
}

/// Decode one bare `EchoMessage` frame and re-encode it unchanged.
pub fn echo_frame(buf: &[u8]) -> (r: Option<Vec<u8>>)
    ensures
        match r {
            Some(v) => echo_frame_response(buf@) == Some(v@),
            None => echo_frame_response(buf@) is None,
        },
{
    match decode_echo_message(buf) {
        None => None,
        Some(m) => Some(encode_echo_message(&m)),
    }
}

/// Decide one turn of the connection loop.  A cleared running flag or an
/// orderly disconnect ends the loop cleanly; an empty non-blocking read
/// is retried; an I/O failure ends the loop as an error; a frame is
/// answered by `frame_response`, with a malformed frame tolerated and
/// skipped.
pub fn handler_step(running: bool, event: ReadEvent) -> (r: HandlerAction)
    ensures
        !running ==> r is ExitClean,
        running && event is Disconnected ==> r is ExitClean,
        running && event is WouldBlock ==> r is Retry,
        running && event is Failed ==> r is ExitError,
        running ==> (event matches ReadEvent::Data(buf) ==> match frame_response(buf@) {
            Option::None => r is Skip,
            Option::Some(out) => r matches HandlerAction::Reply(v) && v@ == out,
        }),
{
    if !running {
        HandlerAction::ExitClean
    } else {
        match event {
            ReadEvent::Data(buf) => match handle_frame(buf.as_slice()) {
                None => HandlerAction::Skip,
                Some(v) => HandlerAction::Reply(v),
            },
            ReadEvent::Disconnected => HandlerAction::ExitClean,
            ReadEvent::WouldBlock => HandlerAction::Retry,
            ReadEvent::Failed => HandlerAction::ExitError,
        }
    }
}

/// Whether an executable response agrees with a specified one.
pub open spec fn response_matches(r: Option<Vec<u8>>, s: Option<Seq<u8>>) -> bool {
    match r {
        Option::None => s is None,
        Option::Some(v) => s matches Option::Some(t) && v@ == t,
    }
}

/// Handle a whole connection's frames in order.  The `i`th response
/// answers exactly the `i`th request: responses leave in the order the
/// requests arrived, and depend on this connection's frames alone.
pub fn session_responses(frames: &Vec<Vec<u8>>) -> (r: Vec<Option<Vec<u8>>>)
    ensures
        r@.len() == frames@.len(),
        forall|i: int|
            0 <= i < frames@.len() ==> response_matches(r@[i], frame_response(frames@[i]@)),
{
    let mut out: Vec<Option<Vec<u8>>> = Vec::new();
    let n = frames.len();
    let mut idx: usize = 0;
    while idx < n
        invariant
            idx <= n,
            n == frames@.len(),
            out@.len() == idx,
            forall|i: int| 0 <= i < idx ==> response_matches(out@[i], frame_response(frames@[i]@)),
        decreases n - idx,
    {
        let resp = handle_frame(frames[idx].as_slice());
        out.push(resp);
        idx += 1;
    }
    out
}

/// Echo identity: a client that sends any string as an echo request and
/// decodes the server's reply reads back exactly that string.
pub proof fn lemma_echo_identity(content: Seq<char>)
    requires
        encode_utf8(content).len() < WIRE_LEN_MAX,
    ensures
        ({
            let req = ClientMessageView {
                message: Some(ClientPayloadView::EchoMessage(EchoMessageView { content })),
            };
            let reply = ServerMessageView {
                message: Some(ServerPayloadView::EchoMessage(EchoMessageView { content })),
            };
            &&& frame_response(spec_encode_client(req)) == Some(spec_encode_server(reply))
            &&& spec_decode_server(spec_encode_server(reply)) == Some(reply)
        }),
{
    let req = ClientMessageView {
        message: Some(ClientPayloadView::EchoMessage(EchoMessageView { content })),
    };
    let reply = ServerMessageView {
        message: Some(ServerPayloadView::EchoMessage(EchoMessageView { content })),
    };
    lemma_client_roundtrip(req);
    assert(spec_dispatch(req) == reply);
    lemma_server_roundtrip(reply);
}

/// Addition correctness: any two 32-bit operands come back as their
/// two's-complement wrapping sum, including at the width's boundaries.
pub proof fn lemma_add_correctness(a: i32, b: i32)
    ensures
        ({
            let req = ClientMessageView {
                message: Some(ClientPayloadView::AddRequest(AddRequestView { a, b })),
            };
            let reply = ServerMessageView {
                message: Some(
                    ServerPayloadView::AddResponse(AddResponseView { result: a.wrapping_add(b) }),
                ),
            };
            &&& frame_response(spec_encode_client(req)) == Some(spec_encode_server(reply))
            &&& spec_decode_server(spec_encode_server(reply)) == Some(reply)
        }),
{
    let req = ClientMessageView {
        message: Some(ClientPayloadView::AddRequest(AddRequestView { a, b })),
    };
    let reply = ServerMessageView {
        message: Some(
            ServerPayloadView::AddResponse(AddResponseView { result: a.wrapping_add(b) }),
        ),
    };
    lemma_client_roundtrip(req);
    assert(spec_dispatch(req) == reply);
    lemma_server_roundtrip(reply);
}

/// Every reply the server forms for a decodable frame is itself a
/// decodable frame, carrying exactly the dispatched response: a client
/// mid-exchange reads back a well-formed response or nothing, never a
/// corrupted one.
pub proof fn lemma_reply_well_formed(s: Seq<u8>)
    requires
        s.len() < WIRE_LEN_MAX,
    ensures
        frame_response(s) matches Some(out) ==> (spec_decode_client(s) matches Some(m)
            && spec_decode_server(out) == Some(spec_dispatch(m))),
{
    match spec_decode_client(s) {
        Some(m) => {
            lemma_decoded_client_wf(s);
            assert(server_wf(spec_dispatch(m)));
            lemma_server_roundtrip(spec_dispatch(m));
        },
        None => {},
    }
}

/// Unsupported request: a frame that decodes to an envelope without a
/// recognized payload is answered with the empty response frame — an
/// explicit empty reply, not an error and not a dropped connection.
pub proof fn lemma_unsupported_empty_reply(s: Seq<u8>)
    requires
        spec_decode_client(s) == Some(ClientMessageView { message: None }),
    ensures
        frame_response(s) == Some(Seq::<u8>::empty()),
{
    assert(spec_encode_server(spec_dispatch(ClientMessageView { message: None }))
        =~= Seq::<u8>::empty());
}

} // verus!
