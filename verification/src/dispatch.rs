//! The request dispatcher: a pure mapping from a decoded request to the
//! response the server sends back.
//!
//! An echo request is answered with its own content; an addition request
//! with the two's-complement wrapping sum of its operands (silent
//! wraparound at the 32-bit boundary); an envelope without a recognized
//! payload with the empty response.

use vstd::prelude::*;

use crate::message::{
    AddResponse, AddResponseView, ClientMessage, ClientMessageView, ClientPayload,
    ClientPayloadView, EchoMessage, EchoMessageView, ServerMessage, ServerMessageView,
    ServerPayload, ServerPayloadView,
};

verus! {

/// What the dispatcher answers to one recognized request payload.
pub open spec fn spec_dispatch_payload(p: ClientPayloadView) -> ServerPayloadView {
    match p {
        ClientPayloadView::EchoMessage(e) => ServerPayloadView::EchoMessage(
            EchoMessageView { content: e.content },
        ),
        ClientPayloadView::AddRequest(r) => ServerPayloadView::AddResponse(
            AddResponseView { result: r.a.wrapping_add(r.b) },
        ),
    }
}

/// What the dispatcher answers to one request envelope: an unrecognized or
/// absent payload maps to the empty response, not to an error.
pub open spec fn spec_dispatch(m: ClientMessageView) -> ServerMessageView {
    match m.message {
        Option::None => ServerMessageView { message: Option::None },
        Option::Some(p) => ServerMessageView { message: Option::Some(spec_dispatch_payload(p)) },
    }
}

/// Answer one recognized request payload.  Echo requests come back with
/// the same content; addition wraps silently on 32-bit overflow.  Every
/// payload this schema defines is supported, so the error arm of the
/// result is never taken.
pub fn handle_message(request: ClientPayload) -> (r: Result<ServerPayload, String>)
    ensures
        r matches Ok(p) && p@ == spec_dispatch_payload(request@),
{
    match request {
        ClientPayload::EchoMessage(echo_msg) => {
            Ok(ServerPayload::EchoMessage(EchoMessage { content: echo_msg.content }))
        },
        ClientPayload::AddRequest(add_req) => {
            Ok(ServerPayload::AddResponse(AddResponse { result: add_req.a.wrapping_add(add_req.b) }))
        },
    }
}

/// Answer one request envelope.  An envelope that decoding left without a
/// recognized payload is answered with the empty response envelope.
pub fn process_message(message: ClientMessage) -> (r: ServerMessage)
    ensures
        r@ == spec_dispatch(message@),
{
    match message.message {
        Option::None => ServerMessage { message: None },
        Option::Some(p) => {
            match handle_message(p) {
                Ok(resp) => ServerMessage { message: Some(resp) },
                Err(_) => ServerMessage { message: None },
            }
        },
    }
}

} // verus!
