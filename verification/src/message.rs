//! The request and response envelopes and their payloads.
//!
//! A client sends a `ClientMessage`: an envelope whose payload is either an
//! echo request or an addition request, or absent when the frame carried
//! only fields this schema does not define.  The server answers with a
//! `ServerMessage`: an echo reply, an addition result, or an empty envelope
//! for an unsupported request.  Each type has a view struct over
//! mathematical values (`Seq<char>` for strings) that the contracts in the
//! rest of the crate speak of.

use vstd::prelude::*;

verus! {

/// An echo request or reply: the payload is a single string.
#[derive(Clone, Debug, PartialEq)]
pub struct EchoMessage {
    pub content: String,
}

/// A request to add two 32-bit integers.
#[derive(Clone, Debug, PartialEq)]
pub struct AddRequest {
    pub a: i32,
    pub b: i32,
}

/// The result of an addition request.
#[derive(Clone, Debug, PartialEq)]
pub struct AddResponse {
    pub result: i32,
}

/// The payload of a client envelope.
#[derive(Clone, Debug, PartialEq)]
pub enum ClientPayload {
    EchoMessage(EchoMessage),
    AddRequest(AddRequest),
}

/// The client-to-server envelope.  `message` is `None` when the decoded
/// frame held no payload field that this schema defines.
#[derive(Clone, Debug, PartialEq)]
pub struct ClientMessage {
    pub message: Option<ClientPayload>,
}

/// The payload of a server envelope.
#[derive(Clone, Debug, PartialEq)]
pub enum ServerPayload {
    EchoMessage(EchoMessage),
    AddResponse(AddResponse),
}

/// The server-to-client envelope.  `message` is `None` for the empty
/// response that answers an unsupported request.
#[derive(Clone, Debug, PartialEq)]
pub struct ServerMessage {
    pub message: Option<ServerPayload>,
}

#[verifier::ext_equal]
pub struct EchoMessageView {
    pub content: Seq<char>,
}

#[verifier::ext_equal]
pub struct AddRequestView {
    pub a: i32,
    pub b: i32,
}

#[verifier::ext_equal]
pub struct AddResponseView {
    pub result: i32,
}

#[verifier::ext_equal]
pub enum ClientPayloadView {
    EchoMessage(EchoMessageView),
    AddRequest(AddRequestView),
}

#[verifier::ext_equal]
pub struct ClientMessageView {
    pub message: Option<ClientPayloadView>,
}

#[verifier::ext_equal]
pub enum ServerPayloadView {
    EchoMessage(EchoMessageView),
    AddResponse(AddResponseView),
}

#[verifier::ext_equal]
pub struct ServerMessageView {
    pub message: Option<ServerPayloadView>,
}

impl View for EchoMessage {
    type V = EchoMessageView;

    open spec fn view(&self) -> EchoMessageView {
        EchoMessageView { content: self.content@ }
    }
}

impl View for AddRequest {
    type V = AddRequestView;

    open spec fn view(&self) -> AddRequestView {
        AddRequestView { a: self.a, b: self.b }
    }
}

impl View for AddResponse {
    type V = AddResponseView;

    open spec fn view(&self) -> AddResponseView {
        AddResponseView { result: self.result }
    }
}

impl View for ClientPayload {
    type V = ClientPayloadView;

    open spec fn view(&self) -> ClientPayloadView {
        match self {
            ClientPayload::EchoMessage(e) => ClientPayloadView::EchoMessage(e@),
            ClientPayload::AddRequest(r) => ClientPayloadView::AddRequest(r@),
        }
    }
}

impl View for ClientMessage {
    type V = ClientMessageView;

    open spec fn view(&self) -> ClientMessageView {
        match self.message {
            Option::None => ClientMessageView { message: Option::None },
            Option::Some(p) => ClientMessageView { message: Option::Some(p@) },
        }
    }
}

impl View for ServerPayload {
    type V = ServerPayloadView;

    open spec fn view(&self) -> ServerPayloadView {
        match self {
            ServerPayload::EchoMessage(e) => ServerPayloadView::EchoMessage(e@),
            ServerPayload::AddResponse(r) => ServerPayloadView::AddResponse(r@),
        }
    }
}

impl View for ServerMessage {
    type V = ServerMessageView;

    open spec fn view(&self) -> ServerMessageView {
        match self.message {
            Option::None => ServerMessageView { message: Option::None },
            Option::Some(p) => ServerMessageView { message: Option::Some(p@) },
        }
    }
}

} // verus!
