//! The message codec: each envelope and payload as one self-contained
//! encoded frame.
//!
//! The format follows the usual tag/length-delimited wire layout.  Every
//! field starts with a varint key `field_number * 8 + wire_type`; a
//! varint field (wire type 0) carries its value directly, a
//! length-delimited field (wire type 2) carries a varint byte count and
//! then that many bytes.  Fields equal to their default (an empty string,
//! a zero integer, an absent payload) are not written.  A decoder skips
//! unknown fields of wire types 0 and 2, keeps the last occurrence of a
//! repeated field, and rejects every other malformation: a truncated
//! varint or length, a wire type it cannot skip, or string bytes that are
//! not valid UTF-8.
//!
//! The schema: an `EchoMessage` has its string at field 1; an
//! `AddRequest` has `a` at field 1 and `b` at field 2, each the varint of
//! the value's 64-bit sign extension; an `AddResponse` has `result` at
//! field 1.  The client envelope carries an `EchoMessage` at field 1 or
//! an `AddRequest` at field 2; the server envelope an `EchoMessage` at
//! field 1 or an `AddResponse` at field 2, all length-delimited.  An
//! envelope with an absent payload encodes to the empty frame.

use vstd::prelude::*;
use vstd::arithmetic::div_mod::lemma_multiply_divide_lt;
use vstd::arithmetic::power2::{lemma2_to64, lemma2_to64_rest, lemma_pow2_adds, pow2};
use vstd::slice::{slice_subrange, slice_to_vec};
use vstd::utf8::{
    decode_utf8, decode_utf8_encode_utf8, encode_utf8, encode_utf8_decode_utf8,
    encode_utf8_valid_utf8, valid_utf8,
};

use crate::message::{
    AddRequest, AddRequestView, AddResponse, AddResponseView, ClientMessage, ClientMessageView,
    ClientPayload,
    ClientPayloadView, EchoMessage, EchoMessageView, ServerMessage, ServerMessageView,
    ServerPayload, ServerPayloadView,
};
use crate::wire::{
    decode_varint_at, encode_varint, lemma_trunc32_sx64, lemma_varint_roundtrip, sign_extend_i32,
    sx64, trunc32, truncate_to_i32, varint, varint_dec,
};

verus! {

// ---------------------------------------------------------------------
// Spec encoding
// ---------------------------------------------------------------------

/// A varint field: key byte, then the value.
pub open spec fn field_varint(key: u8, v: u64) -> Seq<u8> {
    seq![key] + varint(v as nat)
}

/// A length-delimited field: key byte, byte count, then the bytes.
pub open spec fn field_ld(key: u8, body: Seq<u8>) -> Seq<u8> {
    seq![key] + varint(body.len()) + body
}

/// The encoded body of an `EchoMessage`: its content's UTF-8 bytes at
/// field 1, omitted when empty.
pub open spec fn echo_body(content: Seq<char>) -> Seq<u8> {
    let cb = encode_utf8(content);
    if cb.len() == 0 {
        Seq::empty()
    } else {
        field_ld(0x0A, cb)
    }
}

/// The encoded body of an `AddRequest`: `a` at field 1 and `b` at
/// field 2, each omitted when zero.
pub open spec fn add_req_body(a: i32, b: i32) -> Seq<u8> {
    (if a == 0 {
        Seq::<u8>::empty()
    } else {
        field_varint(0x08, sx64(a))
    }) + (if b == 0 {
        Seq::<u8>::empty()
    } else {
        field_varint(0x10, sx64(b))
    })
}

/// The encoded body of an `AddResponse`: `result` at field 1, omitted
/// when zero.
pub open spec fn add_resp_body(result: i32) -> Seq<u8> {
    if result == 0 {
        Seq::empty()
    } else {
        field_varint(0x08, sx64(result))
    }
}

/// The encoded client envelope.
pub open spec fn spec_encode_client(m: ClientMessageView) -> Seq<u8> {
    match m.message {
        Option::None => Seq::empty(),
        Option::Some(ClientPayloadView::EchoMessage(e)) => field_ld(0x0A, echo_body(e.content)),
        Option::Some(ClientPayloadView::AddRequest(r)) => field_ld(0x12, add_req_body(r.a, r.b)),
    }
}

/// The encoded server envelope.
pub open spec fn spec_encode_server(m: ServerMessageView) -> Seq<u8> {
    match m.message {
        Option::None => Seq::empty(),
        Option::Some(ServerPayloadView::EchoMessage(e)) => field_ld(0x0A, echo_body(e.content)),
        Option::Some(ServerPayloadView::AddResponse(r)) => field_ld(0x12, add_resp_body(r.result)),
    }
}

// ---------------------------------------------------------------------
// Spec decoding
// ---------------------------------------------------------------------

/// How many bytes an unknown field of wire type `wt` occupies at the
/// front of `s`, or `None` when it cannot be skipped.
pub open spec fn skip_len(s: Seq<u8>, wt: u64) -> Option<int> {
    if wt == 0 {
        match varint_dec(s) {
            None => None,
            Some((v, k)) => Some(k),
        }
    } else if wt == 2 {
        match varint_dec(s) {
            None => None,
            Some((len, k)) => if k + len <= s.len() {
                Some(k + len)
            } else {
                None
            },
        }
    } else {
        None
    }
}

/// Reads the fields of an `EchoMessage` body, carrying the content seen
/// so far; the last content field wins.
pub open spec fn echo_fields(s: Seq<u8>, content: Seq<u8>) -> Option<Seq<u8>>
    decreases s.len(),
{
    if s.len() == 0 {
        Some(content)
    } else {
        match varint_dec(s) {
            None => None,
            Some((key, k)) => if !(1 <= k <= s.len()) {
                None
            } else {
                let r1 = s.skip(k);
                if key == 0x0A {
                    match varint_dec(r1) {
                        None => None,
                        Some((len, k2)) => if !(1 <= k2 <= r1.len()) {
                            None
                        } else {
                            let r2 = r1.skip(k2);
                            if len <= r2.len() {
                                echo_fields(r2.skip(len as int), r2.take(len as int))
                            } else {
                                None
                            }
                        },
                    }
                } else {
                    match skip_len(r1, key % 8) {
                        None => None,
                        Some(c) => if !(0 <= c <= r1.len()) {
                            None
                        } else {
                            echo_fields(r1.skip(c), content)
                        },
                    }
                }
            },
        }
    }
}

/// The `EchoMessage` an encoded body denotes, if any: its content bytes
/// must be valid UTF-8.
pub open spec fn echo_msg_of(s: Seq<u8>) -> Option<EchoMessageView> {
    match echo_fields(s, Seq::empty()) {
        None => None,
        Some(cb) => if valid_utf8(cb) {
            Some(EchoMessageView { content: decode_utf8(cb) })
        } else {
            None
        },
    }
}

/// Reads the fields of an `AddRequest` body, carrying the operands seen
/// so far.
pub open spec fn add_req_fields(s: Seq<u8>, a: u64, b: u64) -> Option<(u64, u64)>
    decreases s.len(),
{
    if s.len() == 0 {
        Some((a, b))
    } else {
        match varint_dec(s) {
            None => None,
            Some((key, k)) => if !(1 <= k <= s.len()) {
                None
            } else {
                let r1 = s.skip(k);
                if key == 0x08 || key == 0x10 {
                    match varint_dec(r1) {
                        None => None,
                        Some((v, k2)) => if !(1 <= k2 <= r1.len()) {
                            None
                        } else if key == 0x08 {
                            add_req_fields(r1.skip(k2), v, b)
                        } else {
                            add_req_fields(r1.skip(k2), a, v)
                        },
                    }
                } else {
                    match skip_len(r1, key % 8) {
                        None => None,
                        Some(c) => if !(0 <= c <= r1.len()) {
                            None
                        } else {
                            add_req_fields(r1.skip(c), a, b)
                        },
                    }
                }
            },
        }
    }
}

/// The `AddRequest` an encoded body denotes, if any.
pub open spec fn add_req_of(s: Seq<u8>) -> Option<AddRequestView> {
    match add_req_fields(s, 0, 0) {
        None => None,
        Some((a, b)) => Some(AddRequestView { a: trunc32(a), b: trunc32(b) }),
    }
}

/// Reads the fields of an `AddResponse` body, carrying the result seen
/// so far.
pub open spec fn add_resp_fields(s: Seq<u8>, result: u64) -> Option<u64>
    decreases s.len(),
{
    if s.len() == 0 {
        Some(result)
    } else {
        match varint_dec(s) {
            None => None,
            Some((key, k)) => if !(1 <= k <= s.len()) {
                None
            } else {
                let r1 = s.skip(k);
                if key == 0x08 {
                    match varint_dec(r1) {
                        None => None,
                        Some((v, k2)) => if !(1 <= k2 <= r1.len()) {
                            None
                        } else {
                            add_resp_fields(r1.skip(k2), v)
                        },
                    }
                } else {
                    match skip_len(r1, key % 8) {
                        None => None,
                        Some(c) => if !(0 <= c <= r1.len()) {
                            None
                        } else {
                            add_resp_fields(r1.skip(c), result)
                        },
                    }
                }
            },
        }
    }
}

/// The `AddResponse` an encoded body denotes, if any.
pub open spec fn add_resp_of(s: Seq<u8>) -> Option<AddResponseView> {
    match add_resp_fields(s, 0) {
        None => None,
        Some(v) => Some(AddResponseView { result: trunc32(v) }),
    }
}

/// Reads the fields of a client envelope, carrying the payload seen so
/// far; an unknown field is skipped and leaves the payload as it was.
pub open spec fn client_fields(s: Seq<u8>, p: Option<ClientPayloadView>) -> Option<
    Option<ClientPayloadView>,
>
    decreases s.len(),
{
    if s.len() == 0 {
        Some(p)
    } else {
        match varint_dec(s) {
            None => None,
            Some((key, k)) => if !(1 <= k <= s.len()) {
                None
            } else {
                let r1 = s.skip(k);
                if key == 0x0A || key == 0x12 {
                    match varint_dec(r1) {
                        None => None,
                        Some((len, k2)) => if !(1 <= k2 <= r1.len()) {
                            None
                        } else {
                            let r2 = r1.skip(k2);
                            if len <= r2.len() {
                                let body = r2.take(len as int);
                                if key == 0x0A {
                                    match echo_msg_of(body) {
                                        None => None,
                                        Some(e) => client_fields(
                                            r2.skip(len as int),
                                            Some(ClientPayloadView::EchoMessage(e)),
                                        ),
                                    }
                                } else {
                                    match add_req_of(body) {
                                        None => None,
                                        Some(r) => client_fields(
                                            r2.skip(len as int),
                                            Some(ClientPayloadView::AddRequest(r)),
                                        ),
                                    }
                                }
                            } else {
                                None
                            }
                        },
                    }
                } else {
                    match skip_len(r1, key % 8) {
                        None => None,
                        Some(c) => if !(0 <= c <= r1.len()) {
                            None
                        } else {
                            client_fields(r1.skip(c), p)
                        },
                    }
                }
            },
        }
    }
}

/// The client envelope an encoded frame denotes, if any.
pub open spec fn spec_decode_client(s: Seq<u8>) -> Option<ClientMessageView> {
    match client_fields(s, None) {
        None => None,
        Some(p) => Some(ClientMessageView { message: p }),
    }
}

/// Reads the fields of a server envelope, carrying the payload seen so
/// far.
pub open spec fn server_fields(s: Seq<u8>, p: Option<ServerPayloadView>) -> Option<
    Option<ServerPayloadView>,
>
    decreases s.len(),
{
    if s.len() == 0 {
        Some(p)
    } else {
        match varint_dec(s) {
            None => None,
            Some((key, k)) => if !(1 <= k <= s.len()) {
                None
            } else {
                let r1 = s.skip(k);
                if key == 0x0A || key == 0x12 {
                    match varint_dec(r1) {
                        None => None,
                        Some((len, k2)) => if !(1 <= k2 <= r1.len()) {
                            None
                        } else {
                            let r2 = r1.skip(k2);
                            if len <= r2.len() {
                                let body = r2.take(len as int);
                                if key == 0x0A {
                                    match echo_msg_of(body) {
                                        None => None,
                                        Some(e) => server_fields(
                                            r2.skip(len as int),
                                            Some(ServerPayloadView::EchoMessage(e)),
                                        ),
                                    }
                                } else {
                                    match add_resp_of(body) {
                                        None => None,
                                        Some(r) => server_fields(
                                            r2.skip(len as int),
                                            Some(ServerPayloadView::AddResponse(r)),
                                        ),
                                    }
                                }
                            } else {
                                None
                            }
                        },
                    }
                } else {
                    match skip_len(r1, key % 8) {
                        None => None,
                        Some(c) => if !(0 <= c <= r1.len()) {
                            None
                        } else {
                            server_fields(r1.skip(c), p)
                        },
                    }
                }
            },
        }
    }
}

/// The server envelope an encoded frame denotes, if any.
pub open spec fn spec_decode_server(s: Seq<u8>) -> Option<ServerMessageView> {
    match server_fields(s, None) {
        None => None,
        Some(p) => Some(ServerMessageView { message: p }),
    }
}

// ---------------------------------------------------------------------
// Executable decoding
// ---------------------------------------------------------------------

/// Relies on `String::from_utf8`: it returns `Ok` exactly on byte
/// vectors that are valid UTF-8, and then the returned string is those
/// bytes decoded.
#[verifier::external_body]
fn bytes_to_string(v: Vec<u8>) -> (r: Option<String>)
    ensures
        r is Some <==> valid_utf8(v@),
        r matches Some(s) ==> s@ == decode_utf8(v@),
{
    match String::from_utf8(v) {
        Ok(s) => Some(s),
        Err(_) => None,
    }
}

/// Skip one unknown field of wire type `wt` starting at `i`; returns the
/// index just past it.
fn skip_field(buf: &[u8], i: usize, wt: u64) -> (r: Option<usize>)
    requires
        i <= buf@.len(),
    ensures
        match r {
            Some(j) => skip_len(buf@.skip(i as int), wt) == Some(j - i as int) && i <= j
                <= buf@.len(),
            None => skip_len(buf@.skip(i as int), wt) is None,
        },
{
    if wt == 0 {
        match decode_varint_at(buf, i) {
            None => None,
            Some((_v, j)) => Some(j),
        }
    } else if wt == 2 {
        match decode_varint_at(buf, i) {
            None => None,
            Some((len, j)) => {
                let rem = (buf.len() - j) as u64;
                if len <= rem {
                    Some(j + len as usize)
                } else {
                    None
                }
            },
        }
    } else {
        None
    }
}

/// Read the fields of an `EchoMessage` body from `buf[i..]`.
fn parse_echo_fields(buf: &[u8], i: usize, content: Vec<u8>) -> (r: Option<Vec<u8>>)
    requires
        i <= buf@.len(),
    ensures
        match r {
            Some(c) => echo_fields(buf@.skip(i as int), content@) == Some(c@),
            None => echo_fields(buf@.skip(i as int), content@) is None,
        },
    decreases buf@.len() - i,
{
    if i == buf.len() {
        Some(content)
    } else {
        match decode_varint_at(buf, i) {
            None => None,
            Some((key, j)) => {
                assert(buf@.skip(i as int).skip(j - i as int) =~= buf@.skip(j as int));
                if key == 0x0A {
                    match decode_varint_at(buf, j) {
                        None => None,
                        Some((len, j2)) => {
                            assert(buf@.skip(j as int).skip(j2 - j as int) =~= buf@.skip(
                                j2 as int,
                            ));
                            let rem = (buf.len() - j2) as u64;
                            if len <= rem {
                                let len_us = len as usize;
                                let sub = slice_subrange(buf, j2, j2 + len_us);
                                let newc = slice_to_vec(sub);
                                assert(newc@ =~= buf@.skip(j2 as int).take(len as int));
                                assert(buf@.skip(j2 as int).skip(len as int) =~= buf@.skip(
                                    j2 as int + len as int,
                                ));
                                parse_echo_fields(buf, j2 + len_us, newc)
                            } else {
                                None
                            }
                        },
                    }
                } else {
                    match skip_field(buf, j, key % 8) {
                        None => None,
                        Some(j3) => {
                            assert(buf@.skip(j as int).skip(j3 - j as int) =~= buf@.skip(
                                j3 as int,
                            ));
                            parse_echo_fields(buf, j3, content)
                        },
                    }
                }
            },
        }
    }
}

/// Decode one bare `EchoMessage` frame.
pub fn decode_echo_message(buf: &[u8]) -> (r: Option<EchoMessage>)
    ensures
        r matches Some(m) ==> echo_msg_of(buf@) == Some(m@),
        r is None ==> echo_msg_of(buf@) is None,
{
    let empty_content: Vec<u8> = Vec::new();
    assert(buf@.skip(0) =~= buf@);
    assert(empty_content@ =~= Seq::<u8>::empty());
    match parse_echo_fields(buf, 0, empty_content) {
        None => None,
        Some(cb) => match bytes_to_string(cb) {
            None => None,
            Some(s) => Some(EchoMessage { content: s }),
        },
    }
}

/// Read the fields of an `AddRequest` body from `buf[i..]`.
fn parse_add_req_fields(buf: &[u8], i: usize, a: u64, b: u64) -> (r: Option<(u64, u64)>)
    requires
        i <= buf@.len(),
    ensures
        match r {
            Some(ab) => add_req_fields(buf@.skip(i as int), a, b) == Some(ab),
            None => add_req_fields(buf@.skip(i as int), a, b) is None,
        },
    decreases buf@.len() - i,
{
    if i == buf.len() {
        Some((a, b))
    } else {
        match decode_varint_at(buf, i) {
            None => None,
            Some((key, j)) => {
                assert(buf@.skip(i as int).skip(j - i as int) =~= buf@.skip(j as int));
                if key == 0x08 || key == 0x10 {
                    match decode_varint_at(buf, j) {
                        None => None,
                        Some((v, j2)) => {
                            assert(buf@.skip(j as int).skip(j2 - j as int) =~= buf@.skip(
                                j2 as int,
                            ));
                            if key == 0x08 {
                                parse_add_req_fields(buf, j2, v, b)
                            } else {
                                parse_add_req_fields(buf, j2, a, v)
                            }
                        },
                    }
                } else {
                    match skip_field(buf, j, key % 8) {
                        None => None,
                        Some(j3) => {
                            assert(buf@.skip(j as int).skip(j3 - j as int) =~= buf@.skip(
                                j3 as int,
                            ));
                            parse_add_req_fields(buf, j3, a, b)
                        },
                    }
                }
            },
        }
    }
}

/// Decode one bare `AddRequest` body.
fn decode_add_request(buf: &[u8]) -> (r: Option<AddRequest>)
    ensures
        r matches Some(m) ==> add_req_of(buf@) == Some(m@),
        r is None ==> add_req_of(buf@) is None,
{
    assert(buf@.skip(0) =~= buf@);
    match parse_add_req_fields(buf, 0, 0, 0) {
        None => None,
        Some((a, b)) => Some(AddRequest { a: truncate_to_i32(a), b: truncate_to_i32(b) }),
    }
}

/// Read the fields of an `AddResponse` body from `buf[i..]`.
fn parse_add_resp_fields(buf: &[u8], i: usize, result: u64) -> (r: Option<u64>)
    requires
        i <= buf@.len(),
    ensures
        match r {
            Some(v) => add_resp_fields(buf@.skip(i as int), result) == Some(v),
            None => add_resp_fields(buf@.skip(i as int), result) is None,
        },
    decreases buf@.len() - i,
{
    if i == buf.len() {
        Some(result)
    } else {
        match decode_varint_at(buf, i) {
            None => None,
            Some((key, j)) => {
                assert(buf@.skip(i as int).skip(j - i as int) =~= buf@.skip(j as int));
                if key == 0x08 {
                    match decode_varint_at(buf, j) {
                        None => None,
                        Some((v, j2)) => {
                            assert(buf@.skip(j as int).skip(j2 - j as int) =~= buf@.skip(
                                j2 as int,
                            ));
                            parse_add_resp_fields(buf, j2, v)
                        },
                    }
                } else {
                    match skip_field(buf, j, key % 8) {
                        None => None,
                        Some(j3) => {
                            assert(buf@.skip(j as int).skip(j3 - j as int) =~= buf@.skip(
                                j3 as int,
                            ));
                            parse_add_resp_fields(buf, j3, result)
                        },
                    }
                }
            },
        }
    }
}

/// Decode one bare `AddResponse` body.
fn decode_add_response(buf: &[u8]) -> (r: Option<AddResponse>)
    ensures
        r matches Some(m) ==> add_resp_of(buf@) == Some(m@),
        r is None ==> add_resp_of(buf@) is None,
{
    assert(buf@.skip(0) =~= buf@);
    match parse_add_resp_fields(buf, 0, 0) {
        None => None,
        Some(v) => Some(AddResponse { result: truncate_to_i32(v) }),
    }
}

/// The view of a client payload accumulator.
pub open spec fn opt_client_payload_view(p: Option<ClientPayload>) -> Option<ClientPayloadView> {
    match p {
        Option::None => Option::None,
        Option::Some(x) => Option::Some(x@),
    }
}

/// The view of a server payload accumulator.
pub open spec fn opt_server_payload_view(p: Option<ServerPayload>) -> Option<ServerPayloadView> {
    match p {
        Option::None => Option::None,
        Option::Some(x) => Option::Some(x@),
    }
}

/// Read the fields of a client envelope from `buf[i..]`.
#[verifier::rlimit(50)]
fn parse_client_fields(buf: &[u8], i: usize, p: Option<ClientPayload>) -> (r: Option<
    Option<ClientPayload>,
>)
    requires
        i <= buf@.len(),
    ensures
        match r {
            Some(q) => client_fields(buf@.skip(i as int), opt_client_payload_view(p)) == Some(
                opt_client_payload_view(q),
            ),
            None => client_fields(buf@.skip(i as int), opt_client_payload_view(p)) is None,
        },
    decreases buf@.len() - i,
{
    if i == buf.len() {
        Some(p)
    } else {
        match decode_varint_at(buf, i) {
            None => None,
            Some((key, j)) => {
                assert(buf@.skip(i as int).skip(j - i as int) =~= buf@.skip(j as int));
                if key == 0x0A || key == 0x12 {
                    match decode_varint_at(buf, j) {
                        None => None,
                        Some((len, j2)) => {
                            assert(buf@.skip(j as int).skip(j2 - j as int) =~= buf@.skip(
                                j2 as int,
                            ));
                            let rem = (buf.len() - j2) as u64;
                            if len <= rem {
                                let len_us = len as usize;
                                let sub = slice_subrange(buf, j2, j2 + len_us);
                                assert(sub@ =~= buf@.skip(j2 as int).take(len as int));
                                assert(buf@.skip(j2 as int).skip(len as int) =~= buf@.skip(
                                    j2 as int + len as int,
                                ));
                                if key == 0x0A {
                                    match decode_echo_message(sub) {
                                        None => None,
                                        Some(e) => parse_client_fields(
                                            buf,
                                            j2 + len_us,
                                            Some(ClientPayload::EchoMessage(e)),
                                        ),
                                    }
                                } else {
                                    match decode_add_request(sub) {
                                        None => None,
                                        Some(ar) => parse_client_fields(
                                            buf,
                                            j2 + len_us,
                                            Some(ClientPayload::AddRequest(ar)),
                                        ),
                                    }
                                }
                            } else {
                                None
                            }
                        },
                    }
                } else {
                    match skip_field(buf, j, key % 8) {
                        None => None,
                        Some(j3) => {
                            assert(buf@.skip(j as int).skip(j3 - j as int) =~= buf@.skip(
                                j3 as int,
                            ));
                            parse_client_fields(buf, j3, p)
                        },
                    }
                }
            },
        }
    }
}

/// Decode one client envelope frame.
pub fn decode_client(buf: &[u8]) -> (r: Option<ClientMessage>)
    ensures
        r matches Some(m) ==> spec_decode_client(buf@) == Some(m@),
        r is None ==> spec_decode_client(buf@) is None,
{
    assert(buf@.skip(0) =~= buf@);
    match parse_client_fields(buf, 0, None) {
        None => None,
        Some(p) => Some(ClientMessage { message: p }),
    }
}

/// Read the fields of a server envelope from `buf[i..]`.
#[verifier::rlimit(50)]
fn parse_server_fields(buf: &[u8], i: usize, p: Option<ServerPayload>) -> (r: Option<
    Option<ServerPayload>,
>)
    requires
        i <= buf@.len(),
    ensures
        match r {
            Some(q) => server_fields(buf@.skip(i as int), opt_server_payload_view(p)) == Some(
                opt_server_payload_view(q),
            ),
            None => server_fields(buf@.skip(i as int), opt_server_payload_view(p)) is None,
        },
    decreases buf@.len() - i,
{
    if i == buf.len() {
        Some(p)
    } else {
        match decode_varint_at(buf, i) {
            None => None,
            Some((key, j)) => {
                assert(buf@.skip(i as int).skip(j - i as int) =~= buf@.skip(j as int));
                if key == 0x0A || key == 0x12 {
                    match decode_varint_at(buf, j) {
                        None => None,
                        Some((len, j2)) => {
                            assert(buf@.skip(j as int).skip(j2 - j as int) =~= buf@.skip(
                                j2 as int,
                            ));
                            let rem = (buf.len() - j2) as u64;
                            if len <= rem {
                                let len_us = len as usize;
                                let sub = slice_subrange(buf, j2, j2 + len_us);
                                assert(sub@ =~= buf@.skip(j2 as int).take(len as int));
                                assert(buf@.skip(j2 as int).skip(len as int) =~= buf@.skip(
                                    j2 as int + len as int,
                                ));
                                if key == 0x0A {
                                    match decode_echo_message(sub) {
                                        None => None,
                                        Some(e) => parse_server_fields(
                                            buf,
                                            j2 + len_us,
                                            Some(ServerPayload::EchoMessage(e)),
                                        ),
                                    }
                                } else {
                                    match decode_add_response(sub) {
                                        None => None,
                                        Some(ar) => parse_server_fields(
                                            buf,
                                            j2 + len_us,
                                            Some(ServerPayload::AddResponse(ar)),
                                        ),
                                    }
                                }
                            } else {
                                None
                            }
                        },
                    }
                } else {
                    match skip_field(buf, j, key % 8) {
                        None => None,
                        Some(j3) => {
                            assert(buf@.skip(j as int).skip(j3 - j as int) =~= buf@.skip(
                                j3 as int,
                            ));
                            parse_server_fields(buf, j3, p)
                        },
                    }
                }
            },
        }
    }
}

/// Decode one server envelope frame.
pub fn decode_server(buf: &[u8]) -> (r: Option<ServerMessage>)
    ensures
        r matches Some(m) ==> spec_decode_server(buf@) == Some(m@),
        r is None ==> spec_decode_server(buf@) is None,
{
    assert(buf@.skip(0) =~= buf@);
    match parse_server_fields(buf, 0, None) {
        None => None,
        Some(p) => Some(ServerMessage { message: p }),
    }
}

// ---------------------------------------------------------------------
// Executable encoding
// ---------------------------------------------------------------------

/// Append one varint field.
fn encode_field_varint(out: &mut Vec<u8>, key: u8, v: u64)
    ensures
        final(out)@ == old(out)@ + field_varint(key, v),
{
    out.push(key);
    encode_varint(out, v);
    proof {
        assert(out@ =~= old(out)@ + field_varint(key, v));
    }
}

/// Wrap one encoded body as a length-delimited field.
fn encode_envelope(key: u8, body: Vec<u8>) -> (r: Vec<u8>)
    ensures
        r@ == field_ld(key, body@),
{
    let ghost bv = body@;
    let mut out: Vec<u8> = Vec::new();
    out.push(key);
    encode_varint(&mut out, body.len() as u64);
    let mut bm = body;
    out.append(&mut bm);
    proof {
        assert(out@ =~= field_ld(key, bv));
    }
    out
}

/// Encode one bare `EchoMessage` frame.
pub fn encode_echo_message(m: &EchoMessage) -> (r: Vec<u8>)
    ensures
        r@ == echo_body(m.content@),
{
    let cb: Vec<u8> = slice_to_vec(m.content.as_str().as_bytes());
    if cb.len() == 0 {
        let out: Vec<u8> = Vec::new();
        assert(out@ =~= echo_body(m.content@));
        out
    } else {
        let ghost cbv = cb@;
        let mut out: Vec<u8> = Vec::new();
        out.push(0x0A);
        encode_varint(&mut out, cb.len() as u64);
        let mut cbm = cb;
        out.append(&mut cbm);
        proof {
            assert(out@ =~= echo_body(m.content@));
        }
        out
    }
}

/// Encode one bare `AddRequest` body.
fn encode_add_req_body(a: i32, b: i32) -> (r: Vec<u8>)
    ensures
        r@ == add_req_body(a, b),
{
    let mut out: Vec<u8> = Vec::new();
    if a != 0 {
        encode_field_varint(&mut out, 0x08, sign_extend_i32(a));
    }
    if b != 0 {
        encode_field_varint(&mut out, 0x10, sign_extend_i32(b));
    }
    proof {
        assert(out@ =~= add_req_body(a, b));
    }
    out
}

/// Encode one bare `AddResponse` body.
fn encode_add_resp_body(result: i32) -> (r: Vec<u8>)
    ensures
        r@ == add_resp_body(result),
{
    let mut out: Vec<u8> = Vec::new();
    if result != 0 {
        encode_field_varint(&mut out, 0x08, sign_extend_i32(result));
    }
    proof {
        assert(out@ =~= add_resp_body(result));
    }
    out
}

/// Encode one client envelope frame.
pub fn encode_client(m: &ClientMessage) -> (r: Vec<u8>)
    ensures
        r@ == spec_encode_client(m@),
{
    match &m.message {
        None => {
            let out: Vec<u8> = Vec::new();
            assert(out@ =~= spec_encode_client(m@));
            out
        },
        Some(ClientPayload::EchoMessage(e)) => encode_envelope(0x0A, encode_echo_message(e)),
        Some(ClientPayload::AddRequest(ar)) => encode_envelope(0x12, encode_add_req_body(ar.a, ar.b)),
    }
}

/// Encode one server envelope frame.
pub fn encode_server(m: &ServerMessage) -> (r: Vec<u8>)
    ensures
        r@ == spec_encode_server(m@),
{
    match &m.message {
        None => {
            let out: Vec<u8> = Vec::new();
            assert(out@ =~= spec_encode_server(m@));
            out
        },
        Some(ServerPayload::EchoMessage(e)) => encode_envelope(0x0A, encode_echo_message(e)),
        Some(ServerPayload::AddResponse(ar)) => encode_envelope(0x12, encode_add_resp_body(ar.result)),
    }
}

// ---------------------------------------------------------------------
// Round trips
// ---------------------------------------------------------------------

/// A value below `pow2(7 * d)` encodes in at most `d` varint bytes.
proof fn lemma_varint_len_bound(n: nat, d: nat)
    requires
        1 <= d,
        n < pow2(7 * d),
    ensures
        varint(n).len() <= d,
    decreases d,
{
    if n >= 128 {
        assert(pow2(7) == 128) by {
            lemma2_to64();
        };
        if d == 1 {
            assert(false);
        }
        lemma_pow2_adds(7, 7 * (d - 1) as nat);
        assert(pow2(7 * d) == 128 * pow2(7 * (d - 1) as nat));
        lemma_multiply_divide_lt(n as int, 128, pow2(7 * (d - 1) as nat) as int);
        lemma_varint_len_bound(n / 128, (d - 1) as nat);
    }
}

/// A 64-bit value encodes in at most ten varint bytes.
pub proof fn lemma_varint_len_u64(v: u64)
    ensures
        varint(v as nat).len() <= 10,
{
    assert(pow2(64) == 0x1_0000_0000_0000_0000) by {
        lemma2_to64_rest();
    };
    assert(pow2(70) == pow2(64) * pow2(6)) by {
        lemma_pow2_adds(64, 6);
    };
    assert(pow2(6) == 0x40) by {
        lemma2_to64();
    };
    lemma_varint_len_bound(v as nat, 10);
}

/// Lengths that the codec's 64-bit varints can always carry, with room
/// for an envelope around them.
pub const WIRE_LEN_MAX: u64 = 0x1000_0000_0000_0000;

/// An encoded echo body reads back as the message it came from.
pub proof fn lemma_echo_body_roundtrip(content: Seq<char>)
    requires
        encode_utf8(content).len() < WIRE_LEN_MAX,
    ensures
        echo_msg_of(echo_body(content)) == Some(EchoMessageView { content }),
        echo_body(content).len() <= encode_utf8(content).len() + 11,
{
    let cb = encode_utf8(content);
    encode_utf8_valid_utf8(content);
    encode_utf8_decode_utf8(content);
    let s = echo_body(content);
    if cb.len() == 0 {
        assert(s.len() == 0);
        assert(echo_fields(s, Seq::empty()) == Some(Seq::<u8>::empty()));
        assert(cb =~= Seq::<u8>::empty());
    } else {
        let lv = varint(cb.len());
        lemma_varint_len_u64(cb.len() as u64);
        assert(s =~= seq![0x0Au8] + lv + cb);
        assert(s[0] == 0x0A);
        assert(varint_dec(s) == Some((10u64, 1int)));
        let r1 = s.skip(1);
        assert(r1 =~= lv + cb);
        lemma_varint_roundtrip(cb.len() as u64, cb);
        assert(varint_dec(r1) == Some((cb.len() as u64, lv.len() as int)));
        let r2 = r1.skip(lv.len() as int);
        assert(r2 =~= cb);
        assert(r2.take(cb.len() as int) =~= cb);
        assert(r2.skip(cb.len() as int) =~= Seq::<u8>::empty());
        assert(echo_fields(Seq::<u8>::empty(), cb) == Some(cb));
        assert(echo_fields(s, Seq::empty()) == Some(cb));
    }
    assert(echo_msg_of(s) == Some(EchoMessageView { content: decode_utf8(cb) }));
    assert(EchoMessageView { content: decode_utf8(cb) } == EchoMessageView { content });
}

/// The trailing operand field of an addition request parses under any
/// accumulator.
proof fn lemma_add_req_tail(b: i32, x: u64)
    requires
        b != 0,
    ensures
        add_req_fields(field_varint(0x10, sx64(b)), x, 0) == Some((x, sx64(b))),
{
    let fb = field_varint(0x10, sx64(b));
    let lvb = varint(sx64(b) as nat);
    assert(fb =~= seq![0x10u8] + lvb);
    assert(fb[0] == 0x10);
    assert(varint_dec(fb) == Some((16u64, 1int)));
    lemma_varint_roundtrip(sx64(b), Seq::empty());
    assert(fb.skip(1) =~= lvb + Seq::<u8>::empty());
    assert(fb.skip(1) =~= lvb);
    assert(varint_dec(fb.skip(1)) == Some((sx64(b), lvb.len() as int)));
    assert(fb.skip(1).skip(lvb.len() as int) =~= Seq::<u8>::empty());
    assert(add_req_fields(Seq::empty(), x, sx64(b)) == Some((x, sx64(b))));
}

/// An encoded addition-request body reads back as its two operands.
pub proof fn lemma_add_req_body_roundtrip(a: i32, b: i32)
    ensures
        add_req_of(add_req_body(a, b)) == Some(AddRequestView { a, b }),
        add_req_body(a, b).len() <= 22,
{
    lemma_trunc32_sx64(a);
    lemma_trunc32_sx64(b);
    lemma_trunc32_sx64(0);
    lemma_varint_len_u64(sx64(a));
    lemma_varint_len_u64(sx64(b));
    let s = add_req_body(a, b);
    let fb = if b == 0 {
        Seq::<u8>::empty()
    } else {
        field_varint(0x10, sx64(b))
    };
    if a != 0 {
        let lva = varint(sx64(a) as nat);
        assert(s =~= seq![0x08u8] + lva + fb);
        assert(s[0] == 0x08);
        assert(varint_dec(s) == Some((8u64, 1int)));
        lemma_varint_roundtrip(sx64(a), fb);
        assert(s.skip(1) =~= lva + fb);
        assert(varint_dec(s.skip(1)) == Some((sx64(a), lva.len() as int)));
        assert(s.skip(1).skip(lva.len() as int) =~= fb);
        if b != 0 {
            lemma_add_req_tail(b, sx64(a));
            assert(add_req_fields(s, 0, 0) == Some((sx64(a), sx64(b))));
        } else {
            assert(fb =~= Seq::<u8>::empty());
            assert(add_req_fields(fb, sx64(a), 0) == Some((sx64(a), 0u64)));
            assert(add_req_fields(s, 0, 0) == Some((sx64(a), 0u64)));
        }
    } else {
        assert(s =~= fb);
        if b != 0 {
            lemma_add_req_tail(b, 0);
            assert(add_req_fields(s, 0, 0) == Some((0u64, sx64(b))));
        } else {
            assert(s.len() == 0);
            assert(add_req_fields(s, 0, 0) == Some((0u64, 0u64)));
        }
    }
    assert(sx64(0) == 0);
    assert(trunc32(0u64) == 0i32);
}

/// An encoded addition-response body reads back as its result.
pub proof fn lemma_add_resp_body_roundtrip(result: i32)
    ensures
        add_resp_of(add_resp_body(result)) == Some(AddResponseView { result }),
        add_resp_body(result).len() <= 11,
{
    lemma_trunc32_sx64(result);
    lemma_trunc32_sx64(0);
    lemma_varint_len_u64(sx64(result));
    let s = add_resp_body(result);
    if result != 0 {
        let lv = varint(sx64(result) as nat);
        assert(s =~= seq![0x08u8] + lv);
        assert(s[0] == 0x08);
        assert(varint_dec(s) == Some((8u64, 1int)));
        lemma_varint_roundtrip(sx64(result), Seq::empty());
        assert(s.skip(1) =~= lv + Seq::<u8>::empty());
        assert(s.skip(1) =~= lv);
        assert(varint_dec(s.skip(1)) == Some((sx64(result), lv.len() as int)));
        assert(s.skip(1).skip(lv.len() as int) =~= Seq::<u8>::empty());
        assert(add_resp_fields(Seq::empty(), sx64(result)) == Some(sx64(result)));
        assert(add_resp_fields(s, 0) == Some(sx64(result)));
    } else {
        assert(s.len() == 0);
        assert(add_resp_fields(s, 0) == Some(0u64));
    }
    assert(trunc32(0u64) == 0i32);
}

/// Whether a client envelope's lengths fit the wire's 64-bit varints; a
/// machine-representable message always does.
pub open spec fn client_wf(m: ClientMessageView) -> bool {
    match m.message {
        Option::Some(ClientPayloadView::EchoMessage(e)) => encode_utf8(e.content).len()
            < WIRE_LEN_MAX,
        _ => true,
    }
}

/// Whether a server envelope's lengths fit the wire's 64-bit varints.
pub open spec fn server_wf(m: ServerMessageView) -> bool {
    match m.message {
        Option::Some(ServerPayloadView::EchoMessage(e)) => encode_utf8(e.content).len()
            < WIRE_LEN_MAX,
        _ => true,
    }
}

/// Decoding inverts encoding on every client envelope: the codec loses
/// nothing a client can say.
pub proof fn lemma_client_roundtrip(m: ClientMessageView)
    requires
        client_wf(m),
    ensures
        spec_decode_client(spec_encode_client(m)) == Some(m),
{
    let s = spec_encode_client(m);
    match m.message {
        Option::None => {
            assert(s.len() == 0);
            assert(client_fields(s, None) == Some(Option::<ClientPayloadView>::None));
        },
        Option::Some(ClientPayloadView::EchoMessage(e)) => {
            let body = echo_body(e.content);
            lemma_echo_body_roundtrip(e.content);
            lemma_varint_len_u64(body.len() as u64);
            let lv = varint(body.len());
            assert(s =~= seq![0x0Au8] + lv + body);
            assert(s[0] == 0x0A);
            assert(varint_dec(s) == Some((10u64, 1int)));
            let r1 = s.skip(1);
            assert(r1 =~= lv + body);
            lemma_varint_roundtrip(body.len() as u64, body);
            assert(varint_dec(r1) == Some((body.len() as u64, lv.len() as int)));
            let r2 = r1.skip(lv.len() as int);
            assert(r2 =~= body);
            assert(r2.take(body.len() as int) =~= body);
            assert(r2.skip(body.len() as int) =~= Seq::<u8>::empty());
            let p = Some(ClientPayloadView::EchoMessage(EchoMessageView { content: e.content }));
            assert(client_fields(Seq::<u8>::empty(), p) == Some(p));
            assert(client_fields(s, None) == Some(p));
            assert(ClientMessageView { message: p } == m);
        },
        Option::Some(ClientPayloadView::AddRequest(r)) => {
            let body = add_req_body(r.a, r.b);
            lemma_add_req_body_roundtrip(r.a, r.b);
            lemma_varint_len_u64(body.len() as u64);
            let lv = varint(body.len());
            assert(s =~= seq![0x12u8] + lv + body);
            assert(s[0] == 0x12);
            assert(varint_dec(s) == Some((18u64, 1int)));
            let r1 = s.skip(1);
            assert(r1 =~= lv + body);
            lemma_varint_roundtrip(body.len() as u64, body);
            assert(varint_dec(r1) == Some((body.len() as u64, lv.len() as int)));
            let r2 = r1.skip(lv.len() as int);
            assert(r2 =~= body);
            assert(r2.take(body.len() as int) =~= body);
            assert(r2.skip(body.len() as int) =~= Seq::<u8>::empty());
            let p = Some(ClientPayloadView::AddRequest(AddRequestView { a: r.a, b: r.b }));
            assert(client_fields(Seq::<u8>::empty(), p) == Some(p));
            assert(client_fields(s, None) == Some(p));
            assert(ClientMessageView { message: p } == m);
        },
    }
}

/// A decoded echo content never outgrows the frame it came from.
proof fn lemma_echo_fields_len(s: Seq<u8>, content: Seq<u8>)
    ensures
        echo_fields(s, content) matches Some(cb) ==> cb.len() <= content.len() || cb.len()
            <= s.len(),
    decreases s.len(),
{
    if s.len() != 0 {
        match varint_dec(s) {
            None => {},
            Some((key, k)) => {
                if 1 <= k <= s.len() {
                    let r1 = s.skip(k);
                    if key == 0x0A {
                        match varint_dec(r1) {
                            None => {},
                            Some((len, k2)) => {
                                if 1 <= k2 <= r1.len() {
                                    let r2 = r1.skip(k2);
                                    if len <= r2.len() {
                                        lemma_echo_fields_len(
                                            r2.skip(len as int),
                                            r2.take(len as int),
                                        );
                                    }
                                }
                            },
                        }
                    } else {
                        match skip_len(r1, key % 8) {
                            None => {},
                            Some(c) => {
                                if 0 <= c <= r1.len() {
                                    lemma_echo_fields_len(r1.skip(c), content);
                                }
                            },
                        }
                    }
                }
            },
        }
    }
}

/// Whether a payload's echo content, re-encoded, stays within `b`
/// bytes; carried through the envelope parse below.
spec fn payload_len_ok(p: Option<ClientPayloadView>, b: int) -> bool {
    match p {
        Option::Some(ClientPayloadView::EchoMessage(e)) => encode_utf8(e.content).len() <= b,
        _ => true,
    }
}

/// Every payload a client envelope parse can produce re-encodes within
/// the frame's own length.
proof fn lemma_client_fields_wf(s: Seq<u8>, p: Option<ClientPayloadView>, b: int)
    requires
        s.len() <= b,
        payload_len_ok(p, b),
    ensures
        client_fields(s, p) matches Some(q) ==> payload_len_ok(q, b),
    decreases s.len(),
{
    if s.len() != 0 {
        match varint_dec(s) {
            None => {},
            Some((key, k)) => {
                if 1 <= k <= s.len() {
                    let r1 = s.skip(k);
                    if key == 0x0A || key == 0x12 {
                        match varint_dec(r1) {
                            None => {},
                            Some((len, k2)) => {
                                if 1 <= k2 <= r1.len() {
                                    let r2 = r1.skip(k2);
                                    if len <= r2.len() {
                                        let body = r2.take(len as int);
                                        if key == 0x0A {
                                            match echo_msg_of(body) {
                                                None => {},
                                                Some(e) => {
                                                    match echo_fields(body, Seq::empty()) {
                                                        None => {},
                                                        Some(cb) => {
                                                            lemma_echo_fields_len(
                                                                body,
                                                                Seq::empty(),
                                                            );
                                                            decode_utf8_encode_utf8(cb);
                                                            lemma_client_fields_wf(
                                                                r2.skip(len as int),
                                                                Some(
                                                                    ClientPayloadView::EchoMessage(e),
                                                                ),
                                                                b,
                                                            );
                                                        },
                                                    }
                                                },
                                            }
                                        } else {
                                            match add_req_of(body) {
                                                None => {},
                                                Some(r) => {
                                                    lemma_client_fields_wf(
                                                        r2.skip(len as int),
                                                        Some(ClientPayloadView::AddRequest(r)),
                                                        b,
                                                    );
                                                },
                                            }
                                        }
                                    }
                                }
                            },
                        }
                    } else {
                        match skip_len(r1, key % 8) {
                            None => {},
                            Some(c) => {
                                if 0 <= c <= r1.len() {
                                    lemma_client_fields_wf(r1.skip(c), p, b);
                                }
                            },
                        }
                    }
                }
            },
        }
    }
}

/// The envelope any frame decodes to is itself encodable within the
/// wire's length limits.
pub proof fn lemma_decoded_client_wf(s: Seq<u8>)
    requires
        s.len() < WIRE_LEN_MAX,
    ensures
        spec_decode_client(s) matches Some(m) ==> client_wf(m),
{
    lemma_client_fields_wf(s, None, s.len() as int);
}

/// Decoding inverts encoding on every server envelope: a client reads
/// back exactly the response the server formed.
pub proof fn lemma_server_roundtrip(m: ServerMessageView)
    requires
        server_wf(m),
    ensures
        spec_decode_server(spec_encode_server(m)) == Some(m),
{
    let s = spec_encode_server(m);
    match m.message {
        Option::None => {
            assert(s.len() == 0);
            assert(server_fields(s, None) == Some(Option::<ServerPayloadView>::None));
        },
        Option::Some(ServerPayloadView::EchoMessage(e)) => {
            let body = echo_body(e.content);
            lemma_echo_body_roundtrip(e.content);
            lemma_varint_len_u64(body.len() as u64);
            let lv = varint(body.len());
            assert(s =~= seq![0x0Au8] + lv + body);
            assert(s[0] == 0x0A);
            assert(varint_dec(s) == Some((10u64, 1int)));
            let r1 = s.skip(1);
            assert(r1 =~= lv + body);
            lemma_varint_roundtrip(body.len() as u64, body);
            assert(varint_dec(r1) == Some((body.len() as u64, lv.len() as int)));
            let r2 = r1.skip(lv.len() as int);
            assert(r2 =~= body);
            assert(r2.take(body.len() as int) =~= body);
            assert(r2.skip(body.len() as int) =~= Seq::<u8>::empty());
            let p = Some(ServerPayloadView::EchoMessage(EchoMessageView { content: e.content }));
            assert(server_fields(Seq::<u8>::empty(), p) == Some(p));
            assert(server_fields(s, None) == Some(p));
            assert(ServerMessageView { message: p } == m);
        },
        Option::Some(ServerPayloadView::AddResponse(r)) => {
            let body = add_resp_body(r.result);
            lemma_add_resp_body_roundtrip(r.result);
            lemma_varint_len_u64(body.len() as u64);
            let lv = varint(body.len());
            assert(s =~= seq![0x12u8] + lv + body);
            assert(s[0] == 0x12);
            assert(varint_dec(s) == Some((18u64, 1int)));
            let r1 = s.skip(1);
            assert(r1 =~= lv + body);
            lemma_varint_roundtrip(body.len() as u64, body);
            assert(varint_dec(r1) == Some((body.len() as u64, lv.len() as int)));
            let r2 = r1.skip(lv.len() as int);
            assert(r2 =~= body);
            assert(r2.take(body.len() as int) =~= body);
            assert(r2.skip(body.len() as int) =~= Seq::<u8>::empty());
            let p = Some(ServerPayloadView::AddResponse(AddResponseView { result: r.result }));
            assert(server_fields(Seq::<u8>::empty(), p) == Some(p));
            assert(server_fields(s, None) == Some(p));
            assert(ServerMessageView { message: p } == m);
        },
    }
}

} // verus!
