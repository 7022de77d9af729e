//! Messages and the frames that carry them.

use vstd::prelude::*;
use vstd::utf8::{encode_utf8, valid_utf8};
use crate::dataframe::DataFrame;
use crate::error::{DataFrameErrorKind, ProtocolErrorKind, WebSocketError};
use crate::header::{
    be16_bytes, header_write_error, DataFrameFlags, DataFrameHeader, MAX_FRAME_LEN,
};

verus! {

/// Opcode of a continuation frame.
pub const OPCODE_CONTINUATION: u8 = 0;

/// Opcode of a text frame.
pub const OPCODE_TEXT: u8 = 1;

/// Opcode of a binary frame.
pub const OPCODE_BINARY: u8 = 2;

/// Opcode of a close frame.
pub const OPCODE_CLOSE: u8 = 8;

/// Opcode of a ping frame.
pub const OPCODE_PING: u8 = 9;

/// Opcode of a pong frame.
pub const OPCODE_PONG: u8 = 10;

/// The status code and reason of a close message.
#[derive(Clone, Debug, PartialEq, Eq)]
pub struct CloseData {
    /// The close code.
    pub status_code: u16,
    /// Why the connection closes.
    pub reason: String,
}

/// A whole message.
#[derive(Clone, Debug, PartialEq, Eq)]
pub enum Message {
    /// UTF-8 text.
    Text(String),
    /// Bytes.
    Binary(Vec<u8>),
    /// A close, with a code and a reason or with neither.
    Close(Option<CloseData>),
    /// A ping and its application data.
    Ping(Vec<u8>),
    /// A pong and its application data.
    Pong(Vec<u8>),
}

/// The opcode of the frame that carries a message.
pub open spec fn message_opcode(m: Message) -> u8 {
    match m {
        Message::Text(_) => OPCODE_TEXT,
        Message::Binary(_) => OPCODE_BINARY,
        Message::Close(_) => OPCODE_CLOSE,
        Message::Ping(_) => OPCODE_PING,
        Message::Pong(_) => OPCODE_PONG,
    }
}

/// The payload bytes of a message; a close code goes first, big-endian,
/// and the reason after it.
pub open spec fn message_payload(m: Message) -> Seq<u8> {
    match m {
        Message::Text(s) => encode_utf8(s@),
        Message::Binary(v) => v@,
        Message::Close(None) => Seq::empty(),
        Message::Close(Some(c)) => be16_bytes(c.status_code) + encode_utf8(c.reason@),
        Message::Ping(v) => v@,
        Message::Pong(v) => v@,
    }
}

/// Whether a close code may travel in a close frame.
pub open spec fn valid_close_code(code: u16) -> bool {
    (1000 <= code <= 1011) || (3000 <= code <= 4999)
}

/// Checks a close code against the ranges that may travel in a close frame.
pub fn is_valid_close_code(code: u16) -> (r: bool)
    ensures
        r == valid_close_code(code),
{
    (1000 <= code && code <= 1011) || (3000 <= code && code <= 4999)
}

/// Relies on `String::from_utf8`: it accepts exactly the valid UTF-8
/// byte sequences, and the string it returns holds those bytes.
#[verifier::external_body]
pub(crate) fn string_from_utf8(v: Vec<u8>) -> (r: Option<String>)
    ensures
        r is Some <==> valid_utf8(v@),
        r is Some ==> encode_utf8(r->0@) == v@,
{
    String::from_utf8(v).ok()
}

/// The UTF-8 bytes of a string.
pub fn string_bytes(s: &String) -> (r: Vec<u8>)
    ensures
        r@ == encode_utf8(s@),
{
    vstd::slice::slice_to_vec(s.as_str().as_bytes())
}

/// The payload bytes of a message.
pub fn message_payload_bytes(message: &Message) -> (r: Vec<u8>)
    ensures
        r@ == message_payload(*message),
{
    match message {
        Message::Text(s) => string_bytes(s),
        Message::Binary(v) => v.clone(),
        Message::Close(None) => Vec::new(),
        Message::Close(Some(c)) => {
            let mut out: Vec<u8> = Vec::new();
            out.push(((c.status_code >> 8u16) & 0xff) as u8);
            out.push((c.status_code & 0xff) as u8);
            let mut reason = string_bytes(&c.reason);
            out.append(&mut reason);
            assert(out@ == message_payload(*message));
            out
        },
        Message::Ping(v) => v.clone(),
        Message::Pong(v) => v.clone(),
    }
}

/// The opcode of the frame that carries a message.
pub fn opcode_of(message: &Message) -> (r: u8)
    ensures
        r == message_opcode(*message),
{
    match message {
        Message::Text(_) => OPCODE_TEXT,
        Message::Binary(_) => OPCODE_BINARY,
        Message::Close(_) => OPCODE_CLOSE,
        Message::Ping(_) => OPCODE_PING,
        Message::Pong(_) => OPCODE_PONG,
    }
}

/// Why a message cannot go out, if it cannot: a close code outside the
/// allowed ranges, a control payload over 125 bytes, or a payload whose
/// length does not fit in 63 bits.
pub open spec fn message_error(m: Message) -> Option<WebSocketError> {
    if m is Close && m->Close_0 is Some && !valid_close_code(m->Close_0->0.status_code) {
        Some(WebSocketError::ProtocolError(ProtocolErrorKind::InvalidClosePayload))
    } else if message_opcode(m) >= 8 && message_payload(m).len() > 125 {
        Some(WebSocketError::DataFrameError(DataFrameErrorKind::ControlFrameTooLong))
    } else if message_payload(m).len() > MAX_FRAME_LEN {
        Some(WebSocketError::DataFrameError(DataFrameErrorKind::InvalidLength))
    } else {
        None
    }
}

/// Checks that a message may go out; its payload bytes come back where it may.
pub fn check_message(message: &Message) -> (r: Result<Vec<u8>, WebSocketError>)
    ensures
        message_error(*message) is Some ==> r == Err::<Vec<u8>, WebSocketError>(
            message_error(*message)->0,
        ),
        message_error(*message) is None ==> r is Ok && r->Ok_0@ == message_payload(*message),
{
    if let Message::Close(Some(c)) = message {
        if !is_valid_close_code(c.status_code) {
            return Err(WebSocketError::ProtocolError(ProtocolErrorKind::InvalidClosePayload));
        }
    }
    let data = message_payload_bytes(message);
    if opcode_of(message) >= 8 && data.len() > 125 {
        return Err(WebSocketError::DataFrameError(DataFrameErrorKind::ControlFrameTooLong));
    }
    if data.len() as u64 > MAX_FRAME_LEN {
        return Err(WebSocketError::DataFrameError(DataFrameErrorKind::InvalidLength));
    }
    Ok(data)
}

/// Builds the frame that carries `message`, final or not, with `mask` as
/// its key.
pub fn message_to_dataframe(message: &Message, mask: Option<[u8; 4]>, finished: bool) -> (r:
    DataFrame)
    requires
        message_error(*message) is None,
    ensures
        header_write_error(r.header) is None,
        message_opcode(*message) >= 8 ==> r.data@.len() <= 125,
        r.header.flags.bits == (if finished { 0x80u8 } else { 0u8 }),
        r.header.opcode == message_opcode(*message),
        r.header.mask == mask,
        r.header.len == message_payload(*message).len(),
        r.data@ == message_payload(*message),
{
    let opcode = opcode_of(message);
    let data = message_payload_bytes(message);
    let flags = if finished { DataFrameFlags::fin() } else { DataFrameFlags::empty() };
    DataFrame {
        header: DataFrameHeader { flags, opcode, mask, len: data.len() as u64 },
        data,
    }
}

} // verus!
