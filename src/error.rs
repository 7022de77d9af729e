//! Errors surfaced by the codec, the assembler and the handshake.

use vstd::prelude::*;

verus! {

/// A local framing error.
#[derive(Clone, Copy, Debug, PartialEq, Eq, Structural)]
pub enum DataFrameErrorKind {
    /// The opcode does not fit in four bits.
    InvalidOpcode,
    /// A control frame announces more than 125 payload bytes.
    ControlFrameTooLong,
    /// The length is not in its shortest form, or does not fit in 63 bits.
    InvalidLength,
}

/// A violation of the protocol by the peer.
#[derive(Clone, Copy, Debug, PartialEq, Eq, Structural)]
pub enum ProtocolErrorKind {
    /// A control frame without FIN.
    FragmentedControl,
    /// A reserved opcode.
    ReservedOpcode,
    /// A reserved bit is set while no extension was negotiated.
    ReservedBits,
    /// A continuation frame while no message is in progress.
    UnexpectedContinuation,
    /// A new data message while another is in progress.
    ExpectedContinuation,
    /// A frame from a client that carries no mask.
    UnmaskedFrame,
    /// A frame from a server that carries a mask.
    MaskedFrame,
    /// A close payload of one byte, or a close code outside the allowed ranges.
    InvalidClosePayload,
}

/// Why an upgrade request was refused.
#[derive(Clone, Copy, Debug, PartialEq, Eq, Structural)]
pub enum HandshakeErrorKind {
    /// The request head is not a well-formed HTTP/1.x request.
    MalformedRequest,
    /// The method is not GET.
    InvalidMethod,
    /// The HTTP version is below 1.1.
    InvalidHttpVersion,
    /// `Upgrade` lacks the token `websocket`.
    NoUpgrade,
    /// `Connection` lacks the token `Upgrade`.
    NoConnectionUpgrade,
    /// `Sec-WebSocket-Version` is missing or is not 13.
    UnsupportedVersion,
    /// `Sec-WebSocket-Key` is missing or does not decode to 16 bytes.
    InvalidKey,
}

/// The errors of this library.
#[derive(Clone, Copy, Debug, PartialEq, Eq, Structural)]
pub enum WebSocketError {
    /// The transport has no more bytes to give now.
    IoError,
    /// The peer violated the protocol.
    ProtocolError(ProtocolErrorKind),
    /// A local framing error.
    DataFrameError(DataFrameErrorKind),
    /// A text payload or a close reason is not valid UTF-8.
    Utf8Error,
    /// A message exceeds the configured size cap.
    Oversized,
    /// The upgrade request was refused.
    HandshakeError(HandshakeErrorKind),
}

/// The close code with which a connection ends after this error, if any.
pub open spec fn spec_close_code(e: WebSocketError) -> Option<u16> {
    match e {
        WebSocketError::ProtocolError(_) => Some(1002u16),
        WebSocketError::DataFrameError(_) => Some(1002u16),
        WebSocketError::Utf8Error => Some(1007u16),
        WebSocketError::Oversized => Some(1009u16),
        _ => None,
    }
}

impl WebSocketError {
    /// The close code to send for this error: 1002 for protocol and framing
    /// errors, 1007 for invalid UTF-8, 1009 for an oversized message, and
    /// none where the transport or the handshake failed.
    pub fn close_code(&self) -> (r: Option<u16>)
        ensures
            r == spec_close_code(*self),
    {
        match self {
            WebSocketError::ProtocolError(_) => Some(1002),
            WebSocketError::DataFrameError(_) => Some(1002),
            WebSocketError::Utf8Error => Some(1007),
            WebSocketError::Oversized => Some(1009),
            _ => None,
        }
    }
}

} // verus!
