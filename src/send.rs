//! The sending half of a connection: messages in, frame bytes out.

use vstd::prelude::*;
use crate::dataframe::{wire_payload, write_dataframe};
use crate::error::{ProtocolErrorKind, WebSocketError};
use crate::header::{header_bytes, DataFrameFlags, DataFrameHeader};
use crate::message::{
    check_message, message_error, message_opcode, message_payload, message_to_dataframe,
    opcode_of, Message, OPCODE_CONTINUATION,
};

verus! {

/// The header of the frame that carries `m` (or a piece of it) under `opcode`.
pub open spec fn message_header(m: Message, opcode: u8, mask: Option<[u8; 4]>, finished: bool)
    -> DataFrameHeader {
    DataFrameHeader {
        flags: DataFrameFlags { bits: if finished { 0x80u8 } else { 0u8 } },
        opcode,
        mask,
        len: message_payload(m).len() as u64,
    }
}

/// The bytes of the frame that carries `m` (or a piece of it) under `opcode`.
pub open spec fn message_frame_bytes(
    m: Message,
    opcode: u8,
    mask: Option<[u8; 4]>,
    finished: bool,
) -> Seq<u8> {
    header_bytes(message_header(m, opcode, mask, finished)) + wire_payload(mask, message_payload(m))
}

/// The key a sender puts on its frames: `key` where it masks, none otherwise.
pub open spec fn key_for(masks: bool, key: [u8; 4]) -> Option<[u8; 4]> {
    if masks {
        Some(key)
    } else {
        None
    }
}

/// Sends messages as frames. A client masks every frame with the key it is
/// handed; a server sends unmasked. The frame bytes gather in the sender
/// until they are taken for the transport.
pub struct WebSocketSender {
    stream: Vec<u8>,
    mask: bool,
}

impl WebSocketSender {
    /// The frame bytes written and not taken yet.
    pub closed spec fn output(&self) -> Seq<u8> {
        self.stream@
    }

    /// Whether this sender masks its frames.
    pub closed spec fn masks(&self) -> bool {
        self.mask
    }

    /// Writes the frame that carries a piece of a message.
    fn write_piece(
        &mut self,
        message: &Message,
        opcode: u8,
        key: [u8; 4],
        finished: bool,
    ) -> (r: Result<(), WebSocketError>)
        requires
            message_error(*message) is None,
            opcode <= 15,
            opcode >= 8 ==> opcode == message_opcode(*message),
        ensures
            final(self).masks() == old(self).masks(),
            r is Ok,
            final(self).output() == old(self).output() + message_frame_bytes(
                *message,
                opcode,
                key_for(old(self).masks(), key),
                finished,
            ),
    {
        let masking_key = if self.mask { Some(key) } else { None };
        let mut frame = message_to_dataframe(message, masking_key, finished);
        frame.header.opcode = opcode;
        assert(frame.header == message_header(*message, opcode, masking_key, finished));
        write_dataframe(&mut self.stream, &frame)
    }

    /// Sends a whole message as one final frame; a client masks it with `key`.
    /// A message that may not go out (see `message_error`) writes nothing.
    pub fn send_message(&mut self, message: &Message, key: [u8; 4]) -> (r: Result<
        (),
        WebSocketError,
    >)
        ensures
            final(self).masks() == old(self).masks(),
            message_error(*message) is Some ==> r == Err::<(), WebSocketError>(
                message_error(*message)->0,
            ) && final(self).output() == old(self).output(),
            message_error(*message) is None ==> r is Ok && final(self).output() == old(
                self,
            ).output() + message_frame_bytes(
                *message,
                message_opcode(*message),
                key_for(old(self).masks(), key),
                true,
            ),
    {
        check_message(message)?;
        let opcode = opcode_of(message);
        self.write_piece(message, opcode, key, true)
    }

    /// Starts sending one message in pieces.
    pub fn fragment(&mut self) -> (r: WebSocketFragmentSerializer<'_>)
        ensures
            !r.started(),
            r.sender() == *old(self),
    {
        WebSocketFragmentSerializer { inc: self, started: false }
    }

    /// Hands out the frame bytes written so far, for the transport.
    pub fn take_output(&mut self) -> (r: Vec<u8>)
        ensures
            r@ == old(self).output(),
            final(self).output().len() == 0,
            final(self).masks() == old(self).masks(),
    {
        let mut out: Vec<u8> = Vec::new();
        std::mem::swap(&mut out, &mut self.stream);
        out
    }
}

/// Sends one message in pieces: the first piece carries the message's own
/// opcode, the others are continuations, and only the last is final.
pub struct WebSocketFragmentSerializer<'a> {
    inc: &'a mut WebSocketSender,
    started: bool,
}

impl<'a> WebSocketFragmentSerializer<'a> {
    /// Whether a first piece has gone out.
    pub closed spec fn started(&self) -> bool {
        self.started
    }

    /// The sender that the pieces go through.
    pub closed spec fn sender(&self) -> WebSocketSender {
        *self.inc
    }

    /// Sends a piece that is not the last. Only text and binary messages
    /// go in pieces: a control message is refused and nothing is written.
    pub fn send_fragment(&mut self, message: &Message, key: [u8; 4]) -> (r: Result<
        (),
        WebSocketError,
    >)
        ensures
            final(self).sender().masks() == old(self).sender().masks(),
            final(self).started() == (old(self).started() || r is Ok),
            ({
                let opcode = if old(self).started() {
                    OPCODE_CONTINUATION
                } else {
                    message_opcode(*message)
                };
                let mask = key_for(old(self).sender().masks(), key);
                &&& fragment_error(*message) is Some ==> r == Err::<(), WebSocketError>(
                    fragment_error(*message)->0,
                ) && final(self).sender().output() == old(self).sender().output()
                &&& fragment_error(*message) is None ==> r is Ok && final(self).sender().output()
                    == old(self).sender().output() + message_frame_bytes(
                    *message,
                    opcode,
                    mask,
                    false,
                )
            }),
    {
        check_fragment(message)?;
        let opcode = if self.started {
            OPCODE_CONTINUATION
        } else {
            opcode_of(message)
        };
        let r = self.inc.write_piece(message, opcode, key, false);
        self.started = true;
        r
    }

    /// Sends the last piece, after which a new message may start. Only text
    /// and binary messages go in pieces: a control message is refused and
    /// nothing is written.
    pub fn finish(&mut self, message: &Message, key: [u8; 4]) -> (r: Result<(), WebSocketError>)
        ensures
            final(self).sender().masks() == old(self).sender().masks(),
            final(self).started() == (old(self).started() && r is Err),
            ({
                let opcode = if old(self).started() {
                    OPCODE_CONTINUATION
                } else {
                    message_opcode(*message)
                };
                let mask = key_for(old(self).sender().masks(), key);
                &&& fragment_error(*message) is Some ==> r == Err::<(), WebSocketError>(
                    fragment_error(*message)->0,
                ) && final(self).sender().output() == old(self).sender().output()
                &&& fragment_error(*message) is None ==> r is Ok && final(self).sender().output()
                    == old(self).sender().output() + message_frame_bytes(
                    *message,
                    opcode,
                    mask,
                    true,
                )
            }),
    {
        check_fragment(message)?;
        let opcode = if self.started {
            OPCODE_CONTINUATION
        } else {
            opcode_of(message)
        };
        let r = self.inc.write_piece(message, opcode, key, true);
        self.started = false;
        r
    }
}

/// Why a message cannot go out in pieces, if it cannot: it is a control
/// message, or it may not go out at all.
pub open spec fn fragment_error(m: Message) -> Option<WebSocketError> {
    if message_opcode(m) >= 8 {
        Some(WebSocketError::ProtocolError(ProtocolErrorKind::FragmentedControl))
    } else {
        message_error(m)
    }
}

/// Checks that a message may go out in pieces.
fn check_fragment(message: &Message) -> (r: Result<(), WebSocketError>)
    ensures
        fragment_error(*message) is Some ==> r == Err::<(), WebSocketError>(
            fragment_error(*message)->0,
        ),
        fragment_error(*message) is None ==> r is Ok,
{
    if opcode_of(message) >= 8 {
        return Err(WebSocketError::ProtocolError(ProtocolErrorKind::FragmentedControl));
    }
    check_message(message)?;
    Ok(())
}

/// A sender that masks its frames where `mask` is set, as a client does.
pub fn new_sender(mask: bool) -> (r: WebSocketSender)
    ensures
        r.masks() == mask,
        r.output().len() == 0,
{
    WebSocketSender { stream: Vec::new(), mask }
}

} // verus!
