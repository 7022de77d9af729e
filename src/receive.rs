//! The receiving half of a connection: frames in, whole messages out.

use vstd::prelude::*;
use vstd::utf8::{encode_utf8, valid_utf8};
use crate::dataframe::DataFrame;
use crate::error::{DataFrameErrorKind, ProtocolErrorKind, WebSocketError};
use crate::header::{be16_bytes, be16_value, DataFrameHeader};
use crate::message::{
    is_valid_close_code, message_opcode, message_payload, string_from_utf8, valid_close_code,
    CloseData, Message, OPCODE_BINARY, OPCODE_CLOSE, OPCODE_CONTINUATION, OPCODE_PING,
    OPCODE_PONG, OPCODE_TEXT,
};

verus! {

broadcast use vstd::seq_lib::group_seq_properties;

/// The message size cap that an assembler gets by default: 64 MiB.
pub const DEFAULT_MAX_MESSAGE_SIZE: usize = 67108864;

/// Whether an opcode is one that the protocol defines.
pub open spec fn known_opcode(op: u8) -> bool {
    op == OPCODE_CONTINUATION || op == OPCODE_TEXT || op == OPCODE_BINARY || op == OPCODE_CLOSE
        || op == OPCODE_PING || op == OPCODE_PONG
}

/// Whether an opcode starts a data message.
pub open spec fn is_data_opcode(op: u8) -> bool {
    op == OPCODE_TEXT || op == OPCODE_BINARY
}

/// How a frame breaks the rules of the protocol, given the receiver's role
/// and whether a fragmented message is in progress; none where it does not.
pub open spec fn frame_violation(server: bool, fragmenting: bool, h: DataFrameHeader) -> Option<
    WebSocketError,
> {
    let op = h.opcode;
    if h.flags.bits & 0x70u8 != 0 {
        Some(WebSocketError::ProtocolError(ProtocolErrorKind::ReservedBits))
    } else if !known_opcode(op) {
        Some(WebSocketError::ProtocolError(ProtocolErrorKind::ReservedOpcode))
    } else if server && h.mask is None {
        Some(WebSocketError::ProtocolError(ProtocolErrorKind::UnmaskedFrame))
    } else if !server && h.mask is Some {
        Some(WebSocketError::ProtocolError(ProtocolErrorKind::MaskedFrame))
    } else if op >= 8 && h.flags.bits & 0x80u8 == 0 {
        Some(WebSocketError::ProtocolError(ProtocolErrorKind::FragmentedControl))
    } else if op >= 8 && h.len > 125 {
        Some(WebSocketError::DataFrameError(DataFrameErrorKind::ControlFrameTooLong))
    } else if op == OPCODE_CONTINUATION && !fragmenting {
        Some(WebSocketError::ProtocolError(ProtocolErrorKind::UnexpectedContinuation))
    } else if is_data_opcode(op) && fragmenting {
        Some(WebSocketError::ProtocolError(ProtocolErrorKind::ExpectedContinuation))
    } else {
        None
    }
}

/// What a close payload yields: nothing, or a code and a UTF-8 reason.
pub open spec fn close_outcome(data: Seq<u8>) -> Option<WebSocketError> {
    if data.len() == 0 {
        None
    } else if data.len() == 1 || !valid_close_code(be16_value(data[0], data[1])) {
        Some(WebSocketError::ProtocolError(ProtocolErrorKind::InvalidClosePayload))
    } else if !valid_utf8(data.skip(2)) {
        Some(WebSocketError::Utf8Error)
    } else {
        None
    }
}

/// Whether `m` is the data message with opcode `op` whose payload is `bytes`.
pub open spec fn is_data_message(m: Message, op: u8, bytes: Seq<u8>) -> bool {
    &&& message_opcode(m) == op
    &&& message_payload(m) == bytes
}

/// Puts frames together into messages. Control frames come out at once,
/// also in the middle of a fragmented message; data frames are gathered
/// until the final one.
pub struct MessageAssembler {
    server: bool,
    max_size: usize,
    fragmenting: bool,
    opcode: u8,
    buffer: Vec<u8>,
    parts: Ghost<Seq<Seq<u8>>>,
    closed: bool,
}

impl MessageAssembler {
    /// Whether this end is the server, which takes masked frames only.
    pub closed spec fn is_server(&self) -> bool {
        self.server
    }

    /// The largest message, in bytes, that is taken.
    pub closed spec fn max_size(&self) -> nat {
        self.max_size as nat
    }

    /// Whether a fragmented message is in progress.
    pub closed spec fn fragmenting(&self) -> bool {
        self.fragmenting
    }

    /// The opcode that the message in progress started with.
    pub closed spec fn start_opcode(&self) -> u8 {
        self.opcode
    }

    /// The payloads of the frames of the message in progress, in arrival order.
    pub closed spec fn parts(&self) -> Seq<Seq<u8>> {
        self.parts@
    }

    /// Whether the peer's close has been received.
    pub closed spec fn is_closed(&self) -> bool {
        self.closed
    }

    /// The assembler's invariant.
    pub closed spec fn wf(&self) -> bool {
        &&& self.buffer@ == self.parts@.flatten()
        &&& self.buffer@.len() <= self.max_size
        &&& !self.fragmenting ==> self.parts@.len() == 0
        &&& self.fragmenting ==> is_data_opcode(self.opcode)
    }

    /// The bytes gathered for the message in progress.
    pub open spec fn buffered(&self) -> Seq<u8> {
        self.parts().flatten()
    }

    /// An assembler for a server (`server`) or a client, taking messages of
    /// at most `max_size` bytes.
    pub fn new(server: bool, max_size: usize) -> (r: MessageAssembler)
        ensures
            r.wf(),
            r.is_server() == server,
            r.max_size() == max_size,
            !r.fragmenting(),
            !r.is_closed(),
    {
        MessageAssembler {
            server,
            max_size,
            fragmenting: false,
            opcode: 0,
            buffer: Vec::new(),
            parts: Ghost(Seq::empty()),
            closed: false,
        }
    }

    /// Whether the peer's close has been received.
    pub fn closed(&self) -> (r: bool)
        ensures
            r == self.is_closed(),
    {
        self.closed
    }

    /// Checks an announced payload length against the size cap before its
    /// bytes are read: a continuation counts what is gathered already.
    pub fn check_length(&self, header: &DataFrameHeader) -> (r: Result<(), WebSocketError>)
        requires
            self.wf(),
        ensures
            ({
                let before: int = if header.opcode == OPCODE_CONTINUATION && self.fragmenting() {
                    self.buffered().len() as int
                } else {
                    0
                };
                &&& before + header.len > self.max_size() ==> r == Err::<(), WebSocketError>(
                    WebSocketError::Oversized,
                )
                &&& before + header.len <= self.max_size() ==> r is Ok
            }),
    {
        let before: usize = if header.opcode == OPCODE_CONTINUATION && self.fragmenting {
            self.buffer.len()
        } else {
            0
        };
        if header.len > (self.max_size - before) as u64 {
            Err(WebSocketError::Oversized)
        } else {
            Ok(())
        }
    }
}

/// Builds the data message with opcode `op` from its bytes; text must be UTF-8.
fn data_message(op: u8, bytes: Vec<u8>) -> (r: Result<Message, WebSocketError>)
    requires
        is_data_opcode(op),
    ensures
        op == OPCODE_TEXT && !valid_utf8(bytes@) ==> r == Err::<Message, WebSocketError>(
            WebSocketError::Utf8Error,
        ),
        op == OPCODE_BINARY || valid_utf8(bytes@) ==> r is Ok && is_data_message(
            r->Ok_0,
            op,
            bytes@,
        ),
{
    if op == OPCODE_TEXT {
        match string_from_utf8(bytes) {
            Some(s) => Ok(Message::Text(s)),
            None => Err(WebSocketError::Utf8Error),
        }
    } else {
        Ok(Message::Binary(bytes))
    }
}

/// Reads a close payload: empty, or a big-endian code and a UTF-8 reason.
fn close_message(data: &Vec<u8>) -> (r: Result<Message, WebSocketError>)
    ensures
        close_outcome(data@) is Some ==> r == Err::<Message, WebSocketError>(
            close_outcome(data@)->0,
        ),
        close_outcome(data@) is None ==> r is Ok && r->Ok_0 is Close && message_payload(r->Ok_0)
            == data@,
{
    if data.len() == 0 {
        return Ok(Message::Close(None));
    }
    if data.len() == 1 {
        return Err(WebSocketError::ProtocolError(ProtocolErrorKind::InvalidClosePayload));
    }
    let hi = data[0];
    let lo = data[1];
    let code: u16 = ((hi as u16) << 8u16) | (lo as u16);
    if !is_valid_close_code(code) {
        return Err(WebSocketError::ProtocolError(ProtocolErrorKind::InvalidClosePayload));
    }
    let mut rest: Vec<u8> = Vec::with_capacity(data.len() - 2);
    let mut i: usize = 2;
    while i < data.len()
        invariant
            2 <= i <= data@.len(),
            rest@ == data@.subrange(2, i as int),
        decreases data@.len() - i,
    {
        rest.push(data[i]);
        i = i + 1;
    }
    assert(rest@ == data@.skip(2));
    match string_from_utf8(rest) {
        Some(reason) => {
            proof {
                assert((((code >> 8u16) & 0xffu16) as u8) == hi && ((code & 0xffu16) as u8) == lo)
                    by (bit_vector)
                    requires
                        code == ((hi as u16) << 8u16) | (lo as u16),
                ;
                assert(be16_bytes(code) + encode_utf8(reason@) =~= data@);
            }
            Ok(Message::Close(Some(CloseData { status_code: code, reason })))
        },
        None => Err(WebSocketError::Utf8Error),
    }
}

/// Whether two assemblers are in the same state.
pub open spec fn same_state(a: MessageAssembler, b: MessageAssembler) -> bool {
    &&& a.is_server() == b.is_server()
    &&& a.max_size() == b.max_size()
    &&& a.fragmenting() == b.fragmenting()
    &&& a.start_opcode() == b.start_opcode()
    &&& a.parts() == b.parts()
    &&& a.is_closed() == b.is_closed()
}

/// Checks a frame header against the rules of the protocol.
fn check_frame(server: bool, fragmenting: bool, h: &DataFrameHeader) -> (r: Option<WebSocketError>)
    ensures
        r == frame_violation(server, fragmenting, *h),
{
    let op = h.opcode;
    let known = op == OPCODE_CONTINUATION || op == OPCODE_TEXT || op == OPCODE_BINARY || op
        == OPCODE_CLOSE || op == OPCODE_PING || op == OPCODE_PONG;
    let data = op == OPCODE_TEXT || op == OPCODE_BINARY;
    if h.flags.bits & 0x70 != 0 {
        Some(WebSocketError::ProtocolError(ProtocolErrorKind::ReservedBits))
    } else if !known {
        Some(WebSocketError::ProtocolError(ProtocolErrorKind::ReservedOpcode))
    } else if server && h.mask.is_none() {
        Some(WebSocketError::ProtocolError(ProtocolErrorKind::UnmaskedFrame))
    } else if !server && h.mask.is_some() {
        Some(WebSocketError::ProtocolError(ProtocolErrorKind::MaskedFrame))
    } else if op >= 8 && h.flags.bits & 0x80 == 0 {
        Some(WebSocketError::ProtocolError(ProtocolErrorKind::FragmentedControl))
    } else if op >= 8 && h.len > 125 {
        Some(WebSocketError::DataFrameError(DataFrameErrorKind::ControlFrameTooLong))
    } else if op == OPCODE_CONTINUATION && !fragmenting {
        Some(WebSocketError::ProtocolError(ProtocolErrorKind::UnexpectedContinuation))
    } else if data && fragmenting {
        Some(WebSocketError::ProtocolError(ProtocolErrorKind::ExpectedContinuation))
    } else {
        None
    }
}

impl MessageAssembler {
    /// Takes one frame. A control frame yields its message at once; a final
    /// data frame yields its message, or the whole fragmented message that
    /// it ends; any other frame yields nothing yet. A frame that breaks the
    /// rules, an oversized message or invalid UTF-8 yields an error. Once
    /// the peer's close is in, frames are ignored.
    pub fn push_frame(&mut self, frame: DataFrame) -> (r: Result<Option<Message>, WebSocketError>)
        requires
            old(self).wf(),
            frame.data@.len() == frame.header.len,
        ensures
            final(self).wf(),
            final(self).is_server() == old(self).is_server(),
            final(self).max_size() == old(self).max_size(),
            ({
                let o = *old(self);
                let f = *final(self);
                let h = frame.header;
                let op = h.opcode;
                let d = frame.data@;
                let fin = h.flags.bits & 0x80u8 != 0;
                let whole = o.parts().push(d).flatten();
                let v = frame_violation(o.is_server(), o.fragmenting(), h);
                &&& o.is_closed() ==> r == Ok::<Option<Message>, WebSocketError>(None) && same_state(f, o)
                &&& !o.is_closed() && v is Some ==> r == Err::<Option<Message>, WebSocketError>(v->0)
                    && same_state(f, o)
                &&& !o.is_closed() && v is None && op == OPCODE_PING ==> r == Ok::<
                    Option<Message>,
                    WebSocketError,
                >(Some(Message::Ping(frame.data))) && same_state(f, o)
                &&& !o.is_closed() && v is None && op == OPCODE_PONG ==> r == Ok::<
                    Option<Message>,
                    WebSocketError,
                >(Some(Message::Pong(frame.data))) && same_state(f, o)
                &&& !o.is_closed() && v is None && op == OPCODE_CLOSE ==> {
                    &&& f.fragmenting() == o.fragmenting()
                    &&& f.start_opcode() == o.start_opcode()
                    &&& f.parts() == o.parts()
                    &&& close_outcome(d) is Some ==> r == Err::<Option<Message>, WebSocketError>(
                        close_outcome(d)->0,
                    ) && !f.is_closed()
                    &&& close_outcome(d) is None ==> r is Ok && r->Ok_0 is Some && r->Ok_0->0 is Close
                        && message_payload(r->Ok_0->0) == d && f.is_closed()
                }
                &&& !o.is_closed() && v is None && is_data_opcode(op) ==> {
                    &&& d.len() > o.max_size() ==> r == Err::<Option<Message>, WebSocketError>(
                        WebSocketError::Oversized,
                    ) && same_state(f, o)
                    &&& d.len() <= o.max_size() && fin && op == OPCODE_TEXT && !valid_utf8(d) ==> r
                        == Err::<Option<Message>, WebSocketError>(WebSocketError::Utf8Error)
                        && same_state(f, o)
                    &&& d.len() <= o.max_size() && fin && (op == OPCODE_BINARY || valid_utf8(d))
                        ==> r is Ok && r->Ok_0 is Some && is_data_message(r->Ok_0->0, op, d)
                        && same_state(f, o)
                    &&& d.len() <= o.max_size() && !fin ==> r == Ok::<
                        Option<Message>,
                        WebSocketError,
                    >(None) && f.fragmenting() && f.start_opcode() == op && f.parts() == seq![d]
                        && !f.is_closed()
                }
                &&& !o.is_closed() && v is None && op == OPCODE_CONTINUATION ==> {
                    &&& whole.len() > o.max_size() ==> r == Err::<Option<Message>, WebSocketError>(
                        WebSocketError::Oversized,
                    ) && same_state(f, o)
                    &&& whole.len() <= o.max_size() && !fin ==> r == Ok::<
                        Option<Message>,
                        WebSocketError,
                    >(None) && f.fragmenting() && f.start_opcode() == o.start_opcode() && f.parts()
                        == o.parts().push(d) && !f.is_closed()
                    &&& whole.len() <= o.max_size() && fin ==> !f.fragmenting() && !f.is_closed()
                    &&& whole.len() <= o.max_size() && fin && o.start_opcode() == OPCODE_TEXT
                        && !valid_utf8(whole) ==> r == Err::<Option<Message>, WebSocketError>(
                        WebSocketError::Utf8Error,
                    )
                    &&& whole.len() <= o.max_size() && fin && (o.start_opcode() == OPCODE_BINARY
                        || valid_utf8(whole)) ==> r is Ok && r->Ok_0 is Some && is_data_message(
                        r->Ok_0->0,
                        o.start_opcode(),
                        whole,
                    )
                }
            }),
    {
        if self.closed {
            return Ok(None);
        }
        if let Some(e) = check_frame(self.server, self.fragmenting, &frame.header) {
            return Err(e);
        }
        let op = frame.header.opcode;
        let fin = frame.header.flags.bits & 0x80 != 0;
        proof {
            old(self).parts@.lemma_flatten_push(frame.data@);
        }
        if op == OPCODE_PING {
            return Ok(Some(Message::Ping(frame.data)));
        }
        if op == OPCODE_PONG {
            return Ok(Some(Message::Pong(frame.data)));
        }
        if op == OPCODE_CLOSE {
            let m = close_message(&frame.data)?;
            self.closed = true;
            return Ok(Some(m));
        }
        if op == OPCODE_TEXT || op == OPCODE_BINARY {
            if frame.data.len() > self.max_size {
                return Err(WebSocketError::Oversized);
            }
            if fin {
                let m = data_message(op, frame.data)?;
                return Ok(Some(m));
            }
            let ghost d = frame.data@;
            let ghost single = seq![d];
            self.fragmenting = true;
            self.opcode = op;
            self.buffer = frame.data;
            self.parts = Ghost(single);
            proof {
                single.lemma_flatten_singleton();
            }
            return Ok(None);
        }
        if frame.data.len() > self.max_size - self.buffer.len() {
            return Err(WebSocketError::Oversized);
        }
        let ghost d = frame.data@;
        let mut data = frame.data;
        self.buffer.append(&mut data);
        self.parts = Ghost(self.parts@.push(d));
        if !fin {
            return Ok(None);
        }
        let mut whole: Vec<u8> = Vec::new();
        std::mem::swap(&mut whole, &mut self.buffer);
        self.fragmenting = false;
        self.parts = Ghost(Seq::empty());
        proof {
            assert(Seq::<Seq<u8>>::empty().flatten() == Seq::<u8>::empty());
        }
        let m = data_message(self.opcode, whole)?;
        Ok(Some(m))
    }
}

} // verus!
