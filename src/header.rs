//! Reading and writing data frame headers.

use vstd::prelude::*;
use crate::error::{DataFrameErrorKind, ProtocolErrorKind, WebSocketError};
use crate::reader::ByteReader;

verus! {

/// The four flag bits of the first header byte: FIN and RSV1 to RSV3.
#[derive(Clone, Copy, Debug, PartialEq, Eq, Structural)]
pub struct DataFrameFlags {
    /// The flags as the high nibble of a byte.
    pub bits: u8,
}

impl DataFrameFlags {
    /// Keeps the flag bits of `b` and drops the rest.
    pub fn from_bits_truncate(b: u8) -> (r: DataFrameFlags)
        ensures
            r.bits == b & 0xF0,
    {
        DataFrameFlags { bits: b & 0xF0 }
    }

    /// No flag set.
    pub fn empty() -> (r: DataFrameFlags)
        ensures
            r.bits == 0,
    {
        DataFrameFlags { bits: 0 }
    }

    /// Marks the last frame of a message.
    pub fn fin() -> (r: DataFrameFlags)
        ensures
            r.bits == 0x80,
    {
        DataFrameFlags { bits: 0x80 }
    }

    /// The first reserved bit.
    pub fn rsv1() -> (r: DataFrameFlags)
        ensures
            r.bits == 0x40,
    {
        DataFrameFlags { bits: 0x40 }
    }

    /// The second reserved bit.
    pub fn rsv2() -> (r: DataFrameFlags)
        ensures
            r.bits == 0x20,
    {
        DataFrameFlags { bits: 0x20 }
    }

    /// The third reserved bit.
    pub fn rsv3() -> (r: DataFrameFlags)
        ensures
            r.bits == 0x10,
    {
        DataFrameFlags { bits: 0x10 }
    }

    /// Whether every bit of `other` is set here.
    pub fn contains(&self, other: DataFrameFlags) -> (r: bool)
        ensures
            r == (self.bits & other.bits == other.bits),
    {
        self.bits & other.bits == other.bits
    }

    /// The bits of both.
    pub fn union(&self, other: DataFrameFlags) -> (r: DataFrameFlags)
        ensures
            r.bits == self.bits | other.bits,
    {
        DataFrameFlags { bits: self.bits | other.bits }
    }
}

/// A data frame header.
#[derive(Clone, Copy, Debug, PartialEq, Eq)]
pub struct DataFrameHeader {
    /// The flag bits of the first header byte.
    pub flags: DataFrameFlags,
    /// The opcode; at most 15.
    pub opcode: u8,
    /// The masking key, if any.
    pub mask: Option<[u8; 4]>,
    /// The length of the payload.
    pub len: u64,
}

/// The largest length that the eight-byte form can carry: its high bit stays zero.
pub const MAX_FRAME_LEN: u64 = 0x7FFF_FFFF_FFFF_FFFF;

/// The seven-bit length indicator of the second header byte.
pub open spec fn len_indicator(len: u64) -> u8 {
    if len <= 125 {
        len as u8
    } else if len <= 65535 {
        126u8
    } else {
        127u8
    }
}

/// Two bytes, big-endian.
pub open spec fn be16_bytes(x: u16) -> Seq<u8> {
    seq![((x >> 8u16) & 0xffu16) as u8, (x & 0xffu16) as u8]
}

/// Eight bytes, big-endian.
pub open spec fn be64_bytes(x: u64) -> Seq<u8> {
    seq![
        ((x >> 56u64) & 0xffu64) as u8,
        ((x >> 48u64) & 0xffu64) as u8,
        ((x >> 40u64) & 0xffu64) as u8,
        ((x >> 32u64) & 0xffu64) as u8,
        ((x >> 24u64) & 0xffu64) as u8,
        ((x >> 16u64) & 0xffu64) as u8,
        ((x >> 8u64) & 0xffu64) as u8,
        (x & 0xffu64) as u8,
    ]
}

/// The extended payload length that follows the second header byte.
pub open spec fn ext_len_bytes(len: u64) -> Seq<u8> {
    if len <= 125 {
        Seq::empty()
    } else if len <= 65535 {
        be16_bytes(len as u16)
    } else {
        be64_bytes(len)
    }
}

/// The masking key as it stands on the wire.
pub open spec fn mask_bytes(mask: Option<[u8; 4]>) -> Seq<u8> {
    match mask {
        Some(k) => k@,
        None => Seq::empty(),
    }
}

/// The first header byte: flags in the high nibble, opcode in the low one.
pub open spec fn first_byte(h: DataFrameHeader) -> u8 {
    (h.flags.bits & 0xF0u8) | h.opcode
}

/// The second header byte: the mask bit and the length indicator.
pub open spec fn second_byte(h: DataFrameHeader) -> u8 {
    (if h.mask is Some { 0x80u8 } else { 0u8 }) | len_indicator(h.len)
}

/// The bytes that encode a header.
pub open spec fn header_bytes(h: DataFrameHeader) -> Seq<u8> {
    seq![first_byte(h), second_byte(h)] + ext_len_bytes(h.len) + mask_bytes(h.mask)
}

/// Why a header cannot be written, if it cannot.
pub open spec fn header_write_error(h: DataFrameHeader) -> Option<WebSocketError> {
    if h.opcode > 15 {
        Some(WebSocketError::DataFrameError(DataFrameErrorKind::InvalidOpcode))
    } else if h.opcode >= 8 && h.len >= 126 {
        Some(WebSocketError::DataFrameError(DataFrameErrorKind::ControlFrameTooLong))
    } else if h.len > MAX_FRAME_LEN {
        Some(WebSocketError::DataFrameError(DataFrameErrorKind::InvalidLength))
    } else {
        None
    }
}

/// Writes a data frame header behind the bytes of `writer`.
pub fn write_header(writer: &mut Vec<u8>, header: DataFrameHeader) -> (r: Result<(), WebSocketError>)
    ensures
        header_write_error(header) is Some ==> r == Err::<(), WebSocketError>(
            header_write_error(header)->0,
        ) && final(writer)@ == old(writer)@,
        header_write_error(header) is None ==> r is Ok && final(writer)@ == old(writer)@
            + header_bytes(header),
{
    if header.opcode > 0xF {
        return Err(WebSocketError::DataFrameError(DataFrameErrorKind::InvalidOpcode));
    }
    if header.opcode >= 8 && header.len >= 126 {
        return Err(WebSocketError::DataFrameError(DataFrameErrorKind::ControlFrameTooLong));
    }
    if header.len > MAX_FRAME_LEN {
        return Err(WebSocketError::DataFrameError(DataFrameErrorKind::InvalidLength));
    }
    let len = header.len;
    writer.push((header.flags.bits & 0xF0) | header.opcode);
    let mask_bit: u8 = if header.mask.is_some() { 0x80 } else { 0x00 };
    let indicator: u8 = if len <= 125 { len as u8 } else if len <= 65535 { 126 } else { 127 };
    writer.push(mask_bit | indicator);
    let ghost start = writer@;
    if len >= 126 && len <= 65535 {
        let x = len as u16;
        writer.push(((x >> 8u16) & 0xff) as u8);
        writer.push((x & 0xff) as u8);
        assert(writer@ == start + be16_bytes(x));
    } else if len > 65535 {
        writer.push(((len >> 56u64) & 0xff) as u8);
        writer.push(((len >> 48u64) & 0xff) as u8);
        writer.push(((len >> 40u64) & 0xff) as u8);
        writer.push(((len >> 32u64) & 0xff) as u8);
        writer.push(((len >> 24u64) & 0xff) as u8);
        writer.push(((len >> 16u64) & 0xff) as u8);
        writer.push(((len >> 8u64) & 0xff) as u8);
        writer.push((len & 0xff) as u8);
        assert(writer@ == start + be64_bytes(len));
    } else {
        assert(writer@ == start + ext_len_bytes(len));
    }
    let ghost mid = writer@;
    if let Some(mask) = header.mask {
        writer.push(mask[0]);
        writer.push(mask[1]);
        writer.push(mask[2]);
        writer.push(mask[3]);
        assert(writer@ == mid + mask@);
    } else {
        assert(writer@ == mid + mask_bytes(header.mask));
    }
    assert(writer@ == old(writer)@ + header_bytes(header));
    Ok(())
}

/// The number of extended length bytes that a second header byte announces.
pub open spec fn ext_size(b1: u8) -> nat {
    if b1 & 0x7Fu8 == 126u8 {
        2
    } else if b1 & 0x7Fu8 == 127u8 {
        8
    } else {
        0
    }
}

/// Whether a second header byte announces a masking key.
pub open spec fn has_mask_bit(b1: u8) -> bool {
    b1 & 0x80u8 == 0x80u8
}

/// Where the length ends in header bytes `b`.
pub open spec fn length_end(b: Seq<u8>) -> nat {
    2 + ext_size(b[1])
}

/// Where the header ends in header bytes `b`.
pub open spec fn header_end(b: Seq<u8>) -> nat {
    length_end(b) + if has_mask_bit(b[1]) {
        4nat
    } else {
        0nat
    }
}

/// The value of two big-endian bytes.
pub open spec fn be16_value(hi: u8, lo: u8) -> u16 {
    ((hi as u16) << 8u16) | (lo as u16)
}

/// The value of eight big-endian bytes.
pub open spec fn be64_value(b0: u8, b1: u8, b2: u8, b3: u8, b4: u8, b5: u8, b6: u8, b7: u8) -> u64 {
    ((b0 as u64) << 56u64) | ((b1 as u64) << 48u64) | ((b2 as u64) << 40u64) | ((b3 as u64)
        << 32u64) | ((b4 as u64) << 24u64) | ((b5 as u64) << 16u64) | ((b6 as u64) << 8u64) | (
    b7 as u64)
}

/// The payload length that header bytes `b` announce.
pub open spec fn decoded_len(b: Seq<u8>) -> u64 {
    let ind = b[1] & 0x7Fu8;
    if ind == 126u8 {
        be16_value(b[2], b[3]) as u64
    } else if ind == 127u8 {
        be64_value(b[2], b[3], b[4], b[5], b[6], b[7], b[8], b[9])
    } else {
        ind as u64
    }
}

/// Whether the length in header bytes `b` is in its shortest form.
pub open spec fn length_is_minimal(b: Seq<u8>) -> bool {
    let ind = b[1] & 0x7Fu8;
    &&& ind == 126u8 ==> decoded_len(b) > 125
    &&& ind == 127u8 ==> decoded_len(b) > 65535
}

/// Whether bytes `b` reach the point where the header is decided: the
/// length is complete and refused, or the whole header is there.
pub open spec fn header_complete(b: Seq<u8>) -> bool {
    &&& b.len() >= 2
    &&& b.len() >= length_end(b)
    &&& length_is_minimal(b) ==> b.len() >= header_end(b)
}

/// How many bytes of `b` the header takes, once complete.
pub open spec fn header_consumed(b: Seq<u8>) -> nat {
    if length_is_minimal(b) {
        header_end(b)
    } else {
        length_end(b)
    }
}

/// Why complete header bytes `b` are refused, if they are.
pub open spec fn header_read_error(b: Seq<u8>) -> Option<WebSocketError> {
    let opcode = b[0] & 0x0Fu8;
    if !length_is_minimal(b) {
        Some(WebSocketError::DataFrameError(DataFrameErrorKind::InvalidLength))
    } else if opcode >= 8 && decoded_len(b) >= 126 {
        Some(WebSocketError::DataFrameError(DataFrameErrorKind::ControlFrameTooLong))
    } else if opcode >= 8 && b[0] & 0x80u8 == 0 {
        Some(WebSocketError::ProtocolError(ProtocolErrorKind::FragmentedControl))
    } else {
        None
    }
}

/// Whether `h` is the header that complete header bytes `b` encode.
pub open spec fn header_decodes(b: Seq<u8>, h: DataFrameHeader) -> bool {
    &&& h.flags.bits == b[0] & 0xF0u8
    &&& h.opcode == b[0] & 0x0Fu8
    &&& h.len == decoded_len(b)
    &&& (h.mask is Some <==> has_mask_bit(b[1]))
    &&& h.mask is Some ==> h.mask->0@ == b.subrange(
        length_end(b) as int,
        length_end(b) + 4int,
    )
}

/// The partial header bytes consumed so far, kept between reads so that a
/// short read loses nothing.
pub struct ReaderState {
    bytes: Vec<u8>,
}

impl View for ReaderState {
    type V = Seq<u8>;

    closed spec fn view(&self) -> Seq<u8> {
        self.bytes@
    }
}

impl ReaderState {
    /// A state at the start of a header.
    pub fn new() -> (r: ReaderState)
        ensures
            r@ == Seq::<u8>::empty(),
    {
        ReaderState { bytes: Vec::with_capacity(14) }
    }

    /// Forgets the partial header.
    pub fn reset(&mut self)
        ensures
            final(self)@ == Seq::<u8>::empty(),
    {
        self.bytes = Vec::with_capacity(14);
    }

    /// Whether a header is in progress.
    pub fn is_empty(&self) -> (r: bool)
        ensures
            r == (self@.len() == 0),
    {
        self.bytes.len() == 0
    }
}

/// Header bytes that are equal up to where `s` is complete decide alike.
proof fn lemma_complete_prefix(s: Seq<u8>, t: Seq<u8>)
    requires
        header_complete(s),
    ensures
        header_complete(s + t),
        header_consumed(s + t) == header_consumed(s),
        header_read_error(s + t) == header_read_error(s),
        length_is_minimal(s) ==> forall|h: DataFrameHeader|
            header_decodes(s + t, h) == header_decodes(s, h),
{
    let a = s + t;
    assert(a[0] == s[0] && a[1] == s[1]);
    if s[1] & 0x7Fu8 == 126u8 {
        assert(a[2] == s[2] && a[3] == s[3]);
    } else if s[1] & 0x7Fu8 == 127u8 {
        assert(a[2] == s[2] && a[3] == s[3] && a[4] == s[4] && a[5] == s[5]);
        assert(a[6] == s[6] && a[7] == s[7] && a[8] == s[8] && a[9] == s[9]);
    }
    assert(decoded_len(a) == decoded_len(s));
    if length_is_minimal(s) && has_mask_bit(s[1]) {
        let le = length_end(s) as int;
        assert(a.subrange(le, le + 4) == s.subrange(le, le + 4));
    }
}

/// One more byte turns bytes that are not complete into a complete header
/// exactly at its end.
proof fn lemma_complete_step(s: Seq<u8>, x: u8)
    requires
        !header_complete(s),
        header_complete(s.push(x)),
    ensures
        header_consumed(s.push(x)) == s.len() + 1,
{
    let a = s.push(x);
    if s.len() >= 2 {
        assert(a[0] == s[0] && a[1] == s[1]);
        if s.len() >= length_end(s) {
            if s[1] & 0x7Fu8 == 126u8 {
                assert(a[2] == s[2] && a[3] == s[3]);
            } else if s[1] & 0x7Fu8 == 127u8 {
                assert(a[2] == s[2] && a[3] == s[3] && a[4] == s[4] && a[5] == s[5]);
                assert(a[6] == s[6] && a[7] == s[7] && a[8] == s[8] && a[9] == s[9]);
            }
            assert(decoded_len(a) == decoded_len(s));
        }
    }
}

/// Reads the payload length of complete-length header bytes.
fn read_len(b: &Vec<u8>) -> (r: u64)
    requires
        b@.len() >= 2,
        b@.len() >= length_end(b@),
    ensures
        r == decoded_len(b@),
{
    let ind = b[1] & 0x7F;
    if ind == 126 {
        (((b[2] as u16) << 8u16) | (b[3] as u16)) as u64
    } else if ind == 127 {
        ((b[2] as u64) << 56u64) | ((b[3] as u64) << 48u64) | ((b[4] as u64) << 40u64) | ((
        b[5] as u64) << 32u64) | ((b[6] as u64) << 24u64) | ((b[7] as u64) << 16u64) | ((
        b[8] as u64) << 8u64) | (b[9] as u64)
    } else {
        ind as u64
    }
}

/// Reads a data frame header, resuming from `state`.
///
/// Where the reader runs dry first, every byte it had is kept in `state` and
/// an `IoError` comes back; the next call goes on from there. Once the
/// header is decided, `state` is empty again and the reader stands right
/// behind the header (behind the length, where the length was refused).
pub fn read_header(reader: &mut ByteReader, state: &mut ReaderState) -> (r: Result<
    DataFrameHeader,
    WebSocketError,
>)
    requires
        !header_complete(old(state)@),
    ensures
        ({
            let all = old(state)@ + old(reader)@;
            &&& !header_complete(all) ==> r == Err::<DataFrameHeader, WebSocketError>(
                WebSocketError::IoError,
            ) && final(state)@ == all && final(reader)@.len() == 0
            &&& header_complete(all) ==> {
                &&& final(state)@.len() == 0
                &&& final(reader)@ == all.skip(header_consumed(all) as int)
                &&& header_read_error(all) is Some ==> r == Err::<DataFrameHeader, WebSocketError>(
                    header_read_error(all)->0,
                )
                &&& header_read_error(all) is None ==> r is Ok && header_decodes(all, r->Ok_0)
            }
        }),
{
    let ghost all = old(state)@ + old(reader)@;
    loop
        invariant
            all == old(state)@ + old(reader)@,
            all == state@ + reader@,
            !header_complete(state@),
        decreases reader@.len(),
    {
        let ghost before = state@;
        let b = match reader.read_u8() {
            Ok(b) => b,
            Err(e) => {
                assert(all =~= state@);
                return Err(e);
            },
        };
        state.bytes.push(b);
        assert(all == state@ + reader@);
        let n = state.bytes.len();
        if n >= 2 {
            let b0 = state.bytes[0];
            let b1 = state.bytes[1];
            let ext: usize = if b1 & 0x7F == 126 { 2 } else if b1 & 0x7F == 127 { 8 } else { 0 };
            if n >= 2 + ext {
                let len = read_len(&state.bytes);
                let ind = b1 & 0x7F;
                let minimal = !(ind == 126 && len <= 125) && !(ind == 127 && len <= 65535);
                let has_mask = b1 & 0x80 == 0x80;
                let end = 2 + ext + if has_mask { 4 } else { 0 };
                if !minimal || n >= end {
                    let ghost s = state@;
                    proof {
                        assert(header_complete(s));
                        lemma_complete_step(before, b);
                        lemma_complete_prefix(s, reader@);
                        assert(reader@ == all.skip(header_consumed(all) as int));
                    }
                    let opcode = b0 & 0x0F;
                    let result = if !minimal {
                        Err(WebSocketError::DataFrameError(DataFrameErrorKind::InvalidLength))
                    } else if opcode >= 8 && len >= 126 {
                        Err(WebSocketError::DataFrameError(DataFrameErrorKind::ControlFrameTooLong))
                    } else if opcode >= 8 && b0 & 0x80 == 0 {
                        Err(WebSocketError::ProtocolError(ProtocolErrorKind::FragmentedControl))
                    } else {
                        let mask = if has_mask {
                            let k = 2 + ext;
                            let m: [u8; 4] = [
                                state.bytes[k],
                                state.bytes[k + 1],
                                state.bytes[k + 2],
                                state.bytes[k + 3],
                            ];
                            assert(m@ == s.subrange(k as int, k + 4));
                            Some(m)
                        } else {
                            None
                        };
                        Ok(
                            DataFrameHeader {
                                flags: DataFrameFlags::from_bits_truncate(b0),
                                opcode,
                                mask,
                                len,
                            },
                        )
                    };
                    proof {
                        if header_read_error(s) is None {
                            assert(header_decodes(s, result->Ok_0));
                        }
                    }
                    state.reset();
                    return result;
                }
            }
        }
    }
}

/// Whether a header can be written and then read back as it is: it can be
/// written, its flags lie in the high nibble, and a control frame is final.
pub open spec fn header_round_trips(h: DataFrameHeader) -> bool {
    &&& header_write_error(h) is None
    &&& h.flags.bits & 0x0Fu8 == 0
    &&& h.opcode >= 8 ==> h.flags.bits & 0x80u8 == 0x80u8
}

proof fn lemma_be16_round_trip(x: u16)
    ensures
        be16_value(be16_bytes(x)[0], be16_bytes(x)[1]) == x,
{
    let hi = ((x >> 8u16) & 0xffu16) as u8;
    let lo = (x & 0xffu16) as u8;
    assert(((hi as u16) << 8u16) | (lo as u16) == x) by (bit_vector)
        requires
            hi == ((x >> 8u16) & 0xffu16) as u8,
            lo == (x & 0xffu16) as u8,
    ;
}

proof fn lemma_be64_round_trip(x: u64)
    ensures
        ({
            let b = be64_bytes(x);
            be64_value(b[0], b[1], b[2], b[3], b[4], b[5], b[6], b[7]) == x
        }),
{
    let b = be64_bytes(x);
    let (b0, b1, b2, b3) = (b[0], b[1], b[2], b[3]);
    let (b4, b5, b6, b7) = (b[4], b[5], b[6], b[7]);
    assert(be64_value(b0, b1, b2, b3, b4, b5, b6, b7) == x) by (bit_vector)
        requires
            b0 == ((x >> 56u64) & 0xffu64) as u8,
            b1 == ((x >> 48u64) & 0xffu64) as u8,
            b2 == ((x >> 40u64) & 0xffu64) as u8,
            b3 == ((x >> 32u64) & 0xffu64) as u8,
            b4 == ((x >> 24u64) & 0xffu64) as u8,
            b5 == ((x >> 16u64) & 0xffu64) as u8,
            b6 == ((x >> 8u64) & 0xffu64) as u8,
            b7 == (x & 0xffu64) as u8,
    ;
}

/// Codec round trip: the bytes of a header that round-trips, followed by
/// anything, read back as exactly that header, consuming exactly its bytes.
pub proof fn lemma_header_round_trip(h: DataFrameHeader, rest: Seq<u8>)
    requires
        header_round_trips(h),
    ensures
        ({
            let b = header_bytes(h) + rest;
            &&& header_complete(b)
            &&& header_consumed(b) == header_bytes(h).len()
            &&& header_read_error(b) is None
            &&& header_decodes(b, h)
            &&& forall|g: DataFrameHeader| header_decodes(b, g) ==> g == h
        }),
{
    let b = header_bytes(h) + rest;
    let f = first_byte(h);
    let s = second_byte(h);
    let bits = h.flags.bits;
    let op = h.opcode;
    let len = h.len;
    assert(b[0] == f && b[1] == s);
    assert(f & 0x0Fu8 == op && f & 0xF0u8 == bits && (f & 0x80u8 == bits & 0x80u8)) by (bit_vector)
        requires
            f == (bits & 0xF0u8) | op,
            op <= 15,
            bits & 0x0Fu8 == 0,
    ;
    let ind = len_indicator(len);
    let m: u8 = if h.mask is Some { 0x80u8 } else { 0u8 };
    assert(s & 0x7Fu8 == ind && (s & 0x80u8 == 0x80u8 <==> m == 0x80u8)) by (bit_vector)
        requires
            s == m | ind,
            ind <= 127,
            m == 0x80u8 || m == 0u8,
    ;
    let e = ext_len_bytes(len);
    if len <= 125 {
        assert(decoded_len(b) == len);
    } else if len <= 65535 {
        lemma_be16_round_trip(len as u16);
        assert(b[2] == e[0] && b[3] == e[1]);
        assert(decoded_len(b) == len);
    } else {
        lemma_be64_round_trip(len);
        assert(b[2] == e[0] && b[3] == e[1] && b[4] == e[2] && b[5] == e[3]);
        assert(b[6] == e[4] && b[7] == e[5] && b[8] == e[6] && b[9] == e[7]);
        assert(decoded_len(b) == len);
    }
    assert(length_end(b) == 2 + e.len());
    if let Some(k) = h.mask {
        let le = length_end(b) as int;
        assert(b.subrange(le, le + 4) =~= k@);
    }
    assert forall|g: DataFrameHeader| header_decodes(b, g) implies g == h by {
        if let Some(k) = h.mask {
            assert(g.mask->0@ == k@);
            assert(g.mask->0 == k);
        }
    }
}

/// Minimal length: complete header bytes whose length is not in its
/// shortest form are refused, and the read stops right behind the length.
pub proof fn lemma_nonminimal_length_refused(b: Seq<u8>)
    requires
        header_complete(b),
        (b[1] & 0x7Fu8 == 126u8 && decoded_len(b) <= 125) || (b[1] & 0x7Fu8 == 127u8
            && decoded_len(b) <= 65535),
    ensures
        header_read_error(b) == Some(
            WebSocketError::DataFrameError(DataFrameErrorKind::InvalidLength),
        ),
        header_consumed(b) == length_end(b),
{
}

/// Control frames: neither written nor read with a payload over 125 bytes.
pub proof fn lemma_control_length_refused(h: DataFrameHeader, b: Seq<u8>)
    requires
        h.opcode <= 15,
        h.opcode >= 8,
        h.len > 125,
        header_complete(b),
        length_is_minimal(b),
        b[0] & 0x0Fu8 >= 8,
        decoded_len(b) > 125,
    ensures
        header_write_error(h) == Some(
            WebSocketError::DataFrameError(DataFrameErrorKind::ControlFrameTooLong),
        ),
        header_read_error(b) == Some(
            WebSocketError::DataFrameError(DataFrameErrorKind::ControlFrameTooLong),
        ),
{
}

} // verus!
