//! Whole data frames: a header and its payload.

use vstd::prelude::*;
use crate::error::WebSocketError;
use crate::header::{
    header_bytes, header_complete, header_consumed, header_decodes, header_read_error,
    header_round_trips, header_write_error, lemma_header_round_trip, read_header, write_header,
    DataFrameHeader, ReaderState,
};
use crate::mask::{lemma_mask_symmetric, mask_data, masked};
use crate::reader::ByteReader;

verus! {

/// A frame: its header and its payload in plain (unmasked) form.
#[derive(Clone, Debug, PartialEq, Eq)]
pub struct DataFrame {
    /// The header; its `len` is the payload's length.
    pub header: DataFrameHeader,
    /// The payload, unmasked.
    pub data: Vec<u8>,
}

/// A payload as it stands on the wire: masked where the header has a key.
pub open spec fn wire_payload(mask: Option<[u8; 4]>, data: Seq<u8>) -> Seq<u8> {
    match mask {
        Some(k) => masked(data, k@),
        None => data,
    }
}

/// A payload as read from the wire: unmasked where the header has a key.
pub open spec fn plain_payload(mask: Option<[u8; 4]>, wire: Seq<u8>) -> Seq<u8> {
    wire_payload(mask, wire)
}

/// The bytes of a whole frame.
pub open spec fn frame_bytes(frame: DataFrame) -> Seq<u8> {
    header_bytes(frame.header) + wire_payload(frame.header.mask, frame.data@)
}

/// Writes a whole frame: its header, then its payload, masked where the
/// header has a key.
pub fn write_dataframe(writer: &mut Vec<u8>, frame: &DataFrame) -> (r: Result<(), WebSocketError>)
    requires
        frame.data@.len() == frame.header.len,
    ensures
        header_write_error(frame.header) is Some ==> r == Err::<(), WebSocketError>(
            header_write_error(frame.header)->0,
        ) && final(writer)@ == old(writer)@,
        header_write_error(frame.header) is None ==> r is Ok && final(writer)@ == old(writer)@
            + frame_bytes(*frame),
{
    write_header(writer, frame.header)?;
    let ghost mid = writer@;
    let wire = match frame.header.mask {
        Some(k) => mask_data(k, frame.data.as_slice()),
        None => frame.data.clone(),
    };
    let mut i: usize = 0;
    while i < wire.len()
        invariant
            i <= wire@.len(),
            writer@ == mid + wire@.take(i as int),
        decreases wire@.len() - i,
    {
        writer.push(wire[i]);
        i = i + 1;
        assert(writer@ =~= mid + wire@.take(i as int));
    }
    assert(wire@.take(i as int) =~= wire@);
    Ok(())
}

/// Reads the payload that `header` announces and unmasks it. Where fewer
/// bytes are there, an `IoError` comes back and nothing is consumed.
pub fn read_payload(reader: &mut ByteReader, header: &DataFrameHeader) -> (r: Result<
    Vec<u8>,
    WebSocketError,
>)
    ensures
        header.len <= old(reader)@.len() ==> r is Ok && r->Ok_0@ == plain_payload(
            header.mask,
            old(reader)@.take(header.len as int),
        ) && final(reader)@ == old(reader)@.skip(header.len as int),
        header.len > old(reader)@.len() ==> r == Err::<Vec<u8>, WebSocketError>(
            WebSocketError::IoError,
        ) && final(reader)@ == old(reader)@,
{
    if header.len > reader.remaining() as u64 {
        return Err(WebSocketError::IoError);
    }
    let wire = reader.read_bytes(header.len as usize)?;
    match header.mask {
        Some(k) => Ok(mask_data(k, wire.as_slice())),
        None => Ok(wire),
    }
}

/// Codec round trip for whole frames: the bytes of a frame whose header
/// round-trips, followed by anything, read back as that header and that
/// payload, and leave exactly what followed.
pub proof fn lemma_frame_round_trip(f: DataFrame, rest: Seq<u8>)
    requires
        header_round_trips(f.header),
        f.data@.len() == f.header.len,
    ensures
        ({
            let b = frame_bytes(f) + rest;
            let after = b.skip(header_consumed(b) as int);
            &&& header_complete(b)
            &&& header_read_error(b) is None
            &&& forall|g: DataFrameHeader| header_decodes(b, g) <==> g == f.header
            &&& f.header.len <= after.len()
            &&& plain_payload(f.header.mask, after.take(f.header.len as int)) == f.data@
            &&& after.skip(f.header.len as int) == rest
        }),
{
    let hb = header_bytes(f.header);
    let w = wire_payload(f.header.mask, f.data@);
    let b = frame_bytes(f) + rest;
    assert(b =~= hb + (w + rest));
    lemma_header_round_trip(f.header, w + rest);
    let after = b.skip(header_consumed(b) as int);
    assert(after =~= w + rest);
    assert(after.take(f.header.len as int) =~= w);
    assert(after.skip(f.header.len as int) =~= rest);
    if let Some(k) = f.header.mask {
        lemma_mask_symmetric(f.data@, k@);
    }
}

/// Reads whole frames from a byte source that may run dry at any point: a
/// partial header is kept, and so is a complete header whose payload has
/// not all arrived.
pub struct FrameReader {
    state: ReaderState,
    pending: Option<DataFrameHeader>,
}

impl FrameReader {
    /// The header bytes consumed and not decided yet.
    pub closed spec fn partial(&self) -> Seq<u8> {
        self.state@
    }

    /// A header read whose payload is still to come.
    pub closed spec fn pending(&self) -> Option<DataFrameHeader> {
        self.pending
    }

    /// The reader's invariant.
    pub closed spec fn wf(&self) -> bool {
        &&& !header_complete(self.state@)
        &&& self.pending is Some ==> self.state@.len() == 0
    }

    /// A reader at the start of a frame.
    pub fn new() -> (r: FrameReader)
        ensures
            r.wf(),
            r.partial().len() == 0,
            r.pending() is None,
    {
        FrameReader { state: ReaderState::new(), pending: None }
    }

    /// The header read whose payload is still to come, if any: its length
    /// can be checked against a size cap before the payload arrives.
    pub fn pending_header(&self) -> (r: Option<DataFrameHeader>)
        ensures
            r == self.pending(),
    {
        self.pending
    }

    /// Reads the next frame. Where the bytes run out first, an `IoError`
    /// comes back and what was read is kept for the next call; where the
    /// header is refused, its error comes back.
    pub fn read_frame(&mut self, reader: &mut ByteReader) -> (r: Result<DataFrame, WebSocketError>)
        requires
            old(self).wf(),
        ensures
            final(self).wf(),
            ({
                let all = old(self).partial() + old(reader)@;
                let rest = all.skip(header_consumed(all) as int);
                &&& old(self).pending() is None && !header_complete(all) ==> r
                    == Err::<DataFrame, WebSocketError>(WebSocketError::IoError)
                    && final(self).partial() == all && final(self).pending() is None
                    && final(reader)@.len() == 0
                &&& old(self).pending() is None && header_complete(all) && header_read_error(
                    all,
                ) is Some ==> r == Err::<DataFrame, WebSocketError>(header_read_error(all)->0)
                    && final(self).partial().len() == 0 && final(self).pending() is None
                    && final(reader)@ == rest
                &&& old(self).pending() is None && header_complete(all) && header_read_error(
                    all,
                ) is None ==> match r {
                    Ok(f) => {
                        &&& header_decodes(all, f.header)
                        &&& f.header.len <= rest.len()
                        &&& f.data@ == plain_payload(
                            f.header.mask,
                            rest.take(f.header.len as int),
                        )
                        &&& final(reader)@ == rest.skip(f.header.len as int)
                        &&& final(self).pending() is None
                    },
                    Err(e) => {
                        &&& e == WebSocketError::IoError
                        &&& final(self).pending() is Some
                        &&& header_decodes(all, final(self).pending()->0)
                        &&& final(self).pending()->0.len > rest.len()
                        &&& final(reader)@ == rest
                    },
                }
                &&& old(self).pending() is Some ==> {
                    let h = old(self).pending()->0;
                    &&& h.len <= old(reader)@.len() ==> r is Ok && r->Ok_0.header == h
                        && r->Ok_0.data@ == plain_payload(
                        h.mask,
                        old(reader)@.take(h.len as int),
                    ) && final(reader)@ == old(reader)@.skip(h.len as int)
                        && final(self).pending() is None
                    &&& h.len > old(reader)@.len() ==> r == Err::<DataFrame, WebSocketError>(
                        WebSocketError::IoError,
                    ) && final(reader)@ == old(reader)@ && final(self).pending() == Some(h)
                }
                &&& r is Ok ==> r->Ok_0.data@.len() == r->Ok_0.header.len
            }),
    {
        let header = match self.pending {
            Some(h) => h,
            None => read_header(reader, &mut self.state)?,
        };
        match read_payload(reader, &header) {
            Ok(data) => {
                self.pending = None;
                Ok(DataFrame { header, data })
            },
            Err(e) => {
                self.pending = Some(header);
                Err(e)
            },
        }
    }
}

} // verus!
