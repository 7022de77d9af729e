//! A byte source that hands out what it holds, one byte at a time.

use vstd::prelude::*;
use crate::error::WebSocketError;

verus! {

/// The bytes received from a transport and not consumed yet.
pub struct ByteReader {
    data: Vec<u8>,
    pos: usize,
}

impl View for ByteReader {
    type V = Seq<u8>;

    /// The bytes still to be read, in order.
    closed spec fn view(&self) -> Seq<u8> {
        if self.pos <= self.data@.len() {
            self.data@.skip(self.pos as int)
        } else {
            Seq::empty()
        }
    }
}

impl ByteReader {
    /// A reader that yields `data`.
    pub fn new(data: Vec<u8>) -> (r: ByteReader)
        ensures
            r@ == data@,
    {
        ByteReader { data, pos: 0 }
    }

    /// Appends freshly received bytes behind those not read yet.
    pub fn extend(&mut self, more: &[u8])
        ensures
            final(self)@ == old(self)@ + more@,
    {
        let start: usize = if self.pos <= self.data.len() { self.pos } else { self.data.len() };
        let mut data: Vec<u8> = Vec::new();
        let mut i: usize = start;
        while i < self.data.len()
            invariant
                start <= i <= self.data@.len(),
                data@ == self.data@.subrange(start as int, i as int),
            decreases self.data@.len() - i,
        {
            data.push(self.data[i]);
            i = i + 1;
        }
        assert(data@ == old(self)@);
        let mut j: usize = 0;
        while j < more.len()
            invariant
                0 <= j <= more@.len(),
                data@ == old(self)@ + more@.take(j as int),
            decreases more@.len() - j,
        {
            proof {
                assert(more@.take(j as int + 1) == more@.take(j as int).push(more@[j as int]));
            }
            data.push(more[j]);
            j = j + 1;
        }
        proof {
            assert(more@.take(more@.len() as int) == more@);
        }
        self.data = data;
        self.pos = 0;
        proof {
            assert(self.data@.skip(0) == self.data@);
        }
    }

    /// The number of bytes still to be read.
    pub fn remaining(&self) -> (r: usize)
        ensures
            r == self@.len(),
    {
        if self.pos <= self.data.len() {
            self.data.len() - self.pos
        } else {
            0
        }
    }

    /// Takes the next byte; an `IoError` where none is left, which consumes nothing.
    pub fn read_u8(&mut self) -> (r: Result<u8, WebSocketError>)
        ensures
            old(self)@.len() > 0 ==> r == Ok::<u8, WebSocketError>(old(self)@[0]) && final(self)@
                == old(self)@.skip(1),
            old(self)@.len() == 0 ==> r == Err::<u8, WebSocketError>(WebSocketError::IoError)
                && final(self)@ == old(self)@,
    {
        if self.pos < self.data.len() {
            let b = self.data[self.pos];
            self.pos = self.pos + 1;
            proof {
                assert(final(self)@ == old(self)@.skip(1));
            }
            Ok(b)
        } else {
            Err(WebSocketError::IoError)
        }
    }
    /// Takes the next `n` bytes where that many are there; otherwise an
    /// `IoError`, which consumes nothing.
    pub fn read_bytes(&mut self, n: usize) -> (r: Result<Vec<u8>, WebSocketError>)
        ensures
            n <= old(self)@.len() ==> r is Ok && r->Ok_0@ == old(self)@.take(n as int)
                && final(self)@ == old(self)@.skip(n as int),
            n > old(self)@.len() ==> r == Err::<Vec<u8>, WebSocketError>(WebSocketError::IoError)
                && final(self)@ == old(self)@,
    {
        let start: usize = if self.pos <= self.data.len() { self.pos } else { self.data.len() };
        if n > self.data.len() - start {
            return Err(WebSocketError::IoError);
        }
        let mut out: Vec<u8> = Vec::with_capacity(n);
        self.pos = start;
        let mut i: usize = 0;
        while i < n
            invariant
                start == self.pos,
                start + n <= self.data.len(),
                i <= n,
                out@ == self.data@.subrange(start as int, start + i),
            decreases n - i,
        {
            out.push(self.data[start + i]);
            i = i + 1;
        }
        self.pos = start + n;
        assert(out@ == old(self)@.take(n as int));
        assert(final(self)@ == old(self)@.skip(n as int));
        Ok(out)
    }
}

} // verus!
