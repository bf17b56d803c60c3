//! A buffer for reading data from the network.
//!
//! The `ReadBuffer` is a buffer of bytes similar to a first-in, first-out
//! queue: it is filled by reading from a transport and consumed through a
//! cursor. It is the simple linear fallback beside the circular
//! [`crate::storage::RingBuffer`]; consumed bytes are dropped from the front
//! on every refill rather than reused in place.

use vstd::prelude::*;
use vstd::slice::slice_subrange;

use crate::codec::Transport;
use crate::error::Error;

verus! {

/// A FIFO buffer for reading packets from the network.
#[derive(Debug)]
pub struct ReadBuffer<const CHUNK_SIZE: usize> {
    storage: Vec<u8>,
    pos: usize,
}

impl<const CHUNK_SIZE: usize> ReadBuffer<CHUNK_SIZE> {
    /// All stored bytes, the already-read prefix included.
    pub closed spec fn raw(&self) -> Seq<u8> {
        self.storage@
    }

    /// The raw cursor field; reads clamp it to the stored length.
    pub closed spec fn raw_pos(&self) -> int {
        self.pos as int
    }

    /// The cursor: how many stored bytes have been read already.
    pub closed spec fn cursor_pos(&self) -> int {
        if self.pos <= self.storage@.len() {
            self.pos as int
        } else {
            self.storage@.len() as int
        }
    }

    /// The unread bytes.
    pub open spec fn unread(&self) -> Seq<u8> {
        self.raw().skip(self.cursor_pos())
    }

    /// Create a new empty input buffer.
    pub fn new() -> (r: Self)
        ensures
            r.raw().len() == 0,
            r.cursor_pos() == 0,
    {
        Self::with_capacity(CHUNK_SIZE)
    }

    /// Create a new empty input buffer with a given `capacity`.
    pub fn with_capacity(capacity: usize) -> (r: Self)
        ensures
            r.raw().len() == 0,
            r.cursor_pos() == 0,
    {
        Self::from_partially_read(Vec::with_capacity(capacity))
    }

    /// Create an input buffer filled with previously read data.
    pub fn from_partially_read(part: Vec<u8>) -> (r: Self)
        ensures
            r.raw() == part@,
            r.cursor_pos() == 0,
    {
        ReadBuffer { storage: part, pos: 0 }
    }

    /// A view of the data storage, the already-read prefix included.
    pub fn as_cursor(&self) -> (r: &Vec<u8>)
        ensures
            r@ == self.raw(),
    {
        &self.storage
    }

    /// A mutable view of the data storage; the cursor stays where it was,
    /// clamped to the new length on the next read.
    pub fn as_cursor_mut(&mut self) -> (r: &mut Vec<u8>)
        ensures
            r@ == old(self).raw(),
            final(self).raw() == final(r)@,
            final(self).raw_pos() == old(self).raw_pos(),
    {
        &mut self.storage
    }

    /// Unread bytes remaining.
    pub fn remaining(&self) -> (r: usize)
        ensures
            r == self.unread().len(),
    {
        if self.pos <= self.storage.len() {
            self.storage.len() - self.pos
        } else {
            0
        }
    }

    /// The unread bytes, as one contiguous slice.
    pub fn chunk(&self) -> (r: &[u8])
        ensures
            r@ == self.unread(),
    {
        let p = if self.pos <= self.storage.len() {
            self.pos
        } else {
            self.storage.len()
        };
        slice_subrange(self.storage.as_slice(), p, self.storage.len())
    }

    /// Advance the cursor past `cnt` unread bytes.
    pub fn advance(&mut self, cnt: usize)
        requires
            cnt <= old(self).unread().len(),
        ensures
            final(self).raw() == old(self).raw(),
            final(self).cursor_pos() == old(self).cursor_pos() + cnt,
    {
        let p = if self.pos <= self.storage.len() {
            self.pos
        } else {
            self.storage.len()
        };
        self.pos = p + cnt;
    }

    /// Consume the `ReadBuffer` and get the internal storage, with the
    /// already-read prefix drained.
    pub fn into_vec(self) -> (r: Vec<u8>)
        ensures
            r@ == self.unread(),
    {
        let mut this = self;
        this.clean_up();
        this.storage
    }

    /// Read the next portion of data from the given transport.
    ///
    /// The already-read prefix is dropped first, then up to `CHUNK_SIZE` fresh
    /// bytes are appended after the unread bytes, which are kept in order.
    pub fn read_from<S: Transport>(&mut self, stream: &mut S) -> (r: Result<usize, Error>)
        ensures
            match r {
                Ok(n) => {
                    &&& n <= CHUNK_SIZE
                    &&& final(self).cursor_pos() == 0
                    &&& final(self).raw().len() == old(self).unread().len() + n
                    &&& final(self).raw().take(old(self).unread().len() as int) == old(
                        self,
                    ).unread()
                },
                Err(_) => final(self).cursor_pos() == 0 && final(self).raw() == old(self).unread(),
            },
    {
        let ghost kept = self.unread();
        self.clean_up();
        match stream.read(CHUNK_SIZE) {
            Ok(chunk) => {
                let n = chunk.len();
                let mut fresh = chunk;
                self.storage.append(&mut fresh);
                proof {
                    assert(self.storage@.take(kept.len() as int) =~= kept);
                }
                Ok(n)
            },
            Err(e) => Err(e),
        }
    }

    /// Cleans up the part of the vector that has already been read by the
    /// cursor.
    fn clean_up(&mut self)
        ensures
            final(self).raw() == old(self).unread(),
            final(self).pos == 0,
    {
        let p = if self.pos <= self.storage.len() {
            self.pos
        } else {
            self.storage.len()
        };
        let tail = self.storage.split_off(p);
        self.storage = tail;
        self.pos = 0;
    }
}

impl<const CHUNK_SIZE: usize> Default for ReadBuffer<CHUNK_SIZE> {
    /// An empty buffer with the default capacity.
    fn default() -> (r: Self)
        ensures
            r.raw().len() == 0,
            r.cursor_pos() == 0,
    {
        Self::new()
    }
}

} // verus!
