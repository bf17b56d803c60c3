//! Fixed-capacity circular byte storage.
//!
//! The ring buffer backs the inbound side of the frame codec: bytes read from
//! a transport are enqueued at the tail and frames are dequeued from the head.
//! A dequeue that stays before the physical end of the backing array takes the
//! contiguous path; one that straddles the wrap boundary takes the leaping
//! path, which copies the two physical segments into one run.

use vstd::prelude::*;

use crate::error::Error;
use crate::wire::{be_uint, be_bytes_to_u64};

verus! {

/// A trait for setting a value to a known state.
///
/// In-place analog of `Default`.
pub trait Resettable {
    fn reset(&mut self);
}

/// Error returned when enqueuing into a full buffer.
#[derive(Debug, PartialEq, Eq, Clone, Copy)]
pub struct Full;

/// Error returned when dequeuing from an empty buffer.
#[derive(Debug, PartialEq, Eq, Clone, Copy)]
pub struct Empty;

/// Fixed-capacity circular byte store.
///
/// The backing array is allocated once and never resized; a logical length and
/// an internal read offset describe which bytes are buffered.
pub struct RingBuffer {
    storage: Vec<u8>,
    read_at: usize,
    length: usize,
}

impl View for RingBuffer {
    type V = Seq<u8>;

    /// The buffered bytes, oldest first.
    closed spec fn view(&self) -> Seq<u8> {
        Seq::new(self.length as nat, |i: int| self.storage@[self.pos(i)])
    }
}

impl RingBuffer {
    /// Size of the backing array.
    pub closed spec fn capacity(&self) -> int {
        self.storage@.len() as int
    }

    /// Physical index of the `i`-th buffered byte.
    closed spec fn pos(&self, i: int) -> int {
        if self.read_at + i < self.storage@.len() {
            self.read_at + i
        } else {
            self.read_at + i - self.storage@.len()
        }
    }

    /// Internal consistency of the buffer.
    pub closed spec fn wf(&self) -> bool {
        &&& self.storage@.len() > 0
        &&& self.read_at < self.storage@.len()
        &&& self.length <= self.storage@.len()
    }

    /// Bytes readable without crossing the physical end of the backing array.
    pub closed spec fn contiguous(&self) -> int {
        if self.length as int <= self.capacity() - self.read_at {
            self.length as int
        } else {
            self.capacity() - self.read_at
        }
    }

    /// A well-formed buffer never holds more than its capacity.
    pub proof fn lemma_len_le_capacity(&self)
        requires
            self.wf(),
        ensures
            self@.len() <= self.capacity(),
    {
    }

    /// Create a ring buffer over the given backing array; its length is the
    /// capacity, and any previous contents are treated as free space.
    pub fn new(storage: Vec<u8>) -> (r: Self)
        requires
            storage@.len() > 0,
        ensures
            r.wf(),
            r@.len() == 0,
            r.capacity() == storage@.len(),
    {
        RingBuffer { storage, read_at: 0, length: 0 }
    }

    /// Total unread bytes.
    pub fn len(&self) -> (r: usize)
        ensures
            r == self@.len(),
    {
        self.length
    }

    /// Bytes available before the physical end of the backing array is reached.
    pub fn contigous_len(&self) -> (r: usize)
        requires
            self.wf(),
        ensures
            r as int == self.contiguous(),
            r as int <= self@.len(),
    {
        let avail = self.storage.len() - self.read_at;
        if self.length <= avail {
            self.length
        } else {
            avail
        }
    }

    /// Read the `i`-th buffered byte without consuming anything.
    ///
    /// This is what lets a parser be retried from scratch against the same
    /// unconsumed bytes: inspection is non-destructive.
    pub fn peek_at(&self, i: usize) -> (r: u8)
        requires
            self.wf(),
            (i as int) < self@.len(),
        ensures
            r == self@[i as int],
    {
        let cap = self.storage.len();
        let idx = if i < cap - self.read_at {
            self.read_at + i
        } else {
            i - (cap - self.read_at)
        };
        self.storage[idx]
    }

    /// Append the given bytes at the tail.
    ///
    /// Fails with `Full`, leaving the buffer unchanged, when the bytes do not
    /// fit into the remaining capacity.
    pub fn enqueue_many(&mut self, data: &Vec<u8>) -> (r: Result<usize, Full>)
        requires
            old(self).wf(),
        ensures
            final(self).wf(),
            final(self).capacity() == old(self).capacity(),
            match r {
                Ok(n) => {
                    &&& n == data@.len()
                    &&& old(self)@.len() + data@.len() <= old(self).capacity()
                    &&& final(self)@ == old(self)@ + data@
                },
                Err(_) => {
                    &&& *final(self) == *old(self)
                    &&& old(self)@.len() + data@.len() > old(self).capacity()
                },
            },
    {
        let cap = self.storage.len();
        if data.len() > cap - self.length {
            return Err(Full);
        }
        let ghost orig = *self;
        let mut i: usize = 0;
        while i < data.len()
            invariant
                self.wf(),
                self.storage@.len() == orig.storage@.len(),
                self.read_at == orig.read_at,
                self.length == orig.length,
                i <= data@.len(),
                orig.wf(),
                orig.length + data@.len() <= orig.storage@.len(),
                forall|k: int| 0 <= k < orig.length ==> self.storage@[orig.pos(k)] == orig.storage@[orig.pos(k)],
                forall|j: int| 0 <= j < i ==> self.storage@[orig.pos(orig.length + j)] == data@[j],
            decreases data@.len() - i,
        {
            let cap = self.storage.len();
            let t = self.length + i;
            let idx = if t < cap - self.read_at {
                self.read_at + t
            } else {
                t - (cap - self.read_at)
            };
            assert(idx == orig.pos(orig.length + i));
            self.storage[idx] = data[i];
            i = i + 1;
        }
        self.length = self.length + data.len();
        proof {
            assert(self@ =~= orig@ + data@);
        }
        Ok(data.len())
    }

    /// Dequeue `n` bytes that do not cross the wrap boundary.
    pub fn dequeue_many_no_leap(&mut self, n: usize) -> (r: Vec<u8>)
        requires
            old(self).wf(),
            n as int <= old(self).contiguous(),
        ensures
            final(self).wf(),
            final(self).capacity() == old(self).capacity(),
            r@ == old(self)@.take(n as int),
            final(self)@ == old(self)@.skip(n as int),
    {
        let ghost orig = *self;
        let cap = self.storage.len();
        let mut out: Vec<u8> = Vec::new();
        let mut j: usize = 0;
        while j < n
            invariant
                *self == orig,
                orig.wf(),
                j <= n,
                cap == orig.storage@.len(),
                n as int <= orig.contiguous(),
                orig.read_at + n <= orig.storage@.len(),
                n <= orig.length,
                out@.len() == j,
                forall|t: int| 0 <= t < j ==> out@[t] == orig.storage@[orig.read_at + t],
            decreases n - j,
        {
            out.push(self.storage[self.read_at + j]);
            j = j + 1;
        }
        self.read_at = if n < cap - self.read_at {
            self.read_at + n
        } else {
            n - (cap - self.read_at)
        };
        self.length = self.length - n;
        proof {
            assert(out@ =~= orig@.take(n as int));
            assert(self@ =~= orig@.skip(n as int));
        }
        out
    }

    /// Dequeue `n` bytes whose run straddles the wrap boundary: the two
    /// physical segments are copied into one contiguous result.
    pub fn dequeue_many_leap(&mut self, n: usize) -> (r: Vec<u8>)
        requires
            old(self).wf(),
            old(self).contiguous() < n as int <= old(self)@.len(),
        ensures
            final(self).wf(),
            final(self).capacity() == old(self).capacity(),
            r@ == old(self)@.take(n as int),
            final(self)@ == old(self)@.skip(n as int),
    {
        let ghost orig = *self;
        let cap = self.storage.len();
        let contig = cap - self.read_at;
        let mut out: Vec<u8> = Vec::new();
        let mut j: usize = 0;
        while j < contig
            invariant
                *self == orig,
                orig.wf(),
                j <= contig,
                contig == orig.storage@.len() - orig.read_at,
                cap == orig.storage@.len(),
                out@.len() == j,
                forall|t: int| 0 <= t < j ==> out@[t] == orig.storage@[orig.read_at + t],
            decreases contig - j,
        {
            out.push(self.storage[self.read_at + j]);
            j = j + 1;
        }
        let rest = n - contig;
        let mut k: usize = 0;
        while k < rest
            invariant
                *self == orig,
                orig.wf(),
                k <= rest,
                contig == orig.storage@.len() - orig.read_at,
                cap == orig.storage@.len(),
                rest == n - contig,
                n as int <= orig.length,
                out@.len() == contig + k,
                forall|t: int| 0 <= t < contig ==> out@[t] == orig.storage@[orig.read_at + t],
                forall|t: int| 0 <= t < k ==> out@[contig + t] == orig.storage@[t],
            decreases rest - k,
        {
            out.push(self.storage[k]);
            k = k + 1;
        }
        self.read_at = rest;
        self.length = self.length - n;
        proof {
            assert forall|t: int| 0 <= t < n implies out@[t] == orig@[t] by {
                if t < contig {
                    assert(orig.pos(t) == orig.read_at + t);
                } else {
                    assert(orig.pos(t) == t - contig);
                }
            }
            assert(out@ =~= orig@.take(n as int));
            assert(self@ =~= orig@.skip(n as int));
        }
        out
    }

    /// Dequeue `n` bytes in one contiguous run.
    ///
    /// Fails with `Empty`, leaving the buffer unchanged, when fewer than `n`
    /// bytes are buffered. It is only valid to call when the requested range
    /// does not cross the wrap boundary; callers check `contigous_len` first.
    pub fn dequeue_many_contiguous(&mut self, n: usize) -> (r: Result<Vec<u8>, Empty>)
        requires
            old(self).wf(),
            n as int <= old(self)@.len() ==> n as int <= old(self).contiguous(),
        ensures
            final(self).wf(),
            final(self).capacity() == old(self).capacity(),
            match r {
                Ok(v) => {
                    &&& n as int <= old(self)@.len()
                    &&& v@ == old(self)@.take(n as int)
                    &&& final(self)@ == old(self)@.skip(n as int)
                },
                Err(_) => {
                    &&& *final(self) == *old(self)
                    &&& n as int > old(self)@.len()
                },
            },
    {
        if n > self.length {
            return Err(Empty);
        }
        Ok(self.dequeue_many_no_leap(n))
    }
}

/// One ring-buffer operation, at the model level.
pub enum RingOp {
    /// Enqueue the given bytes at the tail.
    Enqueue(Seq<u8>),
    /// Dequeue the given count of bytes from the head.
    Dequeue(int),
}

/// Run a sequence of operations over the abstract queue `q`, collecting
/// everything enqueued and everything dequeued, in order. An operation that
/// would not fit or would underflow is the one the exec buffer rejects with
/// `Full` or `Empty`, leaving the state unchanged, so it changes nothing here
/// either.
pub open spec fn run_ring_ops(q: Seq<u8>, ops: Seq<RingOp>, cap: int) -> (Seq<u8>, Seq<u8>, Seq<
    u8,
>)
    decreases ops.len(),
{
    if ops.len() == 0 {
        (q, Seq::empty(), Seq::empty())
    } else {
        match ops[0] {
            RingOp::Enqueue(data) => {
                if q.len() + data.len() <= cap {
                    let (q2, ins, outs) = run_ring_ops(q + data, ops.skip(1), cap);
                    (q2, data + ins, outs)
                } else {
                    run_ring_ops(q, ops.skip(1), cap)
                }
            },
            RingOp::Dequeue(n) => {
                if 0 <= n <= q.len() {
                    let (q2, ins, outs) = run_ring_ops(q.skip(n), ops.skip(1), cap);
                    (q2, ins, q.take(n) + outs)
                } else {
                    run_ring_ops(q, ops.skip(1), cap)
                }
            },
        }
    }
}

/// Ring buffer round trip: over any sequence of enqueue and dequeue
/// operations, the bytes dequeued followed by the bytes still queued are
/// exactly the bytes initially queued followed by the bytes enqueued, in
/// order. First in, first out, across any number of wraparounds.
pub proof fn lemma_ring_round_trip(q: Seq<u8>, ops: Seq<RingOp>, cap: int)
    ensures
        ({
            let (q2, ins, outs) = run_ring_ops(q, ops, cap);
            outs + q2 == q + ins
        }),
    decreases ops.len(),
{
    if ops.len() == 0 {
        let (q2, ins, outs) = run_ring_ops(q, ops, cap);
        assert(outs + q2 =~= q + ins);
    } else {
        match ops[0] {
            RingOp::Enqueue(data) => {
                if q.len() + data.len() <= cap {
                    lemma_ring_round_trip(q + data, ops.skip(1), cap);
                    let (q2, ins, outs) = run_ring_ops(q + data, ops.skip(1), cap);
                    assert(outs + q2 =~= (q + data) + ins);
                    assert((q + data) + ins =~= q + (data + ins));
                } else {
                    lemma_ring_round_trip(q, ops.skip(1), cap);
                }
            },
            RingOp::Dequeue(n) => {
                if 0 <= n <= q.len() {
                    lemma_ring_round_trip(q.skip(n), ops.skip(1), cap);
                    let (q2, ins, outs) = run_ring_ops(q.skip(n), ops.skip(1), cap);
                    assert(outs + q2 =~= q.skip(n) + ins);
                    assert((q.take(n) + outs) + q2 =~= q.take(n) + (outs + q2));
                    assert(q.take(n) + (q.skip(n) + ins) =~= q + ins);
                } else {
                    lemma_ring_round_trip(q, ops.skip(1), cap);
                }
            },
        }
    }
}

impl Resettable for RingBuffer {
    /// Drop all buffered content and return to the empty state; the backing
    /// array and its capacity are kept.
    fn reset(&mut self)
        ensures
            final(self)@.len() == 0,
            final(self).capacity() == old(self).capacity(),
            old(self).wf() ==> final(self).wf(),
    {
        self.read_at = 0;
        self.length = 0;
    }
}

/// A byte ring buffer sized for the codec's inbound stream.
pub struct U8RingBuffer(pub RingBuffer);

impl View for U8RingBuffer {
    type V = Seq<u8>;

    open spec fn view(&self) -> Seq<u8> {
        self.0@
    }
}

/// The byte widths `read_uint` accepts.
pub open spec fn valid_uint_width(n: int) -> bool {
    n == 2 || n == 3 || n == 4 || n == 6 || n == 8
}

impl U8RingBuffer {
    /// Create a buffer with the codec's fixed inbound capacity.
    pub fn new() -> (r: Self)
        ensures
            r.0.wf(),
            r@.len() == 0,
            r.0.capacity() == 65536,
    {
        U8RingBuffer(RingBuffer::new(vec![0u8; 65536]))
    }

    /// Dequeue `nbytes` bytes and read them as one big-endian unsigned integer.
    pub fn read_uint(&mut self, nbytes: usize) -> (r: Result<u64, Error>)
        requires
            old(self).0.wf(),
        ensures
            final(self).0.wf(),
            final(self).0.capacity() == old(self).0.capacity(),
            match r {
                Ok(v) => {
                    &&& valid_uint_width(nbytes as int)
                    &&& nbytes as int <= old(self)@.len()
                    &&& v == be_uint(old(self)@.take(nbytes as int))
                    &&& final(self)@ == old(self)@.skip(nbytes as int)
                },
                Err(e) => {
                    &&& *final(self) == *old(self)
                    &&& (if nbytes as int > old(self)@.len() {
                        e == Error::NotEnoughData
                    } else {
                        e == Error::InvalidInput && !valid_uint_width(nbytes as int)
                    })
                },
            },
    {
        if self.0.len() >= nbytes {
            if !(nbytes == 2 || nbytes == 3 || nbytes == 4 || nbytes == 6 || nbytes == 8) {
                return Err(Error::InvalidInput);
            }
            let contig = self.0.contigous_len();
            let bytes = if nbytes <= contig {
                self.0.dequeue_many_no_leap(nbytes)
            } else {
                self.0.dequeue_many_leap(nbytes)
            };
            Ok(be_bytes_to_u64(&bytes))
        } else {
            Err(Error::NotEnoughData)
        }
    }
}

} // verus!
