//! The frame codec and the socket wrapper around it.
//!
//! The codec reads frames incrementally: a header phase, a payload phase, and
//! a fill step that takes one transport read whenever neither phase can make
//! progress. Writes are coalesced in an outbound buffer with a hard capacity
//! cap that gives callers an explicit backpressure signal.
//!
//! The codec carries its own history in ghost state: every byte that ever
//! arrived, every frame ever delivered, and every byte handed to the
//! transport. Its well-formedness ties them together, so
//! [`FrameCodec::lemma_frames_decode_history`] states chunk invariance for
//! the running engine: delivered frames are exactly a prefix of the greedy
//! decoding of the concatenated byte stream, however it was chunked.

use vstd::prelude::*;
use vstd::seq_lib::*;

use crate::decode::{decode_all, decodes_to_exactly, lemma_chunk_invariance,
    lemma_decodes_to_exactly_snoc, lemma_frame_from_header_payload};
use crate::error::Error;
use crate::frame::{FrameHeader, FrameModel, FrameParse, HeaderParse, ReadFrame, WriteFrame,
    apply_mask, header_consumed, parse_frame, parse_header, lemma_parse_frame_prefix,
    lemma_parse_header_prefix, lemma_parse_header_take};
use crate::message::Message;
use crate::storage::U8RingBuffer;

verus! {

/// A byte-stream transport: partial reads (a zero-length result means end of
/// stream), writes that report how many bytes they took (zero meaning the
/// connection was reset), and an explicit flush.
///
/// Implementations live outside the library (sockets, files, test fixtures).
/// The contracts state only what every transport guarantees: a read hands
/// back at most `max` bytes and a write takes at most what it was given.
pub trait Transport {
    /// Read up to `max` bytes; an empty result means end of stream.
    fn read(&mut self, max: usize) -> (r: Result<Vec<u8>, Error>)
        ensures
            r matches Ok(v) ==> v@.len() <= max,
    ;

    /// Write some prefix of `data`, reporting how many bytes were taken;
    /// zero bytes written means the peer reset the connection.
    fn write(&mut self, data: &Vec<u8>) -> (r: Result<usize, Error>)
        ensures
            r matches Ok(n) ==> n <= data@.len(),
    ;

    /// Flush buffered writes through to the peer.
    fn flush(&mut self) -> (r: Result<(), Error>);
}

/// A codec for WebSocket frames.
pub struct FrameCodec {
    /// Buffer to read data from the stream.
    in_buffer: U8RingBuffer,
    /// Buffer to send packets to the network.
    out_buffer: Vec<u8>,
    /// Capacity limit for `out_buffer`.
    max_out_buffer_len: usize,
    /// Buffer target length to reach before writing to the stream on calls to
    /// `buffer_frame`. Setting this to non-zero keeps small writes from
    /// hitting the stream.
    out_buffer_write_len: usize,
    /// Header and remaining size of the incoming packet being processed.
    header: Option<(FrameHeader, u64)>,
    /// Every byte that ever arrived from the transport (or was seeded).
    hist: Ghost<Seq<u8>>,
    /// Every frame handed to the caller, in order.
    delivered: Ghost<Seq<FrameModel>>,
    /// The prefix of `hist` consumed as delivered frames.
    consumed: Ghost<Seq<u8>>,
    /// Header bytes taken from the buffer for the pending header.
    hdr_bytes: Ghost<Seq<u8>>,
    /// Bytes the transport's write accepted.
    sent: Ghost<Seq<u8>>,
}

impl FrameCodec {
    /// Every byte the codec has taken from the transport, or was seeded with.
    pub closed spec fn history(&self) -> Seq<u8> {
        self.hist@
    }

    /// Every frame the codec has handed to its caller, in order.
    pub closed spec fn frames(&self) -> Seq<FrameModel> {
        self.delivered@
    }

    /// Arrived bytes not yet consumed as a delivered frame.
    pub closed spec fn remainder(&self) -> Seq<u8> {
        self.hdr_bytes@ + self.in_buffer@
    }

    /// Serialized bytes of every frame accepted for writing, in order.
    pub closed spec fn submitted(&self) -> Seq<u8> {
        self.sent@ + self.out_buffer@
    }

    /// Bytes the transport's write has accepted so far.
    pub closed spec fn written(&self) -> Seq<u8> {
        self.sent@
    }

    /// Bytes waiting in the outbound buffer.
    pub closed spec fn queued(&self) -> Seq<u8> {
        self.out_buffer@
    }

    /// The configured hard cap on the outbound buffer.
    pub closed spec fn spec_max_out_buffer_len(&self) -> int {
        self.max_out_buffer_len as int
    }

    /// The configured coalescing threshold.
    pub closed spec fn spec_out_buffer_write_len(&self) -> int {
        self.out_buffer_write_len as int
    }

    /// Internal consistency: the history splits into cleanly decoded bytes,
    /// the pending header's bytes, and the buffered rest.
    pub closed spec fn wf(&self) -> bool {
        &&& self.in_buffer.0.wf()
        &&& self.in_buffer.0.capacity() == 65536
        &&& self.hist@ == self.consumed@ + self.hdr_bytes@ + self.in_buffer@
        &&& self.hdr_bytes@.len() <= 14
        &&& decodes_to_exactly(self.consumed@, self.delivered@)
        &&& match self.header {
            None => self.hdr_bytes@.len() == 0,
            Some((h, l)) => parse_header(self.hdr_bytes@) == (HeaderParse::Complete {
                header: h,
                length: l as int,
                consumed: self.hdr_bytes@.len() as int,
            }),
        }
    }

    /// Chunk invariance for the running engine: the frames delivered so far,
    /// followed by the decoding of the unconsumed remainder, are exactly the
    /// greedy decoding of the whole arrived byte stream. Delivery therefore
    /// depends only on the concatenation of the transport's chunks, never on
    /// where the stream was split.
    pub proof fn lemma_frames_decode_history(&self)
        requires
            self.wf(),
        ensures
            decode_all(self.history()) == self.frames() + decode_all(self.remainder()),
    {
        lemma_chunk_invariance(self.consumed@, self.delivered@, self.remainder());
        assert(self.consumed@ + self.remainder() =~= self.hist@);
    }

    /// Create a new frame codec.
    pub fn new() -> (r: Self)
        ensures
            r.wf(),
            r.history().len() == 0,
            r.frames().len() == 0,
            r.remainder().len() == 0,
            r.submitted().len() == 0,
            r.queued().len() == 0,
            r.written().len() == 0,
            r.spec_max_out_buffer_len() == usize::MAX,
            r.spec_out_buffer_write_len() == 0,
    {
        let r = FrameCodec {
            in_buffer: U8RingBuffer::new(),
            out_buffer: Vec::new(),
            max_out_buffer_len: usize::MAX,
            out_buffer_write_len: 0,
            header: None,
            hist: Ghost(Seq::empty()),
            delivered: Ghost(Seq::empty()),
            consumed: Ghost(Seq::empty()),
            hdr_bytes: Ghost(Seq::empty()),
            sent: Ghost(Seq::empty()),
        };
        proof {
            assert(r.hist@ =~= r.consumed@ + r.hdr_bytes@ + r.in_buffer@);
        }
        r
    }

    /// Create a new frame codec over bytes already read from the transport.
    pub fn from_partially_read(part: Vec<u8>) -> (r: Self)
        requires
            part@.len() <= 65536,
        ensures
            r.wf(),
            r.history() == part@,
            r.frames().len() == 0,
            r.remainder() == part@,
            r.submitted().len() == 0,
            r.queued().len() == 0,
            r.written().len() == 0,
            r.spec_max_out_buffer_len() == usize::MAX,
            r.spec_out_buffer_write_len() == 0,
    {
        let mut r = FrameCodec::new();
        let res = r.in_buffer.0.enqueue_many(&part);
        proof {
            assert(res is Ok);
        }
        r.hist = Ghost(part@);
        proof {
            assert(r.hist@ =~= r.consumed@ + r.hdr_bytes@ + r.in_buffer@);
            assert(r.remainder() =~= part@);
        }
        r
    }

    /// Sets a maximum size for the out buffer.
    pub fn set_max_out_buffer_len(&mut self, max: usize)
        ensures
            final(self).spec_max_out_buffer_len() == max as int,
            final(self).spec_out_buffer_write_len() == old(self).spec_out_buffer_write_len(),
            final(self).wf() == old(self).wf(),
            final(self).history() == old(self).history(),
            final(self).frames() == old(self).frames(),
            final(self).remainder() == old(self).remainder(),
            final(self).submitted() == old(self).submitted(),
            final(self).queued() == old(self).queued(),
            final(self).written() == old(self).written(),
    {
        self.max_out_buffer_len = max;
    }

    /// Sets the buffer target length to reach before `buffer_frame` writes to
    /// the stream.
    pub fn set_out_buffer_write_len(&mut self, len: usize)
        ensures
            final(self).spec_out_buffer_write_len() == len as int,
            final(self).spec_max_out_buffer_len() == old(self).spec_max_out_buffer_len(),
            final(self).wf() == old(self).wf(),
            final(self).history() == old(self).history(),
            final(self).frames() == old(self).frames(),
            final(self).remainder() == old(self).remainder(),
            final(self).submitted() == old(self).submitted(),
            final(self).queued() == old(self).queued(),
            final(self).written() == old(self).written(),
    {
        self.out_buffer_write_len = len;
    }

    /// Header phase: with no header pending, try to parse one from the
    /// buffered bytes. On success the header bytes move from the buffer into
    /// the pending-header state, so the unconsumed remainder is unchanged.
    fn advance_header(&mut self) -> (r: Result<(), Error>)
        requires
            old(self).wf(),
            old(self).header is None,
        ensures
            final(self).wf(),
            final(self).hist@ == old(self).hist@,
            final(self).delivered@ == old(self).delivered@,
            final(self).out_buffer@ == old(self).out_buffer@,
            final(self).sent@ == old(self).sent@,
            final(self).max_out_buffer_len == old(self).max_out_buffer_len,
            final(self).out_buffer_write_len == old(self).out_buffer_write_len,
            final(self).remainder() == old(self).remainder(),
            match r {
                Ok(_) => {
                    &&& !(parse_header(old(self).remainder()) is Invalid)
                    &&& (parse_header(old(self).remainder()) is Incomplete ==> *final(self) == *old(self) && final(self).header is None)
                    &&& (parse_header(old(self).remainder()) is Complete ==> final(self).header is Some)
                    &&& (final(self).header is None ==> parse_header(
                        final(self).remainder(),
                    ) is Incomplete)
                },
                Err(e) => e == Error::Protocol && *final(self) == *old(self) && parse_header(
                    old(self).remainder(),
                ) is Invalid,
            },
    {
        let ghost pre = self.in_buffer@;
        proof {
            assert(self.hdr_bytes@ + self.in_buffer@ =~= self.in_buffer@);
        }
        match FrameHeader::parse(&mut self.in_buffer) {
            Err(e) => Err(e),
            Ok(Some((h, l))) => {
                proof {
                    lemma_parse_header_take(pre);
                }
                let ghost c = header_consumed(parse_header(pre));
                self.header = Some((h, l));
                self.hdr_bytes = Ghost(pre.take(c));
                proof {
                    assert(c <= 14);
                    assert(self.consumed@ + self.hdr_bytes@ + self.in_buffer@ =~= self.consumed@
                        + pre);
                    assert(self.hdr_bytes@ + self.in_buffer@ =~= pre);
                }
                Ok(())
            },
            Ok(None) => {
                Ok(())
            },
        }
    }

    /// Payload phase: once a header is pending, deliver the frame when its
    /// declared payload is fully buffered. A payload that stays before the
    /// wrap boundary takes the contiguous path; one that straddles it takes
    /// the leaping, copying path.
    fn take_payload(&mut self) -> (r: Option<ReadFrame>)
        requires
            old(self).wf(),
            old(self).header is Some,
        ensures
            final(self).wf(),
            final(self).hist@ == old(self).hist@,
            final(self).out_buffer@ == old(self).out_buffer@,
            final(self).sent@ == old(self).sent@,
            final(self).max_out_buffer_len == old(self).max_out_buffer_len,
            final(self).out_buffer_write_len == old(self).out_buffer_write_len,
            match r {
                Some(f) => final(self).delivered@ == old(self).delivered@.push(f@) && (parse_frame(
                    old(self).remainder(),
                ) matches FrameParse::Complete { frame, consumed } && f@ == frame && final(self).remainder() == old(self).remainder().skip(consumed)),
                None => *final(self) == *old(self) && parse_frame(
                    final(self).remainder(),
                ) is Incomplete,
            },
    {
        let (h, l) = self.header.unwrap();
        if l <= self.in_buffer.0.len() as u64 {
            let n = l as usize;
            let ghost pre2 = self.in_buffer@;
            let ghost hdr = self.hdr_bytes@;
            let contig = self.in_buffer.0.contigous_len();
            let raw = if n <= contig {
                self.in_buffer.0.dequeue_many_no_leap(n)
            } else {
                self.in_buffer.0.dequeue_many_leap(n)
            };
            let ghost rawseq = raw@;
            let mut payload = raw;
            match &h.mask {
                Some(k) => apply_mask(k, &mut payload),
                None => {},
            }
            self.header = None;
            let frame = ReadFrame::new(h, payload);
            let ghost fmodel = frame@;
            proof {
                lemma_frame_from_header_payload(self.hdr_bytes@, h, l as int, rawseq);
                lemma_decodes_to_exactly_snoc(
                    self.consumed@,
                    self.delivered@,
                    self.hdr_bytes@ + rawseq,
                    fmodel,
                );
                // The frame just taken is the one the whole remainder parses
                // to: the parse is stable under the bytes buffered past it.
                lemma_parse_frame_prefix(hdr + rawseq, pre2.skip(l as int));
                assert((hdr + rawseq) + pre2.skip(l as int) =~= hdr + pre2);
                assert((hdr + pre2).skip(hdr.len() + l as int) =~= pre2.skip(l as int));
            }
            self.consumed = Ghost(self.consumed@ + (self.hdr_bytes@ + rawseq));
            self.hdr_bytes = Ghost(Seq::empty());
            self.delivered = Ghost(self.delivered@.push(fmodel));
            proof {
                assert(self.hist@ =~= self.consumed@ + self.hdr_bytes@ + self.in_buffer@);
                assert(self.hdr_bytes@ + self.in_buffer@ =~= pre2.skip(l as int));
            }
            Some(frame)
        } else {
            proof {
                lemma_parse_header_prefix(self.hdr_bytes@, self.in_buffer@);
            }
            None
        }
    }

    /// Fill step: take exactly one transport read into the buffer's free
    /// space. A zero-length result is the transport's end-of-stream signal.
    fn fill_from<S: Transport>(&mut self, stream: &mut S) -> (r: Result<usize, Error>)
        requires
            old(self).wf(),
        ensures
            final(self).wf(),
            final(self).delivered@ == old(self).delivered@,
            final(self).header == old(self).header,
            final(self).out_buffer@ == old(self).out_buffer@,
            final(self).sent@ == old(self).sent@,
            final(self).max_out_buffer_len == old(self).max_out_buffer_len,
            final(self).out_buffer_write_len == old(self).out_buffer_write_len,
            old(self).hist@.is_prefix_of(final(self).hist@),
            old(self).remainder().is_prefix_of(final(self).remainder()),
            match r {
                Ok(n) => {
                    &&& final(self).remainder().len() == old(self).remainder().len() + n
                    &&& (n == 0 ==> *final(self) == *old(self))
                },
                Err(_) => *final(self) == *old(self),
            },
    {
        proof {
            self.in_buffer.0.lemma_len_le_capacity();
        }
        let len_now = self.in_buffer.0.len();
        let free = 65536 - len_now;
        match stream.read(free) {
            Err(e) => Err(e),
            Ok(chunk) => {
                if chunk.len() == 0 {
                    return Ok(0);
                }
                let res = self.in_buffer.0.enqueue_many(&chunk);
                proof {
                    assert(res is Ok);
                }
                self.hist = Ghost(self.hist@ + chunk@);
                proof {
                    assert(self.hist@ =~= self.consumed@ + self.hdr_bytes@ + self.in_buffer@);
                    assert((old(self).hist@ + chunk@).subrange(
                        0,
                        old(self).hist@.len() as int,
                    ) =~= old(self).hist@);
                    assert(self.remainder() =~= old(self).remainder() + chunk@);
                    assert(self.remainder().subrange(
                        0,
                        old(self).remainder().len() as int,
                    ) =~= old(self).remainder());
                }
                Ok(chunk.len())
            },
        }
    }

    /// Read a frame from the provided stream.
    ///
    /// Loops over a header phase, a payload phase, and a fill step that takes
    /// exactly one transport read when neither phase can make progress. A
    /// zero-byte read signals end of stream with no complete frame buffered:
    /// that answers `Ok(None)`, distinct from an error.
    pub fn read_frame<S: Transport>(&mut self, stream: &mut S) -> (r: Result<
        Option<ReadFrame>,
        Error,
    >)
        requires
            old(self).wf(),
        ensures
            final(self).wf(),
            final(self).submitted() == old(self).submitted(),
            final(self).queued() == old(self).queued(),
            final(self).written() == old(self).written(),
            final(self).spec_max_out_buffer_len() == old(self).spec_max_out_buffer_len(),
            final(self).spec_out_buffer_write_len() == old(self).spec_out_buffer_write_len(),
            old(self).history().is_prefix_of(final(self).history()),
            // A complete frame already buffered is owed to the caller, without
            // any transport progress being needed.
            parse_frame(old(self).remainder()) matches FrameParse::Complete { frame, consumed }
                ==> (r matches Ok(Some(f)) && f@ == frame && final(self).remainder() == old(self).remainder().skip(consumed)),
            // Malformed buffered header bits are the library's own decision:
            // a protocol error, deciding nothing else.
            parse_frame(old(self).remainder()) is Invalid ==> (r matches Err(e) && e == Error::Protocol) && *final(self) == *old(self) && *final(stream) == *old(stream),
            // A no-frame or failed read only extends the unconsumed remainder:
            // buffered bytes and the pending parse state are retained, so a
            // later call resumes where this one stopped.
            r matches Ok(None) ==> old(self).remainder().is_prefix_of(final(self).remainder()),
            r matches Err(_) ==> old(self).remainder().is_prefix_of(final(self).remainder()),
            match r {
                Ok(Some(f)) => final(self).frames() == old(self).frames().push(f@),
                Ok(None) => final(self).frames() == old(self).frames() && parse_frame(
                    final(self).remainder(),
                ) is Incomplete,
                Err(_) => final(self).frames() == old(self).frames(),
            },
    {
        proof {
            self.in_buffer.0.lemma_len_le_capacity();
            assert(self.remainder().subrange(0, self.remainder().len() as int) =~= self.remainder());
            if old(self).header is Some {
                lemma_parse_header_prefix(self.hdr_bytes@, self.in_buffer@);
            }
        }
        loop
            invariant
                self.wf(),
                self.delivered@ == old(self).delivered@,
                self.out_buffer@ == old(self).out_buffer@,
                self.sent@ == old(self).sent@,
                self.max_out_buffer_len == old(self).max_out_buffer_len,
                self.out_buffer_write_len == old(self).out_buffer_write_len,
                old(self).hist@.is_prefix_of(self.hist@),
                self.remainder().len() <= 65550,
                old(self).remainder().is_prefix_of(self.remainder()),
                parse_frame(old(self).remainder()) is Invalid ==> *self == *old(self) && *stream
                    == *old(stream) && old(self).header is None,
                parse_frame(old(self).remainder()) is Complete ==> parse_frame(self.remainder())
                    == parse_frame(old(self).remainder()) && self.remainder() == old(self).remainder(),
            decreases 65552 - self.remainder().len(),
        {
            let ghost iter_rem = self.remainder();
            if self.header.is_none() {
                match self.advance_header() {
                    Err(e) => {
                        return Err(e);
                    },
                    Ok(_) => {},
                }
            }
            if self.header.is_some() {
                proof {
                    // A pending header parses complete from the remainder, so
                    // the remainder is never invalid here.
                    lemma_parse_header_prefix(self.hdr_bytes@, self.in_buffer@);
                }
                match self.take_payload() {
                    Some(frame) => {
                        return Ok(Some(frame));
                    },
                    None => {},
                }
            }
            let n = match self.fill_from(stream) {
                Err(e) => {
                    return Err(e);
                },
                Ok(n) => n,
            };
            if n == 0 {
                proof {
                    assert(parse_frame(self.remainder()) is Incomplete);
                }
                return Ok(None);
            }
            proof {
                self.in_buffer.0.lemma_len_le_capacity();
                assert(old(self).hist@.is_prefix_of(self.hist@));
                assert forall|t: int| 0 <= t < old(self).remainder().len() implies self.remainder()[t]
                    == old(self).remainder()[t] by {
                    assert(iter_rem[t] == old(self).remainder()[t]);
                }
                assert(self.remainder().subrange(0, old(self).remainder().len() as int) =~= old(self).remainder());
            }
        }
    }

    /// Writes a frame into the out buffer.
    /// If the out buffer size is over the `out_buffer_write_len` will also
    /// write the out buffer into the provided `stream`.
    ///
    /// Fails with `Error::WriteBufferFull`, handing the frame back untouched
    /// and changing nothing, when the frame's wire length would push the
    /// queued bytes past `max_out_buffer_len`.
    ///
    /// To ensure buffered frames are written call [`Self::write_out_buffer`].
    ///
    /// May write to the stream, will **not** flush.
    pub fn buffer_frame<S: Transport>(&mut self, stream: &mut S, frame: WriteFrame) -> (r: Result<
        (),
        Error,
    >)
        requires
            old(self).wf(),
            frame.payload@.len() + 14 <= usize::MAX,
        ensures
            final(self).wf(),
            final(self).history() == old(self).history(),
            final(self).frames() == old(self).frames(),
            final(self).remainder() == old(self).remainder(),
            final(self).spec_max_out_buffer_len() == old(self).spec_max_out_buffer_len(),
            final(self).spec_out_buffer_write_len() == old(self).spec_out_buffer_write_len(),
            old(self).written().is_prefix_of(final(self).written()),
            match r {
                Ok(_) => {
                    &&& old(self).queued().len() + frame.spec_len() <= old(self).spec_max_out_buffer_len()
                    &&& final(self).submitted() == old(self).submitted() + frame.wire()
                    &&& (old(self).queued().len() + frame.spec_len() <= old(self).spec_out_buffer_write_len() ==> final(self).written() == old(self).written()
                        && final(self).queued() == old(self).queued() + frame.wire())
                    &&& (old(self).queued().len() + frame.spec_len() > old(self).spec_out_buffer_write_len() ==> final(self).queued().len() == 0
                        && final(self).written() == old(self).submitted() + frame.wire())
                },
                Err(e) => {
                    if old(self).queued().len() + frame.spec_len() > old(self).spec_max_out_buffer_len() {
                        &&& e == Error::WriteBufferFull(Message::WriteFrame(frame))
                        &&& *final(self) == *old(self)
                        &&& *final(stream) == *old(stream)
                    } else {
                        &&& final(self).submitted() == old(self).submitted() + frame.wire()
                        &&& old(self).queued().len() + frame.spec_len() > old(self).spec_out_buffer_write_len()
                    }
                },
            },
    {
        let frame_len = frame.len();
        proof {
            frame.lemma_wire_len();
        }
        if frame_len > self.max_out_buffer_len || self.out_buffer.len() > self.max_out_buffer_len
            - frame_len {
            return Err(Error::WriteBufferFull(Message::WriteFrame(frame)));
        }
        frame.format(&mut self.out_buffer);
        if self.out_buffer.len() > self.out_buffer_write_len {
            self.write_out_buffer(stream)
        } else {
            Ok(())
        }
    }

    /// Writes the out buffer to the provided stream until it is empty.
    ///
    /// A write that reports zero bytes written is treated as a reset
    /// connection and fails with `Error::ConnectionReset`.
    ///
    /// Does **not** flush.
    pub fn write_out_buffer<S: Transport>(&mut self, stream: &mut S) -> (r: Result<(), Error>)
        requires
            old(self).wf(),
        ensures
            final(self).wf(),
            final(self).history() == old(self).history(),
            final(self).frames() == old(self).frames(),
            final(self).remainder() == old(self).remainder(),
            final(self).spec_max_out_buffer_len() == old(self).spec_max_out_buffer_len(),
            final(self).spec_out_buffer_write_len() == old(self).spec_out_buffer_write_len(),
            final(self).submitted() == old(self).submitted(),
            old(self).written().is_prefix_of(final(self).written()),
            // With nothing queued there is nothing to write and no call that
            // could fail: success is owed.
            old(self).queued().len() == 0 ==> r is Ok && *final(self) == *old(self) && *final(stream) == *old(stream),
            match r {
                Ok(_) => final(self).queued().len() == 0 && final(self).written() == old(self).submitted(),
                Err(_) => true,
            },
    {
        while self.out_buffer.len() > 0
            invariant
                self.wf(),
                self.in_buffer == old(self).in_buffer,
                self.header == old(self).header,
                self.hist@ == old(self).hist@,
                self.delivered@ == old(self).delivered@,
                self.consumed@ == old(self).consumed@,
                self.hdr_bytes@ == old(self).hdr_bytes@,
                self.max_out_buffer_len == old(self).max_out_buffer_len,
                self.out_buffer_write_len == old(self).out_buffer_write_len,
                self.sent@ + self.out_buffer@ == old(self).sent@ + old(self).out_buffer@,
                old(self).sent@.is_prefix_of(self.sent@),
                old(self).out_buffer@.len() == 0 ==> *self == *old(self) && *stream == *old(
                    stream,
                ),
            decreases self.out_buffer@.len(),
        {
            let len = match stream.write(&self.out_buffer) {
                Ok(l) => l,
                Err(e) => {
                    return Err(e);
                },
            };
            if len == 0 {
                // This is the same as "Connection reset by peer".
                return Err(Error::ConnectionReset);
            }
            self.sent = Ghost(self.sent@ + self.out_buffer@.take(len as int));
            let rest = self.out_buffer.split_off(len);
            self.out_buffer = rest;
            proof {
                assert(self.sent@ + self.out_buffer@ =~= old(self).sent@ + old(self).out_buffer@);
                assert(old(self).sent@.is_prefix_of(self.sent@));
            }
        }
        proof {
            assert(self.sent@ =~= self.sent@ + self.out_buffer@);
        }
        Ok(())
    }
}

/// A reader and writer for WebSocket frames over a transport.
pub struct FrameSocket<S> {
    /// The underlying network stream.
    stream: S,
    /// Codec for reading/writing frames.
    codec: FrameCodec,
}

impl<S> FrameSocket<S> {
    /// Every byte that has arrived from the transport.
    pub closed spec fn history(&self) -> Seq<u8> {
        self.codec.history()
    }

    /// Every frame handed to the caller, in order.
    pub closed spec fn frames(&self) -> Seq<FrameModel> {
        self.codec.frames()
    }

    /// Arrived bytes not yet consumed as a delivered frame.
    pub closed spec fn remainder(&self) -> Seq<u8> {
        self.codec.remainder()
    }

    /// Serialized bytes of every frame accepted for writing.
    pub closed spec fn submitted(&self) -> Seq<u8> {
        self.codec.submitted()
    }

    /// Bytes waiting in the outbound buffer.
    pub closed spec fn queued(&self) -> Seq<u8> {
        self.codec.queued()
    }

    /// Bytes the transport's write has accepted.
    pub closed spec fn written(&self) -> Seq<u8> {
        self.codec.written()
    }

    /// The codec behind the socket is consistent.
    pub closed spec fn wf(&self) -> bool {
        self.codec.wf()
    }

    /// The transport the socket was built over.
    pub closed spec fn spec_stream(&self) -> S {
        self.stream
    }

    /// The codec state behind the socket.
    pub closed spec fn spec_codec(&self) -> FrameCodec {
        self.codec
    }

    /// Create a new frame socket.
    pub fn new(stream: S) -> (r: Self)
        ensures
            r.wf(),
            r.spec_stream() == stream,
            r.history().len() == 0,
            r.frames().len() == 0,
            r.remainder().len() == 0,
            r.submitted().len() == 0,
            r.queued().len() == 0,
            r.written().len() == 0,
            r.spec_codec().spec_max_out_buffer_len() == usize::MAX,
            r.spec_codec().spec_out_buffer_write_len() == 0,
    {
        FrameSocket { stream, codec: FrameCodec::new() }
    }

    /// Create a new frame socket from partially read data: the seeded bytes
    /// start out buffered and unconsumed, so frames wholly contained in them
    /// are readable without touching the transport.
    pub fn from_partially_read(stream: S, part: Vec<u8>) -> (r: Self)
        requires
            part@.len() <= 65536,
        ensures
            r.wf(),
            r.spec_stream() == stream,
            r.history() == part@,
            r.remainder() == part@,
            r.frames().len() == 0,
            r.submitted().len() == 0,
            r.queued().len() == 0,
            r.written().len() == 0,
            r.spec_codec().spec_max_out_buffer_len() == usize::MAX,
            r.spec_codec().spec_out_buffer_write_len() == 0,
    {
        FrameSocket { stream, codec: FrameCodec::from_partially_read(part) }
    }

    /// Returns a shared reference to the inner stream.
    pub fn get_ref(&self) -> (r: &S)
        ensures
            *r == self.spec_stream(),
    {
        &self.stream
    }

    /// Returns a mutable reference to the inner stream.
    pub fn get_mut(&mut self) -> (r: &mut S)
        ensures
            *r == old(self).spec_stream(),
            final(self).spec_stream() == *final(r),
            final(self).spec_codec() == old(self).spec_codec(),
    {
        &mut self.stream
    }
}

impl<S: Transport> FrameSocket<S> {
    /// Read a frame from stream.
    pub fn read(&mut self) -> (r: Result<Option<ReadFrame>, Error>)
        requires
            old(self).wf(),
        ensures
            final(self).wf(),
            final(self).submitted() == old(self).submitted(),
            final(self).queued() == old(self).queued(),
            final(self).written() == old(self).written(),
            old(self).history().is_prefix_of(final(self).history()),
            // A complete frame already buffered is owed to the caller.
            parse_frame(old(self).remainder()) matches FrameParse::Complete { frame, consumed }
                ==> (r matches Ok(Some(f)) && f@ == frame && final(self).remainder() == old(self).remainder().skip(consumed)),
            // Malformed buffered header bits fail as a protocol error and
            // decide nothing else.
            parse_frame(old(self).remainder()) is Invalid ==> (r matches Err(e) && e == Error::Protocol) && *final(self) == *old(self),
            // A no-frame or failed read only extends the unconsumed remainder.
            r matches Ok(None) ==> old(self).remainder().is_prefix_of(final(self).remainder()),
            r matches Err(_) ==> old(self).remainder().is_prefix_of(final(self).remainder()),
            match r {
                Ok(Some(f)) => final(self).frames() == old(self).frames().push(f@),
                Ok(None) => final(self).frames() == old(self).frames() && parse_frame(
                    final(self).remainder(),
                ) is Incomplete,
                Err(_) => final(self).frames() == old(self).frames(),
            },
    {
        self.codec.read_frame(&mut self.stream)
    }

    /// Writes and immediately flushes a frame.
    /// Equivalent to calling [`write`](Self::write) then [`flush`](Self::flush).
    pub fn send(&mut self, frame: WriteFrame) -> (r: Result<(), Error>)
        requires
            old(self).wf(),
            frame.payload@.len() + 14 <= usize::MAX,
        ensures
            final(self).wf(),
            final(self).history() == old(self).history(),
            final(self).frames() == old(self).frames(),
            r matches Ok(_) ==> final(self).submitted() == old(self).submitted() + frame.wire()
                && final(self).written() == final(self).submitted() && final(self).queued().len()
                == 0,
            r matches Err(_) && old(self).queued().len() + frame.spec_len() > old(self).spec_codec().spec_max_out_buffer_len() ==> (r matches Err(e) && e == Error::WriteBufferFull(
                Message::WriteFrame(frame),
            )) && *final(self) == *old(self),
    {
        match self.write(frame) {
            Ok(_) => self.flush(),
            Err(e) => Err(e),
        }
    }

    /// Write a frame to stream.
    ///
    /// A subsequent call should be made to [`flush`](Self::flush) to flush
    /// writes.
    ///
    /// This function guarantees that the frame is queued unless
    /// `Error::WriteBufferFull` is returned, in which case the caller gets
    /// the frame back untouched and nothing changes.
    pub fn write(&mut self, frame: WriteFrame) -> (r: Result<(), Error>)
        requires
            old(self).wf(),
            frame.payload@.len() + 14 <= usize::MAX,
        ensures
            final(self).wf(),
            final(self).history() == old(self).history(),
            final(self).frames() == old(self).frames(),
            old(self).written().is_prefix_of(final(self).written()),
            match r {
                Ok(_) => {
                    &&& old(self).queued().len() + frame.spec_len() <= old(self).spec_codec().spec_max_out_buffer_len()
                    &&& final(self).submitted() == old(self).submitted() + frame.wire()
                    &&& (old(self).queued().len() + frame.spec_len()
                        <= old(self).spec_codec().spec_out_buffer_write_len() ==> final(self).written() == old(self).written() && final(self).queued() == old(self).queued() + frame.wire())
                    &&& (old(self).queued().len() + frame.spec_len()
                        > old(self).spec_codec().spec_out_buffer_write_len() ==> final(self).queued().len() == 0 && final(self).written() == old(self).submitted() + frame.wire())
                },
                Err(e) => {
                    if old(self).queued().len() + frame.spec_len()
                        > old(self).spec_codec().spec_max_out_buffer_len() {
                        &&& e == Error::WriteBufferFull(Message::WriteFrame(frame))
                        &&& *final(self) == *old(self)
                    } else {
                        &&& final(self).submitted() == old(self).submitted() + frame.wire()
                        &&& old(self).queued().len() + frame.spec_len() > old(self).spec_codec().spec_out_buffer_write_len()
                    }
                },
            },
    {
        self.codec.buffer_frame(&mut self.stream, frame)
    }

    /// Flush writes: drain the out buffer, then flush the transport itself.
    pub fn flush(&mut self) -> (r: Result<(), Error>)
        requires
            old(self).wf(),
        ensures
            final(self).wf(),
            final(self).history() == old(self).history(),
            final(self).frames() == old(self).frames(),
            final(self).submitted() == old(self).submitted(),
            old(self).written().is_prefix_of(final(self).written()),
            r matches Ok(_) ==> final(self).queued().len() == 0 && final(self).written() == old(self).submitted(),
    {
        match self.codec.write_out_buffer(&mut self.stream) {
            Ok(_) => self.stream.flush(),
            Err(e) => Err(e),
        }
    }
}

} // verus!
