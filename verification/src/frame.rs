//! WebSocket frames: headers, masking, parsing and serialization.
//!
//! The wire format is the RFC 6455 subset the engine speaks: FIN bit, three
//! reserved bits (which must be clear), a 4-bit opcode, a MASK bit, a
//! 7/7+16/7+64-bit payload length, an optional 4-byte mask key, and the
//! payload, XOR-masked when the MASK bit is set.
//!
//! Parsing is specified by the pure functions [`parse_header`] and
//! [`parse_frame`]; both answer `Incomplete` on short input without deciding
//! anything, which is what makes the codec's retried parse consistent across
//! arbitrary chunk boundaries.

use vstd::prelude::*;

use crate::error::Error;
use crate::storage::U8RingBuffer;
use crate::wire::{be_uint, pow256, be_bytes_to_u64, lemma_be_uint_bound, lemma_pow256_pos,
    lemma_pow256_values};
use vstd::arithmetic::div_mod::{lemma_div_basics, lemma_div_denominator,
    lemma_fundamental_div_mod, lemma_multiply_divide_lt};

verus! {

/// Frame kind carried in a header's opcode bits.
#[derive(Debug, Clone, Copy, PartialEq, Eq, Structural)]
pub enum OpCode {
    Continuation,
    Text,
    Binary,
    Close,
    Ping,
    Pong,
}

/// A 4-byte masking key, XORed byte-wise over a frame's payload.
#[derive(Debug, Clone, Copy, PartialEq, Eq, Structural)]
pub struct MaskKey {
    pub b0: u8,
    pub b1: u8,
    pub b2: u8,
    pub b3: u8,
}

impl MaskKey {
    /// The key byte applied at payload offset `i`.
    pub open spec fn byte(self, i: int) -> u8 {
        if i % 4 == 0 {
            self.b0
        } else if i % 4 == 1 {
            self.b1
        } else if i % 4 == 2 {
            self.b2
        } else {
            self.b3
        }
    }

    /// Executable counterpart of [`MaskKey::byte`].
    pub fn byte_at(&self, i: usize) -> (r: u8)
        ensures
            r == self.byte(i as int),
    {
        let m = i % 4;
        if m == 0 {
            self.b0
        } else if m == 1 {
            self.b1
        } else if m == 2 {
            self.b2
        } else {
            self.b3
        }
    }
}

/// The masking transform: XOR each payload byte with the key byte at its offset.
pub open spec fn masked(key: MaskKey, data: Seq<u8>) -> Seq<u8> {
    Seq::new(data.len(), |i: int| data[i] ^ key.byte(i))
}

/// Apply the masking transform in place.
pub fn apply_mask(key: &MaskKey, data: &mut Vec<u8>)
    ensures
        final(data)@ == masked(*key, old(data)@),
{
    let mut i: usize = 0;
    while i < data.len()
        invariant
            i <= data@.len(),
            data@.len() == old(data)@.len(),
            forall|t: int| 0 <= t < i ==> data@[t] == (old(data)@[t] ^ key.byte(t)),
            forall|t: int| i <= t < data@.len() ==> data@[t] == old(data)@[t],
        decreases data@.len() - i,
    {
        let b = data[i];
        data[i] = b ^ key.byte_at(i);
        i = i + 1;
    }
    proof {
        assert(data@ =~= masked(*key, old(data)@));
    }
}

/// A parsed frame header: fin flag, opcode, optional masking key.
///
/// The declared payload length travels beside the header until the payload
/// arrives, so the header itself stays `Copy`.
#[derive(Debug, Clone, Copy, PartialEq, Eq)]
pub struct FrameHeader {
    pub fin: bool,
    pub opcode: OpCode,
    pub mask: Option<MaskKey>,
}

/// Opcode denoted by the low four bits of the first header byte.
pub open spec fn opcode_of_bits(bits: u8) -> Option<OpCode> {
    if bits == 0 {
        Some(OpCode::Continuation)
    } else if bits == 1 {
        Some(OpCode::Text)
    } else if bits == 2 {
        Some(OpCode::Binary)
    } else if bits == 8 {
        Some(OpCode::Close)
    } else if bits == 9 {
        Some(OpCode::Ping)
    } else if bits == 10 {
        Some(OpCode::Pong)
    } else {
        None
    }
}

/// The opcode bits a frame kind is written with.
pub open spec fn opcode_bits(op: OpCode) -> u8 {
    match op {
        OpCode::Continuation => 0,
        OpCode::Text => 1,
        OpCode::Binary => 2,
        OpCode::Close => 8,
        OpCode::Ping => 9,
        OpCode::Pong => 10,
    }
}

/// Executable counterpart of [`opcode_bits`].
pub fn opcode_byte(op: OpCode) -> (r: u8)
    ensures
        r == opcode_bits(op),
{
    match op {
        OpCode::Continuation => 0,
        OpCode::Text => 1,
        OpCode::Binary => 2,
        OpCode::Close => 8,
        OpCode::Ping => 9,
        OpCode::Pong => 10,
    }
}

/// Count of extended-length bytes announced by the 7-bit length field.
pub open spec fn ext_len_bytes(len7: u8) -> int {
    if len7 == 126 {
        2
    } else if len7 == 127 {
        8
    } else {
        0
    }
}

/// Result of parsing a header from the front of a byte sequence.
pub enum HeaderParse {
    /// More bytes are needed; nothing is decided yet.
    Incomplete,
    /// The header bits are invalid: reserved bits set or a bad opcode.
    Invalid,
    /// A full header, the declared payload length, and how many bytes it took.
    Complete { header: FrameHeader, length: int, consumed: int },
}

/// Parse one frame header from the front of `b`.
///
/// Short input yields `Incomplete` rather than a decision, so the parse can be
/// retried against the same bytes plus more and stays consistent.
pub open spec fn parse_header(b: Seq<u8>) -> HeaderParse {
    if b.len() < 2 {
        HeaderParse::Incomplete
    } else {
        let h0 = b[0];
        let h1 = b[1];
        if h0 & 0x70 != 0 || opcode_of_bits(h0 & 0x0f) is None {
            HeaderParse::Invalid
        } else {
            let len7 = h1 & 0x7f;
            let nmask: int = if h1 & 0x80 != 0 {
                4
            } else {
                0
            };
            let total = 2 + ext_len_bytes(len7) + nmask;
            if b.len() < total {
                HeaderParse::Incomplete
            } else {
                let length: int = if len7 == 126 {
                    be_uint(b.subrange(2, 4)) as int
                } else if len7 == 127 {
                    be_uint(b.subrange(2, 10)) as int
                } else {
                    len7 as int
                };
                let mask = if h1 & 0x80 != 0 {
                    Some(
                        MaskKey {
                            b0: b[total - 4],
                            b1: b[total - 3],
                            b2: b[total - 2],
                            b3: b[total - 1],
                        },
                    )
                } else {
                    None
                };
                HeaderParse::Complete {
                    header: FrameHeader {
                        fin: h0 & 0x80 != 0,
                        opcode: opcode_of_bits(h0 & 0x0f).unwrap(),
                        mask,
                    },
                    length,
                    consumed: total,
                }
            }
        }
    }
}

/// A complete header sits within the bytes it was parsed from, and its
/// declared length fits a `u64`.
pub proof fn lemma_parse_header_bounds(b: Seq<u8>)
    ensures
        parse_header(b) matches HeaderParse::Complete { header, length, consumed } ==> {
            &&& 2 <= consumed <= b.len()
            &&& 0 <= length < 0x10000000000000000
        },
{
    if parse_header(b) is Complete {
        let h1 = b[1];
        let len7 = h1 & 0x7f;
        if len7 == 126 {
            lemma_be_uint_bound(b.subrange(2, 4));
            lemma_pow256_values();
        } else if len7 == 127 {
            lemma_be_uint_bound(b.subrange(2, 10));
            lemma_pow256_values();
        }
    }
}

/// The byte count a complete header parse took; zero when it is not complete.
pub open spec fn header_consumed(hp: HeaderParse) -> int {
    match hp {
        HeaderParse::Complete { consumed, .. } => consumed,
        _ => 0,
    }
}

/// A complete header parse is already decided by the bytes it consumed: the
/// same header parses from that prefix alone.
pub proof fn lemma_parse_header_take(b: Seq<u8>)
    requires
        parse_header(b) is Complete,
    ensures
        parse_header(b.take(header_consumed(parse_header(b)))) == parse_header(b),
{
    lemma_parse_header_bounds(b);
    let c = header_consumed(parse_header(b));
    let t = b.take(c);
    assert(t[0] == b[0]);
    assert(t[1] == b[1]);
    let h1 = b[1];
    let len7 = h1 & 0x7f;
    if len7 == 126 {
        assert(t.subrange(2, 4) =~= b.subrange(2, 4));
    }
    if len7 == 127 {
        assert(t.subrange(2, 10) =~= b.subrange(2, 10));
    }
    assert(forall|i: int| 0 <= i < c ==> t[i] == b[i]);
}

/// A header parsed from `b` parses the same from any extension of `b`:
/// the parse only ever reads the bytes it consumed.
pub proof fn lemma_parse_header_prefix(b: Seq<u8>, ext: Seq<u8>)
    requires
        parse_header(b) is Complete,
    ensures
        parse_header(b + ext) == parse_header(b),
{
    let c = b + ext;
    assert(c[0] == b[0]);
    assert(c[1] == b[1]);
    let h1 = b[1];
    let len7 = h1 & 0x7f;
    let nmask: int = if h1 & 0x80 != 0 {
        4
    } else {
        0
    };
    let total = 2 + ext_len_bytes(len7) + nmask;
    assert(b.len() >= total);
    if len7 == 126 {
        assert(c.subrange(2, 4) =~= b.subrange(2, 4));
    }
    if len7 == 127 {
        assert(c.subrange(2, 10) =~= b.subrange(2, 10));
    }
    assert(forall|i: int| 0 <= i < b.len() ==> c[i] == b[i]);
}

/// A frame as decoded at the specification level: its payload is unmasked.
pub struct FrameModel {
    pub fin: bool,
    pub opcode: OpCode,
    pub payload: Seq<u8>,
}

/// Result of parsing one whole frame from the front of a byte sequence.
pub enum FrameParse {
    /// More bytes are needed; nothing is decided yet.
    Incomplete,
    /// The header bits are invalid.
    Invalid,
    /// A full frame and how many bytes it took.
    Complete { frame: FrameModel, consumed: int },
}

/// Parse one whole frame (header plus payload) from the front of `b`.
pub open spec fn parse_frame(b: Seq<u8>) -> FrameParse {
    match parse_header(b) {
        HeaderParse::Incomplete => FrameParse::Incomplete,
        HeaderParse::Invalid => FrameParse::Invalid,
        HeaderParse::Complete { header, length, consumed } => {
            if b.len() - consumed >= length {
                let raw = b.subrange(consumed, consumed + length);
                let payload = match header.mask {
                    Some(k) => masked(k, raw),
                    None => raw,
                };
                FrameParse::Complete {
                    frame: FrameModel { fin: header.fin, opcode: header.opcode, payload },
                    consumed: consumed + length,
                }
            } else {
                FrameParse::Incomplete
            }
        },
    }
}

/// A complete frame takes at least its two header bytes and at most all of `b`.
pub proof fn lemma_parse_frame_bounds(b: Seq<u8>)
    ensures
        parse_frame(b) matches FrameParse::Complete { frame, consumed } ==> 2 <= consumed
            <= b.len(),
{
    lemma_parse_header_bounds(b);
}

/// A frame parsed from `b` parses the same from any extension of `b`.
pub proof fn lemma_parse_frame_prefix(b: Seq<u8>, ext: Seq<u8>)
    requires
        parse_frame(b) is Complete,
    ensures
        parse_frame(b + ext) == parse_frame(b),
{
    lemma_parse_header_prefix(b, ext);
    lemma_parse_header_bounds(b);
    let c = b + ext;
    if let HeaderParse::Complete { header, length, consumed } = parse_header(b) {
        assert(c.subrange(consumed, consumed + length) =~= b.subrange(consumed, consumed + length));
    }
}

impl FrameHeader {
    /// Parse a header from the buffered bytes, consuming exactly the header
    /// bytes on success.
    ///
    /// Returns `Ok(None)` and consumes nothing when too few bytes are
    /// buffered; fails with `Error::Protocol`, consuming nothing, when the
    /// header bits are invalid. Either way the buffer can be refilled and the
    /// parse retried.
    pub fn parse(buf: &mut U8RingBuffer) -> (r: Result<Option<(FrameHeader, u64)>, Error>)
        requires
            old(buf).0.wf(),
        ensures
            final(buf).0.wf(),
            final(buf).0.capacity() == old(buf).0.capacity(),
            match r {
                Ok(None) => *final(buf) == *old(buf) && parse_header(old(buf)@) is Incomplete,
                Ok(Some((h, l))) => parse_header(old(buf)@) matches HeaderParse::Complete {
                    header,
                    length,
                    consumed,
                } && header == h && length == l as int && final(buf)@ == old(buf)@.skip(consumed),
                Err(e) => e == Error::Protocol && *final(buf) == *old(buf) && parse_header(
                    old(buf)@,
                ) is Invalid,
            },
    {
        if buf.0.len() < 2 {
            return Ok(None);
        }
        let h0 = buf.0.peek_at(0);
        let h1 = buf.0.peek_at(1);
        if h0 & 0x70 != 0 {
            return Err(Error::Protocol);
        }
        let opbits = h0 & 0x0f;
        let opcode = if opbits == 0 {
            OpCode::Continuation
        } else if opbits == 1 {
            OpCode::Text
        } else if opbits == 2 {
            OpCode::Binary
        } else if opbits == 8 {
            OpCode::Close
        } else if opbits == 9 {
            OpCode::Ping
        } else if opbits == 10 {
            OpCode::Pong
        } else {
            return Err(Error::Protocol);
        };
        let len7 = h1 & 0x7f;
        let has_mask = (h1 & 0x80) != 0;
        let next: usize = if len7 == 126 {
            2
        } else if len7 == 127 {
            8
        } else {
            0
        };
        let nmask: usize = if has_mask {
            4
        } else {
            0
        };
        let total = 2 + next + nmask;
        if buf.0.len() < total {
            return Ok(None);
        }
        let ghost orig = old(buf)@;
        let contig = buf.0.contigous_len();
        let hdr = if total <= contig {
            buf.0.dequeue_many_no_leap(total)
        } else {
            buf.0.dequeue_many_leap(total)
        };
        let length: u64 = if len7 == 126 {
            let ext = vec![hdr[2], hdr[3]];
            proof {
                assert(ext@ =~= orig.subrange(2, 4));
            }
            be_bytes_to_u64(&ext)
        } else if len7 == 127 {
            let ext = vec![hdr[2], hdr[3], hdr[4], hdr[5], hdr[6], hdr[7], hdr[8], hdr[9]];
            proof {
                assert(ext@ =~= orig.subrange(2, 10));
            }
            be_bytes_to_u64(&ext)
        } else {
            len7 as u64
        };
        let mask = if has_mask {
            Some(
                MaskKey {
                    b0: hdr[total - 4],
                    b1: hdr[total - 3],
                    b2: hdr[total - 2],
                    b3: hdr[total - 1],
                },
            )
        } else {
            None
        };
        let header = FrameHeader { fin: (h0 & 0x80) != 0, opcode, mask };
        Ok(Some((header, length)))
    }
}

/// A close code and reason carried by a close frame.
#[derive(Debug, Clone, PartialEq)]
pub struct CloseFrame {
    pub code: u16,
    pub reason: String,
}

/// One received frame: a header and its unmasked payload.
///
/// The payload is owned by the frame, so a frame handed out by the codec stays
/// valid however the codec advances afterwards.
#[derive(Debug, Clone, PartialEq)]
pub struct ReadFrame {
    header: FrameHeader,
    payload: Vec<u8>,
}

impl View for ReadFrame {
    type V = FrameModel;

    closed spec fn view(&self) -> FrameModel {
        FrameModel { fin: self.header.fin, opcode: self.header.opcode, payload: self.payload@ }
    }
}

impl ReadFrame {
    /// The header the frame was read with, mask key included.
    pub closed spec fn spec_header(&self) -> FrameHeader {
        self.header
    }

    /// Pair a header with its (already unmasked) payload.
    pub fn new(header: FrameHeader, payload: Vec<u8>) -> (r: Self)
        ensures
            r@ == (FrameModel { fin: header.fin, opcode: header.opcode, payload: payload@ }),
            r.spec_header() == header,
    {
        ReadFrame { header, payload }
    }

    /// Replace the header.
    pub fn set_header(&mut self, header: FrameHeader)
        ensures
            final(self).spec_header() == header,
            final(self)@ == (FrameModel {
                fin: header.fin,
                opcode: header.opcode,
                payload: old(self)@.payload,
            }),
    {
        self.header = header;
    }

    /// Replace the payload.
    pub fn set_payload(&mut self, payload: Vec<u8>)
        ensures
            final(self).spec_header() == old(self).spec_header(),
            final(self)@ == (FrameModel {
                fin: old(self)@.fin,
                opcode: old(self)@.opcode,
                payload: payload@,
            }),
    {
        self.payload = payload;
    }

    /// The frame's header.
    pub fn header(&self) -> (r: &FrameHeader)
        ensures
            *r == self.spec_header(),
    {
        &self.header
    }

    /// Whether this frame closes a fragmented message.
    pub fn fin(&self) -> (r: bool)
        ensures
            r == self@.fin,
    {
        self.header.fin
    }

    /// The frame's kind.
    pub fn opcode(&self) -> (r: OpCode)
        ensures
            r == self@.opcode,
    {
        self.header.opcode
    }

    /// The frame's payload bytes.
    pub fn payload(&self) -> (r: &Vec<u8>)
        ensures
            r@ == self@.payload,
    {
        &self.payload
    }

    /// Payload length in bytes.
    pub fn len(&self) -> (r: usize)
        ensures
            r == self@.payload.len(),
    {
        self.payload.len()
    }

    /// Consume the frame and keep only its payload.
    pub fn into_data(self) -> (r: Vec<u8>)
        ensures
            r@ == self@.payload,
    {
        self.payload
    }
}

/// Extended-length byte count the wire needs for a payload of `n` bytes.
pub open spec fn len_field_ext(n: int) -> int {
    if n < 126 {
        0
    } else if n <= 0xFFFF {
        2
    } else {
        8
    }
}

/// Big-endian bytes of width `w` denoting `n`.
pub open spec fn be_bytes(n: int, w: nat) -> Seq<u8> {
    Seq::new(w, |i: int| ((n / pow256((w - 1 - i) as nat) as int) % 256) as u8)
}

/// The wire bytes of an outgoing frame: header bytes, extended length, mask
/// key, then the payload, masked when a key is present.
pub open spec fn spec_wire(fin: bool, op: OpCode, mask: Option<MaskKey>, payload: Seq<u8>) -> Seq<
    u8,
> {
    let n = payload.len() as int;
    let h0 = (if fin {
        0x80u8
    } else {
        0u8
    }) | opcode_bits(op);
    let lenbyte: u8 = if n < 126 {
        n as u8
    } else if n <= 0xFFFF {
        126
    } else {
        127
    };
    let h1 = (if mask is Some {
        0x80u8
    } else {
        0u8
    }) | lenbyte;
    let ext = if n < 126 {
        Seq::<u8>::empty()
    } else if n <= 0xFFFF {
        be_bytes(n, 2)
    } else {
        be_bytes(n, 8)
    };
    let maskb = match mask {
        Some(k) => seq![k.b0, k.b1, k.b2, k.b3],
        None => Seq::<u8>::empty(),
    };
    let body = match mask {
        Some(k) => masked(k, payload),
        None => payload,
    };
    seq![h0, h1] + ext + maskb + body
}

/// One outgoing frame: header plus payload, consumed by serialization.
#[derive(Debug, Clone, PartialEq)]
pub struct WriteFrame {
    pub header: FrameHeader,
    pub payload: Vec<u8>,
}

impl WriteFrame {
    /// The serialized form of this frame.
    pub open spec fn wire(&self) -> Seq<u8> {
        spec_wire(self.header.fin, self.header.opcode, self.header.mask, self.payload@)
    }

    /// Wire length of the serialized frame.
    pub open spec fn spec_len(&self) -> int {
        2 + len_field_ext(self.payload@.len() as int) + (if self.header.mask is Some {
            4int
        } else {
            0int
        }) + self.payload@.len()
    }

    /// The wire bytes are exactly `spec_len` long.
    pub proof fn lemma_wire_len(&self)
        ensures
            self.wire().len() == self.spec_len(),
    {
    }

    /// Build a frame from its parts.
    pub fn new(header: FrameHeader, payload: Vec<u8>) -> (r: Self)
        ensures
            r.header == header,
            r.payload@ == payload@,
    {
        WriteFrame { header, payload }
    }

    /// Wire length: what serializing this frame will add to the out buffer.
    pub fn len(&self) -> (r: usize)
        requires
            self.payload@.len() + 14 <= usize::MAX,
        ensures
            r == self.spec_len(),
    {
        let n = self.payload.len();
        let ext: usize = if n < 126 {
            0
        } else if n <= 0xFFFF {
            2
        } else {
            8
        };
        let nmask: usize = if self.header.mask.is_some() {
            4
        } else {
            0
        };
        2 + ext + nmask + n
    }

    /// Serialize this frame onto the end of `out`.
    pub fn format(&self, out: &mut Vec<u8>)
        requires
            old(out)@.len() + self.spec_len() <= usize::MAX,
        ensures
            final(out)@ == old(out)@ + self.wire(),
    {
        let n = self.payload.len();
        let h0: u8 = (if self.header.fin {
            0x80u8
        } else {
            0u8
        }) | opcode_byte(self.header.opcode);
        let lenbyte: u8 = if n < 126 {
            n as u8
        } else if n <= 0xFFFF {
            126
        } else {
            127
        };
        let h1: u8 = (if self.header.mask.is_some() {
            0x80u8
        } else {
            0u8
        }) | lenbyte;
        out.push(h0);
        out.push(h1);
        proof {
            lemma_pow256_values();
        }
        if n >= 126 {
            if n <= 0xFFFF {
                out.push(((n / 256) % 256) as u8);
                out.push((n % 256) as u8);
                proof {
                    assert(be_bytes(n as int, 2)[0] == ((n as int / pow256(1) as int) % 256) as u8);
                    assert(be_bytes(n as int, 2)[1] == ((n as int / pow256(0) as int) % 256) as u8);
                    assert(out@ =~= old(out)@ + seq![h0, h1] + be_bytes(n as int, 2));
                }
            } else {
                let v = n as u64;
                out.push(((v / 0x100000000000000) % 256) as u8);
                out.push(((v / 0x1000000000000) % 256) as u8);
                out.push(((v / 0x10000000000) % 256) as u8);
                out.push(((v / 0x100000000) % 256) as u8);
                out.push(((v / 0x1000000) % 256) as u8);
                out.push(((v / 0x10000) % 256) as u8);
                out.push(((v / 0x100) % 256) as u8);
                out.push((v % 256) as u8);
                proof {
                    assert(be_bytes(n as int, 8)[0] == ((n as int / pow256(7) as int) % 256) as u8);
                    assert(be_bytes(n as int, 8)[1] == ((n as int / pow256(6) as int) % 256) as u8);
                    assert(be_bytes(n as int, 8)[2] == ((n as int / pow256(5) as int) % 256) as u8);
                    assert(be_bytes(n as int, 8)[3] == ((n as int / pow256(4) as int) % 256) as u8);
                    assert(be_bytes(n as int, 8)[4] == ((n as int / pow256(3) as int) % 256) as u8);
                    assert(be_bytes(n as int, 8)[5] == ((n as int / pow256(2) as int) % 256) as u8);
                    assert(be_bytes(n as int, 8)[6] == ((n as int / pow256(1) as int) % 256) as u8);
                    assert(be_bytes(n as int, 8)[7] == ((n as int / pow256(0) as int) % 256) as u8);
                    assert(out@ =~= old(out)@ + seq![h0, h1] + be_bytes(n as int, 8));
                }
            }
        }
        match &self.header.mask {
            Some(k) => {
                out.push(k.b0);
                out.push(k.b1);
                out.push(k.b2);
                out.push(k.b3);
                let mut body = self.payload.clone();
                apply_mask(k, &mut body);
                out.append(&mut body);
            },
            None => {
                let mut body = self.payload.clone();
                out.append(&mut body);
            },
        }
        proof {
            assert(out@ =~= old(out)@ + self.wire());
        }
    }

    /// Consume the frame and keep only its payload.
    pub fn into_data(self) -> (r: Vec<u8>)
        ensures
            r@ == self.payload@,
    {
        self.payload
    }
}


/// Masking is an involution: applying the same key twice restores the data.
pub proof fn lemma_masked_involution(key: MaskKey, data: Seq<u8>)
    ensures
        masked(key, masked(key, data)) == data,
{
    assert forall|i: int| 0 <= i < data.len() implies masked(key, masked(key, data))[i]
        == data[i] by {
        let kb = key.byte(i);
        let d = data[i];
        assert((d ^ kb) ^ kb == d) by (bit_vector);
    }
    assert(masked(key, masked(key, data)) =~= data);
}

/// Reading big-endian bytes back recovers the value they were written from.
pub proof fn lemma_be_bytes_round_trip(n: int, w: nat)
    requires
        0 <= n < pow256(w),
    ensures
        be_uint(be_bytes(n, w)) == n,
    decreases w,
{
    if w == 0 {
        assert(be_bytes(n, 0) =~= Seq::<u8>::empty());
    } else {
        let b = be_bytes(n, w);
        assert forall|i: int| 0 <= i < w - 1 implies b.drop_last()[i] == be_bytes(
            n / 256,
            (w - 1) as nat,
        )[i] by {
            lemma_pow256_pos((w - 2 - i) as nat);
            lemma_div_denominator(n, 256, pow256((w - 2 - i) as nat) as int);
            assert(256 * pow256((w - 2 - i) as nat) == pow256((w - 1 - i) as nat));
        }
        assert(b.drop_last() =~= be_bytes(n / 256, (w - 1) as nat));
        assert(n < 256 * pow256((w - 1) as nat));
        lemma_multiply_divide_lt(n, 256, pow256((w - 1) as nat) as int);
        lemma_be_bytes_round_trip(n / 256, (w - 1) as nat);
        assert(pow256(0) == 1);
        lemma_div_basics(n);
        assert(b.last() == (n % 256) as u8);
        lemma_fundamental_div_mod(n, 256);
    }
}

/// Serialization round trip: the wire bytes of an outgoing frame parse back
/// as exactly that frame, consuming all of them. What the writer puts on the
/// stream, the reader hands back unchanged.
pub proof fn lemma_wire_round_trip(fin: bool, op: OpCode, mask: Option<MaskKey>, payload: Seq<u8>)
    requires
        payload.len() < 0x10000000000000000,
    ensures
        parse_frame(spec_wire(fin, op, mask, payload)) == (FrameParse::Complete {
            frame: FrameModel { fin, opcode: op, payload },
            consumed: spec_wire(fin, op, mask, payload).len() as int,
        }),
{
    lemma_pow256_values();
    let b = spec_wire(fin, op, mask, payload);
    let n = payload.len() as int;
    let fbit: u8 = if fin {
        0x80
    } else {
        0
    };
    let obits = opcode_bits(op);
    let h0 = fbit | obits;
    let lenbyte: u8 = if n < 126 {
        n as u8
    } else if n <= 0xFFFF {
        126
    } else {
        127
    };
    let mbit: u8 = if mask is Some {
        0x80
    } else {
        0
    };
    let h1 = mbit | lenbyte;
    assert(b[0] == h0);
    assert(b[1] == h1);
    assert((fbit == 0x80 || fbit == 0) && (obits == 0 || obits == 1 || obits == 2 || obits == 8
        || obits == 9 || obits == 10));
    assert(((fbit | obits) & 0x70) == 0 && ((fbit | obits) & 0x0f) == obits && (((fbit | obits)
        & 0x80) == if fbit == 0x80 {
        0x80u8
    } else {
        0u8
    })) by (bit_vector)
        requires
            (fbit == 0x80 || fbit == 0) && (obits == 0 || obits == 1 || obits == 2 || obits == 8
                || obits == 9 || obits == 10),
    ;
    assert(lenbyte < 128);
    assert(((mbit | lenbyte) & 0x7f) == lenbyte && (((mbit | lenbyte) & 0x80) == if mbit == 0x80 {
        0x80u8
    } else {
        0u8
    })) by (bit_vector)
        requires
            (mbit == 0x80 || mbit == 0) && lenbyte < 128,
    ;
    assert(opcode_of_bits(obits) == Some(op));
    let next = ext_len_bytes(lenbyte);
    let nmask: int = if mask is Some {
        4
    } else {
        0
    };
    let total = 2 + next + nmask;
    assert(b.len() == total + n);
    // The declared length reads back as the payload length.
    if n >= 126 {
        if n <= 0xFFFF {
            assert(b.subrange(2, 4) =~= be_bytes(n, 2));
            lemma_be_bytes_round_trip(n, 2);
        } else {
            assert(b.subrange(2, 10) =~= be_bytes(n, 8));
            lemma_be_bytes_round_trip(n, 8);
        }
    }
    // The mask key reads back byte for byte.
    match mask {
        Some(k) => {
            assert(b[total - 4] == k.b0 && b[total - 3] == k.b1 && b[total - 2] == k.b2 && b[total
                - 1] == k.b3);
            assert(b.subrange(total, total + n) =~= masked(k, payload));
            lemma_masked_involution(k, payload);
        },
        None => {
            assert(b.subrange(total, total + n) =~= payload);
        },
    }
}

} // verus!
