//! Greedy decoding of a byte stream into frames, and its independence from
//! how the stream was chunked.
//!
//! [`decode_all`] is the reference decoding of a whole byte sequence. The
//! lemmas here show that a parse never changes once its bytes are present:
//! frames decoded from consumed bytes stay the frames of the whole stream,
//! however the stream was split into transport reads.

use vstd::prelude::*;

use crate::frame::{FrameHeader, FrameModel, FrameParse, HeaderParse, MaskKey, OpCode, masked,
    parse_frame, parse_header, spec_wire, lemma_parse_frame_bounds, lemma_parse_frame_prefix,
    lemma_parse_header_prefix, lemma_wire_round_trip};

verus! {

/// All frames that greedy decoding takes from the front of `b`, stopping at
/// the first incomplete or invalid remainder.
pub open spec fn decode_all(b: Seq<u8>) -> Seq<FrameModel>
    decreases b.len(),
{
    match parse_frame(b) {
        FrameParse::Complete { frame, consumed } => {
            if 0 < consumed <= b.len() {
                seq![frame] + decode_all(b.skip(consumed))
            } else {
                seq![frame]
            }
        },
        _ => Seq::empty(),
    }
}

/// `bytes` decodes exactly to `frames`: the frames use up all of `bytes`,
/// ending on a frame boundary.
pub open spec fn decodes_to_exactly(bytes: Seq<u8>, frames: Seq<FrameModel>) -> bool
    decreases frames.len(),
{
    if frames.len() == 0 {
        bytes.len() == 0
    } else {
        &&& parse_frame(bytes) matches FrameParse::Complete { frame, consumed }
            &&& frame == frames[0]
            &&& decodes_to_exactly(bytes.skip(consumed), frames.skip(1))
    }
}

/// Chunk invariance: bytes that decode exactly to some frames, followed by
/// any further bytes, decode to those frames followed by the decoding of the
/// rest. Decoding never depends on where the stream was split.
pub proof fn lemma_chunk_invariance(a: Seq<u8>, frames: Seq<FrameModel>, b: Seq<u8>)
    requires
        decodes_to_exactly(a, frames),
    ensures
        decode_all(a + b) == frames + decode_all(b),
    decreases frames.len(),
{
    if frames.len() == 0 {
        assert(a + b =~= b);
        assert(frames + decode_all(b) =~= decode_all(b));
    } else {
        lemma_parse_frame_bounds(a);
        lemma_parse_frame_prefix(a, b);
        if let FrameParse::Complete { frame, consumed } = parse_frame(a) {
            assert((a + b).skip(consumed) =~= a.skip(consumed) + b);
            lemma_chunk_invariance(a.skip(consumed), frames.skip(1), b);
            assert(seq![frame] + (frames.skip(1) + decode_all(b)) =~= frames + decode_all(b));
        }
    }
}

/// Appending the bytes of one cleanly parsed frame extends an exact decoding
/// by that frame.
pub proof fn lemma_decodes_to_exactly_snoc(
    a: Seq<u8>,
    frames: Seq<FrameModel>,
    c: Seq<u8>,
    f: FrameModel,
)
    requires
        decodes_to_exactly(a, frames),
        parse_frame(c) matches FrameParse::Complete { frame, consumed } && frame == f && consumed
            == c.len(),
    ensures
        decodes_to_exactly(a + c, frames.push(f)),
    decreases frames.len(),
{
    if frames.len() == 0 {
        assert(a + c =~= c);
        assert(c.skip(c.len() as int) =~= Seq::<u8>::empty());
        assert(frames.push(f).skip(1) =~= Seq::<FrameModel>::empty());
        assert(frames.push(f)[0] == f);
        assert(decodes_to_exactly(Seq::<u8>::empty(), Seq::<FrameModel>::empty()));
        assert(decodes_to_exactly(c, frames.push(f)));
    } else {
        lemma_parse_frame_bounds(a);
        lemma_parse_frame_prefix(a, c);
        if let FrameParse::Complete { frame, consumed } = parse_frame(a) {
            assert((a + c).skip(consumed) =~= a.skip(consumed) + c);
            lemma_decodes_to_exactly_snoc(a.skip(consumed), frames.skip(1), c, f);
            assert(frames.push(f).skip(1) =~= frames.skip(1).push(f));
        }
    }
}

/// The wire bytes of one outgoing frame decode exactly to that frame.
/// Together with [`lemma_chunk_invariance`] this says that a reader of the
/// bytes the writer queued, however they are later chunked, decodes the
/// submitted frames in submission order.
pub proof fn lemma_wire_decodes_exactly(
    fin: bool,
    op: OpCode,
    mask: Option<MaskKey>,
    payload: Seq<u8>,
)
    requires
        payload.len() < 0x10000000000000000,
    ensures
        decodes_to_exactly(
            spec_wire(fin, op, mask, payload),
            seq![FrameModel { fin, opcode: op, payload }],
        ),
{
    lemma_wire_round_trip(fin, op, mask, payload);
    let w = spec_wire(fin, op, mask, payload);
    assert(w.skip(w.len() as int) =~= Seq::<u8>::empty());
    assert(seq![FrameModel { fin, opcode: op, payload }].skip(1) =~= Seq::<FrameModel>::empty());
    assert(decodes_to_exactly(Seq::<u8>::empty(), Seq::<FrameModel>::empty()));
}

/// A complete header followed by exactly its declared payload parses as one
/// whole frame that consumes everything.
pub proof fn lemma_frame_from_header_payload(hdr: Seq<u8>, h: FrameHeader, l: int, raw: Seq<u8>)
    requires
        parse_header(hdr) == (HeaderParse::Complete {
            header: h,
            length: l,
            consumed: hdr.len() as int,
        }),
        raw.len() == l,
    ensures
        parse_frame(hdr + raw) == (FrameParse::Complete {
            frame: FrameModel {
                fin: h.fin,
                opcode: h.opcode,
                payload: match h.mask {
                    Some(k) => masked(k, raw),
                    None => raw,
                },
            },
            consumed: (hdr + raw).len() as int,
        }),
{
    lemma_parse_header_prefix(hdr, raw);
    assert((hdr + raw).subrange(hdr.len() as int, hdr.len() + l) =~= raw);
}

} // verus!
