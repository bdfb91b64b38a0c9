//! The bytes that a frame's buffered packets make, codec by codec.
use vstd::prelude::*;
use crate::codecs::Codec;
use crate::codecs::av1::av1_header;
use crate::codecs::avc::{avc_header, AvcNalKind};
use crate::codecs::hevc::{hevc_header, HevcNalKind};
use crate::codecs::vp9::vp9_descriptor;
use crate::rtp::be16;

verus! {

/// The delimiter that precedes each NAL unit in the AVC and HEVC byte streams.
pub open spec fn start_code() -> Seq<u8> {
    seq![0u8, 0u8, 0u8, 1u8]
}

/// The NAL units of an aggregation payload from offset `i` on, each preceded by a start code.
/// Each unit is a 16-bit size and that many bytes; a truncated unit ends the list.
pub open spec fn aggregated_nals(p: Seq<u8>, i: int) -> Seq<u8>
    decreases p.len() - i,
{
    if 0 <= i && i + 2 <= p.len() {
        let size = be16(p[i], p[i + 1]) as int;
        if i + 2 + size > p.len() {
            Seq::empty()
        } else {
            start_code() + p.subrange(i + 2, i + 2 + size) + aggregated_nals(p, i + 2 + size)
        }
    } else {
        Seq::empty()
    }
}

/// The bytes that an AVC payload adds to its frame, and the fragment-open and incomplete flags
/// after it.
pub open spec fn avc_append(p: Seq<u8>, fu_open: bool, incomplete: bool) -> (Seq<u8>, bool, bool) {
    match avc_header(p) {
        Ok((AvcNalKind::Single(_), _)) => (start_code() + p, fu_open, incomplete),
        Ok((AvcNalKind::StapA, _)) => (aggregated_nals(p, 1), fu_open, incomplete),
        Ok((AvcNalKind::FuA { start, nal_type, .. }, _)) => avc_fragment(p, start, nal_type, fu_open, incomplete),
        Ok((AvcNalKind::FuB { start, nal_type, .. }, _)) => avc_fragment(p, start, nal_type, fu_open, incomplete),
        Ok(_) => (start_code() + p, fu_open, incomplete),
        Err(_) => (p, fu_open, incomplete),
    }
}

/// An AVC fragment: the first opens its NAL unit with a rebuilt header byte; a later one
/// with no open unit marks the frame incomplete and adds nothing.
pub open spec fn avc_fragment(p: Seq<u8>, start: bool, nal_type: u8, fu_open: bool, incomplete: bool) -> (Seq<u8>, bool, bool) {
    if start {
        (start_code() + seq![(p[0] & 0xE0) | (nal_type & 0x1F)] + p.subrange(2, p.len() as int), true, incomplete)
    } else if !fu_open {
        (Seq::empty(), fu_open, true)
    } else {
        (p.subrange(2, p.len() as int), fu_open, incomplete)
    }
}

/// The bytes that an HEVC payload adds to its frame, and the fragment-open and incomplete
/// flags after it.
pub open spec fn hevc_append(p: Seq<u8>, fu_open: bool, incomplete: bool) -> (Seq<u8>, bool, bool) {
    match hevc_header(p) {
        Ok((HevcNalKind::Ap, _)) => (aggregated_nals(p, 2), fu_open, incomplete),
        Ok((HevcNalKind::Fu { start, nal_type, .. }, _)) => {
            if start {
                (
                    start_code() + seq![(p[0] & !0x7Eu8) | ((nal_type << 1u8) & 0x7E), p[1]] + p.subrange(3, p.len() as int),
                    true,
                    incomplete,
                )
            } else if !fu_open {
                (Seq::empty(), fu_open, true)
            } else {
                (p.subrange(3, p.len() as int), fu_open, incomplete)
            }
        },
        Ok(_) => (start_code() + p, fu_open, incomplete),
        Err(_) => (p, fu_open, incomplete),
    }
}

/// A VP9 payload without its descriptor; the whole payload when the descriptor does not parse.
pub open spec fn vp9_strip(p: Seq<u8>) -> Seq<u8> {
    match vp9_descriptor(p) {
        Ok((_, off)) => p.subrange(off as int, p.len() as int),
        Err(_) => p,
    }
}

/// An AV1 payload without its aggregation header; the whole payload when it has none.
pub open spec fn av1_strip(p: Seq<u8>) -> Seq<u8> {
    match av1_header(p) {
        Ok((_, off)) => p.subrange(off as int, p.len() as int),
        Err(_) => p,
    }
}

/// What one payload adds to its frame under the codec, and the flags after it.
pub open spec fn append_payload(codec: Codec, p: Seq<u8>, fu_open: bool, incomplete: bool) -> (Seq<u8>, bool, bool) {
    match codec {
        Codec::Avc => avc_append(p, fu_open, incomplete),
        Codec::Hevc => hevc_append(p, fu_open, incomplete),
        Codec::Vp9 => (vp9_strip(p), fu_open, incomplete),
        Codec::Av1 => (av1_strip(p), fu_open, incomplete),
        Codec::Unknown => (p, fu_open, incomplete),
    }
}

/// The bytes of the first `n` buffered packets, in order, with the fragment-open flag and
/// whether a fragment went missing.
pub open spec fn assemble_prefix(codec: Codec, pkts: Seq<(u16, Seq<u8>)>, n: int) -> (Seq<u8>, bool, bool)
    decreases n,
{
    if n <= 0 {
        (Seq::empty(), false, false)
    } else {
        let prev = assemble_prefix(codec, pkts, n - 1);
        let step = append_payload(codec, pkts[n - 1].1, prev.1, prev.2);
        (prev.0 + step.0, step.1, step.2)
    }
}

/// The distance, modulo 2^16, from the sequence number of packet `i - 1` to that of packet `i`.
pub open spec fn seq_step(pkts: Seq<(u16, Seq<u8>)>, i: int) -> int {
    (pkts[i].0 as int - pkts[i - 1].0 as int) % 0x10000
}

/// Some pair of neighbouring packets whose sequence numbers do not follow on.
pub open spec fn has_gap(pkts: Seq<(u16, Seq<u8>)>) -> bool {
    exists|i: int| 1 <= i < pkts.len() && #[trigger] seq_step(pkts, i) != 1
}

/// The frame that buffered packets make, in the order given: nothing when incomplete frames
/// are dropped and a packet or the start of a fragmented unit is missing.
pub open spec fn assembled_frame(codec: Codec, pkts: Seq<(u16, Seq<u8>)>, drop_incomplete: bool) -> Option<Seq<u8>> {
    let r = assemble_prefix(codec, pkts, pkts.len() as int);
    if drop_incomplete && (r.2 || has_gap(pkts)) {
        None
    } else {
        Some(r.0)
    }
}

/// Whether the payload's header parses under the codec.
pub open spec fn header_parses(codec: Codec, p: Seq<u8>) -> bool {
    match codec {
        Codec::Avc => avc_header(p) is Ok,
        Codec::Hevc => hevc_header(p) is Ok,
        _ => true,
    }
}

/// The NAL units taken out of an aggregation payload are empty or begin with a start code.
pub proof fn lemma_aggregated_start_code(p: Seq<u8>, i: int)
    ensures
        aggregated_nals(p, i).len() == 0 || (aggregated_nals(p, i).len() >= 4
            && aggregated_nals(p, i).subrange(0, 4) == start_code()),
    decreases p.len() - i,
{
    if 0 <= i && i + 2 <= p.len() {
        let size = be16(p[i], p[i + 1]) as int;
        if i + 2 + size <= p.len() {
            let a = aggregated_nals(p, i);
            assert(a.subrange(0, 4) =~= start_code());
        }
    }
}

proof fn lemma_prefix_start_code(codec: Codec, pkts: Seq<(u16, Seq<u8>)>, n: int)
    requires
        codec == Codec::Avc || codec == Codec::Hevc,
        0 <= n <= pkts.len(),
        forall|i: int| 0 <= i < pkts.len() ==> header_parses(codec, (#[trigger] pkts[i]).1),
    ensures
        ({
            let r = assemble_prefix(codec, pkts, n);
            !r.2 ==> (r.0.len() == 0 && !r.1) || (r.0.len() >= 4 && r.0.subrange(0, 4) == start_code())
        }),
    decreases n,
{
    if n > 0 {
        lemma_prefix_start_code(codec, pkts, n - 1);
        let prev = assemble_prefix(codec, pkts, n - 1);
        let p = pkts[n - 1].1;
        assert(header_parses(codec, p));
        let step = append_payload(codec, p, prev.1, prev.2);
        let o = prev.0 + step.0;
        if codec == Codec::Avc {
            lemma_aggregated_start_code(p, 1);
        } else {
            lemma_aggregated_start_code(p, 2);
        }
        if !step.2 {
            if prev.0.len() >= 4 {
                assert(o.subrange(0, 4) =~= prev.0.subrange(0, 4));
            } else if step.0.len() >= 4 {
                assert(o =~= step.0);
            }
        }
    }
}

/// Under AVC or HEVC, with incomplete frames dropped, a non-empty frame built from packets
/// whose headers all parse begins with a start code.
pub proof fn lemma_start_code_framing(codec: Codec, pkts: Seq<(u16, Seq<u8>)>, out: Seq<u8>)
    requires
        codec == Codec::Avc || codec == Codec::Hevc,
        forall|i: int| 0 <= i < pkts.len() ==> header_parses(codec, (#[trigger] pkts[i]).1),
        assembled_frame(codec, pkts, true) == Some(out),
        out.len() > 0,
    ensures
        out.len() >= 4,
        out.subrange(0, 4) == start_code(),
{
    lemma_prefix_start_code(codec, pkts, pkts.len() as int);
}

} // verus!
