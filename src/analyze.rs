//! The frame boundary analyzer: a per-stream state machine over arriving packets.
use vstd::prelude::*;
use crate::codecs::Codec;
use crate::codecs::av1::parse_av1_payload_header;
use crate::codecs::avc::{avc_header, avc_vcl_type, is_avc_vcl, parse_avc_payload_header, AvcNalKind};
use crate::codecs::hevc::{hevc_header, hevc_vcl_type, is_hevc_vcl, parse_hevc_payload_header, HevcNalKind};
use crate::codecs::vp9::{vp9_descriptor, Vp9PayloadDesc};
use crate::guess::{guess_codec, guessed_codec};
use crate::rtp::RtpPacket;

verus! {

/// Where a packet stands within a frame.
#[derive(Debug, Clone, Copy, PartialEq, Eq, Structural)]
pub enum FrameBoundary {
    /// Neither the start nor the end of a frame.
    NoBoundary,
    Start,
    End,
    StartEnd,
}

/// The boundary that a start and an end decision make together.
pub open spec fn boundary_of(start: bool, end: bool) -> FrameBoundary {
    if start && end {
        FrameBoundary::StartEnd
    } else if start {
        FrameBoundary::Start
    } else if end {
        FrameBoundary::End
    } else {
        FrameBoundary::NoBoundary
    }
}

/// The start and end decisions for a packet of the given codec, marker bit and payload,
/// taken while the analyzer is inside a frame or not. A payload whose header does not
/// parse is judged by the marker bit alone.
pub open spec fn start_end(codec: Codec, in_frame: bool, marker: bool, p: Seq<u8>) -> (bool, bool) {
    match codec {
        Codec::Avc => match avc_header(p) {
            Ok((AvcNalKind::FuA { start, nal_type, .. }, _)) => (start && is_avc_vcl(nal_type), marker),
            Ok((AvcNalKind::FuB { start, nal_type, .. }, _)) => (start && is_avc_vcl(nal_type), marker),
            Ok((AvcNalKind::Single(t), _)) => (is_avc_vcl(t) && !in_frame, marker),
            _ => (!in_frame, marker),
        },
        Codec::Hevc => match hevc_header(p) {
            Ok((HevcNalKind::Fu { start, nal_type, .. }, _)) => (start && is_hevc_vcl(nal_type), marker),
            Ok((HevcNalKind::Single { nal_type }, _)) => (is_hevc_vcl(nal_type) && !in_frame, marker),
            _ => (!in_frame, marker),
        },
        Codec::Vp9 => match vp9_descriptor(p) {
            Ok((d, _)) => (d.b_bit || !in_frame, d.e_bit || marker),
            Err(_) => (!in_frame, marker),
        },
        _ => (!in_frame, marker),
    }
}

/// The boundary that the analyzer reports for a packet.
pub open spec fn frame_boundary(codec: Codec, in_frame: bool, marker: bool, p: Seq<u8>) -> FrameBoundary {
    boundary_of(start_end(codec, in_frame, marker, p).0, start_end(codec, in_frame, marker, p).1)
}

/// Tracks whether the stream is inside a frame, and the stream's codec once known.
#[derive(Debug)]
pub struct FrameAnalyzer {
    codec: Option<Codec>,
    in_frame: bool,
}

impl Default for FrameAnalyzer {
    fn default() -> (r: Self)
        ensures
            r.spec_codec() is None,
            !r.spec_in_frame(),
    {
        FrameAnalyzer::new()
    }
}

fn boundary(start: bool, end: bool) -> (r: FrameBoundary)
    ensures
        r == boundary_of(start, end),
{
    if start && end {
        FrameBoundary::StartEnd
    } else if start {
        FrameBoundary::Start
    } else if end {
        FrameBoundary::End
    } else {
        FrameBoundary::NoBoundary
    }
}

impl FrameAnalyzer {
    /// The codec the analyzer works with, if set or guessed.
    pub closed spec fn spec_codec(&self) -> Option<Codec> {
        self.codec
    }

    /// Whether the analyzer is between a start and its matching end.
    pub closed spec fn spec_in_frame(&self) -> bool {
        self.in_frame
    }

    pub fn new() -> (r: Self)
        ensures
            r.spec_codec() is None,
            !r.spec_in_frame(),
    {
        Self { codec: None, in_frame: false }
    }

    pub fn set_codec(&mut self, codec: Codec)
        ensures
            final(self).spec_codec() == Some(codec),
            final(self).spec_in_frame() == old(self).spec_in_frame(),
    {
        self.codec = Some(codec);
    }

    pub fn codec(&self) -> (r: Option<Codec>)
        ensures
            r == self.spec_codec(),
    {
        self.codec
    }

    /// Reports where the packet stands within a frame. Without a codec, the codec is first
    /// guessed from this packet's payload and kept for the stream.
    pub fn analyze<'a>(&mut self, packet: &RtpPacket<'a>) -> (r: FrameBoundary)
        ensures
            ({
                let c = match old(self).spec_codec() {
                    Some(c) => c,
                    None => guessed_codec(packet.payload@),
                };
                &&& final(self).spec_codec() == Some(c)
                &&& r == frame_boundary(c, old(self).spec_in_frame(), packet.header.marker, packet.payload@)
            }),
            final(self).spec_in_frame() == (r == FrameBoundary::NoBoundary || r == FrameBoundary::Start),
    {
        let codec = match self.codec {
            Some(c) => c,
            None => guess_codec(packet.payload),
        };
        self.codec = Some(codec);
        match codec {
            Codec::Avc => self.analyze_avc(packet),
            Codec::Hevc => self.analyze_hevc(packet),
            Codec::Vp9 => self.analyze_vp9(packet),
            Codec::Av1 => self.analyze_av1(packet),
            Codec::Unknown => self.analyze_generic(packet),
        }
    }

    /// Records the boundary made of `start` and `end` and reports it.
    fn emit(&mut self, start: bool, end: bool) -> (r: FrameBoundary)
        ensures
            r == boundary_of(start, end),
            final(self).spec_codec() == old(self).spec_codec(),
            final(self).spec_in_frame() == (r == FrameBoundary::NoBoundary || r == FrameBoundary::Start),
    {
        let fb = boundary(start, end);
        self.in_frame = !(fb == FrameBoundary::End || fb == FrameBoundary::StartEnd);
        fb
    }

    fn analyze_generic(&mut self, packet: &RtpPacket<'_>) -> (r: FrameBoundary)
        ensures
            r == boundary_of(!old(self).spec_in_frame(), packet.header.marker),
            final(self).spec_codec() == old(self).spec_codec(),
            final(self).spec_in_frame() == (r == FrameBoundary::NoBoundary || r == FrameBoundary::Start),
    {
        let start = !self.in_frame;
        let end = packet.header.marker;
        self.emit(start, end)
    }

    fn analyze_avc(&mut self, packet: &RtpPacket<'_>) -> (r: FrameBoundary)
        ensures
            r == frame_boundary(Codec::Avc, old(self).spec_in_frame(), packet.header.marker, packet.payload@),
            final(self).spec_codec() == old(self).spec_codec(),
            final(self).spec_in_frame() == (r == FrameBoundary::NoBoundary || r == FrameBoundary::Start),
    {
        let kind = match parse_avc_payload_header(packet.payload) {
            Ok((k, _off)) => k,
            Err(_) => return self.analyze_generic(packet),
        };
        let end = packet.header.marker;
        match kind {
            AvcNalKind::FuA { start: s, nal_type, .. } | AvcNalKind::FuB { start: s, nal_type, .. } => {
                let start = s && avc_vcl_type(nal_type);
                self.emit(start, end)
            },
            AvcNalKind::Single(t) => {
                let start = avc_vcl_type(t) && !self.in_frame;
                self.emit(start, end)
            },
            AvcNalKind::StapA | AvcNalKind::StapB | AvcNalKind::Mtap16 | AvcNalKind::Mtap24
            | AvcNalKind::Unknown(_) => {
                let start = !self.in_frame;
                self.emit(start, end)
            },
        }
    }

    fn analyze_hevc(&mut self, packet: &RtpPacket<'_>) -> (r: FrameBoundary)
        ensures
            r == frame_boundary(Codec::Hevc, old(self).spec_in_frame(), packet.header.marker, packet.payload@),
            final(self).spec_codec() == old(self).spec_codec(),
            final(self).spec_in_frame() == (r == FrameBoundary::NoBoundary || r == FrameBoundary::Start),
    {
        let kind = match parse_hevc_payload_header(packet.payload) {
            Ok((k, _off)) => k,
            Err(_) => return self.analyze_generic(packet),
        };
        let end = packet.header.marker;
        match kind {
            HevcNalKind::Fu { start: s, nal_type, .. } => {
                let start = s && hevc_vcl_type(nal_type);
                self.emit(start, end)
            },
            HevcNalKind::Single { nal_type } => {
                let start = hevc_vcl_type(nal_type) && !self.in_frame;
                self.emit(start, end)
            },
            HevcNalKind::Ap | HevcNalKind::Pacsi | HevcNalKind::Unknown(_) => {
                let start = !self.in_frame;
                self.emit(start, end)
            },
        }
    }

    fn analyze_vp9(&mut self, packet: &RtpPacket<'_>) -> (r: FrameBoundary)
        ensures
            r == frame_boundary(Codec::Vp9, old(self).spec_in_frame(), packet.header.marker, packet.payload@),
            final(self).spec_codec() == old(self).spec_codec(),
            final(self).spec_in_frame() == (r == FrameBoundary::NoBoundary || r == FrameBoundary::Start),
    {
        let desc = match Vp9PayloadDesc::parse(packet.payload) {
            Ok((d, _off)) => d,
            Err(_) => return self.analyze_generic(packet),
        };
        let start = desc.b_bit || !self.in_frame;
        let end = desc.e_bit || packet.header.marker;
        self.emit(start, end)
    }

    fn analyze_av1(&mut self, packet: &RtpPacket<'_>) -> (r: FrameBoundary)
        ensures
            r == frame_boundary(Codec::Av1, old(self).spec_in_frame(), packet.header.marker, packet.payload@),
            final(self).spec_codec() == old(self).spec_codec(),
            final(self).spec_in_frame() == (r == FrameBoundary::NoBoundary || r == FrameBoundary::Start),
    {
        if parse_av1_payload_header(packet.payload).is_err() {
            return self.analyze_generic(packet);
        }
        let start = !self.in_frame;
        let end = packet.header.marker;
        self.emit(start, end)
    }
}

} // verus!
