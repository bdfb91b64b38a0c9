use rtp_frames::analyze::{FrameAnalyzer, FrameBoundary};
use rtp_frames::codecs::Codec;
use rtp_frames::rtp::RtpPacket;

fn build_rtp(payload: &[u8], marker: bool) -> Vec<u8> {
    let mut v = Vec::new();
    let b0 = 2u8 << 6;
    v.push(b0);
    let mut b1 = 96u8;
    if marker {
        b1 |= 0x80;
    }
    v.push(b1);
    v.extend_from_slice(&1u16.to_be_bytes());
    v.extend_from_slice(&2u32.to_be_bytes());
    v.extend_from_slice(&3u32.to_be_bytes());
    v.extend_from_slice(payload);
    v
}

#[test]
fn h264_fu_frame_boundaries() {
    let mut a = FrameAnalyzer::new();
    a.set_codec(Codec::Avc);
    let p1 = build_rtp(&[0x1C, 0x80 | 0x01, 0xAA, 0xBB], false);
    let pkt1 = RtpPacket::parse(&p1).unwrap();
    assert_eq!(a.analyze(&pkt1), FrameBoundary::Start);
    let p2 = build_rtp(&[0x1C, 0x01, 0xCC], false);
    let pkt2 = RtpPacket::parse(&p2).unwrap();
    assert_eq!(a.analyze(&pkt2), FrameBoundary::NoBoundary);
    let p3 = build_rtp(&[0x1C, 0x40 | 0x01, 0xDD], true);
    let pkt3 = RtpPacket::parse(&p3).unwrap();
    assert_eq!(a.analyze(&pkt3), FrameBoundary::End);
}

#[test]
fn h265_fu_frame_boundaries() {
    let mut a = FrameAnalyzer::new();
    a.set_codec(Codec::Hevc);
    let p1 = build_rtp(&[(49u8 << 1) & 0x7E, 0x01, 0x80 | 0x01], false);
    let pkt1 = RtpPacket::parse(&p1).unwrap();
    assert_eq!(a.analyze(&pkt1), FrameBoundary::Start);
    let p2 = build_rtp(&[(49u8 << 1) & 0x7E, 0x01, 0x40 | 0x01], true);
    let pkt2 = RtpPacket::parse(&p2).unwrap();
    assert_eq!(a.analyze(&pkt2), FrameBoundary::End);
}

#[test]
fn vp9_b_e_bits() {
    let mut a = FrameAnalyzer::new();
    a.set_codec(Codec::Vp9);
    let p1 = build_rtp(&[0x80 | 0x08, 0x0A], false);
    let pkt1 = RtpPacket::parse(&p1).unwrap();
    assert_eq!(a.analyze(&pkt1), FrameBoundary::Start);
    let p2 = build_rtp(&[0x04], true);
    let pkt2 = RtpPacket::parse(&p2).unwrap();
    assert_eq!(a.analyze(&pkt2), FrameBoundary::End);
}

#[test]
fn av1_marker_end() {
    let mut a = FrameAnalyzer::new();
    a.set_codec(Codec::Av1);
    let p1 = build_rtp(&[0x04], false);
    let pkt1 = RtpPacket::parse(&p1).unwrap();
    assert_eq!(a.analyze(&pkt1), FrameBoundary::Start);
    let p2 = build_rtp(&[0x04], false);
    let pkt2 = RtpPacket::parse(&p2).unwrap();
    assert_eq!(a.analyze(&pkt2), FrameBoundary::NoBoundary);
    let p3 = build_rtp(&[0x04], true);
    let pkt3 = RtpPacket::parse(&p3).unwrap();
    assert_eq!(a.analyze(&pkt3), FrameBoundary::End);
}

#[test]
fn analyzer_guesses_and_keeps_codec() {
    let mut a = FrameAnalyzer::new();
    assert_eq!(a.codec(), None);
    let p1 = build_rtp(&[0x65, 0x00], true);
    let pkt1 = RtpPacket::parse(&p1).unwrap();
    assert_eq!(a.analyze(&pkt1), FrameBoundary::StartEnd);
    assert_eq!(a.codec(), Some(Codec::Avc));
    // A payload that would be guessed as AV1 is still read as AVC.
    let p2 = build_rtp(&[0x04], false);
    let pkt2 = RtpPacket::parse(&p2).unwrap();
    assert_eq!(a.analyze(&pkt2), FrameBoundary::Start);
    assert_eq!(a.codec(), Some(Codec::Avc));
}

#[test]
fn analyzer_in_frame_follows_last_boundary() {
    let mut a = FrameAnalyzer::new();
    a.set_codec(Codec::Unknown);
    let cases = [(false, FrameBoundary::Start), (false, FrameBoundary::NoBoundary), (true, FrameBoundary::End), (true, FrameBoundary::StartEnd), (false, FrameBoundary::Start)];
    for (marker, expected) in cases {
        let p = build_rtp(&[0x01], marker);
        let pkt = RtpPacket::parse(&p).unwrap();
        assert_eq!(a.analyze(&pkt), expected);
    }
}

#[test]
fn avc_single_non_vcl_and_malformed() {
    let mut a = FrameAnalyzer::new();
    a.set_codec(Codec::Avc);
    // A parameter set is not a slice: no start.
    let p1 = build_rtp(&[0x67, 0x42], false);
    let pkt1 = RtpPacket::parse(&p1).unwrap();
    assert_eq!(a.analyze(&pkt1), FrameBoundary::NoBoundary);
    // An empty payload is judged by the marker alone.
    let p2 = build_rtp(&[], true);
    let pkt2 = RtpPacket::parse(&p2).unwrap();
    assert_eq!(a.analyze(&pkt2), FrameBoundary::End);
}
