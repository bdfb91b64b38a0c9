use rtp_frames::codecs::Codec;
use rtp_frames::reassemble::{FrameReassembler, ReorderConfig};
use rtp_frames::rtp::RtpPacket;

fn build_rtp_with_seq(payload: &[u8], marker: bool, seq: u16) -> Vec<u8> {
    build_rtp_full(payload, marker, seq, 2, 3)
}

fn build_rtp_full(payload: &[u8], marker: bool, seq: u16, ts: u32, ssrc: u32) -> Vec<u8> {
    let mut v = Vec::new();
    v.push(2u8 << 6);
    let mut b1 = 96u8;
    if marker {
        b1 |= 0x80;
    }
    v.push(b1);
    v.extend_from_slice(&seq.to_be_bytes());
    v.extend_from_slice(&ts.to_be_bytes());
    v.extend_from_slice(&ssrc.to_be_bytes());
    v.extend_from_slice(payload);
    v
}

#[test]
fn reassemble_h264_fu_annexb() {
    let mut r = FrameReassembler::new();
    r.set_codec(Codec::Avc);
    let p1 = build_rtp_with_seq(&[0x7C, 0x80 | 0x05, 0xAA, 0xBB], false, 100);
    let p2 = build_rtp_with_seq(&[0x7C, 0x05, 0xCC], true, 101);
    let pkt1 = RtpPacket::parse(&p1).unwrap();
    let pkt2 = RtpPacket::parse(&p2).unwrap();
    assert!(r.push_packet(&pkt1).is_none());
    let out = r.push_packet(&pkt2).expect("frame");
    assert!(out.starts_with(&[0, 0, 0, 1]));
    assert_eq!(out[4], 0x65);
    assert_eq!(&out[5..], &[0xAA, 0xBB, 0xCC]);
    assert_eq!(out, vec![0, 0, 0, 1, 0x65, 0xAA, 0xBB, 0xCC]);
}

#[test]
fn reassemble_h264_stap_a() {
    let mut r = FrameReassembler::new();
    r.set_codec(Codec::Avc);
    let payload = [0x18, 0x00, 0x02, 0x61, 0x01, 0x00, 0x03, 0x65, 0x02, 0x03];
    let p = build_rtp_with_seq(&payload, true, 200);
    let pkt = RtpPacket::parse(&p).unwrap();
    let out = r.push_packet(&pkt).expect("frame");
    let sc = [0, 0, 0, 1];
    assert!(out.starts_with(&sc));
    let mut idx = 4;
    assert_eq!(&out[idx..idx + 2], &[0x61, 0x01]);
    idx += 2;
    assert_eq!(&out[idx..idx + 4], &sc);
    idx += 4;
    assert_eq!(&out[idx..idx + 3], &[0x65, 0x02, 0x03]);
    assert_eq!(out, vec![0, 0, 0, 1, 0x61, 0x01, 0, 0, 0, 1, 0x65, 0x02, 0x03]);
}

#[test]
fn reassemble_h265_fu_annexb() {
    let mut r = FrameReassembler::new();
    r.set_codec(Codec::Hevc);
    let b0 = (49u8 << 1) & 0x7E;
    let b1 = 0x01;
    let fu_s = 0x80 | 19u8;
    let fu_m = 19u8;
    let p1 = build_rtp_with_seq(&[b0, b1, fu_s, 0xDE], false, 300);
    let p2 = build_rtp_with_seq(&[b0, b1, fu_m, 0xAD, 0xBE], true, 301);
    let pkt1 = RtpPacket::parse(&p1).unwrap();
    let pkt2 = RtpPacket::parse(&p2).unwrap();
    assert!(r.push_packet(&pkt1).is_none());
    let out = r.push_packet(&pkt2).expect("frame");
    assert!(out.starts_with(&[0, 0, 0, 1]));
    let new_b0 = out[4];
    assert_eq!((new_b0 & 0x7E) >> 1, 19);
    assert_eq!(&out[6..], &[0xDE, 0xAD, 0xBE]);
    assert_eq!(out, vec![0, 0, 0, 1, 0x26, 0x01, 0xDE, 0xAD, 0xBE]);
}

#[test]
fn reassemble_vp9_concat() {
    let mut r = FrameReassembler::new();
    r.set_codec(Codec::Vp9);
    let p1 = build_rtp_with_seq(&[0x80 | 0x08, 0x01, 0xAA], false, 400);
    let p2 = build_rtp_with_seq(&[0x04, 0xBB, 0xCC], true, 401);
    let pkt1 = RtpPacket::parse(&p1).unwrap();
    let pkt2 = RtpPacket::parse(&p2).unwrap();
    assert!(r.push_packet(&pkt1).is_none());
    let out = r.push_packet(&pkt2).expect("frame");
    assert_eq!(&out, &[0xAA, 0xBB, 0xCC]);
}

#[test]
fn reassemble_av1_concat() {
    let mut r = FrameReassembler::new();
    r.set_codec(Codec::Av1);
    let p1 = build_rtp_with_seq(&[0x04, 0xAA], false, 500);
    let p2 = build_rtp_with_seq(&[0x04, 0xBB, 0xCC], true, 501);
    let pkt1 = RtpPacket::parse(&p1).unwrap();
    let pkt2 = RtpPacket::parse(&p2).unwrap();
    assert!(r.push_packet(&pkt1).is_none());
    let out = r.push_packet(&pkt2).expect("frame");
    assert_eq!(&out, &[0xAA, 0xBB, 0xCC]);
}

#[test]
fn reorder_out_of_order_h264_fu() {
    let mut r = FrameReassembler::new();
    r.set_codec(Codec::Avc);
    let fu_mid = build_rtp_with_seq(&[0x7C, 0x05, 0x11], true, 610);
    let fu_start = build_rtp_with_seq(&[0x7C, 0x80 | 0x05, 0x22, 0x33], false, 609);
    let pkt_mid = RtpPacket::parse(&fu_mid).unwrap();
    let pkt_start = RtpPacket::parse(&fu_start).unwrap();
    assert!(r.push_packet(&pkt_mid).is_none());
    let out = r.push_packet(&pkt_start).expect("frame");
    assert!(out.starts_with(&[0, 0, 0, 1]));
    assert_eq!(out[4] & 0x1F, 0x05);
    assert_eq!(&out[5..], &[0x22, 0x33, 0x11]);
    assert_eq!(out, vec![0, 0, 0, 1, 0x65, 0x22, 0x33, 0x11]);
}

#[test]
fn drop_incomplete_on_gap() {
    let mut r = FrameReassembler::new();
    r.set_codec(Codec::Avc);
    let fu_start = build_rtp_with_seq(&[0x7C, 0x80 | 0x01, 0xAA], false, 700);
    let fu_end = build_rtp_with_seq(&[0x7C, 0x40 | 0x01, 0xBB], true, 702);
    let pkt_s = RtpPacket::parse(&fu_start).unwrap();
    let pkt_e = RtpPacket::parse(&fu_end).unwrap();
    assert!(r.push_packet(&pkt_s).is_none());
    assert!(r.push_packet(&pkt_e).is_none());
}

#[test]
fn reorder_out_of_order_vp9() {
    let mut r = FrameReassembler::new();
    r.set_codec(Codec::Vp9);
    let end_pkt = build_rtp_with_seq(&[0x04, 0xBB], true, 801);
    let start_pkt = build_rtp_with_seq(&[0x80 | 0x08, 0x01, 0xAA], false, 800);
    let pe = RtpPacket::parse(&end_pkt).unwrap();
    let ps = RtpPacket::parse(&start_pkt).unwrap();
    assert!(r.push_packet(&pe).is_none());
    let out = r.push_packet(&ps).expect("frame");
    assert_eq!(&out, &[0xAA, 0xBB]);
}

#[test]
fn gap_kept_when_not_dropping() {
    let mut r = FrameReassembler::new();
    r.set_codec(Codec::Avc);
    r.set_reorder_config(ReorderConfig {
        enable_reordering: true,
        drop_incomplete_frames: false,
        max_buffered_packets_per_frame: 2048,
    });
    let s = build_rtp_with_seq(&[0x7C, 0x81, 0xAA], false, 700);
    let e = build_rtp_with_seq(&[0x7C, 0x41, 0xBB], true, 702);
    assert!(r.push_packet(&RtpPacket::parse(&s).unwrap()).is_none());
    let out = r.push_packet(&RtpPacket::parse(&e).unwrap()).expect("frame");
    assert_eq!(out, vec![0, 0, 0, 1, 0x61, 0xAA, 0xBB]);
}

#[test]
fn missing_fragment_start_is_dropped() {
    let mut r = FrameReassembler::new();
    r.set_codec(Codec::Avc);
    // A single slice makes the frame ready, but the fragment after it has no start.
    let a = build_rtp_with_seq(&[0x65, 0x01], false, 10);
    let b = build_rtp_with_seq(&[0x7C, 0x45, 0x02], true, 11);
    assert!(r.push_packet(&RtpPacket::parse(&a).unwrap()).is_none());
    assert!(r.push_packet(&RtpPacket::parse(&b).unwrap()).is_none());
    assert_eq!(r.codec(), Some(Codec::Avc));
}

#[test]
fn frame_across_sequence_wrap_is_dropped() {
    let mut r = FrameReassembler::new();
    r.set_codec(Codec::Unknown);
    let a = build_rtp_with_seq(&[0x01], false, 0xFFFF);
    let b = build_rtp_with_seq(&[0x02], true, 0x0000);
    assert!(r.push_packet(&RtpPacket::parse(&a).unwrap()).is_none());
    // Ascending numeric order: 0x0000 first. The two numbers differ by 0xFFFF: a gap.
    assert!(r.push_packet(&RtpPacket::parse(&b).unwrap()).is_none());
    let c = build_rtp_with_seq(&[0x03], false, 0x0001);
    let d = build_rtp_with_seq(&[0x04], true, 0x0002);
    assert!(r.push_packet(&RtpPacket::parse(&c).unwrap()).is_none());
    assert_eq!(r.push_packet(&RtpPacket::parse(&d).unwrap()), Some(vec![0x03, 0x04]));
}

#[test]
fn duplicate_packet_changes_nothing() {
    let mut once = FrameReassembler::new();
    once.set_codec(Codec::Avc);
    let mut twice = FrameReassembler::new();
    twice.set_codec(Codec::Avc);
    let s = build_rtp_with_seq(&[0x7C, 0x85, 0xAA, 0xBB], false, 100);
    let e = build_rtp_with_seq(&[0x7C, 0x45, 0xCC], true, 101);
    assert!(once.push_packet(&RtpPacket::parse(&s).unwrap()).is_none());
    assert!(twice.push_packet(&RtpPacket::parse(&s).unwrap()).is_none());
    assert!(twice.push_packet(&RtpPacket::parse(&s).unwrap()).is_none());
    let a = once.push_packet(&RtpPacket::parse(&e).unwrap());
    let b = twice.push_packet(&RtpPacket::parse(&e).unwrap());
    assert_eq!(a, b);
    assert_eq!(a, Some(vec![0, 0, 0, 1, 0x65, 0xAA, 0xBB, 0xCC]));
}

#[test]
fn new_source_discards_buffered_frames() {
    let mut r = FrameReassembler::new();
    r.set_codec(Codec::Av1);
    let old = build_rtp_full(&[0x04, 0x11], false, 5, 90, 1);
    assert!(r.push_packet(&RtpPacket::parse(&old).unwrap()).is_none());
    let new_first = build_rtp_full(&[0x04, 0x22], false, 6, 90, 2);
    let new_last = build_rtp_full(&[0x04, 0x33], true, 7, 90, 2);
    assert!(r.push_packet(&RtpPacket::parse(&new_first).unwrap()).is_none());
    assert_eq!(r.push_packet(&RtpPacket::parse(&new_last).unwrap()), Some(vec![0x22, 0x33]));
    assert_eq!(r.codec(), Some(Codec::Av1));
}

#[test]
fn same_source_keeps_frames_apart_by_timestamp() {
    let mut r = FrameReassembler::new();
    r.set_codec(Codec::Unknown);
    let a1 = build_rtp_full(&[0xA1], false, 1, 1000, 7);
    let b1 = build_rtp_full(&[0xB1], false, 3, 2000, 7);
    let a2 = build_rtp_full(&[0xA2], true, 2, 1000, 7);
    let b2 = build_rtp_full(&[0xB2], true, 4, 2000, 7);
    assert!(r.push_packet(&RtpPacket::parse(&a1).unwrap()).is_none());
    assert!(r.push_packet(&RtpPacket::parse(&b1).unwrap()).is_none());
    assert_eq!(r.push_packet(&RtpPacket::parse(&a2).unwrap()), Some(vec![0xA1, 0xA2]));
    assert_eq!(r.push_packet(&RtpPacket::parse(&b2).unwrap()), Some(vec![0xB1, 0xB2]));
}

#[test]
fn codec_guessed_from_first_packet() {
    let mut r = FrameReassembler::new();
    assert_eq!(r.codec(), None);
    let p = build_rtp_with_seq(&[0x65, 0x88, 0x99], true, 1);
    let out = r.push_packet(&RtpPacket::parse(&p).unwrap());
    assert_eq!(r.codec(), Some(Codec::Avc));
    assert_eq!(out, Some(vec![0, 0, 0, 1, 0x65, 0x88, 0x99]));
}

#[test]
fn hevc_aggregation_and_single() {
    let mut r = FrameReassembler::new();
    r.set_codec(Codec::Hevc);
    let ap = [48u8 << 1, 0x01, 0x00, 0x02, 0x40, 0x01, 0x00, 0x03, 0x26, 0x01, 0xAF, 0x00, 0x09];
    let p = build_rtp_with_seq(&ap, true, 50);
    let out = r.push_packet(&RtpPacket::parse(&p).unwrap()).expect("frame");
    assert_eq!(out, vec![0, 0, 0, 1, 0x40, 0x01, 0, 0, 0, 1, 0x26, 0x01, 0xAF]);
    let single = build_rtp_with_seq(&[0x26, 0x01, 0x55], true, 51);
    let out = r.push_packet(&RtpPacket::parse(&single).unwrap()).expect("frame");
    assert_eq!(out, vec![0, 0, 0, 1, 0x26, 0x01, 0x55]);
}

#[test]
fn avc_best_effort_kinds_and_raw() {
    let mut r = FrameReassembler::new();
    r.set_codec(Codec::Avc);
    r.set_reorder_config(ReorderConfig {
        enable_reordering: false,
        drop_incomplete_frames: false,
        max_buffered_packets_per_frame: 2048,
    });
    let stap_b = build_rtp_with_seq(&[0x19, 0x01], false, 1);
    let raw = build_rtp_with_seq(&[0x7C], true, 2);
    assert!(r.push_packet(&RtpPacket::parse(&stap_b).unwrap()).is_none());
    let out = r.push_packet(&RtpPacket::parse(&raw).unwrap()).expect("frame");
    assert_eq!(out, vec![0, 0, 0, 1, 0x19, 0x01, 0x7C]);
}

#[test]
fn vp9_waits_for_start_bit() {
    let mut r = FrameReassembler::new();
    r.set_codec(Codec::Vp9);
    let mid = build_rtp_with_seq(&[0x00, 0x02], false, 11);
    let end = build_rtp_with_seq(&[0x04, 0x03], true, 12);
    let start = build_rtp_with_seq(&[0x88, 0x05, 0x01], false, 10);
    assert!(r.push_packet(&RtpPacket::parse(&mid).unwrap()).is_none());
    assert!(r.push_packet(&RtpPacket::parse(&end).unwrap()).is_none());
    let out = r.push_packet(&RtpPacket::parse(&start).unwrap()).expect("frame");
    assert_eq!(out, vec![0x01, 0x02, 0x03]);
}

#[test]
fn oversized_frame_is_emptied() {
    let mut r = FrameReassembler::new();
    r.set_codec(Codec::Unknown);
    r.set_reorder_config(ReorderConfig {
        enable_reordering: true,
        drop_incomplete_frames: true,
        max_buffered_packets_per_frame: 2,
    });
    let a = build_rtp_with_seq(&[0x0A], false, 1);
    let b = build_rtp_with_seq(&[0x0B], false, 2);
    let c = build_rtp_with_seq(&[0x0C], true, 3);
    assert!(r.push_packet(&RtpPacket::parse(&a).unwrap()).is_none());
    assert!(r.push_packet(&RtpPacket::parse(&b).unwrap()).is_none());
    assert_eq!(r.push_packet(&RtpPacket::parse(&c).unwrap()), Some(vec![0x0C]));
}

#[test]
fn default_config_values() {
    let cfg = ReorderConfig::default();
    assert!(cfg.enable_reordering);
    assert!(cfg.drop_incomplete_frames);
    assert_eq!(cfg.max_buffered_packets_per_frame, 2048);
}
