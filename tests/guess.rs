use rtp_frames::codecs::Codec;
use rtp_frames::guess::guess_codec;

#[test]
fn guess_avc_h264() {
    let payload = [0x65, 0x00, 0x00];
    assert_eq!(guess_codec(&payload), Codec::Avc);
}

#[test]
fn guess_hevc_h265_fu() {
    let payload = [(49u8 << 1) & 0x7E, 0x01, 0x80];
    assert_eq!(guess_codec(&payload), Codec::Hevc);
}

#[test]
fn guess_av1_vs_vp9() {
    let av1_payload = [0x04, 0xAA];
    let vp9_payload = [0x07, 0x80];
    assert_eq!(guess_codec(&av1_payload), Codec::Av1);
    assert_eq!(guess_codec(&vp9_payload), Codec::Vp9);
}

#[test]
fn guess_edge_cases() {
    assert_eq!(guess_codec(&[]), Codec::Unknown);
    // An aggregation indicator needs a second byte.
    assert_eq!(guess_codec(&[0x79]), Codec::Vp9);
    assert_eq!(guess_codec(&[0x79, 0x00]), Codec::Avc);
    // No importance bits: not AVC.
    assert_eq!(guess_codec(&[0x05]), Codec::Vp9);
    // An HEVC fragment without start or end bit falls through to the later rules, here AVC.
    assert_eq!(guess_codec(&[0x62, 0x01, 0x13]), Codec::Avc);
}
