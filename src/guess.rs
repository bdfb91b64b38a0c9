//! Choosing a codec from the first bytes of a payload.
use vstd::prelude::*;
use crate::codecs::Codec;
use crate::codecs::hevc::hevc_type_of;

verus! {

/// The codec that a payload most likely carries, by the first rule that applies:
/// an HEVC fragment with its start or end bit, then AV1 by its reserved bits,
/// then AVC by NAL type and importance bits, else VP9.
pub open spec fn guessed_codec(p: Seq<u8>) -> Codec {
    if p.len() == 0 {
        Codec::Unknown
    } else if p.len() >= 3 && hevc_type_of(p[0]) == 49 && (p[2] & 0x80 != 0 || p[2] & 0x40 != 0) {
        Codec::Hevc
    } else if p[0] & 0x03 == 0 {
        Codec::Av1
    } else if 24 <= p[0] & 0x1F <= 29 && p.len() >= 2 && p[0] & 0x60 != 0 {
        Codec::Avc
    } else if 1 <= p[0] & 0x1F <= 23 && p[0] & 0x60 != 0 {
        Codec::Avc
    } else {
        Codec::Vp9
    }
}

pub fn guess_codec(payload: &[u8]) -> (r: Codec)
    ensures
        r == guessed_codec(payload@),
{
    if payload.len() == 0 {
        return Codec::Unknown;
    }
    let b0 = payload[0];
    if payload.len() >= 3 {
        let hevc_type = (b0 & 0x7E) >> 1;
        if hevc_type == 49 {
            let fu_hdr = payload[2];
            if (fu_hdr & 0x80) != 0 || (fu_hdr & 0x40) != 0 {
                return Codec::Hevc;
            }
        }
    }
    if (b0 & 0x03) == 0 {
        return Codec::Av1;
    }
    let avc_type = b0 & 0x1F;
    let avc_nri_nonzero = (b0 & 0x60) != 0;
    if 24 <= avc_type && avc_type <= 29 {
        if payload.len() >= 2 && avc_nri_nonzero {
            return Codec::Avc;
        }
    } else if 1 <= avc_type && avc_type <= 23 && avc_nri_nonzero {
        return Codec::Avc;
    }
    Codec::Vp9
}

} // verus!
