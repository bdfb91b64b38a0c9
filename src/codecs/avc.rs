//! Payload headers of the AVC packetization format.
use vstd::prelude::*;

verus! {

/// What an AVC payload carries, as told by its first bytes.
#[derive(Debug, Clone, Copy, PartialEq, Eq, Structural)]
pub enum AvcNalKind {
    /// A single NAL unit of the given type (1 to 23).
    Single(u8),
    /// Single-time aggregation packet, type A (24).
    StapA,
    /// Single-time aggregation packet, type B (25).
    StapB,
    /// Multi-time aggregation packet with 16-bit offsets (26).
    Mtap16,
    /// Multi-time aggregation packet with 24-bit offsets (27).
    Mtap24,
    /// Fragmentation unit, type A (28).
    FuA { start: bool, end: bool, nal_type: u8 },
    /// Fragmentation unit, type B (29).
    FuB { start: bool, end: bool, nal_type: u8 },
    /// Any other NAL type.
    Unknown(u8),
}

#[derive(Debug, Clone, Copy, PartialEq, Eq, Structural)]
pub enum AvcError {
    BufferTooShort,
}

/// The NAL types that carry coded slice data.
pub open spec fn is_avc_vcl(nal_type: u8) -> bool {
    1 <= nal_type <= 5
}

/// The decoding of an AVC payload header: its kind and the number of framing bytes.
pub open spec fn avc_header(p: Seq<u8>) -> Result<(AvcNalKind, usize), AvcError> {
    if p.len() == 0 {
        Err(AvcError::BufferTooShort)
    } else {
        let t = p[0] & 0x1F;
        if 1 <= t <= 23 {
            Ok((AvcNalKind::Single(t), 0))
        } else if t == 24 {
            Ok((AvcNalKind::StapA, 1))
        } else if t == 25 {
            Ok((AvcNalKind::StapB, 1))
        } else if t == 26 {
            Ok((AvcNalKind::Mtap16, 1))
        } else if t == 27 {
            Ok((AvcNalKind::Mtap24, 1))
        } else if t == 28 || t == 29 {
            if p.len() < 2 {
                Err(AvcError::BufferTooShort)
            } else {
                let h = p[1];
                let start = h & 0x80 != 0;
                let end = h & 0x40 != 0;
                let nal_type = h & 0x1F;
                if t == 28 {
                    Ok((AvcNalKind::FuA { start, end, nal_type }, 2))
                } else {
                    Ok((AvcNalKind::FuB { start, end, nal_type }, 2))
                }
            }
        } else {
            Ok((AvcNalKind::Unknown(t), 0))
        }
    }
}

pub fn avc_vcl_type(nal_type: u8) -> (r: bool)
    ensures
        r == is_avc_vcl(nal_type),
{
    1 <= nal_type && nal_type <= 5
}

pub fn parse_avc_payload_header(payload: &[u8]) -> (r: Result<(AvcNalKind, usize), AvcError>)
    ensures
        r == avc_header(payload@),
{
    if payload.len() == 0 {
        return Err(AvcError::BufferTooShort);
    }
    let indicator = payload[0];
    let nal_type = indicator & 0x1F;
    if 1 <= nal_type && nal_type <= 23 {
        Ok((AvcNalKind::Single(nal_type), 0))
    } else if nal_type == 24 {
        Ok((AvcNalKind::StapA, 1))
    } else if nal_type == 25 {
        Ok((AvcNalKind::StapB, 1))
    } else if nal_type == 26 {
        Ok((AvcNalKind::Mtap16, 1))
    } else if nal_type == 27 {
        Ok((AvcNalKind::Mtap24, 1))
    } else if nal_type == 28 || nal_type == 29 {
        if payload.len() < 2 {
            return Err(AvcError::BufferTooShort);
        }
        let fu_header = payload[1];
        let start = (fu_header & 0x80) != 0;
        let end = (fu_header & 0x40) != 0;
        let nt = fu_header & 0x1F;
        let kind = if nal_type == 28 {
            AvcNalKind::FuA { start, end, nal_type: nt }
        } else {
            AvcNalKind::FuB { start, end, nal_type: nt }
        };
        Ok((kind, 2))
    } else {
        Ok((AvcNalKind::Unknown(nal_type), 0))
    }
}

} // verus!
