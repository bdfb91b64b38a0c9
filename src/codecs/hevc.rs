//! Payload headers of the HEVC packetization format.
use vstd::prelude::*;

verus! {

/// What an HEVC payload carries, as told by its first bytes.
#[derive(Debug, Clone, Copy, PartialEq, Eq, Structural)]
pub enum HevcNalKind {
    /// A single NAL unit of the given 6-bit type.
    Single { nal_type: u8 },
    /// Aggregation packet (48).
    Ap,
    /// Fragmentation unit (49).
    Fu { start: bool, end: bool, nal_type: u8 },
    /// Payload content scalability information (50).
    Pacsi,
    /// A type outside the 6-bit range; never produced from a well-formed header byte.
    Unknown(u8),
}

#[derive(Debug, Clone, Copy, PartialEq, Eq, Structural)]
pub enum HevcError {
    BufferTooShort,
}

/// The NAL types that carry coded slice data.
pub open spec fn is_hevc_vcl(nal_type: u8) -> bool {
    nal_type <= 31
}

/// The 6-bit NAL type of the first header byte.
pub open spec fn hevc_type_of(b0: u8) -> u8 {
    (b0 & 0x7E) >> 1
}

/// The decoding of an HEVC payload header: its kind and the number of framing bytes.
pub open spec fn hevc_header(p: Seq<u8>) -> Result<(HevcNalKind, usize), HevcError> {
    if p.len() < 2 {
        Err(HevcError::BufferTooShort)
    } else {
        let t = hevc_type_of(p[0]);
        if t == 48 {
            Ok((HevcNalKind::Ap, 2))
        } else if t == 49 {
            if p.len() < 3 {
                Err(HevcError::BufferTooShort)
            } else {
                let h = p[2];
                Ok((HevcNalKind::Fu { start: h & 0x80 != 0, end: h & 0x40 != 0, nal_type: h & 0x3F }, 3))
            }
        } else if t == 50 {
            Ok((HevcNalKind::Pacsi, 2))
        } else if t <= 63 {
            Ok((HevcNalKind::Single { nal_type: t }, 0))
        } else {
            Ok((HevcNalKind::Unknown(t), 0))
        }
    }
}

pub fn hevc_vcl_type(nal_type: u8) -> (r: bool)
    ensures
        r == is_hevc_vcl(nal_type),
{
    nal_type <= 31
}

pub fn parse_hevc_payload_header(payload: &[u8]) -> (r: Result<(HevcNalKind, usize), HevcError>)
    ensures
        r == hevc_header(payload@),
{
    if payload.len() < 2 {
        return Err(HevcError::BufferTooShort);
    }
    let b0 = payload[0];
    let nal_type = (b0 & 0x7E) >> 1;
    if nal_type == 48 {
        Ok((HevcNalKind::Ap, 2))
    } else if nal_type == 49 {
        if payload.len() < 3 {
            return Err(HevcError::BufferTooShort);
        }
        let fu_header = payload[2];
        let start = (fu_header & 0x80) != 0;
        let end = (fu_header & 0x40) != 0;
        let orig_type = fu_header & 0x3F;
        Ok((HevcNalKind::Fu { start, end, nal_type: orig_type }, 3))
    } else if nal_type == 50 {
        Ok((HevcNalKind::Pacsi, 2))
    } else if nal_type <= 63 {
        Ok((HevcNalKind::Single { nal_type }, 0))
    } else {
        Ok((HevcNalKind::Unknown(nal_type), 0))
    }
}

} // verus!
