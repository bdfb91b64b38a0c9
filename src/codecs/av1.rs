//! The AV1 aggregation header.
use vstd::prelude::*;

verus! {

/// The flags of the one-byte AV1 aggregation header.
#[derive(Debug, Clone, Copy, PartialEq, Eq, Default)]
pub struct Av1PayloadHdr {
    pub z_bit: bool,
    pub y_bit: bool,
    pub n_bit: bool,
    pub w_bit: bool,
    pub t_bit: bool,
    pub k_bit: bool,
}

#[derive(Debug, Clone, Copy, PartialEq, Eq, Structural)]
pub enum Av1Error {
    BufferTooShort,
}

/// The decoding of an AV1 aggregation header and the number of bytes it takes.
pub open spec fn av1_header(p: Seq<u8>) -> Result<(Av1PayloadHdr, usize), Av1Error> {
    if p.len() == 0 {
        Err(Av1Error::BufferTooShort)
    } else {
        let b0 = p[0];
        Ok((
            Av1PayloadHdr {
                z_bit: b0 & 0x80 != 0,
                y_bit: b0 & 0x40 != 0,
                n_bit: b0 & 0x20 != 0,
                w_bit: b0 & 0x10 != 0,
                t_bit: b0 & 0x08 != 0,
                k_bit: b0 & 0x04 != 0,
            },
            1,
        ))
    }
}

pub fn parse_av1_payload_header(payload: &[u8]) -> (r: Result<(Av1PayloadHdr, usize), Av1Error>)
    ensures
        r == av1_header(payload@),
{
    if payload.len() == 0 {
        return Err(Av1Error::BufferTooShort);
    }
    let b0 = payload[0];
    let hdr = Av1PayloadHdr {
        z_bit: (b0 & 0x80) != 0,
        y_bit: (b0 & 0x40) != 0,
        n_bit: (b0 & 0x20) != 0,
        w_bit: (b0 & 0x10) != 0,
        t_bit: (b0 & 0x08) != 0,
        k_bit: (b0 & 0x04) != 0,
    };
    Ok((hdr, 1))
}

} // verus!
