//! The VP9 payload descriptor.
use vstd::prelude::*;

verus! {

/// The flag byte of a VP9 payload descriptor, with its picture identifier when present.
#[derive(Debug, Clone, Copy, PartialEq, Eq, Default)]
pub struct Vp9PayloadDesc {
    pub i_bit: bool,
    pub p_bit: bool,
    pub l_bit: bool,
    pub f_bit: bool,
    pub b_bit: bool,
    pub e_bit: bool,
    pub v_bit: bool,
    pub z_bit: bool,
    pub picture_id: Option<u16>,
}

#[derive(Debug, Clone, Copy, PartialEq, Eq, Structural)]
pub enum Vp9Error {
    BufferTooShort,
}

/// The flags of the first descriptor byte, high bit first.
pub open spec fn vp9_flags(b0: u8, picture_id: Option<u16>) -> Vp9PayloadDesc {
    Vp9PayloadDesc {
        i_bit: b0 & 0x80 != 0,
        p_bit: b0 & 0x40 != 0,
        l_bit: b0 & 0x20 != 0,
        f_bit: b0 & 0x10 != 0,
        b_bit: b0 & 0x08 != 0,
        e_bit: b0 & 0x04 != 0,
        v_bit: b0 & 0x02 != 0,
        z_bit: b0 & 0x01 != 0,
        picture_id,
    }
}

/// The decoding of a VP9 payload descriptor and the number of bytes it takes.
pub open spec fn vp9_descriptor(p: Seq<u8>) -> Result<(Vp9PayloadDesc, usize), Vp9Error> {
    if p.len() == 0 {
        Err(Vp9Error::BufferTooShort)
    } else if p[0] & 0x80 == 0 {
        Ok((vp9_flags(p[0], None), 1))
    } else if p.len() < 2 {
        Err(Vp9Error::BufferTooShort)
    } else if p[1] & 0x80 == 0 {
        Ok((vp9_flags(p[0], Some((p[1] & 0x7F) as u16)), 2))
    } else if p.len() < 3 {
        Err(Vp9Error::BufferTooShort)
    } else {
        Ok((vp9_flags(p[0], Some((((p[1] & 0x7F) as u16) * 256 + p[2] as u16) as u16)), 3))
    }
}

impl Vp9PayloadDesc {
    pub fn parse(buf: &[u8]) -> (r: Result<(Self, usize), Vp9Error>)
        ensures
            r == vp9_descriptor(buf@),
    {
        if buf.len() == 0 {
            return Err(Vp9Error::BufferTooShort);
        }
        let b0 = buf[0];
        let i_bit = (b0 & 0x80) != 0;
        let p_bit = (b0 & 0x40) != 0;
        let l_bit = (b0 & 0x20) != 0;
        let f_bit = (b0 & 0x10) != 0;
        let b_bit = (b0 & 0x08) != 0;
        let e_bit = (b0 & 0x04) != 0;
        let v_bit = (b0 & 0x02) != 0;
        let z_bit = (b0 & 0x01) != 0;
        let mut offset: usize = 1;
        let mut picture_id = None;
        if i_bit {
            if buf.len() < offset + 1 {
                return Err(Vp9Error::BufferTooShort);
            }
            let b = buf[offset];
            assert(b & 0x7F <= 127u8) by (bit_vector);
            let m = (b & 0x80) != 0;
            let mut pid: u16 = (b & 0x7F) as u16;
            offset += 1;
            if m {
                if buf.len() < offset + 1 {
                    return Err(Vp9Error::BufferTooShort);
                }
                let lo = buf[offset];
                assert(pid < 128);
                assert((pid << 8u16) | (lo as u16) == (pid * 256 + lo as u16) as u16) by (bit_vector)
                    requires
                        pid < 128,
                ;
                pid = (pid << 8) | lo as u16;
                offset += 1;
            }
            picture_id = Some(pid);
        }
        Ok((Self { i_bit, p_bit, l_bit, f_bit, b_bit, e_bit, v_bit, z_bit, picture_id }, offset))
    }
}

} // verus!
