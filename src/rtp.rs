//! The transport packet parser.
use vstd::prelude::*;

verus! {

/// The fixed header of a transport packet, with its contributing sources and extension.
#[derive(Debug, Clone, PartialEq, Eq)]
pub struct RtpHeader {
    pub version: u8,
    pub padding: bool,
    pub extension: bool,
    pub csrc_count: u8,
    pub marker: bool,
    pub payload_type: u8,
    pub sequence_number: u16,
    pub timestamp: u32,
    pub ssrc: u32,
    pub csrcs: Vec<u32>,
    pub extension_header: Option<RtpExtension>,
}

/// Where the header extension's data lies within the input buffer.
#[derive(Debug, Clone, Copy, PartialEq, Eq, Structural)]
pub struct RtpExtension {
    pub profile: u16,
    pub length_words: u16,
    pub data_offset: usize,
    pub data_len: usize,
}

/// A parsed packet: its header and a view of its payload within the input buffer.
#[derive(Debug, Clone, PartialEq, Eq)]
pub struct RtpPacket<'a> {
    pub header: RtpHeader,
    pub payload_offset: usize,
    pub payload: &'a [u8],
}

#[derive(Debug, Clone, Copy, PartialEq, Eq, Structural)]
pub enum RtpError {
    BufferTooShort,
    InvalidVersion(u8),
    InvalidExtensionLength,
}

/// A big-endian 16-bit integer.
pub open spec fn be16(hi: u8, lo: u8) -> u16 {
    (hi as int * 256 + lo as int) as u16
}

/// The big-endian 32-bit integer at offset `i`.
pub open spec fn be32_at(b: Seq<u8>, i: int) -> u32 {
    (b[i] as int * 0x1000000 + b[i + 1] as int * 0x10000 + b[i + 2] as int * 0x100 + b[i + 3] as int) as u32
}

pub open spec fn version_of(b: Seq<u8>) -> u8 {
    (b[0] >> 6) & 0x03
}

pub open spec fn padding_flag(b: Seq<u8>) -> bool {
    (b[0] >> 5) & 0x01 != 0
}

pub open spec fn extension_flag(b: Seq<u8>) -> bool {
    (b[0] >> 4) & 0x01 != 0
}

pub open spec fn csrc_count_of(b: Seq<u8>) -> u8 {
    b[0] & 0x0F
}

/// The offset just past the contributing-source list.
pub open spec fn csrc_end(b: Seq<u8>) -> int {
    12 + 4 * csrc_count_of(b) as int
}

/// The extension length, in 32-bit words, when the extension header is present.
pub open spec fn extension_words(b: Seq<u8>) -> u16 {
    be16(b[csrc_end(b) + 2], b[csrc_end(b) + 3])
}

/// The offset at which the payload starts.
pub open spec fn payload_start(b: Seq<u8>) -> int {
    if extension_flag(b) {
        csrc_end(b) + 4 + 4 * extension_words(b) as int
    } else {
        csrc_end(b)
    }
}

/// The offset at which the payload ends: before the padding, when there is padding.
pub open spec fn payload_end(b: Seq<u8>) -> int {
    if padding_flag(b) {
        b.len() - b.last() as int
    } else {
        b.len() as int
    }
}

/// The error that parsing reports on a buffer, if any: the first check that fails.
pub open spec fn parse_error(b: Seq<u8>) -> Option<RtpError> {
    if b.len() < 12 {
        Some(RtpError::BufferTooShort)
    } else if version_of(b) != 2 {
        Some(RtpError::InvalidVersion(version_of(b)))
    } else if b.len() < csrc_end(b) {
        Some(RtpError::BufferTooShort)
    } else if extension_flag(b) && b.len() < csrc_end(b) + 4 {
        Some(RtpError::BufferTooShort)
    } else if extension_flag(b) && b.len() < payload_start(b) {
        Some(RtpError::InvalidExtensionLength)
    } else if padding_flag(b) && (b.len() <= payload_start(b) || b.last() == 0 || b.last() > b.len()
        - payload_start(b)) {
        Some(RtpError::BufferTooShort)
    } else {
        None
    }
}

/// The header fields that a well-formed buffer encodes.
pub open spec fn header_decodes(h: RtpHeader, b: Seq<u8>) -> bool {
    &&& h.version == version_of(b)
    &&& h.padding == padding_flag(b)
    &&& h.extension == extension_flag(b)
    &&& h.csrc_count == csrc_count_of(b)
    &&& h.marker == (b[1] & 0x80 != 0)
    &&& h.payload_type == b[1] & 0x7F
    &&& h.sequence_number == be16(b[2], b[3])
    &&& h.timestamp == be32_at(b, 4)
    &&& h.ssrc == be32_at(b, 8)
    &&& h.csrcs@ == Seq::new(csrc_count_of(b) as nat, |i: int| be32_at(b, 12 + 4 * i))
    &&& h.extension_header == if extension_flag(b) {
        Some(
            RtpExtension {
                profile: be16(b[csrc_end(b)], b[csrc_end(b) + 1]),
                length_words: extension_words(b),
                data_offset: (csrc_end(b) + 4) as usize,
                data_len: (4 * extension_words(b) as int) as usize,
            },
        )
    } else {
        None
    }
}

/// The four big-endian bytes of a 32-bit integer.
pub open spec fn be32_bytes(x: u32) -> Seq<u8> {
    seq![(x / 0x1000000) as u8, ((x / 0x10000) % 0x100) as u8, ((x / 0x100) % 0x100) as u8, (x % 0x100) as u8]
}

/// The bytes of a packet of version 2 with neither padding nor extension.
pub open spec fn serialize_plain(
    marker: bool,
    payload_type: u8,
    sequence_number: u16,
    timestamp: u32,
    ssrc: u32,
    csrcs: Seq<u32>,
    payload: Seq<u8>,
) -> Seq<u8> {
    seq![
        (0x80 + csrcs.len()) as u8,
        ((if marker { 0x80int } else { 0int }) + payload_type) as u8,
        (sequence_number / 0x100) as u8,
        (sequence_number % 0x100) as u8,
    ] + be32_bytes(timestamp) + be32_bytes(ssrc) + Seq::new(
        4 * csrcs.len(),
        |j: int| be32_bytes(csrcs[j / 4])[j % 4],
    ) + payload
}

proof fn lemma_be32_bytes(x: u32)
    ensures
        be32_at(be32_bytes(x), 0) == x,
{
    let s = be32_bytes(x);
    assert(s[0] as int * 0x1000000 + s[1] as int * 0x10000 + s[2] as int * 0x100 + s[3] as int
        == x as int) by (nonlinear_arith)
        requires
            s[0] as int == x as int / 0x1000000,
            s[1] as int == (x as int / 0x10000) % 0x100,
            s[2] as int == (x as int / 0x100) % 0x100,
            s[3] as int == x as int % 0x100,
            0 <= x < 0x100000000,
    ;
}

/// Parsing the bytes of a packet of version 2 with neither padding nor extension gives back
/// every header field and the payload byte for byte.
pub proof fn lemma_parse_round_trip(
    marker: bool,
    payload_type: u8,
    sequence_number: u16,
    timestamp: u32,
    ssrc: u32,
    csrcs: Seq<u32>,
    payload: Seq<u8>,
)
    requires
        payload_type < 0x80,
        csrcs.len() <= 15,
    ensures
        ({
            let b = serialize_plain(marker, payload_type, sequence_number, timestamp, ssrc, csrcs, payload);
            &&& parse_error(b) is None
            &&& version_of(b) == 2
            &&& !padding_flag(b)
            &&& !extension_flag(b)
            &&& csrc_count_of(b) == csrcs.len()
            &&& (b[1] & 0x80 != 0) == marker
            &&& b[1] & 0x7F == payload_type
            &&& be16(b[2], b[3]) == sequence_number
            &&& be32_at(b, 4) == timestamp
            &&& be32_at(b, 8) == ssrc
            &&& Seq::new(csrc_count_of(b) as nat, |i: int| be32_at(b, 12 + 4 * i)) == csrcs
            &&& b.subrange(payload_start(b), payload_end(b)) == payload
        }),
{
    let b = serialize_plain(marker, payload_type, sequence_number, timestamp, ssrc, csrcs, payload);
    let cc = csrcs.len() as u8;
    let b0 = b[0];
    let b1 = b[1];
    assert(b0 == 0x80u8 + cc);
    assert((b0 >> 6) & 0x03 == 2 && (b0 >> 5) & 0x01 == 0 && (b0 >> 4) & 0x01 == 0 && b0 & 0x0F
        == cc) by (bit_vector)
        requires
            b0 == 0x80u8 + cc,
            cc <= 15,
    ;
    if marker {
        assert(b1 == 0x80u8 + payload_type);
        assert(b1 & 0x80 != 0 && b1 & 0x7F == payload_type) by (bit_vector)
            requires
                b1 == 0x80u8 + payload_type,
                payload_type < 0x80,
        ;
    } else {
        assert(b1 == payload_type);
        assert(b1 & 0x80 == 0 && b1 & 0x7F == payload_type) by (bit_vector)
            requires
                b1 == payload_type,
                payload_type < 0x80,
        ;
    }
    let n = 12 + 4 * csrcs.len();
    assert(b.len() == n + payload.len());
    assert(csrc_end(b) == n);
    assert(be16(b[2], b[3]) == sequence_number);
    lemma_be32_bytes(timestamp);
    lemma_be32_bytes(ssrc);
    assert(be32_at(b, 4) == be32_at(be32_bytes(timestamp), 0));
    assert(be32_at(b, 8) == be32_at(be32_bytes(ssrc), 0));
    assert forall|i: int| 0 <= i < csrcs.len() implies be32_at(b, 12 + 4 * i) == csrcs[i] by {
        lemma_be32_bytes(csrcs[i]);
        assert((4 * i) / 4 == i && (4 * i + 1) / 4 == i && (4 * i + 2) / 4 == i && (4 * i + 3) / 4
            == i);
        assert((4 * i) % 4 == 0 && (4 * i + 1) % 4 == 1 && (4 * i + 2) % 4 == 2 && (4 * i + 3) % 4
            == 3);
        assert(be32_at(b, 12 + 4 * i) == be32_at(be32_bytes(csrcs[i]), 0));
    }
    assert(Seq::new(csrc_count_of(b) as nat, |i: int| be32_at(b, 12 + 4 * i)) =~= csrcs);
    assert(b.subrange(payload_start(b), payload_end(b)) =~= payload);
}

/// A buffer of at least the fixed header's length whose two version bits are not 2 is refused
/// with `InvalidVersion`, which carries those bits.
pub proof fn lemma_version_gate(b: Seq<u8>)
    requires
        b.len() >= 12,
        version_of(b) != 2,
    ensures
        parse_error(b) == Some(RtpError::InvalidVersion(version_of(b))),
{
}

/// When the header and extension are well formed and the last byte declares a padding length
/// `k` within the bytes after them, parsing succeeds and the payload is `k` bytes shorter than
/// those bytes.
pub proof fn lemma_padding_removed(b: Seq<u8>)
    requires
        b.len() >= 12,
        version_of(b) == 2,
        csrc_end(b) <= b.len(),
        extension_flag(b) ==> csrc_end(b) + 4 <= b.len() && payload_start(b) <= b.len(),
        padding_flag(b),
        1 <= b.last() <= b.len() - payload_start(b),
    ensures
        parse_error(b) is None,
        payload_end(b) - payload_start(b) == (b.len() - payload_start(b)) - b.last(),
{
}

fn read_be16(buf: &[u8], i: usize) -> (r: u16)
    requires
        i + 2 <= buf@.len(),
    ensures
        r == be16(buf@[i as int], buf@[i + 1]),
{
    (buf[i] as u16) * 256 + buf[i + 1] as u16
}

fn read_be32(buf: &[u8], i: usize) -> (r: u32)
    requires
        i + 4 <= buf@.len(),
    ensures
        r == be32_at(buf@, i as int),
{
    (buf[i] as u32) * 0x1000000 + (buf[i + 1] as u32) * 0x10000 + (buf[i + 2] as u32) * 0x100
        + buf[i + 3] as u32
}

impl<'a> RtpPacket<'a> {
    pub fn parse(buf: &'a [u8]) -> (r: Result<RtpPacket<'a>, RtpError>)
        ensures
            match r {
                Ok(p) => {
                    &&& parse_error(buf@) is None
                    &&& header_decodes(p.header, buf@)
                    &&& p.payload_offset == payload_start(buf@)
                    &&& p.payload@ == buf@.subrange(payload_start(buf@), payload_end(buf@))
                },
                Err(e) => parse_error(buf@) == Some(e),
            },
    {
        if buf.len() < 12 {
            return Err(RtpError::BufferTooShort);
        }
        let b0 = buf[0];
        let version = (b0 >> 6) & 0x03;
        if version != 2 {
            return Err(RtpError::InvalidVersion(version));
        }
        let padding = ((b0 >> 5) & 0x01) != 0;
        let extension = ((b0 >> 4) & 0x01) != 0;
        let csrc_count = b0 & 0x0F;
        assert(b0 & 0x0F <= 15u8) by (bit_vector);

        let b1 = buf[1];
        let marker = (b1 & 0x80) != 0;
        let payload_type = b1 & 0x7F;

        let sequence_number = read_be16(buf, 2);
        let timestamp = read_be32(buf, 4);
        let ssrc = read_be32(buf, 8);

        let mut offset: usize = 12;
        let mut csrcs: Vec<u32> = Vec::new();
        let mut k: u8 = 0;
        while k < csrc_count
            invariant
                buf@.len() >= 12,
                version_of(buf@) == 2,
                csrc_count == csrc_count_of(buf@),
                csrc_count <= 15,
                k <= csrc_count,
                offset == 12 + 4 * k,
                csrcs@ == Seq::new(k as nat, |i: int| be32_at(buf@, 12 + 4 * i)),
                offset <= buf@.len(),
            decreases csrc_count - k,
        {
            if buf.len() < offset + 4 {
                return Err(RtpError::BufferTooShort);
            }
            let word = read_be32(buf, offset);
            csrcs.push(word);
            offset += 4;
            k += 1;
            assert(csrcs@ =~= Seq::new(k as nat, |i: int| be32_at(buf@, 12 + 4 * i)));
        }

        let mut extension_header: Option<RtpExtension> = None;
        if extension {
            if buf.len() < offset + 4 {
                return Err(RtpError::BufferTooShort);
            }
            let profile = read_be16(buf, offset);
            let length_words = read_be16(buf, offset + 2);
            offset += 4;
            let ext_len_bytes = length_words as usize * 4;
            if buf.len() < offset + ext_len_bytes {
                return Err(RtpError::InvalidExtensionLength);
            }
            extension_header = Some(RtpExtension {
                profile,
                length_words,
                data_offset: offset,
                data_len: ext_len_bytes,
            });
            offset += ext_len_bytes;
        }

        let payload_end = if padding {
            if buf.len() <= offset {
                return Err(RtpError::BufferTooShort);
            }
            let pad = buf[buf.len() - 1] as usize;
            if pad == 0 || pad > buf.len() - offset {
                return Err(RtpError::BufferTooShort);
            }
            buf.len() - pad
        } else {
            buf.len()
        };

        let payload = &buf[offset..payload_end];
        Ok(RtpPacket {
            header: RtpHeader {
                version,
                padding,
                extension,
                csrc_count,
                marker,
                payload_type,
                sequence_number,
                timestamp,
                ssrc,
                csrcs,
                extension_header,
            },
            payload_offset: offset,
            payload,
        })
    }
}

} // verus!
