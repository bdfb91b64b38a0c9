//! The frame reassembler: buffers packets per frame, detects completion, and rebuilds each
//! frame's elementary-stream bytes.
use vstd::prelude::*;
use crate::analyze::{frame_boundary, FrameAnalyzer, FrameBoundary};
use crate::codecs::Codec;
use crate::codecs::av1::parse_av1_payload_header;
use crate::codecs::avc::{parse_avc_payload_header, AvcNalKind};
use crate::codecs::hevc::{parse_hevc_payload_header, HevcNalKind};
use crate::codecs::vp9::Vp9PayloadDesc;
use crate::collector::{
    ascending, collector_after, frame_ready, insert_packet, is_start_packet, lemma_insert_at, CollectorView,
};
use crate::frame_bytes::{
    aggregated_nals, assemble_prefix, assembled_frame, av1_strip, avc_append, has_gap, hevc_append, seq_step,
    start_code, vp9_strip,
};
use crate::guess::guessed_codec;
use crate::rtp::{be16, RtpPacket};

verus! {

/// How the reassembler treats reordering, gaps and oversized frames.
#[derive(Debug, Clone, Copy)]
pub struct ReorderConfig {
    /// Kept for callers; packets are always put in sequence order.
    pub enable_reordering: bool,
    /// Whether a frame with a missing packet or fragment start is dropped.
    pub drop_incomplete_frames: bool,
    /// A frame that holds this many packets is emptied before the next one is added.
    pub max_buffered_packets_per_frame: usize,
}

impl Default for ReorderConfig {
    fn default() -> (r: Self)
        ensures
            r.enable_reordering,
            r.drop_incomplete_frames,
            r.max_buffered_packets_per_frame == 2048,
    {
        ReorderConfig {
            enable_reordering: true,
            drop_incomplete_frames: true,
            max_buffered_packets_per_frame: 2048,
        }
    }
}

/// An owned copy of one packet's payload, under its sequence number.
#[derive(Debug)]
struct OwnedPkt {
    seq: u16,
    payload: Vec<u8>,
}

/// The packets of one frame, kept in ascending order of sequence number.
#[derive(Debug)]
struct FrameCollector {
    timestamp: u32,
    packets: Vec<OwnedPkt>,
    seen_marker: bool,
}

/// Reassembles the frames of one stream from its packets.
#[derive(Debug)]
pub struct FrameReassembler {
    analyzer: FrameAnalyzer,
    current_ssrc: Option<u32>,
    codec: Option<Codec>,
    frames: Vec<FrameCollector>,
    config: ReorderConfig,
}

/// Whether the analyzer is inside a frame after reporting `b`.
pub open spec fn in_frame_after(b: FrameBoundary) -> bool {
    b == FrameBoundary::NoBoundary || b == FrameBoundary::Start
}

/// The bytes of an optional frame.
pub open spec fn opt_bytes(r: Option<Vec<u8>>) -> Option<Seq<u8>> {
    match r {
        Some(v) => Some(v@),
        None => None,
    }
}

spec fn packets_view(v: Seq<OwnedPkt>) -> Seq<(u16, Seq<u8>)> {
    v.map_values(|p: OwnedPkt| (p.seq, p.payload@))
}

impl FrameCollector {
    spec fn cview(&self) -> CollectorView {
        CollectorView { packets: packets_view(self.packets@), seen_marker: self.seen_marker }
    }
}

spec fn has_ts(v: Seq<FrameCollector>, ts: u32) -> bool {
    exists|i: int| 0 <= i < v.len() && (#[trigger] v[i]).timestamp == ts
}

spec fn frames_view(v: Seq<FrameCollector>) -> Map<u32, CollectorView> {
    Map::new(
        |ts: u32| has_ts(v, ts),
        |ts: u32| v[choose|i: int| 0 <= i < v.len() && (#[trigger] v[i]).timestamp == ts].cview(),
    )
}

spec fn unique_ts(v: Seq<FrameCollector>) -> bool {
    forall|i: int, j: int|
        0 <= i < v.len() && 0 <= j < v.len() && i != j ==> (#[trigger] v[i]).timestamp != (#[trigger] v[j]).timestamp
}

proof fn lemma_frames_at(v: Seq<FrameCollector>, i: int)
    requires
        unique_ts(v),
        0 <= i < v.len(),
    ensures
        frames_view(v).contains_key(v[i].timestamp),
        frames_view(v)[v[i].timestamp] == v[i].cview(),
{
    let ts = v[i].timestamp;
    assert(has_ts(v, ts));
    let j = choose|j: int| 0 <= j < v.len() && (#[trigger] v[j]).timestamp == ts;
    assert(j == i);
}

proof fn lemma_frames_push(v: Seq<FrameCollector>, c: FrameCollector)
    requires
        unique_ts(v),
        !has_ts(v, c.timestamp),
    ensures
        unique_ts(v.push(c)),
        frames_view(v.push(c)) == frames_view(v).insert(c.timestamp, c.cview()),
{
    let w = v.push(c);
    assert(unique_ts(w)) by {
        assert forall|i: int, j: int|
            0 <= i < w.len() && 0 <= j < w.len() && i != j implies (#[trigger] w[i]).timestamp != (#[trigger] w[j]).timestamp by {
            if i == v.len() as int {
                assert(v[j] == w[j]);
            } else if j == v.len() as int {
                assert(v[i] == w[i]);
            }
        }
    }
    assert forall|ts: u32| #[trigger] has_ts(w, ts) == (has_ts(v, ts) || ts == c.timestamp) by {
        if has_ts(v, ts) {
            let i = choose|i: int| 0 <= i < v.len() && (#[trigger] v[i]).timestamp == ts;
            assert(w[i] == v[i]);
        }
        if ts == c.timestamp {
            assert(w[v.len() as int] == c);
        }
    }
    assert forall|ts: u32| #[trigger] frames_view(w).contains_key(ts) implies frames_view(w)[ts]
        == frames_view(v).insert(c.timestamp, c.cview())[ts] by {
        let i = choose|i: int| 0 <= i < w.len() && (#[trigger] w[i]).timestamp == ts;
        lemma_frames_at(w, i);
        if ts != c.timestamp {
            assert(w[i] == v[i]);
            lemma_frames_at(v, i);
        }
    }
    assert(frames_view(w) =~= frames_view(v).insert(c.timestamp, c.cview()));
}

proof fn lemma_frames_remove(v: Seq<FrameCollector>, i: int)
    requires
        unique_ts(v),
        0 <= i < v.len(),
    ensures
        unique_ts(v.remove(i)),
        !has_ts(v.remove(i), v[i].timestamp),
        frames_view(v.remove(i)) == frames_view(v).remove(v[i].timestamp),
{
    let w = v.remove(i);
    let ts0 = v[i].timestamp;
    assert forall|j: int| 0 <= j < w.len() implies #[trigger] w[j] == v[if j < i { j } else { j + 1 }] by {}
    assert(unique_ts(w)) by {
        assert forall|a: int, b: int|
            0 <= a < w.len() && 0 <= b < w.len() && a != b implies (#[trigger] w[a]).timestamp != (#[trigger] w[b]).timestamp by {
            let a2 = if a < i { a } else { a + 1 };
            let b2 = if b < i { b } else { b + 1 };
            assert(w[a] == v[a2] && w[b] == v[b2]);
        }
    }
    assert(!has_ts(w, ts0)) by {
        if has_ts(w, ts0) {
            let j = choose|j: int| 0 <= j < w.len() && (#[trigger] w[j]).timestamp == ts0;
            let j2 = if j < i { j } else { j + 1 };
            assert(w[j] == v[j2]);
        }
    }
    assert forall|ts: u32| #[trigger] has_ts(w, ts) == (has_ts(v, ts) && ts != ts0) by {
        if has_ts(w, ts) {
            let j = choose|j: int| 0 <= j < w.len() && (#[trigger] w[j]).timestamp == ts;
            let j2 = if j < i { j } else { j + 1 };
            assert(w[j] == v[j2]);
        }
        if has_ts(v, ts) && ts != ts0 {
            let j = choose|j: int| 0 <= j < v.len() && (#[trigger] v[j]).timestamp == ts;
            let j2 = if j < i { j } else { j - 1 };
            assert(w[j2] == v[j]);
        }
    }
    assert forall|ts: u32| #[trigger] frames_view(w).contains_key(ts) implies frames_view(w)[ts]
        == frames_view(v).remove(ts0)[ts] by {
        let j = choose|j: int| 0 <= j < w.len() && (#[trigger] w[j]).timestamp == ts;
        lemma_frames_at(w, j);
        let j2 = if j < i { j } else { j + 1 };
        assert(w[j] == v[j2]);
        lemma_frames_at(v, j2);
    }
    assert(frames_view(w) =~= frames_view(v).remove(ts0));
}

/// The packets of every buffered frame are held in strictly ascending order of sequence
/// number, and assembly emits their bytes in that order.
pub proof fn lemma_frames_in_sequence_order(r: &FrameReassembler, ts: u32)
    requires
        r.wf(),
        r.frames().contains_key(ts),
    ensures
        ascending(r.frames()[ts].packets),
        r.frames()[ts].packets.len() > 0,
{
    let i = choose|i: int| 0 <= i < r.frames@.len() && (#[trigger] r.frames@[i]).timestamp == ts;
    lemma_frames_at(r.frames@, i);
}

/// Appends `src[lo..hi]` to `out`.
fn append_slice(out: &mut Vec<u8>, src: &[u8], lo: usize, hi: usize)
    requires
        lo <= hi <= src@.len(),
    ensures
        final(out)@ == old(out)@ + src@.subrange(lo as int, hi as int),
{
    let mut i = lo;
    while i < hi
        invariant
            lo <= i <= hi <= src@.len(),
            out@ == old(out)@ + src@.subrange(lo as int, i as int),
        decreases hi - i,
    {
        out.push(src[i]);
        i += 1;
        assert(out@ =~= old(out)@ + src@.subrange(lo as int, i as int));
    }
}

fn write_start_code(buf: &mut Vec<u8>)
    ensures
        final(buf)@ == old(buf)@ + start_code(),
{
    buf.push(0);
    buf.push(0);
    buf.push(0);
    buf.push(1);
    assert(buf@ =~= old(buf)@ + start_code());
}

/// Appends the NAL units of an aggregation payload from offset `from` on, each after a start code.
fn append_aggregated(payload: &[u8], from: usize, out: &mut Vec<u8>)
    requires
        from <= payload@.len(),
    ensures
        final(out)@ == old(out)@ + aggregated_nals(payload@, from as int),
{
    let mut i = from;
    while payload.len() - i >= 2
        invariant
            from <= i <= payload@.len(),
            out@ + aggregated_nals(payload@, i as int) == old(out)@ + aggregated_nals(payload@, from as int),
        ensures
            out@ == old(out)@ + aggregated_nals(payload@, from as int),
        decreases payload@.len() - i,
    {
        let size = (payload[i] as u16 * 256 + payload[i + 1] as u16) as usize;
        assert(size == be16(payload@[i as int], payload@[i + 1]));
        let j = i + 2;
        if size > payload.len() - j {
            assert(aggregated_nals(payload@, i as int) == Seq::<u8>::empty());
            assert(out@ =~= out@ + Seq::<u8>::empty());
            break;
        }
        let ghost before = out@;
        write_start_code(out);
        append_slice(out, payload, j, j + size);
        assert(out@ + aggregated_nals(payload@, (j + size) as int) =~= before + aggregated_nals(payload@, i as int));
        i = j + size;
    }
}

impl FrameCollector {
    /// Adds a packet in order of sequence number, replacing one with an equal number.
    fn insert(&mut self, seq: u16, payload: Vec<u8>)
        requires
            ascending(old(self).cview().packets),
        ensures
            final(self).cview().packets == insert_packet(old(self).cview().packets, seq, payload@),
            ascending(final(self).cview().packets),
            final(self).timestamp == old(self).timestamp,
            final(self).seen_marker == old(self).seen_marker,
    {
        let ghost s = packets_view(self.packets@);
        let mut i: usize = 0;
        while i < self.packets.len() && self.packets[i].seq < seq
            invariant
                0 <= i <= self.packets@.len(),
                s == packets_view(self.packets@),
                forall|j: int| 0 <= j < i ==> (#[trigger] s[j]).0 < seq,
            decreases self.packets@.len() - i,
        {
            i += 1;
        }
        proof {
            lemma_insert_at(s, seq, payload@, i as int);
        }
        let ghost v = payload@;
        if i < self.packets.len() && self.packets[i].seq == seq {
            self.packets.remove(i);
            self.packets.insert(i, OwnedPkt { seq, payload });
            assert(packets_view(self.packets@) =~= s.update(i as int, (seq, v)));
        } else {
            self.packets.insert(i, OwnedPkt { seq, payload });
            assert(packets_view(self.packets@) =~= s.insert(i as int, (seq, v)));
        }
        let ghost t = packets_view(self.packets@);
        assert forall|a: int, b: int| 0 <= a < b < t.len() implies (#[trigger] t[a]).0 < (#[trigger] t[b]).0 by {
            if a < i && b > i {
                assert(s[a].0 < seq);
            }
        }
    }
}

impl FrameReassembler {
    fn append_avc_payload(payload: &[u8], out: &mut Vec<u8>, fu_open: &mut bool, incomplete: &mut bool)
        ensures
            ({
                let step = avc_append(payload@, *old(fu_open), *old(incomplete));
                &&& final(out)@ == old(out)@ + step.0
                &&& *final(fu_open) == step.1
                &&& *final(incomplete) == step.2
            }),
    {
        match parse_avc_payload_header(payload) {
            Ok((kind, off)) => match kind {
                AvcNalKind::Single(_) => {
                    write_start_code(out);
                    append_slice(out, payload, 0, payload.len());
                    assert(payload@.subrange(0, payload@.len() as int) =~= payload@);
                },
                AvcNalKind::StapA => {
                    append_aggregated(payload, 1, out);
                },
                AvcNalKind::FuA { start, nal_type, .. } | AvcNalKind::FuB { start, nal_type, .. } => {
                    if start {
                        let fu_indicator = payload[0];
                        let nal_hdr = (fu_indicator & 0xE0) | (nal_type & 0x1F);
                        write_start_code(out);
                        out.push(nal_hdr);
                        *fu_open = true;
                    } else if !*fu_open {
                        *incomplete = true;
                        assert(out@ =~= old(out)@ + Seq::<u8>::empty());
                        return;
                    }
                    append_slice(out, payload, off, payload.len());
                    assert(out@ =~= old(out)@ + avc_append(payload@, *old(fu_open), *old(incomplete)).0);
                },
                AvcNalKind::StapB | AvcNalKind::Mtap16 | AvcNalKind::Mtap24 | AvcNalKind::Unknown(_) => {
                    write_start_code(out);
                    append_slice(out, payload, 0, payload.len());
                    assert(payload@.subrange(0, payload@.len() as int) =~= payload@);
                },
            },
            Err(_) => {
                append_slice(out, payload, 0, payload.len());
                assert(payload@.subrange(0, payload@.len() as int) =~= payload@);
            },
        }
    }

    fn append_hevc_payload(payload: &[u8], out: &mut Vec<u8>, fu_open: &mut bool, incomplete: &mut bool)
        ensures
            ({
                let step = hevc_append(payload@, *old(fu_open), *old(incomplete));
                &&& final(out)@ == old(out)@ + step.0
                &&& *final(fu_open) == step.1
                &&& *final(incomplete) == step.2
            }),
    {
        match parse_hevc_payload_header(payload) {
            Ok((kind, off)) => match kind {
                HevcNalKind::Single { .. } | HevcNalKind::Pacsi | HevcNalKind::Unknown(_) => {
                    write_start_code(out);
                    append_slice(out, payload, 0, payload.len());
                    assert(payload@.subrange(0, payload@.len() as int) =~= payload@);
                },
                HevcNalKind::Ap => {
                    append_aggregated(payload, 2, out);
                },
                HevcNalKind::Fu { start, nal_type, .. } => {
                    if start {
                        let b0 = payload[0];
                        let b1 = payload[1];
                        let new_b0 = (b0 & !0x7E) | ((nal_type << 1) & 0x7E);
                        write_start_code(out);
                        out.push(new_b0);
                        out.push(b1);
                        *fu_open = true;
                    } else if !*fu_open {
                        *incomplete = true;
                        assert(out@ =~= old(out)@ + Seq::<u8>::empty());
                        return;
                    }
                    append_slice(out, payload, off, payload.len());
                    assert(out@ =~= old(out)@ + hevc_append(payload@, *old(fu_open), *old(incomplete)).0);
                },
            },
            Err(_) => {
                append_slice(out, payload, 0, payload.len());
                assert(payload@.subrange(0, payload@.len() as int) =~= payload@);
            },
        }
    }

    fn append_vp9_payload(payload: &[u8], out: &mut Vec<u8>)
        ensures
            final(out)@ == old(out)@ + vp9_strip(payload@),
    {
        match Vp9PayloadDesc::parse(payload) {
            Ok((_desc, off)) => append_slice(out, payload, off, payload.len()),
            Err(_) => {
                append_slice(out, payload, 0, payload.len());
                assert(payload@.subrange(0, payload@.len() as int) =~= payload@);
            },
        }
    }

    fn append_av1_payload(payload: &[u8], out: &mut Vec<u8>)
        ensures
            final(out)@ == old(out)@ + av1_strip(payload@),
    {
        match parse_av1_payload_header(payload) {
            Ok((_hdr, off)) => append_slice(out, payload, off, payload.len()),
            Err(_) => {
                append_slice(out, payload, 0, payload.len());
                assert(payload@.subrange(0, payload@.len() as int) =~= payload@);
            },
        }
    }
}

impl FrameReassembler {
    /// The internal consistency of the reassembler: the analyzer agrees on the codec, each
    /// frame has one collector, and each collector holds at least one packet, in ascending
    /// order of sequence number.
    pub closed spec fn wf(&self) -> bool {
        &&& self.analyzer.spec_codec() == self.codec
        &&& unique_ts(self.frames@)
        &&& forall|i: int| 0 <= i < self.frames@.len() ==> {
            &&& (#[trigger] self.frames@[i]).cview().packets.len() > 0
            &&& ascending(self.frames@[i].cview().packets)
        }
    }

    /// The buffered frames, by timestamp.
    pub closed spec fn frames(&self) -> Map<u32, CollectorView> {
        frames_view(self.frames@)
    }

    /// The media-source identifier of the last packet, once one has arrived.
    pub closed spec fn spec_ssrc(&self) -> Option<u32> {
        self.current_ssrc
    }

    /// The stream's codec, once set or guessed.
    pub closed spec fn spec_codec(&self) -> Option<Codec> {
        self.codec
    }

    pub closed spec fn spec_config(&self) -> ReorderConfig {
        self.config
    }

    /// Whether the stream's boundary analyzer is inside a frame.
    pub closed spec fn spec_in_frame(&self) -> bool {
        self.analyzer.spec_in_frame()
    }

    pub fn new() -> (r: Self)
        ensures
            r.wf(),
            r.frames() == Map::<u32, CollectorView>::empty(),
            r.spec_ssrc() is None,
            r.spec_codec() is None,
            !r.spec_in_frame(),
            r.spec_config().enable_reordering,
            r.spec_config().drop_incomplete_frames,
            r.spec_config().max_buffered_packets_per_frame == 2048,
    {
        let r = FrameReassembler {
            analyzer: FrameAnalyzer::new(),
            current_ssrc: None,
            codec: None,
            frames: Vec::new(),
            config: ReorderConfig::default(),
        };
        assert(r.frames() =~= Map::<u32, CollectorView>::empty());
        r
    }

    /// Fixes the stream's codec, for this reassembler and its analyzer.
    pub fn set_codec(&mut self, codec: Codec)
        requires
            old(self).wf(),
        ensures
            final(self).wf(),
            final(self).spec_codec() == Some(codec),
            final(self).frames() == old(self).frames(),
            final(self).spec_ssrc() == old(self).spec_ssrc(),
            final(self).spec_config() == old(self).spec_config(),
            final(self).spec_in_frame() == old(self).spec_in_frame(),
    {
        self.codec = Some(codec);
        self.analyzer.set_codec(codec);
    }

    pub fn codec(&self) -> (r: Option<Codec>)
        ensures
            r == self.spec_codec(),
    {
        self.codec
    }

    pub fn set_reorder_config(&mut self, cfg: ReorderConfig)
        requires
            old(self).wf(),
        ensures
            final(self).wf(),
            final(self).spec_config() == cfg,
            final(self).frames() == old(self).frames(),
            final(self).spec_codec() == old(self).spec_codec(),
            final(self).spec_ssrc() == old(self).spec_ssrc(),
            final(self).spec_in_frame() == old(self).spec_in_frame(),
    {
        self.config = cfg;
    }

    /// Whether the frame may be emitted: see `frame_ready`.
    fn frame_ready_to_flush(entry: &FrameCollector, codec: Codec) -> (r: bool)
        ensures
            r == frame_ready(codec, entry.cview()),
    {
        if !entry.seen_marker {
            return false;
        }
        match codec {
            Codec::Av1 | Codec::Unknown => {
                return true;
            },
            _ => {},
        }
        let ghost pkts = entry.cview().packets;
        let mut i: usize = 0;
        while i < entry.packets.len()
            invariant
                0 <= i <= entry.packets@.len(),
                pkts == entry.cview().packets,
                entry.seen_marker,
                codec != Codec::Av1 && codec != Codec::Unknown,
                forall|j: int| 0 <= j < i ==> !is_start_packet(codec, (#[trigger] pkts[j]).1),
            decreases entry.packets@.len() - i,
        {
            let payload = entry.packets[i].payload.as_slice();
            assert(payload@ == pkts[i as int].1);
            let starts = match codec {
                Codec::Avc => match parse_avc_payload_header(payload) {
                    Ok((AvcNalKind::FuA { start, .. }, _)) | Ok((AvcNalKind::FuB { start, .. }, _)) => start,
                    Ok((AvcNalKind::Unknown(_), _)) => false,
                    Ok(_) => true,
                    Err(_) => false,
                },
                Codec::Hevc => match parse_hevc_payload_header(payload) {
                    Ok((HevcNalKind::Fu { start, .. }, _)) => start,
                    Ok((HevcNalKind::Unknown(_), _)) => false,
                    Ok(_) => true,
                    Err(_) => false,
                },
                _ => match Vp9PayloadDesc::parse(payload) {
                    Ok((desc, _)) => desc.b_bit,
                    Err(_) => false,
                },
            };
            if starts {
                assert(is_start_packet(codec, pkts[i as int].1));
                assert(entry.cview().packets[i as int] == pkts[i as int]);
                return true;
            }
            i += 1;
        }
        false
    }

    /// The bytes of a buffered frame under the stream's codec: see `assembled_frame`.
    fn assemble_frame(&self, entry: &FrameCollector) -> (r: Option<Vec<u8>>)
        requires
            ascending(entry.cview().packets),
        ensures
            opt_bytes(r) == assembled_frame(
                match self.codec {
                    Some(c) => c,
                    None => Codec::Unknown,
                },
                entry.cview().packets,
                self.config.drop_incomplete_frames,
            ),
    {
        let codec = match self.codec {
            Some(c) => c,
            None => Codec::Unknown,
        };
        let ghost pkts = entry.cview().packets;
        let n = entry.packets.len();
        let mut gap = false;
        let mut i: usize = 1;
        while i < n
            invariant
                1 <= i,
                i <= n || n == 0,
                n == pkts.len(),
                pkts == entry.cview().packets,
                ascending(pkts),
                gap == exists|j: int| 1 <= j < i && j < n && #[trigger] seq_step(pkts, j) != 1,
            decreases n - i,
        {
            let prev = entry.packets[i - 1].seq;
            let curr = entry.packets[i].seq;
            assert(pkts[i - 1].0 == prev && pkts[i as int].0 == curr);
            assert(prev < curr);
            assert(seq_step(pkts, i as int) == curr - prev);
            if curr - prev != 1 {
                gap = true;
            }
            i += 1;
        }
        assert(gap == has_gap(pkts));

        let mut out: Vec<u8> = Vec::new();
        let mut fu_open = false;
        let mut incomplete = false;
        let mut k: usize = 0;
        while k < n
            invariant
                k <= n,
                n == pkts.len(),
                pkts == entry.cview().packets,
                (out@, fu_open, incomplete) == assemble_prefix(codec, pkts, k as int),
            decreases n - k,
        {
            let payload = entry.packets[k].payload.as_slice();
            assert(payload@ == pkts[k as int].1);
            match codec {
                Codec::Avc => Self::append_avc_payload(payload, &mut out, &mut fu_open, &mut incomplete),
                Codec::Hevc => Self::append_hevc_payload(payload, &mut out, &mut fu_open, &mut incomplete),
                Codec::Vp9 => Self::append_vp9_payload(payload, &mut out),
                Codec::Av1 => Self::append_av1_payload(payload, &mut out),
                Codec::Unknown => append_slice(&mut out, payload, 0, payload.len()),
            }
            proof {
                assert(payload@.subrange(0, payload@.len() as int) =~= payload@);
            }
            k += 1;
        }
        if self.config.drop_incomplete_frames && (incomplete || gap) {
            return None;
        }
        Some(out)
    }
    /// Takes in a packet and returns the bytes of the frame that it completes, if any.
    /// A packet from a new media source first discards every buffered frame and the
    /// analyzer's state.
    pub fn push_packet<'a>(&mut self, pkt: &RtpPacket<'a>) -> (r: Option<Vec<u8>>)
        requires
            old(self).wf(),
        ensures
            final(self).wf(),
            ({
                let reset = old(self).spec_ssrc() is Some && old(self).spec_ssrc() != Some(pkt.header.ssrc);
                let frames0 = if reset { Map::empty() } else { old(self).frames() };
                let in_frame0 = !reset && old(self).spec_in_frame();
                let c = match old(self).spec_codec() {
                    Some(c) => c,
                    None => guessed_codec(pkt.payload@),
                };
                let ts = pkt.header.timestamp;
                let cfg = old(self).spec_config();
                let col = collector_after(
                    if frames0.contains_key(ts) { Some(frames0[ts]) } else { None },
                    cfg.max_buffered_packets_per_frame,
                    pkt.header.sequence_number,
                    pkt.payload@,
                    pkt.header.marker,
                );
                &&& final(self).spec_ssrc() == Some(pkt.header.ssrc)
                &&& final(self).spec_codec() == Some(c)
                &&& final(self).spec_config() == cfg
                &&& final(self).spec_in_frame() == in_frame_after(
                    frame_boundary(c, in_frame0, pkt.header.marker, pkt.payload@),
                )
                &&& reset ==> forall|t: u32| #[trigger] final(self).frames().contains_key(t) ==> {
                    &&& t == ts
                    &&& final(self).frames()[t].packets == seq![(pkt.header.sequence_number, pkt.payload@)]
                }
                &&& if frame_ready(c, col) {
                    &&& opt_bytes(r) == assembled_frame(c, col.packets, cfg.drop_incomplete_frames)
                    &&& final(self).frames() == frames0.remove(ts)
                } else {
                    &&& r is None
                    &&& final(self).frames() == frames0.insert(ts, col)
                }
            }),
    {
        if let Some(ssrc) = self.current_ssrc {
            if ssrc != pkt.header.ssrc {
                self.frames.clear();
                self.analyzer = FrameAnalyzer::new();
                if let Some(c) = self.codec {
                    self.analyzer.set_codec(c);
                }
                assert(frames_view(self.frames@) =~= Map::<u32, CollectorView>::empty());
            }
        }
        self.current_ssrc = Some(pkt.header.ssrc);

        let _ = self.analyzer.analyze(pkt);
        if self.codec.is_none() {
            self.codec = self.analyzer.codec();
        }
        let codec = match self.codec {
            Some(c) => c,
            None => Codec::Unknown,
        };

        let ts = pkt.header.timestamp;
        let ghost frames0 = frames_view(self.frames@);
        let mut idx: usize = 0;
        while idx < self.frames.len() && self.frames[idx].timestamp != ts
            invariant
                0 <= idx <= self.frames@.len(),
                forall|j: int| 0 <= j < idx ==> (#[trigger] self.frames@[j]).timestamp != ts,
            decreases self.frames@.len() - idx,
        {
            idx += 1;
        }
        let mut entry = if idx < self.frames.len() {
            proof {
                lemma_frames_at(self.frames@, idx as int);
                lemma_frames_remove(self.frames@, idx as int);
            }
            self.frames.remove(idx)
        } else {
            assert(!has_ts(self.frames@, ts));
            assert(frames_view(self.frames@).remove(ts) =~= frames_view(self.frames@));
            FrameCollector { timestamp: ts, packets: Vec::new(), seen_marker: false }
        };
        assert(packets_view(Seq::<OwnedPkt>::empty()) =~= Seq::empty());
        if entry.packets.len() >= self.config.max_buffered_packets_per_frame {
            entry.packets.clear();
            assert(packets_view(entry.packets@) =~= Seq::empty());
        }
        let mut payload: Vec<u8> = Vec::new();
        append_slice(&mut payload, pkt.payload, 0, pkt.payload.len());
        assert(payload@ =~= pkt.payload@);
        entry.insert(pkt.header.sequence_number, payload);
        if pkt.header.marker {
            entry.seen_marker = true;
        }

        if entry.seen_marker && Self::frame_ready_to_flush(&entry, codec) {
            return self.assemble_frame(&entry);
        }
        proof {
            lemma_frames_push(self.frames@, entry);
            assert(frames0.remove(ts).insert(ts, entry.cview()) =~= frames0.insert(ts, entry.cview()));
        }
        self.frames.push(entry);
        None
    }
}

impl Default for FrameReassembler {
    fn default() -> (r: Self)
        ensures
            r.wf(),
            r.frames() == Map::<u32, CollectorView>::empty(),
            r.spec_ssrc() is None,
            r.spec_codec() is None,
            !r.spec_in_frame(),
            r.spec_config().enable_reordering,
            r.spec_config().drop_incomplete_frames,
            r.spec_config().max_buffered_packets_per_frame == 2048,
    {
        FrameReassembler::new()
    }
}

} // verus!
