//! The model of one frame's buffered packets: ordered insertion and readiness.
use vstd::prelude::*;
use crate::codecs::Codec;
use crate::codecs::avc::{avc_header, AvcNalKind};
use crate::codecs::hevc::{hevc_header, HevcNalKind};
use crate::codecs::vp9::vp9_descriptor;

verus! {

/// The buffered packets of one frame: (sequence number, payload) pairs, and whether the
/// packet with the marker bit has arrived.
pub ghost struct CollectorView {
    pub packets: Seq<(u16, Seq<u8>)>,
    pub seen_marker: bool,
}

/// Whether a payload can open a frame under the codec's rules.
pub open spec fn is_start_packet(codec: Codec, p: Seq<u8>) -> bool {
    match codec {
        Codec::Avc => match avc_header(p) {
            Ok((AvcNalKind::FuA { start, .. }, _)) => start,
            Ok((AvcNalKind::FuB { start, .. }, _)) => start,
            Ok((AvcNalKind::Unknown(_), _)) => false,
            Ok(_) => true,
            Err(_) => false,
        },
        Codec::Hevc => match hevc_header(p) {
            Ok((HevcNalKind::Fu { start, .. }, _)) => start,
            Ok((HevcNalKind::Unknown(_), _)) => false,
            Ok(_) => true,
            Err(_) => false,
        },
        Codec::Vp9 => match vp9_descriptor(p) {
            Ok((d, _)) => d.b_bit,
            Err(_) => false,
        },
        _ => true,
    }
}

/// A frame is ready once its marker packet has arrived and, for the codecs that mark starts,
/// a packet that starts it is buffered.
pub open spec fn frame_ready(codec: Codec, c: CollectorView) -> bool {
    &&& c.seen_marker
    &&& (codec == Codec::Av1 || codec == Codec::Unknown || exists|i: int|
        0 <= i < c.packets.len() && is_start_packet(codec, (#[trigger] c.packets[i]).1))
}

/// Sequence numbers strictly ascending.
pub open spec fn ascending(s: Seq<(u16, Seq<u8>)>) -> bool {
    forall|i: int, j: int| 0 <= i < j < s.len() ==> (#[trigger] s[i]).0 < (#[trigger] s[j]).0
}

/// Adds a packet in order of sequence number; a packet with an equal number is replaced.
pub open spec fn insert_packet(s: Seq<(u16, Seq<u8>)>, k: u16, v: Seq<u8>) -> Seq<(u16, Seq<u8>)>
    decreases s.len(),
{
    if s.len() == 0 {
        seq![(k, v)]
    } else if k < s[0].0 {
        seq![(k, v)] + s
    } else if k == s[0].0 {
        s.update(0, (k, v))
    } else {
        seq![s[0]] + insert_packet(s.drop_first(), k, v)
    }
}

/// The collector of a frame after a packet is added to it: a collector that already holds
/// `max` packets is emptied first, and keeps its marker flag.
pub open spec fn collector_after(prev: Option<CollectorView>, max: usize, seq: u16, payload: Seq<u8>, marker: bool) -> CollectorView {
    let pkts = match prev {
        Some(c) => c.packets,
        None => Seq::empty(),
    };
    let seen = match prev {
        Some(c) => c.seen_marker,
        None => false,
    };
    CollectorView {
        packets: insert_packet(if pkts.len() >= max { Seq::empty() } else { pkts }, seq, payload),
        seen_marker: seen || marker,
    }
}

/// For a key `k` that belongs at position `i` of an ascending sequence, insertion replaces
/// the entry there when its key is `k`, and otherwise puts the new entry there.
pub(crate) proof fn lemma_insert_at(s: Seq<(u16, Seq<u8>)>, k: u16, v: Seq<u8>, i: int)
    requires
        ascending(s),
        0 <= i <= s.len(),
        forall|j: int| 0 <= j < i ==> (#[trigger] s[j]).0 < k,
        i < s.len() ==> s[i].0 >= k,
    ensures
        insert_packet(s, k, v) == if i < s.len() && s[i].0 == k {
            s.update(i, (k, v))
        } else {
            s.insert(i, (k, v))
        },
    decreases i,
{
    if i == 0 {
        if s.len() == 0 {
            assert(seq![(k, v)] =~= s.insert(0, (k, v)));
        } else if k < s[0].0 {
            assert(seq![(k, v)] + s =~= s.insert(0, (k, v)));
        }
    } else {
        let t = s.drop_first();
        assert(s[0].0 < k);
        assert forall|j: int| 0 <= j < i - 1 implies (#[trigger] t[j]).0 < k by {
            assert(t[j] == s[j + 1]);
        }
        assert(ascending(t)) by {
            assert forall|a: int, b: int| 0 <= a < b < t.len() implies (#[trigger] t[a]).0 < (#[trigger] t[b]).0 by {
                assert(t[a] == s[a + 1] && t[b] == s[b + 1]);
            }
        }
        lemma_insert_at(t, k, v, i - 1);
        if i < s.len() && s[i].0 == k {
            assert(seq![s[0]] + t.update(i - 1, (k, v)) =~= s.update(i, (k, v)));
        } else {
            assert(seq![s[0]] + t.insert(i - 1, (k, v)) =~= s.insert(i, (k, v)));
        }
    }
}

proof fn lemma_insert_keeps(s: Seq<(u16, Seq<u8>)>, k: u16, v: Seq<u8>, i: int) -> (j: int)
    requires
        0 <= i < s.len(),
        s[i].0 != k,
    ensures
        0 <= j < insert_packet(s, k, v).len(),
        insert_packet(s, k, v)[j] == s[i],
    decreases s.len(),
{
    if k < s[0].0 {
        i + 1
    } else if k == s[0].0 {
        i
    } else if i == 0 {
        0
    } else {
        let j = lemma_insert_keeps(s.drop_first(), k, v, i - 1);
        j + 1
    }
}

/// Readiness is kept: a ready frame stays ready when a packet is added under a sequence number
/// other than that of a packet that made it ready.
pub proof fn lemma_ready_monotone(codec: Codec, c: CollectorView, k: u16, v: Seq<u8>, marker: bool)
    requires
        frame_ready(codec, c),
        codec != Codec::Av1 && codec != Codec::Unknown ==> exists|i: int|
            0 <= i < c.packets.len() && is_start_packet(codec, (#[trigger] c.packets[i]).1) && c.packets[i].0 != k,
    ensures
        frame_ready(codec, CollectorView { packets: insert_packet(c.packets, k, v), seen_marker: c.seen_marker || marker }),
{
    if codec != Codec::Av1 && codec != Codec::Unknown {
        let i = choose|i: int|
            0 <= i < c.packets.len() && is_start_packet(codec, (#[trigger] c.packets[i]).1) && c.packets[i].0 != k;
        let j = lemma_insert_keeps(c.packets, k, v, i);
        let d = CollectorView { packets: insert_packet(c.packets, k, v), seen_marker: c.seen_marker || marker };
        assert(is_start_packet(codec, d.packets[j].1));
    }
}

proof fn lemma_insert_position(s: Seq<(u16, Seq<u8>)>, k: u16) -> (i: int)
    ensures
        0 <= i <= s.len(),
        forall|j: int| 0 <= j < i ==> (#[trigger] s[j]).0 < k,
        i < s.len() ==> s[i].0 >= k,
    decreases s.len(),
{
    if s.len() == 0 || s[0].0 >= k {
        0
    } else {
        let t = s.drop_first();
        let i = lemma_insert_position(t, k);
        assert forall|j: int| 0 <= j < i + 1 implies (#[trigger] s[j]).0 < k by {
            if j > 0 {
                assert(s[j] == t[j - 1]);
            }
        }
        i + 1
    }
}

/// Insertion keeps the packets in strictly ascending order of sequence number.
pub proof fn lemma_insert_ascending(s: Seq<(u16, Seq<u8>)>, k: u16, v: Seq<u8>)
    requires
        ascending(s),
    ensures
        ascending(insert_packet(s, k, v)),
        insert_packet(s, k, v).len() > 0,
{
    let i = lemma_insert_position(s, k);
    lemma_insert_at(s, k, v, i);
    let t = insert_packet(s, k, v);
    assert forall|a: int, b: int| 0 <= a < b < t.len() implies (#[trigger] t[a]).0 < (#[trigger] t[b]).0 by {
        if a < i && b > i {
            assert(s[a].0 < k);
        }
    }
}

/// Inserting a packet a second time changes nothing: a duplicate, under the size limit,
/// leaves the collector, and so the frame it will emit, as one insertion made it.
pub proof fn lemma_duplicate_insert(prev: Option<CollectorView>, max: usize, k: u16, v: Seq<u8>, marker: bool)
    requires
        collector_after(prev, max, k, v, marker).packets.len() < max,
    ensures
        collector_after(Some(collector_after(prev, max, k, v, marker)), max, k, v, marker)
            == collector_after(prev, max, k, v, marker),
{
    let pkts = match prev {
        Some(c) => c.packets,
        None => Seq::empty(),
    };
    lemma_insert_twice(if pkts.len() >= max { Seq::empty() } else { pkts }, k, v);
}

proof fn lemma_insert_twice(s: Seq<(u16, Seq<u8>)>, k: u16, v: Seq<u8>)
    ensures
        insert_packet(insert_packet(s, k, v), k, v) == insert_packet(s, k, v),
    decreases s.len(),
{
    if s.len() == 0 {
        assert(seq![(k, v)].update(0, (k, v)) =~= seq![(k, v)]);
    } else if k < s[0].0 {
        let t = seq![(k, v)] + s;
        assert(t[0] == (k, v));
        assert(t.update(0, (k, v)) =~= t);
    } else if k == s[0].0 {
        let t = s.update(0, (k, v));
        assert(t.update(0, (k, v)) =~= t);
    } else {
        let t = seq![s[0]] + insert_packet(s.drop_first(), k, v);
        lemma_insert_twice(s.drop_first(), k, v);
        assert(t[0] == s[0]);
        assert(t.drop_first() =~= insert_packet(s.drop_first(), k, v));
    }
}

} // verus!
