//! Reading the segments of a datagram.

use vstd::prelude::*;

use crate::kcp::segment::{
    decode, law_decode_inverts_wire, law_decode_stays_inside, read_segment, segment_views,
    SegmentKind, SegmentView,
};
use crate::wire;

verus! {

/// The segments that a datagram consists of, up to the first bytes that are no
/// segment.
pub open spec fn decode_all(b: Seq<u8>) -> Seq<SegmentView>
    decreases b.len(),
{
    match decode(b) {
        Some(got) => if 0 < got.1 <= b.len() {
            seq![got.0] + decode_all(b.skip(got.1 as int))
        } else {
            Seq::empty()
        },
        None => Seq::empty(),
    }
}

/// Takes datagrams apart.
pub trait PacketReader {
    /// The segments that a datagram holds.
    spec fn segments_of(&self, b: Seq<u8>) -> Seq<SegmentView>;

    /// Reads all segments of a datagram.
    fn read(&self, b: &[u8]) -> (segs: Vec<SegmentKind>)
        ensures
            segment_views(segs@) == self.segments_of(b@),
    ;
}

/// Reads segments that follow one another.
#[derive(Debug, Clone, Copy)]
pub struct KCPPacketReader;

impl KCPPacketReader {
    /// A reader.
    pub fn new() -> (r: Self)
        ensures
            r == KCPPacketReader,
    {
        KCPPacketReader
    }
}

impl PacketReader for KCPPacketReader {
    open spec fn segments_of(&self, b: Seq<u8>) -> Seq<SegmentView> {
        decode_all(b)
    }

    fn read(&self, b: &[u8]) -> (segs: Vec<SegmentKind>) {
        let mut segs: Vec<SegmentKind> = Vec::new();
        let mut rest: Vec<u8> = wire::copy_range(b, 0, b.len());
        assert(rest@ =~= b@);
        assert(segment_views(segs@) + decode_all(rest@) =~= decode_all(b@));
        while rest.len() > 0
            invariant
                segment_views(segs@) + decode_all(rest@) == decode_all(b@),
            ensures
                segment_views(segs@) == decode_all(b@),
            decreases rest@.len(),
        {
            let ghost done = segment_views(segs@);
            proof {
                law_decode_stays_inside(rest@);
            }
            match read_segment(rest.as_slice()) {
                Some((seg, consumed)) => {
                    let next: Vec<u8> = wire::copy_range(rest.as_slice(), consumed, rest.len());
                    assert(next@ =~= rest@.skip(consumed as int));
                    segs.push(seg);
                    proof {
                        assert(segment_views(segs@) =~= done.push(seg@));
                        assert(done.push(seg@) + decode_all(next@) =~= done + (seq![seg@]
                            + decode_all(next@)));
                    }
                    rest = next;
                },
                None => {
                    assert(done + Seq::<SegmentView>::empty() =~= done);
                    break;
                },
            }
            if rest.len() == 0 {
                assert(segment_views(segs@) + decode_all(rest@) =~= segment_views(segs@));
            }
        }
        segs
    }
}

/// The bytes of segments, one after another.
pub open spec fn packet(segs: Seq<SegmentView>) -> Seq<u8>
    decreases segs.len(),
{
    if segs.len() == 0 {
        Seq::empty()
    } else {
        segs[0].wire() + packet(segs.skip(1))
    }
}

/// A reader gets back the segments that were written into a datagram, in their
/// order, up to where the datagram goes on with something else.
pub proof fn law_reader_inverts_packet(segs: Seq<SegmentView>, rest: Seq<u8>)
    requires
        forall|i: int| 0 <= i < segs.len() ==> (#[trigger] segs[i]).fits_wire(),
    ensures
        decode_all(packet(segs) + rest) == segs.map_values(|s: SegmentView| s.as_read())
            + decode_all(rest),
    decreases segs.len(),
{
    let as_read = |s: SegmentView| s.as_read();
    if segs.len() == 0 {
        assert(packet(segs) + rest =~= rest);
        assert(segs.map_values(as_read) + decode_all(rest) =~= decode_all(rest));
    } else {
        let tail = segs.skip(1);
        assert forall|i: int| 0 <= i < tail.len() implies (#[trigger] tail[i]).fits_wire() by {
            assert(tail[i] == segs[i + 1]);
        }
        law_reader_inverts_packet(tail, rest);
        let after = packet(tail) + rest;
        let all = packet(segs) + rest;
        assert(all =~= segs[0].wire() + after);
        law_decode_inverts_wire(segs[0], after);
        law_decode_stays_inside(all);
        assert(all.skip(segs[0].wire().len() as int) =~= after);
        assert(segs.map_values(as_read) =~= seq![segs[0].as_read()] + tail.map_values(as_read));
        assert(decode_all(all) =~= segs.map_values(as_read) + decode_all(rest));
    }
}

} // verus!
