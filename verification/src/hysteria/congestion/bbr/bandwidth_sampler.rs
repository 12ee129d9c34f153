//! Keeping track of what was sent, has arrived and is lost.

use std::collections::HashMap;

use vstd::prelude::*;

use crate::hysteria::congestion::bbr::bandwidth::{inf_bandwidth, Bandwidth};
use crate::hysteria::congestion::types::{
    AckedPacketInfo, ByteCount, LostPacketInfo, MonoTime, PacketNumber,
};

verus! {

broadcast use vstd::std_specs::hash::group_hash_axioms;

/// How things stood when a packet was sent.
#[derive(Debug, Clone, Copy, PartialEq, Eq, Structural)]
pub struct SendTimeState {
    pub is_valid: bool,
    pub is_app_limited: bool,
    pub total_bytes_sent: ByteCount,
    pub total_bytes_acked: ByteCount,
    pub total_bytes_lost: ByteCount,
    pub bytes_in_flight: ByteCount,
}

/// Nothing is known.
pub open spec fn no_send_state() -> SendTimeState {
    SendTimeState {
        is_valid: false,
        is_app_limited: false,
        total_bytes_sent: 0,
        total_bytes_acked: 0,
        total_bytes_lost: 0,
        bytes_in_flight: 0,
    }
}

impl SendTimeState {
    /// How things stand.
    pub fn new(
        is_app_limited: bool,
        total_bytes_sent: ByteCount,
        total_bytes_acked: ByteCount,
        total_bytes_lost: ByteCount,
        bytes_in_flight: ByteCount,
    ) -> (s: Self)
        ensures
            s == (SendTimeState {
                is_valid: true,
                is_app_limited,
                total_bytes_sent,
                total_bytes_acked,
                total_bytes_lost,
                bytes_in_flight,
            }),
    {
        SendTimeState {
            is_valid: true,
            is_app_limited,
            total_bytes_sent,
            total_bytes_acked,
            total_bytes_lost,
            bytes_in_flight,
        }
    }
}

impl Default for SendTimeState {
    fn default() -> (s: Self)
        ensures
            s == no_send_state(),
    {
        SendTimeState {
            is_valid: false,
            is_app_limited: false,
            total_bytes_sent: 0,
            total_bytes_acked: 0,
            total_bytes_lost: 0,
            bytes_in_flight: 0,
        }
    }
}

/// A round trip that is longer than any, in nanoseconds.
pub const INF_RTT: u64 = 0xFFFF_FFFF_FFFF_FFFF;

/// What one packet tells of the path.
#[derive(Debug, Clone, Copy, PartialEq, Eq, Structural)]
pub struct BandwidthSample {
    pub bandwidth: Bandwidth,
    pub rtt_ns: u64,
    pub send_rate: Bandwidth,
    pub state_at_send: SendTimeState,
}

impl BandwidthSample {
    /// Nothing is known, and the send rate has no bound.
    pub fn new() -> (s: Self)
        ensures
            s == (BandwidthSample {
                bandwidth: Bandwidth(0),
                rtt_ns: 0,
                send_rate: Bandwidth(u64::MAX),
                state_at_send: no_send_state(),
            }),
    {
        BandwidthSample {
            bandwidth: Bandwidth(0),
            rtt_ns: 0,
            send_rate: inf_bandwidth(),
            state_at_send: SendTimeState::default(),
        }
    }
}

/// More has arrived than was to be expected.
#[derive(Debug, Clone, Copy, PartialEq, Eq, Structural)]
pub struct ExtraAckedEvent {
    pub extra_acked: ByteCount,
    pub bytes_acked: ByteCount,
    pub time_delta_ns: u64,
    pub round: u64,
}

/// What a batch of acknowledgements and losses tells of the path.
#[derive(Debug, Clone, Copy, PartialEq, Eq, Structural)]
pub struct CongestionEventSample {
    pub sample_max_bandwidth: Bandwidth,
    pub sample_rtt: u64,
    pub extra_acked: ByteCount,
    pub sample_is_app_limited: bool,
    pub last_packet_send_state: SendTimeState,
}

/// The contents of a sampler.
pub struct SamplerView {
    pub round_trip_count: u64,
    /// The packets after which there was nothing more to send.
    pub app_limited: Set<PacketNumber>,
    /// The packets on their way that are sent again when they get lost.
    pub sent: Map<PacketNumber, SendTimeState>,
    pub bytes_sent: int,
    pub bytes_acked: int,
    pub bytes_lost: int,
    pub is_app_limited: bool,
    pub overestimate_avoidance: bool,
    pub reduce_extra_acked: bool,
}

/// A sampler that has seen nothing.
pub open spec fn fresh_sampler() -> SamplerView {
    SamplerView {
        round_trip_count: 0,
        app_limited: Set::empty(),
        sent: Map::empty(),
        bytes_sent: 0,
        bytes_acked: 0,
        bytes_lost: 0,
        is_app_limited: false,
        overestimate_avoidance: false,
        reduce_extra_acked: false,
    }
}

/// The sampler after a packet was sent.
pub open spec fn after_sent(
    v: SamplerView,
    number: PacketNumber,
    bytes: ByteCount,
    in_flight: ByteCount,
    retransmittable: bool,
) -> SamplerView {
    let state = SendTimeState {
        is_valid: true,
        is_app_limited: v.is_app_limited,
        total_bytes_sent: (v.bytes_sent + bytes) as i64,
        total_bytes_acked: v.bytes_acked as i64,
        total_bytes_lost: v.bytes_lost as i64,
        bytes_in_flight: in_flight,
    };
    SamplerView {
        bytes_sent: v.bytes_sent + bytes,
        sent: if retransmittable {
            v.sent.insert(number, state)
        } else {
            v.sent
        },
        ..v
    }
}

/// The sampler after packets have arrived, and how things stood when the last
/// of those that it knew was sent.
pub open spec fn after_acks(v: SamplerView, acked: Seq<AckedPacketInfo>) -> (
    SamplerView,
    SendTimeState,
)
    decreases acked.len(),
{
    if acked.len() == 0 {
        (v, no_send_state())
    } else {
        let (w, state) = after_acks(v, acked.drop_last());
        let p = acked.last();
        if w.sent.dom().contains(p.packet_number) {
            (
                SamplerView {
                    sent: w.sent.remove(p.packet_number),
                    bytes_acked: w.bytes_acked + p.bytes_acked,
                    ..w
                },
                w.sent[p.packet_number],
            )
        } else {
            (w, state)
        }
    }
}

/// The sampler after packets got lost.
pub open spec fn after_losses(v: SamplerView, lost: Seq<LostPacketInfo>) -> SamplerView
    decreases lost.len(),
{
    if lost.len() == 0 {
        v
    } else {
        let w = after_losses(v, lost.drop_last());
        let p = lost.last();
        if w.sent.dom().contains(p.packet_number) {
            SamplerView {
                sent: w.sent.remove(p.packet_number),
                bytes_lost: w.bytes_lost + p.bytes_lost,
                ..w
            }
        } else {
            w
        }
    }
}

/// Whether the numbers of bytes fit, whatever part of the packets is counted.
pub open spec fn totals_fit(
    v: SamplerView,
    acked: Seq<AckedPacketInfo>,
    lost: Seq<LostPacketInfo>,
) -> bool {
    &&& forall|k: int|
        0 <= k <= acked.len() ==> i64::MIN <= (#[trigger] after_acks(
            v,
            acked.take(k),
        )).0.bytes_acked <= i64::MAX
    &&& forall|k: int|
        0 <= k <= lost.len() ==> i64::MIN <= (#[trigger] after_losses(
            after_acks(v, acked).0,
            lost.take(k),
        )).bytes_lost <= i64::MAX
}

/// Keeps track of what was sent, has arrived and is lost.
pub struct BandwidthSampler {
    pub round_trip_count: u64,
    pub app_limited_packets: HashMap<PacketNumber, ()>,
    pub sent_packets: HashMap<PacketNumber, SendTimeState>,
    pub total_bytes_sent: ByteCount,
    pub total_bytes_acked: ByteCount,
    pub total_bytes_lost: ByteCount,
    pub is_app_limited: bool,
    pub overestimate_avoidance_enabled: bool,
    pub reduce_extra_acked_on_bandwidth_increase: bool,
}

impl View for BandwidthSampler {
    type V = SamplerView;

    open spec fn view(&self) -> SamplerView {
        SamplerView {
            round_trip_count: self.round_trip_count,
            app_limited: self.app_limited_packets@.dom(),
            sent: self.sent_packets@,
            bytes_sent: self.total_bytes_sent as int,
            bytes_acked: self.total_bytes_acked as int,
            bytes_lost: self.total_bytes_lost as int,
            is_app_limited: self.is_app_limited,
            overestimate_avoidance: self.overestimate_avoidance_enabled,
            reduce_extra_acked: self.reduce_extra_acked_on_bandwidth_increase,
        }
    }
}

impl BandwidthSampler {
    /// A sampler that has seen nothing.
    pub fn new(_window_size: u64) -> (s: Self)
        ensures
            s@ == fresh_sampler(),
    {
        let s = BandwidthSampler {
            round_trip_count: 0,
            app_limited_packets: HashMap::new(),
            sent_packets: HashMap::new(),
            total_bytes_sent: 0,
            total_bytes_acked: 0,
            total_bytes_lost: 0,
            is_app_limited: false,
            overestimate_avoidance_enabled: false,
            reduce_extra_acked_on_bandwidth_increase: false,
        };
        assert(s@.app_limited =~= Set::empty());
        s
    }

    /// From now on too high estimates are avoided.
    pub fn enable_overestimate_avoidance(&mut self)
        ensures
            final(self)@ == (SamplerView { overestimate_avoidance: true, ..old(self)@ }),
    {
        self.overestimate_avoidance_enabled = true;
    }

    /// Whether more bandwidth makes extra acknowledgements count less.
    pub fn set_reduce_extra_acked_on_bandwidth_increase(&mut self, v: bool)
        ensures
            final(self)@ == (SamplerView { reduce_extra_acked: v, ..old(self)@ }),
    {
        self.reduce_extra_acked_on_bandwidth_increase = v;
    }

    /// The number of rounds.
    pub fn round_trip_count(&self) -> (n: u64)
        ensures
            n == self@.round_trip_count,
    {
        self.round_trip_count
    }

    /// The bytes that were sent.
    pub fn total_bytes_sent(&self) -> (n: ByteCount)
        ensures
            n == self@.bytes_sent,
    {
        self.total_bytes_sent
    }

    /// The bytes that have arrived.
    pub fn total_bytes_acked(&self) -> (n: ByteCount)
        ensures
            n == self@.bytes_acked,
    {
        self.total_bytes_acked
    }

    /// The bytes that got lost.
    pub fn total_bytes_lost(&self) -> (n: ByteCount)
        ensures
            n == self@.bytes_lost,
    {
        self.total_bytes_lost
    }

    /// A packet was sent.
    pub fn on_packet_sent(
        &mut self,
        _sent_time: MonoTime,
        packet_number: PacketNumber,
        bytes: ByteCount,
        bytes_in_flight: ByteCount,
        is_retransmittable: bool,
    )
        requires
            i64::MIN <= old(self)@.bytes_sent + bytes <= i64::MAX,
        ensures
            final(self)@ == after_sent(
                old(self)@,
                packet_number,
                bytes,
                bytes_in_flight,
                is_retransmittable,
            ),
    {
        self.total_bytes_sent = self.total_bytes_sent + bytes;
        if is_retransmittable {
            let state = SendTimeState::new(
                self.is_app_limited,
                self.total_bytes_sent,
                self.total_bytes_acked,
                self.total_bytes_lost,
                bytes_in_flight,
            );
            let _ = self.sent_packets.insert(packet_number, state);
        }
    }

    /// Packets have arrived and got lost. Those that the sampler does not know
    /// do not count.
    pub fn on_congestion_event(
        &mut self,
        _event_time: MonoTime,
        acked_packets: &[AckedPacketInfo],
        lost_packets: &[LostPacketInfo],
        _max_bandwidth_estimate: Bandwidth,
        _estimate_filter_lower_bound: Bandwidth,
        _round_trip_count: u64,
    ) -> (sample: CongestionEventSample)
        requires
            totals_fit(old(self)@, acked_packets@, lost_packets@),
        ensures
            final(self)@ == after_losses(
                after_acks(old(self)@, acked_packets@).0,
                lost_packets@,
            ),
            sample == (CongestionEventSample {
                sample_max_bandwidth: Bandwidth(0),
                sample_rtt: INF_RTT,
                extra_acked: 0,
                sample_is_app_limited: false,
                last_packet_send_state: after_acks(old(self)@, acked_packets@).1,
            }),
    {
        let ghost start = self@;
        let mut last_acked_state = SendTimeState::default();
        let mut i: usize = 0;
        assert(acked_packets@.take(0) =~= Seq::empty());
        while i < acked_packets.len()
            invariant
                i <= acked_packets@.len(),
                totals_fit(start, acked_packets@, lost_packets@),
                (self@, last_acked_state) == after_acks(start, acked_packets@.take(i as int)),
            decreases acked_packets@.len() - i,
        {
            let acked = acked_packets[i];
            let ghost w = self@;
            proof {
                let next = acked_packets@.take(i + 1);
                assert(next.drop_last() =~= acked_packets@.take(i as int));
                assert(next.last() == acked);
                assert(i64::MIN <= after_acks(start, next).0.bytes_acked <= i64::MAX);
            }
            match self.sent_packets.remove(&acked.packet_number) {
                Some(state) => {
                    self.total_bytes_acked = self.total_bytes_acked + acked.bytes_acked;
                    last_acked_state = state;
                },
                None => {
                    assert(self.sent_packets@ =~= w.sent);
                },
            }
            i += 1;
        }
        assert(acked_packets@.take(i as int) =~= acked_packets@);
        let ghost middle = self@;
        let mut j: usize = 0;
        assert(lost_packets@.take(0) =~= Seq::empty());
        while j < lost_packets.len()
            invariant
                j <= lost_packets@.len(),
                middle == after_acks(start, acked_packets@).0,
                totals_fit(start, acked_packets@, lost_packets@),
                self@ == after_losses(middle, lost_packets@.take(j as int)),
            decreases lost_packets@.len() - j,
        {
            let lost = lost_packets[j];
            let ghost w = self@;
            proof {
                let next = lost_packets@.take(j + 1);
                assert(next.drop_last() =~= lost_packets@.take(j as int));
                assert(next.last() == lost);
                assert(i64::MIN <= after_losses(middle, next).bytes_lost <= i64::MAX);
            }
            match self.sent_packets.remove(&lost.packet_number) {
                Some(_) => {
                    self.total_bytes_lost = self.total_bytes_lost + lost.bytes_lost;
                },
                None => {
                    assert(self.sent_packets@ =~= w.sent);
                },
            }
            j += 1;
        }
        assert(lost_packets@.take(j as int) =~= lost_packets@);
        CongestionEventSample {
            sample_max_bandwidth: Bandwidth(0),
            sample_rtt: INF_RTT,
            extra_acked: 0,
            sample_is_app_limited: false,
            last_packet_send_state: last_acked_state,
        }
    }

    /// After that packet there was nothing more to send.
    pub fn on_app_limited(&mut self, packet_number: PacketNumber)
        ensures
            final(self)@ == (SamplerView {
                is_app_limited: true,
                app_limited: old(self)@.app_limited.insert(packet_number),
                ..old(self)@
            }),
    {
        self.is_app_limited = true;
        let _ = self.app_limited_packets.insert(packet_number, ());
        assert(self@.app_limited =~= old(self)@.app_limited.insert(packet_number));
    }

    /// Packets below that number are of no interest; none is forgotten for it.
    pub fn remove_obsolete_packets(&mut self, _less_than: PacketNumber)
        ensures
            final(self)@ == old(self)@,
    {
    }

    /// A round has ended.
    pub fn advance_round(&mut self)
        requires
            old(self)@.round_trip_count < u64::MAX,
        ensures
            final(self)@ == (SamplerView {
                round_trip_count: (old(self)@.round_trip_count + 1) as u64,
                ..old(self)@
            }),
    {
        self.round_trip_count += 1;
    }
}

/// A packet that has arrived is forgotten, and so are only packets that have
/// arrived.
pub proof fn law_acks_forget(v: SamplerView, acked: Seq<AckedPacketInfo>, number: PacketNumber)
    ensures
        after_acks(v, acked).0.sent.dom().contains(number) <==> (v.sent.dom().contains(number)
            && forall|i: int| 0 <= i < acked.len() ==> (#[trigger] acked[i]).packet_number != number),
        after_acks(v, acked).0.sent.dom().contains(number) ==> after_acks(v, acked).0.sent[number]
            == v.sent[number],
    decreases acked.len(),
{
    if acked.len() > 0 {
        let less = acked.drop_last();
        law_acks_forget(v, less, number);
        assert forall|i: int| 0 <= i < less.len() implies #[trigger] less[i] == acked[i] by {}
        if after_acks(v, less).0.sent.dom().contains(number) && acked.last().packet_number
            != number {
            assert forall|i: int| 0 <= i < acked.len() implies (#[trigger] acked[i]).packet_number
                != number by {
                if i < less.len() {
                    assert(less[i].packet_number != number);
                }
            }
        }
        if forall|i: int| 0 <= i < acked.len() ==> (#[trigger] acked[i]).packet_number != number {
            assert forall|i: int| 0 <= i < less.len() implies (#[trigger] less[i]).packet_number
                != number by {
                assert(acked[i].packet_number != number);
            }
            assert(acked[acked.len() - 1].packet_number != number);
        }
    }
}

/// A packet that got lost is forgotten, and so are only packets that got lost.
pub proof fn law_losses_forget(v: SamplerView, lost: Seq<LostPacketInfo>, number: PacketNumber)
    ensures
        after_losses(v, lost).sent.dom().contains(number) <==> (v.sent.dom().contains(number)
            && forall|i: int| 0 <= i < lost.len() ==> (#[trigger] lost[i]).packet_number != number),
        after_losses(v, lost).sent.dom().contains(number) ==> after_losses(v, lost).sent[number]
            == v.sent[number],
    decreases lost.len(),
{
    if lost.len() > 0 {
        let less = lost.drop_last();
        law_losses_forget(v, less, number);
        assert forall|i: int| 0 <= i < less.len() implies #[trigger] less[i] == lost[i] by {}
        if after_losses(v, less).sent.dom().contains(number) && lost.last().packet_number
            != number {
            assert forall|i: int| 0 <= i < lost.len() implies (#[trigger] lost[i]).packet_number
                != number by {
                if i < less.len() {
                    assert(less[i].packet_number != number);
                }
            }
        }
        if forall|i: int| 0 <= i < lost.len() ==> (#[trigger] lost[i]).packet_number != number {
            assert forall|i: int| 0 <= i < less.len() implies (#[trigger] less[i]).packet_number
                != number by {
                assert(lost[i].packet_number != number);
            }
            assert(lost[lost.len() - 1].packet_number != number);
        }
    }
}

/// Packets that have arrived are counted by their bytes, each of those that the
/// sampler knew once; nothing else of the numbers changes.
pub proof fn law_arrived_bytes_are_counted(v: SamplerView, acked: Seq<AckedPacketInfo>)
    requires
        forall|i: int|
            0 <= i < acked.len() ==> v.sent.dom().contains((#[trigger] acked[i]).packet_number),
        forall|i: int, j: int|
            0 <= i < j < acked.len() ==> (#[trigger] acked[i]).packet_number != (
            #[trigger] acked[j]).packet_number,
    ensures
        ({
            let w = after_acks(v, acked).0;
            &&& w.bytes_acked == v.bytes_acked + acked.fold_left(
                0int,
                |sum: int, p: AckedPacketInfo| sum + p.bytes_acked,
            )
            &&& w.bytes_sent == v.bytes_sent
            &&& w.bytes_lost == v.bytes_lost
            &&& w.round_trip_count == v.round_trip_count
            &&& acked.len() > 0 ==> after_acks(v, acked).1
                == v.sent[acked.last().packet_number]
        }),
    decreases acked.len(),
{
    if acked.len() > 0 {
        let less = acked.drop_last();
        let last = acked.last();
        assert forall|i: int| 0 <= i < less.len() implies v.sent.dom().contains(
            (#[trigger] less[i]).packet_number,
        ) by {
            assert(less[i] == acked[i]);
        }
        assert forall|i: int, j: int| 0 <= i < j < less.len() implies (
        #[trigger] less[i]).packet_number != (#[trigger] less[j]).packet_number by {
            assert(less[i] == acked[i] && less[j] == acked[j]);
        }
        law_arrived_bytes_are_counted(v, less);
        law_acks_forget(v, less, last.packet_number);
        assert(acked[acked.len() - 1] == last);
        assert forall|i: int| 0 <= i < less.len() implies (#[trigger] less[i]).packet_number
            != last.packet_number by {
            assert(less[i] == acked[i]);
        }
    }
}

/// Packets that got lost are counted by their bytes, each of those that the
/// sampler knew once; nothing else of the numbers changes.
pub proof fn law_lost_bytes_are_counted(v: SamplerView, lost: Seq<LostPacketInfo>)
    requires
        forall|i: int|
            0 <= i < lost.len() ==> v.sent.dom().contains((#[trigger] lost[i]).packet_number),
        forall|i: int, j: int|
            0 <= i < j < lost.len() ==> (#[trigger] lost[i]).packet_number != (
            #[trigger] lost[j]).packet_number,
    ensures
        ({
            let w = after_losses(v, lost);
            &&& w.bytes_lost == v.bytes_lost + lost.fold_left(
                0int,
                |sum: int, p: LostPacketInfo| sum + p.bytes_lost,
            )
            &&& w.bytes_sent == v.bytes_sent
            &&& w.bytes_acked == v.bytes_acked
            &&& w.round_trip_count == v.round_trip_count
        }),
    decreases lost.len(),
{
    if lost.len() > 0 {
        let less = lost.drop_last();
        let last = lost.last();
        assert forall|i: int| 0 <= i < less.len() implies v.sent.dom().contains(
            (#[trigger] less[i]).packet_number,
        ) by {
            assert(less[i] == lost[i]);
        }
        assert forall|i: int, j: int| 0 <= i < j < less.len() implies (
        #[trigger] less[i]).packet_number != (#[trigger] less[j]).packet_number by {
            assert(less[i] == lost[i] && less[j] == lost[j]);
        }
        law_lost_bytes_are_counted(v, less);
        law_losses_forget(v, less, last.packet_number);
        assert(lost[lost.len() - 1] == last);
        assert forall|i: int| 0 <= i < less.len() implies (#[trigger] less[i]).packet_number
            != last.packet_number by {
            assert(less[i] == lost[i]);
        }
    }
}

/// Packets that the sampler does not know change nothing: a packet that has
/// arrived or got lost before is not counted again.
pub proof fn law_unknown_packets_do_not_count(
    v: SamplerView,
    acked: Seq<AckedPacketInfo>,
    lost: Seq<LostPacketInfo>,
)
    requires
        forall|i: int|
            0 <= i < acked.len() ==> !v.sent.dom().contains((#[trigger] acked[i]).packet_number),
        forall|i: int|
            0 <= i < lost.len() ==> !v.sent.dom().contains((#[trigger] lost[i]).packet_number),
    ensures
        after_acks(v, acked).0 == v,
        after_losses(v, lost) == v,
    decreases acked.len() + lost.len(),
{
    if acked.len() > 0 {
        let less = acked.drop_last();
        assert forall|i: int| 0 <= i < less.len() implies !v.sent.dom().contains(
            (#[trigger] less[i]).packet_number,
        ) by {
            assert(less[i] == acked[i]);
        }
        law_unknown_packets_do_not_count(v, less, lost);
        assert(acked[acked.len() - 1] == acked.last());
    } else if lost.len() > 0 {
        let less = lost.drop_last();
        assert forall|i: int| 0 <= i < less.len() implies !v.sent.dom().contains(
            (#[trigger] less[i]).packet_number,
        ) by {
            assert(less[i] == lost[i]);
        }
        law_unknown_packets_do_not_count(v, acked, less);
        assert(lost[lost.len() - 1] == lost.last());
    }
}

/// A packet that is sent again when it gets lost is known from then on, with how
/// things stood, itself counted as sent; another one is only counted.
pub proof fn law_sent_packet_is_known(
    v: SamplerView,
    number: PacketNumber,
    bytes: ByteCount,
    in_flight: ByteCount,
    other: PacketNumber,
)
    requires
        i64::MIN <= v.bytes_sent + bytes <= i64::MAX,
        i64::MIN <= v.bytes_acked <= i64::MAX,
        i64::MIN <= v.bytes_lost <= i64::MAX,
        other != number,
    ensures
        ({
            let w = after_sent(v, number, bytes, in_flight, true);
            &&& w.sent.dom().contains(number)
            &&& w.sent[number].is_valid
            &&& w.sent[number].is_app_limited == v.is_app_limited
            &&& w.sent[number].total_bytes_sent == v.bytes_sent + bytes
            &&& w.sent[number].total_bytes_acked == v.bytes_acked
            &&& w.sent[number].total_bytes_lost == v.bytes_lost
            &&& w.sent[number].bytes_in_flight == in_flight
            &&& w.sent.dom().contains(other) <==> v.sent.dom().contains(other)
            &&& v.sent.dom().contains(other) ==> w.sent[other] == v.sent[other]
            &&& w.bytes_sent == v.bytes_sent + bytes
            &&& w.bytes_acked == v.bytes_acked && w.bytes_lost == v.bytes_lost
        }),
        ({
            let w = after_sent(v, number, bytes, in_flight, false);
            &&& w.sent == v.sent
            &&& w.bytes_sent == v.bytes_sent + bytes
            &&& w.bytes_acked == v.bytes_acked && w.bytes_lost == v.bytes_lost
        }),
{
}

} // verus!
