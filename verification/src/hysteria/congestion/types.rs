//! Numbers and packets.

use vstd::prelude::*;

use crate::hysteria::congestion::pacer::Pacer;

verus! {

/// A number of bytes.
pub type ByteCount = i64;

/// The number of a packet.
pub type PacketNumber = i64;

/// A time in nanoseconds since some start.
pub type MonoTime = u64;

/// The size of the first packets.
pub const INITIAL_PACKET_SIZE: ByteCount = 1200;

/// The shortest pause between two packets, in nanoseconds.
pub const MIN_PACING_DELAY_NS: u64 = 1_000_000;

/// The number of no packet.
pub const INVALID_PACKET_NUMBER: PacketNumber = -1;

/// A packet that has arrived.
#[derive(Debug, Clone, Copy, PartialEq, Eq, Structural)]
pub struct AckedPacketInfo {
    pub packet_number: PacketNumber,
    pub bytes_acked: ByteCount,
    pub receive_time_ns: MonoTime,
}

/// A packet that is lost.
#[derive(Debug, Clone, Copy, PartialEq, Eq, Structural)]
pub struct LostPacketInfo {
    pub packet_number: PacketNumber,
    pub bytes_lost: ByteCount,
}

/// What a sender is told of the path when it decides: the round trip, and what
/// its own formulas make of it.
#[derive(Debug, Clone, Copy, PartialEq, Eq, Structural)]
pub struct Link {
    /// The smoothed round trip in nanoseconds, zero where it is not known.
    pub rtt_ns: u64,
    /// The rate that packets are spread at, in bytes per second.
    pub bandwidth: ByteCount,
    /// The bytes that fill the path.
    pub window: ByteCount,
}

/// Deciding how fast to send. What a sender is and does is given over its
/// contents.
pub trait CongestionControl: View {
    /// Whether the contents are consistent.
    spec fn wf(&self) -> bool;

    /// What spreads the packets.
    spec fn pacer_of(v: Self::V) -> Pacer;

    /// The rate that packets are spread at.
    spec fn rate_of(v: Self::V, link: Link) -> ByteCount;

    /// The size of a packet.
    spec fn datagram_size_of(v: Self::V) -> ByteCount;

    /// How much may be on its way.
    spec fn window_of(v: Self::V, link: Link) -> ByteCount;

    /// Whether more may be sent while so much is on its way.
    spec fn admits(v: Self::V, bytes_in_flight: ByteCount, link: Link) -> bool;

    /// Whether the sender has not yet found out what the path carries.
    spec fn starting(v: Self::V) -> bool;

    /// Whether the sender makes up for losses.
    spec fn recovering(v: Self::V) -> bool;

    /// The sender after a packet.
    spec fn sent(
        v: Self::V,
        at: MonoTime,
        bytes_in_flight: ByteCount,
        number: PacketNumber,
        bytes: ByteCount,
        retransmittable: bool,
        link: Link,
    ) -> Self::V;

    /// Whether a packet can be counted.
    spec fn can_count_sent(v: Self::V, bytes: ByteCount) -> bool;

    /// The sender after packets have arrived and got lost.
    spec fn informed(
        v: Self::V,
        prior_in_flight: ByteCount,
        at: MonoTime,
        acked: Seq<AckedPacketInfo>,
        lost: Seq<LostPacketInfo>,
    ) -> Self::V;

    /// Whether they can be counted.
    spec fn can_count_event(
        v: Self::V,
        prior_in_flight: ByteCount,
        at: MonoTime,
        acked: Seq<AckedPacketInfo>,
        lost: Seq<LostPacketInfo>,
    ) -> bool;

    /// The sender with packets of another size.
    spec fn resized(v: Self::V, size: ByteCount) -> Self::V;

    /// Whether packets can have that size.
    spec fn can_resize(v: Self::V, size: ByteCount) -> bool;

    /// When the next packet may be sent, zero for at once.
    fn time_until_send(&self, bytes_in_flight: ByteCount, link: Link) -> (t: MonoTime)
        requires
            self.wf(),
            Self::pacer_of(self@).max_datagram_size - Self::pacer_of(self@).budget_at_last_sent
                <= i64::MAX,
        ensures
            t == Self::pacer_of(self@).next_send(Self::rate_of(self@, link)),
    ;

    /// Whether a packet may be sent now as far as spreading goes.
    fn has_pacing_budget(&self, now: MonoTime, link: Link) -> (b: bool)
        requires
            self.wf(),
            Self::pacer_of(self@).burst_fits(Self::rate_of(self@, link)),
        ensures
            b == (Self::pacer_of(self@).budget_at(now, Self::rate_of(self@, link))
                >= Self::datagram_size_of(self@)),
    ;

    /// Whether more may be sent while so much is on its way.
    fn can_send(&self, bytes_in_flight: ByteCount, link: Link) -> (b: bool)
        requires
            self.wf(),
        ensures
            b == Self::admits(self@, bytes_in_flight, link),
    ;

    /// How much may be on its way.
    fn congestion_window(&self, link: Link) -> (n: ByteCount)
        requires
            self.wf(),
        ensures
            n == Self::window_of(self@, link),
    ;

    /// A packet was sent.
    fn on_packet_sent(
        &mut self,
        sent_time: MonoTime,
        bytes_in_flight: ByteCount,
        packet_number: PacketNumber,
        bytes: ByteCount,
        is_retransmittable: bool,
        link: Link,
    )
        requires
            old(self).wf(),
            Self::pacer_of(old(self)@).burst_fits(Self::rate_of(old(self)@, link)),
            Self::pacer_of(old(self)@).budget_at(sent_time, Self::rate_of(old(self)@, link))
                - bytes <= i64::MAX,
            Self::can_count_sent(old(self)@, bytes),
        ensures
            final(self).wf(),
            final(self)@ == Self::sent(
                old(self)@,
                sent_time,
                bytes_in_flight,
                packet_number,
                bytes,
                is_retransmittable,
                link,
            ),
    ;

    /// A packet has arrived. It is counted with its batch.
    fn on_packet_acked(
        &mut self,
        number: PacketNumber,
        acked_bytes: ByteCount,
        prior_in_flight: ByteCount,
        event_time: MonoTime,
    )
        requires
            old(self).wf(),
        ensures
            final(self).wf(),
            final(self)@ == old(self)@,
    ;

    /// A packet got lost. It is counted with its batch.
    fn on_congestion_event(
        &mut self,
        number: PacketNumber,
        lost_bytes: ByteCount,
        prior_in_flight: ByteCount,
    )
        requires
            old(self).wf(),
        ensures
            final(self).wf(),
            final(self)@ == old(self)@,
    ;

    /// Packets have arrived and got lost.
    fn on_congestion_event_ex(
        &mut self,
        prior_in_flight: ByteCount,
        event_time: MonoTime,
        acked_packets: &[AckedPacketInfo],
        lost_packets: &[LostPacketInfo],
    )
        requires
            old(self).wf(),
            Self::can_count_event(
                old(self)@,
                prior_in_flight,
                event_time,
                acked_packets@,
                lost_packets@,
            ),
        ensures
            final(self).wf(),
            final(self)@ == Self::informed(
                old(self)@,
                prior_in_flight,
                event_time,
                acked_packets@,
                lost_packets@,
            ),
    ;

    /// Changes the size of a packet.
    fn set_max_datagram_size(&mut self, size: ByteCount)
        requires
            old(self).wf(),
            Self::can_resize(old(self)@, size),
        ensures
            final(self).wf(),
            final(self)@ == Self::resized(old(self)@, size),
    ;

    /// Whether the sender has not yet found out what the path carries.
    fn in_slow_start(&self) -> (b: bool)
        ensures
            b == Self::starting(self@),
    ;

    /// Whether the sender makes up for losses.
    fn in_recovery(&self) -> (b: bool)
        ensures
            b == Self::recovering(self@),
    ;

    /// A hint that changes nothing.
    fn maybe_exit_slow_start(&mut self)
        requires
            old(self).wf(),
        ensures
            final(self).wf(),
            final(self)@ == old(self)@,
    ;

    /// A hint that changes nothing.
    fn on_retransmission_timeout(&mut self, packets_retransmitted: bool)
        requires
            old(self).wf(),
        ensures
            final(self).wf(),
            final(self)@ == old(self)@,
    ;

    /// What spreads the packets.
    fn pacer(&self) -> (p: &Pacer)
        ensures
            *p == Self::pacer_of(self@),
    ;
}

} // verus!
