//! Sending at a fixed rate, faster by as much as gets lost.

use vstd::prelude::*;

use crate::hysteria::congestion::pacer::{as_signed, fresh_pacer, Pacer};
use crate::hysteria::congestion::types::{
    AckedPacketInfo, ByteCount, CongestionControl, Link, LostPacketInfo, MonoTime, PacketNumber,
    INITIAL_PACKET_SIZE,
};

verus! {

/// For how many seconds packets are counted.
pub const PKT_INFO_SLOT_COUNT: usize = 5;

/// How many packets make a sample.
pub const MIN_SAMPLE_COUNT: u64 = 50;

/// The window where the round trip is not known.
pub const UNKNOWN_RTT_WINDOW: ByteCount = 10_240;

/// What was counted in one second.
#[derive(Debug, Clone, Copy, PartialEq, Eq, Structural)]
pub struct PktInfo {
    pub timestamp: i64,
    pub ack_count: u64,
    pub loss_count: u64,
}

/// Which part of the packets arrives: `acked` out of `total`.
#[derive(Debug, Clone, Copy, PartialEq, Eq, Structural)]
pub struct AckRate {
    pub acked: u64,
    pub total: u64,
}

/// The packets that have arrived since `from`.
pub open spec fn acks_since(slots: Seq<PktInfo>, from: int) -> nat
    decreases slots.len(),
{
    if slots.len() == 0 {
        0
    } else {
        acks_since(slots.drop_last(), from) + if slots.last().timestamp < from {
            0
        } else {
            slots.last().ack_count as nat
        }
    }
}

/// The packets that got lost since `from`.
pub open spec fn losses_since(slots: Seq<PktInfo>, from: int) -> nat
    decreases slots.len(),
{
    if slots.len() == 0 {
        0
    } else {
        losses_since(slots.drop_last(), from) + if slots.last().timestamp < from {
            0
        } else {
            slots.last().loss_count as nat
        }
    }
}

/// The counts of a second with more of them.
pub open spec fn recorded(slots: Seq<PktInfo>, now: int, acks: nat, losses: nat) -> Seq<PktInfo> {
    let at = now % 5;
    let was = slots[at];
    slots.update(
        at,
        if was.timestamp == now {
            PktInfo {
                timestamp: was.timestamp,
                ack_count: (was.ack_count + acks) as u64,
                loss_count: (was.loss_count + losses) as u64,
            }
        } else {
            PktInfo { timestamp: now as i64, ack_count: acks as u64, loss_count: losses as u64 }
        },
    )
}

/// The part that arrives out of so many: all of them where they are too few to
/// tell, and never less than four fifths.
pub open spec fn rate_from(acks: nat, losses: nat) -> AckRate {
    let total = acks + losses;
    if total < MIN_SAMPLE_COUNT {
        AckRate { acked: 1, total: 1 }
    } else if acks * 5 < total * 4 {
        AckRate { acked: 4, total: 5 }
    } else {
        AckRate { acked: acks as u64, total: total as u64 }
    }
}

/// A count, as far as it can be counted.
pub open spec fn countable(n: nat) -> nat {
    if n > u64::MAX {
        u64::MAX as nat
    } else {
        n
    }
}

/// The packets that have arrived since `from`, as far as they can be counted.
pub open spec fn acks_counted(slots: Seq<PktInfo>, from: int) -> nat {
    countable(acks_since(slots, from))
}

/// The packets that got lost since `from`, as far as they can be counted.
pub open spec fn losses_counted(slots: Seq<PktInfo>, from: int) -> nat {
    countable(losses_since(slots, from))
}

/// The part that arrives as a sender takes it: all of them where it does not
/// make up for losses.
pub open spec fn rate_taken(compensates: bool, acks: nat, losses: nat) -> AckRate {
    if compensates {
        rate_from(acks, losses)
    } else {
        AckRate { acked: 1, total: 1 }
    }
}

/// The contents of a sender.
pub struct BrutalView {
    pub bps: ByteCount,
    /// Whether losses are made up for.
    pub compensates: bool,
    pub max_datagram_size: ByteCount,
    /// The counts, by the second modulo the number of slots.
    pub slots: Seq<PktInfo>,
    pub ack_rate: AckRate,
    pub pacer: Pacer,
}

/// A new sender.
pub open spec fn fresh_brutal(bps: ByteCount, compensates: bool) -> BrutalView {
    BrutalView {
        bps,
        compensates,
        max_datagram_size: 1200,
        slots: Seq::new(5, |i: int| PktInfo { timestamp: 0, ack_count: 0, loss_count: 0 }),
        ack_rate: AckRate { acked: 1, total: 1 },
        pacer: fresh_pacer(),
    }
}

/// The second that a time lies in.
pub open spec fn second_of(at: MonoTime) -> int {
    at as int / 1_000_000_000
}

/// Sends at a fixed rate.
pub struct BrutalSender {
    pub bps: ByteCount,
    pub compensates: bool,
    pub max_datagram_size: ByteCount,
    pub pkt_info_slots: Vec<PktInfo>,
    pub ack_rate: AckRate,
    pub pacer: Pacer,
}

impl View for BrutalSender {
    type V = BrutalView;

    open spec fn view(&self) -> BrutalView {
        BrutalView {
            bps: self.bps,
            compensates: self.compensates,
            max_datagram_size: self.max_datagram_size,
            slots: self.pkt_info_slots@,
            ack_rate: self.ack_rate,
            pacer: self.pacer,
        }
    }
}

impl BrutalSender {
    /// A sender at `bps` bytes per second that makes up for losses. What does
    /// not fit a signed number wraps around.
    pub fn new(bps: u64) -> (s: Self)
        ensures
            s.wf(),
            s@ == fresh_brutal(as_signed(bps) as i64, true),
    {
        Self::with_compensation(bps, true)
    }

    /// A sender at `bps` bytes per second that makes up for losses or does not.
    /// What does not fit a signed number wraps around.
    pub fn with_compensation(bps: u64, compensates: bool) -> (s: Self)
        ensures
            s.wf(),
            s@ == fresh_brutal(as_signed(bps) as i64, compensates),
    {
        let signed: i64 = if bps > 0x7FFF_FFFF_FFFF_FFFF {
            (bps as i128 - 0x1_0000_0000_0000_0000) as i64
        } else {
            bps as i64
        };
        let empty = PktInfo { timestamp: 0, ack_count: 0, loss_count: 0 };
        let mut slots: Vec<PktInfo> = Vec::new();
        let mut i: usize = 0;
        while i < PKT_INFO_SLOT_COUNT
            invariant
                i <= 5,
                slots@.len() == i,
                forall|k: int| 0 <= k < i ==> slots@[k] == empty,
            decreases 5 - i,
        {
            slots.push(empty);
            i += 1;
        }
        let s = BrutalSender {
            bps: signed,
            compensates,
            max_datagram_size: INITIAL_PACKET_SIZE,
            pkt_info_slots: slots,
            ack_rate: AckRate { acked: 1, total: 1 },
            pacer: Pacer::new(),
        };
        assert(s@.slots =~= fresh_brutal(signed, compensates).slots);
        s
    }

    /// Which part of the packets arrives.
    pub fn ack_rate(&self) -> (r: AckRate)
        ensures
            r == self@.ack_rate,
    {
        self.ack_rate
    }

    /// The rate, in bytes per second.
    pub fn bps(&self) -> (n: ByteCount)
        ensures
            n == self@.bps,
    {
        self.bps
    }

    fn update_ack_rate(&mut self, now: i64)
        requires
            0 <= now,
            acks_counted(old(self)@.slots, now - 5) + losses_counted(old(self)@.slots, now - 5)
                <= u64::MAX,
        ensures
            final(self)@ == (BrutalView {
                ack_rate: rate_taken(
                    old(self)@.compensates,
                    acks_counted(old(self)@.slots, now - 5),
                    losses_counted(old(self)@.slots, now - 5),
                ),
                ..old(self)@
            }),
    {
        let from: i64 = now - PKT_INFO_SLOT_COUNT as i64;
        let ghost slots = self@.slots;
        let mut acks: u64 = 0;
        let mut losses: u64 = 0;
        let mut i: usize = 0;
        assert(slots.take(slots.len() as int) =~= slots);
        while i < self.pkt_info_slots.len()
            invariant
                i <= slots.len(),
                slots == self.pkt_info_slots@,
                from == now - 5,
                acks == acks_counted(slots.take(i as int), from as int),
                losses == losses_counted(slots.take(i as int), from as int),
                *self == *old(self),
            decreases slots.len() - i,
        {
            proof {
                assert(slots.take(i + 1).drop_last() =~= slots.take(i as int));
            }
            let info = self.pkt_info_slots[i];
            if info.timestamp >= from {
                acks = acks.saturating_add(info.ack_count);
                losses = losses.saturating_add(info.loss_count);
            }
            i += 1;
        }
        assert(slots.take(i as int) =~= slots);
        let total: u64 = acks + losses;
        if !self.compensates || total < MIN_SAMPLE_COUNT {
            self.ack_rate = AckRate { acked: 1, total: 1 };
        } else if (acks as u128 * 5) < (total as u128 * 4) {
            self.ack_rate = AckRate { acked: 4, total: 5 };
        } else {
            self.ack_rate = AckRate { acked: acks, total };
        }
    }
}

impl CongestionControl for BrutalSender {
    open spec fn wf(&self) -> bool {
        self@.slots.len() == 5
    }

    open spec fn pacer_of(v: BrutalView) -> Pacer {
        v.pacer
    }

    open spec fn rate_of(v: BrutalView, link: Link) -> ByteCount {
        link.bandwidth
    }

    open spec fn datagram_size_of(v: BrutalView) -> ByteCount {
        v.max_datagram_size
    }

    open spec fn window_of(v: BrutalView, link: Link) -> ByteCount {
        if link.rtt_ns == 0 {
            UNKNOWN_RTT_WINDOW
        } else if link.window < v.max_datagram_size {
            v.max_datagram_size
        } else {
            link.window
        }
    }

    open spec fn admits(v: BrutalView, bytes_in_flight: ByteCount, link: Link) -> bool {
        bytes_in_flight <= Self::window_of(v, link)
    }

    open spec fn starting(v: BrutalView) -> bool {
        false
    }

    open spec fn recovering(v: BrutalView) -> bool {
        false
    }

    open spec fn sent(
        v: BrutalView,
        at: MonoTime,
        bytes_in_flight: ByteCount,
        number: PacketNumber,
        bytes: ByteCount,
        retransmittable: bool,
        link: Link,
    ) -> BrutalView {
        BrutalView { pacer: v.pacer.after_packet(at, bytes, link.bandwidth), ..v }
    }

    open spec fn can_count_sent(v: BrutalView, bytes: ByteCount) -> bool {
        true
    }

    open spec fn informed(
        v: BrutalView,
        prior_in_flight: ByteCount,
        at: MonoTime,
        acked: Seq<AckedPacketInfo>,
        lost: Seq<LostPacketInfo>,
    ) -> BrutalView {
        let slots = recorded(v.slots, second_of(at), acked.len(), lost.len());
        BrutalView {
            slots,
            ack_rate: rate_taken(
                v.compensates,
                acks_counted(slots, second_of(at) - 5),
                losses_counted(slots, second_of(at) - 5),
            ),
            ..v
        }
    }

    open spec fn can_count_event(
        v: BrutalView,
        prior_in_flight: ByteCount,
        at: MonoTime,
        acked: Seq<AckedPacketInfo>,
        lost: Seq<LostPacketInfo>,
    ) -> bool {
        let slots = recorded(v.slots, second_of(at), acked.len(), lost.len());
        let was = v.slots[second_of(at) % 5];
        &&& acked.len() <= u64::MAX && lost.len() <= u64::MAX
        &&& was.timestamp == second_of(at) ==> was.ack_count + acked.len() <= u64::MAX
            && was.loss_count + lost.len() <= u64::MAX
        &&& acks_counted(slots, second_of(at) - 5) + losses_counted(slots, second_of(at) - 5)
            <= u64::MAX
    }

    open spec fn resized(v: BrutalView, size: ByteCount) -> BrutalView {
        BrutalView {
            max_datagram_size: size,
            pacer: Pacer { max_datagram_size: size, ..v.pacer },
            ..v
        }
    }

    open spec fn can_resize(v: BrutalView, size: ByteCount) -> bool {
        true
    }

    fn time_until_send(&self, _bytes_in_flight: ByteCount, link: Link) -> (t: MonoTime) {
        self.pacer.time_until_send(link.bandwidth)
    }

    fn has_pacing_budget(&self, now: MonoTime, link: Link) -> (b: bool) {
        self.pacer.budget(now, link.bandwidth) >= self.max_datagram_size
    }

    fn can_send(&self, bytes_in_flight: ByteCount, link: Link) -> (b: bool) {
        bytes_in_flight <= self.congestion_window(link)
    }

    fn congestion_window(&self, link: Link) -> (n: ByteCount) {
        if link.rtt_ns == 0 {
            UNKNOWN_RTT_WINDOW
        } else if link.window < self.max_datagram_size {
            self.max_datagram_size
        } else {
            link.window
        }
    }

    fn on_packet_sent(
        &mut self,
        sent_time: MonoTime,
        _bytes_in_flight: ByteCount,
        _packet_number: PacketNumber,
        bytes: ByteCount,
        _is_retransmittable: bool,
        link: Link,
    ) {
        self.pacer.sent_packet(sent_time, bytes, link.bandwidth);
    }

    fn on_packet_acked(
        &mut self,
        _number: PacketNumber,
        _acked_bytes: ByteCount,
        _prior_in_flight: ByteCount,
        _event_time: MonoTime,
    ) {
    }

    fn on_congestion_event(
        &mut self,
        _number: PacketNumber,
        _lost_bytes: ByteCount,
        _prior_in_flight: ByteCount,
    ) {
    }

    fn on_congestion_event_ex(
        &mut self,
        _prior_in_flight: ByteCount,
        event_time: MonoTime,
        acked_packets: &[AckedPacketInfo],
        lost_packets: &[LostPacketInfo],
    ) {
        let now: i64 = (event_time / 1_000_000_000) as i64;
        let at: usize = (now % 5) as usize;
        let acks: u64 = acked_packets.len() as u64;
        let losses: u64 = lost_packets.len() as u64;
        let was = self.pkt_info_slots[at];
        let info = if was.timestamp == now {
            PktInfo {
                timestamp: was.timestamp,
                ack_count: was.ack_count + acks,
                loss_count: was.loss_count + losses,
            }
        } else {
            PktInfo { timestamp: now, ack_count: acks, loss_count: losses }
        };
        self.pkt_info_slots.set(at, info);
        assert(self@.slots =~= recorded(
            old(self)@.slots,
            second_of(event_time),
            acked_packets@.len(),
            lost_packets@.len(),
        ));
        self.update_ack_rate(now);
    }

    fn set_max_datagram_size(&mut self, size: ByteCount) {
        self.max_datagram_size = size;
        self.pacer.set_max_datagram_size(size);
    }

    fn in_slow_start(&self) -> (b: bool) {
        false
    }

    fn in_recovery(&self) -> (b: bool) {
        false
    }

    fn maybe_exit_slow_start(&mut self) {
    }

    fn on_retransmission_timeout(&mut self, _packets_retransmitted: bool) {
    }

    fn pacer(&self) -> (p: &Pacer) {
        &self.pacer
    }
}

/// However many packets get lost, the sender goes at most a quarter faster than
/// it is told to, and never slower.
pub proof fn law_ack_rate_bounded(compensates: bool, acks: nat, losses: nat)
    requires
        acks + losses <= u64::MAX,
    ensures
        ({
            let r = rate_taken(compensates, acks, losses);
            0 < r.total && r.acked <= r.total && 4 * r.total <= 5 * r.acked
        }),
{
}

/// A sender that does not make up for losses keeps to the rate that it is told,
/// whatever arrives and gets lost.
pub proof fn law_told_rate_is_kept(
    v: BrutalView,
    prior_in_flight: ByteCount,
    at: MonoTime,
    acked: Seq<AckedPacketInfo>,
    lost: Seq<LostPacketInfo>,
)
    requires
        !v.compensates,
    ensures
        ({
            let w = BrutalSender::informed(v, prior_in_flight, at, acked, lost);
            &&& w.ack_rate == AckRate { acked: 1, total: 1 }
            &&& w.bps == v.bps
            &&& !w.compensates
        }),
{
}

/// What was counted before the last five seconds and the present one does not
/// matter.
pub proof fn law_old_counts_expire(slots: Seq<PktInfo>, now: int)
    requires
        forall|i: int| 0 <= i < slots.len() ==> (#[trigger] slots[i]).timestamp < now - 5,
    ensures
        acks_since(slots, now - 5) == 0,
        losses_since(slots, now - 5) == 0,
        rate_from(0, 0) == (AckRate { acked: 1, total: 1 }),
    decreases slots.len(),
{
    if slots.len() > 0 {
        let less = slots.drop_last();
        assert forall|i: int| 0 <= i < less.len() implies (#[trigger] less[i]).timestamp < now
            - 5 by {
            assert(less[i] == slots[i]);
        }
        law_old_counts_expire(less, now);
        assert(slots[slots.len() - 1].timestamp < now - 5);
    }
}

/// A slot of the last five seconds, or of the present one, counts in full, and
/// an older one not at all, wherever it stands: without the slot the counts are
/// less by exactly what it holds.
pub proof fn law_each_recent_slot_counts(slots: Seq<PktInfo>, i: int, now: int)
    requires
        0 <= i < slots.len(),
    ensures
        slots[i].timestamp >= now - 5 ==> {
            &&& acks_since(slots, now - 5) == acks_since(slots.remove(i), now - 5)
                + slots[i].ack_count
            &&& losses_since(slots, now - 5) == losses_since(slots.remove(i), now - 5)
                + slots[i].loss_count
        },
        slots[i].timestamp < now - 5 ==> {
            &&& acks_since(slots, now - 5) == acks_since(slots.remove(i), now - 5)
            &&& losses_since(slots, now - 5) == losses_since(slots.remove(i), now - 5)
        },
    decreases slots.len(),
{
    let rest = slots.remove(i);
    if i == slots.len() - 1 {
        assert(rest =~= slots.drop_last());
    } else {
        law_each_recent_slot_counts(slots.drop_last(), i, now);
        assert(rest.drop_last() =~= slots.drop_last().remove(i));
        assert(rest.last() == slots.last());
    }
}

/// Where every slot is of the last five seconds or the present one, all that
/// the slots hold is counted.
pub proof fn law_recent_slots_count_in_full(slots: Seq<PktInfo>, now: int)
    requires
        forall|i: int|
            0 <= i < slots.len() ==> now - 5 <= (#[trigger] slots[i]).timestamp <= now,
    ensures
        acks_since(slots, now - 5) == slots.fold_left(
            0int,
            |sum: int, slot: PktInfo| sum + slot.ack_count,
        ),
        losses_since(slots, now - 5) == slots.fold_left(
            0int,
            |sum: int, slot: PktInfo| sum + slot.loss_count,
        ),
    decreases slots.len(),
{
    if slots.len() > 0 {
        let less = slots.drop_last();
        assert forall|i: int| 0 <= i < less.len() implies now - 5 <= (#[trigger] less[i]).timestamp
            <= now by {
            assert(less[i] == slots[i]);
        }
        law_recent_slots_count_in_full(less, now);
        assert(now - 5 <= slots[slots.len() - 1].timestamp);
    }
}

/// What a slot adds to the packets that arrived in the last five seconds and the
/// present one, and to those that got lost.
pub open spec fn slot_share(slot: PktInfo, now: int) -> (int, int) {
    if slot.timestamp >= now - 5 {
        (slot.ack_count as int, slot.loss_count as int)
    } else {
        (0, 0)
    }
}

/// An event is counted in the slot of its second, on top of what that second
/// counted before, and leaves the other slots alone. The rate is then the part
/// that arrived of all that was counted in the present second and in the five
/// before it, so that packets of earlier seconds still make up the sample.
pub proof fn law_event_joins_recent_seconds(
    v: BrutalView,
    prior_in_flight: ByteCount,
    at: MonoTime,
    acked: Seq<AckedPacketInfo>,
    lost: Seq<LostPacketInfo>,
)
    requires
        v.slots.len() == 5,
        v.compensates,
        BrutalSender::can_count_event(v, prior_in_flight, at, acked, lost),
    ensures
        ({
            let now = at as int / 1_000_000_000;
            let w = BrutalSender::informed(v, prior_in_flight, at, acked, lost);
            let was = v.slots[now % 5];
            let new = w.slots[now % 5];
            let (a0, l0) = slot_share(w.slots[0], now);
            let (a1, l1) = slot_share(w.slots[1], now);
            let (a2, l2) = slot_share(w.slots[2], now);
            let (a3, l3) = slot_share(w.slots[3], now);
            let (a4, l4) = slot_share(w.slots[4], now);
            let acks = a0 + a1 + a2 + a3 + a4;
            let total = acks + l0 + l1 + l2 + l3 + l4;
            &&& w.slots.len() == 5
            &&& forall|k: int| 0 <= k < 5 && k != now % 5 ==> #[trigger] w.slots[k] == v.slots[k]
            &&& new.timestamp == now
            &&& new.ack_count == acked.len() + if was.timestamp == now {
                was.ack_count as int
            } else {
                0
            }
            &&& new.loss_count == lost.len() + if was.timestamp == now {
                was.loss_count as int
            } else {
                0
            }
            &&& total < 50 ==> w.ack_rate.acked == w.ack_rate.total > 0
            &&& 50 <= total <= u64::MAX && 5 * acks >= 4 * total ==> w.ack_rate.acked == acks
                && w.ack_rate.total == total
            &&& 50 <= total <= u64::MAX && 5 * acks < 4 * total ==> 5 * w.ack_rate.acked == 4
                * w.ack_rate.total && w.ack_rate.total > 0
            &&& w.bps == v.bps
            &&& w.compensates
            &&& w.pacer == v.pacer
            &&& w.max_datagram_size == v.max_datagram_size
        }),
{
    let now = at as int / 1_000_000_000;
    let w = BrutalSender::informed(v, prior_in_flight, at, acked, lost);
    let s = w.slots;
    let s4 = s.drop_last();
    let s3 = s4.drop_last();
    let s2 = s3.drop_last();
    let s1 = s2.drop_last();
    assert(s1.drop_last() =~= Seq::empty());
    assert(acks_since(s1.drop_last(), now - 5) == 0);
    assert(losses_since(s1.drop_last(), now - 5) == 0);
    assert(acks_since(s1, now - 5) == slot_share(s[0], now).0);
    assert(losses_since(s1, now - 5) == slot_share(s[0], now).1);
    assert(acks_since(s2, now - 5) == acks_since(s1, now - 5) + slot_share(s[1], now).0);
    assert(losses_since(s2, now - 5) == losses_since(s1, now - 5) + slot_share(s[1], now).1);
    assert(acks_since(s3, now - 5) == acks_since(s2, now - 5) + slot_share(s[2], now).0);
    assert(losses_since(s3, now - 5) == losses_since(s2, now - 5) + slot_share(s[2], now).1);
    assert(acks_since(s4, now - 5) == acks_since(s3, now - 5) + slot_share(s[3], now).0);
    assert(losses_since(s4, now - 5) == losses_since(s3, now - 5) + slot_share(s[3], now).1);
    assert(acks_since(s, now - 5) == acks_since(s4, now - 5) + slot_share(s[4], now).0);
    assert(losses_since(s, now - 5) == losses_since(s4, now - 5) + slot_share(s[4], now).1);
}

/// Packets that arrived or got lost in one second are still counted with those
/// of the next four: two events less than five seconds apart, the later one of
/// them sees the counts of both.
pub proof fn law_earlier_second_still_counts(
    v: BrutalView,
    first: MonoTime,
    second: MonoTime,
    acked: Seq<AckedPacketInfo>,
    lost: Seq<LostPacketInfo>,
    later_acked: Seq<AckedPacketInfo>,
    later_lost: Seq<LostPacketInfo>,
)
    requires
        v.slots.len() == 5,
        BrutalSender::can_count_event(v, 0, first, acked, lost),
        ({
            let mid = BrutalSender::informed(v, 0, first, acked, lost);
            BrutalSender::can_count_event(mid, 0, second, later_acked, later_lost)
        }),
        first as int / 1_000_000_000 < second as int / 1_000_000_000 < first as int / 1_000_000_000
            + 5,
    ensures
        ({
            let mid = BrutalSender::informed(v, 0, first, acked, lost);
            let end = BrutalSender::informed(mid, 0, second, later_acked, later_lost);
            let now = second as int / 1_000_000_000;
            &&& acks_since(end.slots, now - 5) >= acked.len() + later_acked.len()
            &&& losses_since(end.slots, now - 5) >= lost.len() + later_lost.len()
        }),
{
    let mid = BrutalSender::informed(v, 0, first, acked, lost);
    let end = BrutalSender::informed(mid, 0, second, later_acked, later_lost);
    let now = second as int / 1_000_000_000;
    let before = first as int / 1_000_000_000;
    let i = now % 5;
    let j = before % 5;
    let s = end.slots;
    assert(i != j);
    law_each_recent_slot_counts(s, i, now);
    let rest = s.remove(i);
    let k = if j < i {
        j
    } else {
        j - 1
    };
    assert(rest[k] == s[j]);
    law_each_recent_slot_counts(rest, k, now);
}

/// While the round trip is not known so much may be on its way; once it is, what
/// fills the path, and always a packet.
pub proof fn law_brutal_window(v: BrutalView, link: Link, in_flight: ByteCount)
    ensures
        link.rtt_ns == 0 ==> BrutalSender::window_of(v, link) == 10_240,
        link.rtt_ns != 0 ==> BrutalSender::window_of(v, link) == vstd::math::max(
            link.window as int,
            v.max_datagram_size as int,
        ),
        BrutalSender::admits(v, in_flight, link) <==> in_flight <= BrutalSender::window_of(v, link),
{
}

/// A new sender sends at the rate that it is told, as if everything arrived, and
/// has counted nothing.
pub proof fn law_brutal_starts_at_the_rate(bps: ByteCount, compensates: bool, i: int)
    requires
        0 <= i < 5,
    ensures
        ({
            let v = fresh_brutal(bps, compensates);
            &&& v.bps == bps
            &&& v.compensates == compensates
            &&& v.max_datagram_size == 1200
            &&& v.ack_rate.acked == v.ack_rate.total > 0
            &&& v.slots.len() == 5
            &&& v.slots[i].ack_count == 0 && v.slots[i].loss_count == 0
        }),
{
}

/// A packet passes the pacer at the rate of the path, and changes nothing else;
/// packets of another size change that size for the sender and its pacer.
pub proof fn law_brutal_packets_are_paced(
    v: BrutalView,
    at: MonoTime,
    in_flight: ByteCount,
    number: PacketNumber,
    bytes: ByteCount,
    retransmittable: bool,
    link: Link,
    size: ByteCount,
)
    ensures
        ({
            let w = BrutalSender::sent(v, at, in_flight, number, bytes, retransmittable, link);
            &&& w.pacer == v.pacer.after_packet(at, bytes, link.bandwidth)
            &&& w == (BrutalView { pacer: w.pacer, ..v })
            &&& BrutalSender::rate_of(v, link) == link.bandwidth
            &&& BrutalSender::datagram_size_of(v) == v.max_datagram_size
        }),
        ({
            let w = BrutalSender::resized(v, size);
            &&& w.max_datagram_size == size && w.pacer.max_datagram_size == size
            &&& w.slots == v.slots && w.ack_rate == v.ack_rate && w.bps == v.bps
            &&& w.pacer.budget_at_last_sent == v.pacer.budget_at_last_sent
        }),
{
}

} // verus!
