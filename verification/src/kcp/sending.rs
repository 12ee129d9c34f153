//! The sending half of a connection: segments that wait for their
//! acknowledgement, and the windows that say how many may be on their way.

use std::collections::VecDeque;

use vstd::prelude::*;

use crate::kcp::buffer::Buffer;
use crate::kcp::config::{in_flight_size, Config, ConfigExt};
use crate::kcp::output::SegmentWriter;
use crate::kcp::receiving::option_in;
use crate::kcp::round_trip::{after_sample, wrap32, RoundTripInfo};
use crate::kcp::segment::{
    lemma_data_wire_len, wrapping_distance, AckSegment, AckView, DataSegment, DataView, DATA_SEGMENT_OVERHEAD,
    SEGMENT_OPTION_CLOSE,
};
use crate::kcp::state::State;

verus! {

/// The contents of segments.
pub open spec fn data_views(segs: Seq<DataSegment>) -> Seq<DataView> {
    Seq::new(segs.len(), |i: int| segs[i]@)
}

/// The segments from the first one on whose number is not below `una`.
pub open spec fn drop_below(segs: Seq<DataView>, una: u32) -> Seq<DataView>
    decreases segs.len(),
{
    if segs.len() > 0 && segs[0].number < una {
        drop_below(segs.skip(1), una)
    } else {
        segs
    }
}

/// How many segments stand before the first one with that number.
pub open spec fn leading(segs: Seq<DataView>, number: u32) -> nat
    decreases segs.len(),
{
    if segs.len() == 0 || segs[0].number == number {
        0
    } else {
        1 + leading(segs.skip(1), number)
    }
}

/// Whether a segment has that number.
pub open spec fn has_number(segs: Seq<DataView>, number: u32) -> bool {
    exists|i: int| 0 <= i < segs.len() && #[trigger] segs[i].number == number
}

/// Whether the acknowledgement of `number` says nothing about `seg`, because
/// `seg` is that segment or a later one.
pub open spec fn not_skipped(seg: DataView, number: u32) -> bool {
    number == seg.number || wrapping_distance(number, seg.number) > 0x7FFF_FFFF
}

/// A segment that was passed over by an acknowledgement: where it was sent, it
/// is sent again a third of the timeout earlier.
pub open spec fn hurried(seg: DataView, rto: u32) -> DataView {
    if seg.transmit > 0 && seg.timeout > rto / 3 {
        DataView { timeout: (seg.timeout - rto / 3) as u32, ..seg }
    } else {
        seg
    }
}

/// The segments after an acknowledgement of `number`: those before the first
/// one that it does not pass over are sent again earlier.
pub open spec fn after_fast_ack(segs: Seq<DataView>, number: u32, rto: u32) -> Seq<DataView> {
    Seq::new(
        segs.len(),
        |i: int|
            if forall|j: int| 0 <= j <= i ==> !not_skipped(#[trigger] segs[j], number) {
                hurried(segs[i], rto)
            } else {
                segs[i]
            },
    )
}

/// Whether it is time to send the segment.
pub open spec fn is_expired(seg: DataView, current: u32) -> bool {
    wrapping_distance(current, seg.timeout) < 0x7FFF_FFFF
}

/// How many of the segments it is time to send.
pub open spec fn expired_count(segs: Seq<DataView>, current: u32) -> nat
    decreases segs.len(),
{
    if segs.len() == 0 {
        0
    } else {
        expired_count(segs.drop_last(), current) + (if is_expired(segs.last(), current) {
            1nat
        } else {
            0
        })
    }
}

/// What a round of sending is made with.
pub struct SendRound {
    pub current: u32,
    pub rto: u32,
    /// The most segments to send, but one is always sent.
    pub max_in_flight: u32,
    pub conv: u16,
    pub state: State,
    pub first_unacknowledged: u32,
}

/// Whether the `i`-th segment is sent in the round: it is time to, and fewer
/// than the round's most stand before it.
pub open spec fn is_chosen(segs: Seq<DataView>, round: SendRound, i: int) -> bool {
    let most = if round.max_in_flight == 0 {
        1
    } else {
        round.max_in_flight
    };
    is_expired(segs[i], round.current) && expired_count(segs.take(i), round.current) < most
}

/// A segment as it is sent in the round.
pub open spec fn stamped(seg: DataView, round: SendRound) -> DataView {
    DataView {
        timeout: wrap32(round.current + round.rto),
        timestamp: round.current,
        transmit: wrap32(seg.transmit + 1),
        conv: round.conv,
        option: option_in(round.state),
        sending_next: round.first_unacknowledged,
        ..seg
    }
}

/// The window after the round.
pub open spec fn after_round(segs: Seq<DataView>, round: SendRound) -> Seq<DataView> {
    Seq::new(
        segs.len(),
        |i: int|
            if is_chosen(segs, round, i) {
                stamped(segs[i], round)
            } else {
                segs[i]
            },
    )
}

/// The segments that the round sends, of the first `n` in the window.
pub open spec fn round_sends(segs: Seq<DataView>, round: SendRound, n: nat) -> Seq<DataView>
    decreases n,
{
    if n == 0 {
        Seq::empty()
    } else {
        let before = round_sends(segs, round, (n - 1) as nat);
        if is_chosen(segs, round, n - 1) {
            before.push(stamped(segs[n - 1], round))
        } else {
            before
        }
    }
}

/// How many of the segments that the round sends were sent before.
pub open spec fn round_lost(segs: Seq<DataView>, round: SendRound, n: nat) -> nat
    decreases n,
{
    if n == 0 {
        0
    } else {
        round_lost(segs, round, (n - 1) as nat) + (if is_chosen(segs, round, n - 1)
            && segs[n - 1].transmit != 0 {
            1nat
        } else {
            0
        })
    }
}

/// The contents of a [`SendingWindow`].
pub struct WindowView {
    pub segs: Seq<DataView>,
    /// The segments that were sent and not acknowledged one by one.
    pub in_flight: u32,
}

/// The segments that wait for their acknowledgement, in the order of sending.
pub struct SendingWindow {
    cache: VecDeque<DataSegment>,
    total_in_flight_size: u32,
}

impl View for SendingWindow {
    type V = WindowView;

    closed spec fn view(&self) -> WindowView {
        WindowView { segs: data_views(self.cache@), in_flight: self.total_in_flight_size }
    }
}

/// What a round of sending came to.
pub struct FlushPreparation {
    pub to_send: Vec<DataSegment>,
    /// How many of them were sent before.
    pub lost: u32,
    pub in_flight: u32,
    pub total_in_flight_size: u32,
}

proof fn lemma_leading(segs: Seq<DataView>, number: u32, n: int)
    requires
        0 <= n <= segs.len(),
        forall|k: int| 0 <= k < n ==> (#[trigger] segs[k]).number != number,
        n < segs.len() ==> segs[n].number == number,
    ensures
        leading(segs, number) == n,
    decreases n,
{
    if n > 0 {
        let tail = segs.skip(1);
        assert forall|k: int| 0 <= k < n - 1 implies (#[trigger] tail[k]).number != number by {
            assert(tail[k] == segs[k + 1]);
        }
        lemma_leading(tail, number, n - 1);
    }
}

proof fn lemma_expired_count_bound(segs: Seq<DataView>, current: u32)
    ensures
        expired_count(segs, current) <= segs.len(),
    decreases segs.len(),
{
    if segs.len() > 0 {
        lemma_expired_count_bound(segs.drop_last(), current);
    }
}

impl SendingWindow {
    /// An empty window.
    pub fn new() -> (w: Self)
        ensures
            w@ == (WindowView { segs: Seq::empty(), in_flight: 0 }),
    {
        let w = SendingWindow { cache: VecDeque::new(), total_in_flight_size: 0 };
        assert(w@.segs =~= Seq::<DataView>::empty());
        w
    }

    /// Drops every segment.
    pub fn release(&mut self)
        ensures
            final(self)@ == (WindowView { segs: Seq::empty(), ..old(self)@ }),
    {
        self.cache.clear();
        assert(self@.segs =~= Seq::<DataView>::empty());
    }

    /// The number of segments, in thirty-two bits.
    pub fn len(&self) -> (n: u32)
        ensures
            n == self@.segs.len() % 0x1_0000_0000,
    {
        (self.cache.len() as u64 % 0x1_0000_0000) as u32
    }

    /// Whether there are more than `n` segments.
    fn exceeds(&self, n: u32) -> (b: bool)
        ensures
            b == (self@.segs.len() > n),
    {
        self.cache.len() as u64 > n as u64
    }

    /// Whether there is no segment.
    pub fn is_empty(&self) -> (b: bool)
        ensures
            b == (self@.segs.len() == 0),
    {
        self.cache.len() == 0
    }

    /// Adds a segment that was not sent yet.
    pub fn push(&mut self, number: u32, payload: Buffer)
        ensures
            final(self)@ == (WindowView {
                segs: old(self)@.segs.push(fresh_segment(number, payload@)),
                ..old(self)@
            }),
    {
        let mut seg = DataSegment::new();
        seg.number = number;
        seg.payload = Some(payload);
        self.cache.push_back(seg);
        assert(self@.segs =~= old(self)@.segs.push(fresh_segment(number, payload@)));
    }

    /// The number of the first segment.
    pub fn first_number(&self) -> (n: Option<u32>)
        ensures
            n == (if self@.segs.len() == 0 {
                None
            } else {
                Some(self@.segs[0].number)
            }),
    {
        if self.cache.len() == 0 {
            None
        } else {
            Some(self.cache[0].number)
        }
    }

    /// Drops the segments in front whose number is below `una`.
    pub fn clear_before(&mut self, una: u32)
        ensures
            final(self)@ == (WindowView {
                segs: drop_below(old(self)@.segs, una),
                ..old(self)@
            }),
    {
        while self.cache.len() > 0 && self.cache[0].number < una
            invariant
                drop_below(self@.segs, una) == drop_below(old(self)@.segs, una),
                self.total_in_flight_size == old(self).total_in_flight_size,
            decreases self.cache@.len(),
        {
            let ghost before = self@.segs;
            let _ = self.cache.pop_front();
            assert(self@.segs =~= before.skip(1));
        }
    }

    /// Hears that `number` was acknowledged: the segments before it are sent
    /// again earlier.
    pub fn handle_fast_ack(&mut self, number: u32, rto: u32)
        ensures
            final(self)@ == (WindowView {
                segs: after_fast_ack(old(self)@.segs, number, rto),
                ..old(self)@
            }),
    {
        let ghost all = self@.segs;
        let ghost goal = after_fast_ack(all, number, rto);
        let n: usize = self.cache.len();
        let mut passed: bool = true;
        let mut i: usize = 0;
        assert(self@.segs =~= all.skip(0) + goal.take(0));
        while i < n
            invariant
                i <= n,
                n == all.len(),
                goal == after_fast_ack(all, number, rto),
                self.total_in_flight_size == old(self).total_in_flight_size,
                passed == (forall|j: int| 0 <= j < i ==> !not_skipped(#[trigger] all[j], number)),
                self@.segs == all.skip(i as int) + goal.take(i as int),
            decreases n - i,
        {
            let ghost before = self@.segs;
            assert(before[0] == all[i as int]);
            if let Some(mut seg) = self.cache.pop_front() {
                if number == seg.number || number.wrapping_sub(seg.number) > 0x7FFF_FFFF {
                    passed = false;
                }
                if passed && seg.transmit > 0 && seg.timeout > rto / 3 {
                    seg.timeout = seg.timeout - rto / 3;
                }
                proof {
                    assert(passed == (forall|j: int|
                        0 <= j <= i ==> !not_skipped(#[trigger] all[j], number)));
                    assert(seg@ == goal[i as int]);
                }
                assert(self@.segs =~= before.skip(1));
                self.cache.push_back(seg);
                assert(self@.segs =~= before.skip(1).push(goal[i as int]));
            }
            assert(before.skip(1).push(goal[i as int]) =~= all.skip(i + 1) + goal.take(i + 1));
            i += 1;
        }
        assert(self@.segs =~= goal);
    }

    /// Drops the first segment with that number, and says whether there was
    /// one.
    pub fn remove(&mut self, number: u32) -> (removed: bool)
        ensures
            removed == has_number(old(self)@.segs, number),
            removed ==> final(self)@ == (WindowView {
                segs: old(self)@.segs.remove(leading(old(self)@.segs, number) as int),
                in_flight: if old(self)@.in_flight > 0 {
                    (old(self)@.in_flight - 1) as u32
                } else {
                    0
                },
            }),
            !removed ==> final(self)@ == old(self)@,
    {
        let ghost segs = self@.segs;
        let mut i: usize = 0;
        while i < self.cache.len()
            invariant
                *self == *old(self),
                segs == self@.segs,
                i <= self.cache@.len(),
                forall|k: int| 0 <= k < i ==> (#[trigger] segs[k]).number != number,
            decreases self.cache@.len() - i,
        {
            assert(segs[i as int] == self.cache@[i as int]@);
            if self.cache[i].number == number {
                proof {
                    lemma_leading(segs, number, i as int);
                }
                if self.total_in_flight_size > 0 {
                    self.total_in_flight_size = self.total_in_flight_size - 1;
                }
                let _ = self.cache.remove(i);
                assert(self@.segs =~= segs.remove(i as int));
                assert(segs[i as int].number == number);
                return true;
            }
            i += 1;
        }
        false
    }

    /// Sends the segments whose time has come.
    #[verifier::spinoff_prover]
    #[verifier::rlimit(60)]
    pub fn prepare_flush(
        &mut self,
        current: u32,
        rto: u32,
        max_in_flight: u32,
        conv: u16,
        state: State,
        first_unacknowledged: u32,
    ) -> (p: FlushPreparation)
        ensures
            ({
                let round = SendRound {
                    current,
                    rto,
                    max_in_flight,
                    conv,
                    state,
                    first_unacknowledged,
                };
                let segs = old(self)@.segs;
                let sends = round_sends(segs, round, segs.len());
                let lost = round_lost(segs, round, segs.len());
                &&& final(self)@ == (WindowView {
                    segs: after_round(segs, round),
                    in_flight: wrap32(old(self)@.in_flight + (sends.len() - lost)),
                })
                &&& data_views(p.to_send@) == sends
                &&& p.lost == lost
                &&& p.in_flight == sends.len()
                &&& p.total_in_flight_size == final(self)@.in_flight
            }),
    {
        let ghost round = SendRound {
            current,
            rto,
            max_in_flight,
            conv,
            state,
            first_unacknowledged,
        };
        let ghost segs = self@.segs;
        let ghost goal = after_round(segs, round);
        let option: u8 = if state == State::ReadyToClose {
            SEGMENT_OPTION_CLOSE
        } else {
            0
        };
        let mut lost: u32 = 0;
        let mut in_flight: u32 = 0;
        let mut to_send: Vec<DataSegment> = Vec::new();
        let mut open: bool = true;
        let n: usize = self.cache.len();
        let mut i: usize = 0;
        let ghost mut count: nat = 0;
        proof {
            assert(self@.segs =~= segs.skip(0) + goal.take(0));
            assert(data_views(to_send@) =~= round_sends(segs, round, 0));
        }
        while i < n
            invariant
                i <= n,
                n == segs.len(),
                round == (SendRound {
                    current,
                    rto,
                    max_in_flight,
                    conv,
                    state,
                    first_unacknowledged,
                }),
                goal == after_round(segs, round),
                option == option_in(state),
                self@.segs == segs.skip(i as int) + goal.take(i as int),
                data_views(to_send@) == round_sends(segs, round, i as nat),
                to_send@.len() == in_flight,
                lost == round_lost(segs, round, i as nat),
                lost <= in_flight,
                self@.in_flight == wrap32(old(self)@.in_flight + (in_flight - lost)),
                in_flight <= expired_count(segs.take(i as int), current),
                open ==> in_flight == expired_count(segs.take(i as int), current),
                open ==> in_flight == 0 || in_flight < max_in_flight,
                !open ==> in_flight >= 1 && in_flight >= max_in_flight,
                in_flight <= max_in_flight || in_flight <= 1,
            decreases n - i,
        {
            let ghost before = self@.segs;
            assert(before[0] == segs[i as int]);
            proof {
                assert(segs.take(i + 1).drop_last() =~= segs.take(i as int));
                assert(segs.take(i + 1).last() == segs[i as int]);
            }
            if let Some(mut seg) = self.cache.pop_front() {
                let send: bool = open && current.wrapping_sub(seg.timeout) < 0x7FFF_FFFF;
                proof {
                    assert(send == is_chosen(segs, round, i as int));
                }
                if send {
                    if seg.transmit == 0 {
                        self.total_in_flight_size = self.total_in_flight_size.wrapping_add(1);
                    } else {
                        lost = lost + 1;
                    }
                    seg.timeout = current.wrapping_add(rto);
                    seg.timestamp = current;
                    seg.transmit = seg.transmit.wrapping_add(1);
                    seg.conv = conv;
                    seg.option = option;
                    seg.sending_next = first_unacknowledged;
                    let copy = seg.duplicate();
                    let ghost sent_before = to_send@;
                    to_send.push(copy);
                    in_flight = in_flight + 1;
                    if in_flight >= max_in_flight {
                        open = false;
                    }
                    assert(data_views(to_send@) =~= data_views(sent_before).push(copy@));
                }
                assert(seg@ == goal[i as int]);
                assert(self@.segs =~= before.skip(1));
                self.cache.push_back(seg);
                assert(self@.segs =~= before.skip(1).push(goal[i as int]));
            }
            assert(before.skip(1).push(goal[i as int]) =~= segs.skip(i + 1) + goal.take(i + 1));
            i += 1;
        }
        assert(self@.segs =~= goal);
        FlushPreparation {
            to_send,
            lost,
            in_flight,
            total_in_flight_size: self.total_in_flight_size,
        }
    }
}

/// A segment that was not sent yet.
pub open spec fn fresh_segment(number: u32, payload: Seq<u8>) -> DataView {
    DataView {
        conv: 0,
        option: 0,
        timestamp: 0,
        number,
        sending_next: 0,
        payload: Some(payload),
        timeout: 0,
        transmit: 0,
    }
}

impl Default for SendingWindow {
    fn default() -> (w: Self)
        ensures
            w@ == (WindowView { segs: Seq::empty(), in_flight: 0 }),
    {
        SendingWindow::new()
    }
}

/// What a worker hears back from a round of sending.
#[derive(Debug, Clone, Copy, PartialEq, Eq, Structural)]
pub struct FlushOutcome {
    pub needs_ping: bool,
}

impl Default for FlushOutcome {
    fn default() -> (o: Self)
        ensures
            !o.needs_ping,
    {
        FlushOutcome { needs_ping: false }
    }
}

/// The contents of a [`SendingWorker`].
pub struct SendingView {
    pub window: WindowView,
    /// The number of the first segment that waits for its acknowledgement.
    pub first_unacknowledged: u32,
    /// The number of the next segment.
    pub next: u32,
    /// The first number that the peer has no room for.
    pub remote_next: u32,
    /// How many segments congestion lets be on their way.
    pub control_window: u32,
    /// Once more segments than that wait, none is taken.
    pub size: u32,
    pub updated: bool,
    pub closed: bool,
    pub conv: u16,
}

/// The worker once it has looked for the first segment that waits.
pub open spec fn find_first(w: SendingView) -> SendingView {
    let first = if w.window.segs.len() > 0 {
        w.window.segs[0].number
    } else {
        w.next
    };
    SendingView {
        first_unacknowledged: first,
        updated: w.updated || first != w.first_unacknowledged,
        ..w
    }
}

/// The worker once the peer has read every number below `una`.
pub open spec fn after_receiving_next(w: SendingView, una: u32) -> SendingView {
    find_first(
        SendingView {
            window: WindowView { segs: drop_below(w.window.segs, una), ..w.window },
            ..w
        },
    )
}

/// Whether `number` can be the number of a segment that waits.
pub open spec fn is_plausible(w: SendingView, number: u32) -> bool {
    &&& wrapping_distance(number, w.first_unacknowledged) <= 0x7FFF_FFFF
    &&& wrapping_distance(number, w.next) >= 0x7FFF_FFFF
}

/// Whether the acknowledgement of `number` finds its segment.
pub open spec fn ack_hits(w: SendingView, number: u32) -> bool {
    is_plausible(w, number) && has_number(w.window.segs, number)
}

/// The worker once `number` was acknowledged.
pub open spec fn after_one_ack(w: SendingView, number: u32) -> SendingView {
    if ack_hits(w, number) {
        find_first(
            SendingView {
                window: WindowView {
                    segs: w.window.segs.remove(leading(w.window.segs, number) as int),
                    in_flight: if w.window.in_flight > 0 {
                        (w.window.in_flight - 1) as u32
                    } else {
                        0
                    },
                },
                ..w
            },
        )
    } else {
        w
    }
}

/// What the numbers of an ack segment come to: the worker, the greatest number
/// and whether it found its segment.
pub struct AckScan {
    pub worker: SendingView,
    pub max: u32,
    pub max_hit: bool,
}

/// The state after the first `n` numbers.
pub open spec fn ack_scan(w: SendingView, numbers: Seq<u32>, n: nat) -> AckScan
    decreases n,
{
    if n == 0 {
        AckScan { worker: w, max: 0, max_hit: false }
    } else {
        let before = ack_scan(w, numbers, (n - 1) as nat);
        let number = numbers[n - 1];
        AckScan {
            worker: after_one_ack(before.worker, number),
            max: if before.max < number {
                number
            } else {
                before.max
            },
            max_hit: if before.max < number {
                ack_hits(before.worker, number)
            } else {
                before.max_hit
            },
        }
    }
}

/// What the numbers of an ack segment come to, once its other fields have been
/// taken in.
pub open spec fn scan_of(w: SendingView, ack: AckView) -> AckScan {
    let wider = SendingView {
        remote_next: if w.remote_next < ack.receiving_window {
            ack.receiving_window
        } else {
            w.remote_next
        },
        ..w
    };
    ack_scan(after_receiving_next(wider, ack.receiving_next), ack.numbers, ack.numbers.len())
}

/// The worker after an ack segment.
pub open spec fn after_ack(w: SendingView, ack: AckView, rto: u32) -> SendingView {
    if w.closed {
        w
    } else {
        let scan = scan_of(w, ack);
        if scan.max_hit {
            SendingView {
                window: WindowView {
                    segs: after_fast_ack(scan.worker.window.segs, scan.max, rto),
                    ..scan.worker.window
                },
                ..scan.worker
            }
        } else {
            scan.worker
        }
    }
}

/// The round trip time after an ack segment. It counts as a sample where its
/// greatest number found its segment and the sample is below ten seconds.
pub open spec fn rtt_after_ack(
    rtt: RoundTripInfo,
    w: SendingView,
    ack: AckView,
    current: u32,
) -> RoundTripInfo {
    let sample = wrap32(current - ack.timestamp);
    if !w.closed && scan_of(w, ack).max_hit && sample < 10000 {
        after_sample(rtt, sample, current)
    } else {
        rtt
    }
}

/// Whether the worker takes another segment.
pub open spec fn has_room(w: SendingView) -> bool {
    !w.closed && w.window.segs.len() <= w.size
}

/// The worker with one segment more.
pub open spec fn after_push(w: SendingView, payload: Seq<u8>) -> SendingView {
    SendingView {
        window: WindowView {
            segs: w.window.segs.push(fresh_segment(w.next, payload)),
            ..w.window
        },
        next: wrap32(w.next + 1),
        ..w
    }
}

/// How many segments a round of sending may send: what the link takes, what
/// the peer has room for and what congestion lets through, whichever is least,
/// times the multiplier.
#[verifier::opaque]
pub open spec fn send_window(w: SendingView, config: Config) -> u32 {
    let link = in_flight_size(config.uplink_capacity, config.mtu, config.tti);
    let peer = wrap32(w.remote_next - w.first_unacknowledged);
    let both = if link > peer {
        peer
    } else {
        link
    };
    let least = if both > w.control_window {
        w.control_window
    } else {
        both
    };
    let product = least * (if config.cwnd_multiplier < 1 {
        1
    } else {
        config.cwnd_multiplier
    });
    if product > u32::MAX {
        u32::MAX
    } else {
        product as u32
    }
}

/// The round of sending that a worker makes.
pub open spec fn round_of(
    w: SendingView,
    rtt: RoundTripInfo,
    config: Config,
    current: u32,
    state: State,
) -> SendRound {
    SendRound {
        current,
        rto: rtt.rto,
        max_in_flight: send_window(w, config),
        conv: w.conv,
        state,
        first_unacknowledged: w.first_unacknowledged,
    }
}

/// The congestion window after a round in which `loss_rate` of a hundred
/// segments were lost: a quarter less from fifteen on, a quarter more up to
/// five; at least sixteen, at most what the link takes.
#[verifier::opaque]
pub open spec fn adjusted_window(current: u32, loss_rate: u32, config: Config) -> u32 {
    let shrunk = if loss_rate >= 15 {
        wrap32(3 * current) / 4
    } else {
        current
    };
    let grown = if loss_rate <= 5 {
        wrap32(shrunk + shrunk / 4)
    } else {
        shrunk
    };
    let floored = if grown < 16 {
        16
    } else {
        grown
    };
    let most = in_flight_size(config.uplink_capacity, config.mtu, config.tti);
    if floored > most {
        most
    } else {
        floored
    }
}

/// The segments that a round of sending sends.
pub open spec fn flush_sends(
    w: SendingView,
    rtt: RoundTripInfo,
    config: Config,
    current: u32,
    state: State,
) -> Seq<DataView> {
    if w.closed {
        Seq::empty()
    } else {
        round_sends(w.window.segs, round_of(w, rtt, config, current, state), w.window.segs.len())
    }
}

/// The worker after a round of sending.
pub open spec fn after_worker_flush(
    w: SendingView,
    rtt: RoundTripInfo,
    config: Config,
    current: u32,
    state: State,
) -> SendingView {
    if w.closed {
        w
    } else {
        let round = round_of(w, rtt, config, current, state);
        let segs = w.window.segs;
        let sends = round_sends(segs, round, segs.len());
        let lost = round_lost(segs, round, segs.len());
        let total = wrap32(w.window.in_flight + (sends.len() - lost));
        SendingView {
            window: WindowView { segs: after_round(segs, round), in_flight: total },
            control_window: if sends.len() > 0 && total > 0 {
                adjusted_window(w.control_window, wrap32((lost * 100) as int) / total, config)
            } else {
                w.control_window
            },
            updated: false,
            ..w
        }
    }
}

/// Adjusts the congestion window to the share of lost segments.
pub fn adjust_control_window(current: u32, loss_rate: u32, config: &Config) -> (new: u32)
    ensures
        new == adjusted_window(current, loss_rate, *config),
{
    reveal(adjusted_window);
    let mut window: u32 = current;
    if loss_rate >= 15 {
        window = ((3 * window as u64) % 0x1_0000_0000) as u32 / 4;
    }
    if loss_rate <= 5 {
        window = window.wrapping_add(window / 4);
    }
    if window < 16 {
        window = 16;
    }
    let most: u32 = config.get_sending_in_flight_size();
    if window > most {
        window = most;
    }
    window
}

/// The sending half of a connection.
pub struct SendingWorker {
    pub window: SendingWindow,
    pub first_unacknowledged: u32,
    pub next_number: u32,
    pub remote_next_number: u32,
    pub control_window: u32,
    pub window_size: u32,
    pub first_unacknowledged_updated: bool,
    pub closed: bool,
    pub conv: u16,
}

impl View for SendingWorker {
    type V = SendingView;

    open spec fn view(&self) -> SendingView {
        SendingView {
            window: self.window@,
            first_unacknowledged: self.first_unacknowledged,
            next: self.next_number,
            remote_next: self.remote_next_number,
            control_window: self.control_window,
            size: self.window_size,
            updated: self.first_unacknowledged_updated,
            closed: self.closed,
            conv: self.conv,
        }
    }
}

impl SendingWorker {
    /// A worker that has sent nothing. The peer has room for thirty-two
    /// segments until it says otherwise.
    pub fn new(conv: u16, config: &Config) -> (w: Self)
        ensures
            w@ == (SendingView {
                window: WindowView { segs: Seq::empty(), in_flight: 0 },
                first_unacknowledged: 0,
                next: 0,
                remote_next: 32,
                control_window: in_flight_size(config.uplink_capacity, config.mtu, config.tti),
                size: config.max_sending_window / crate::kcp::config::at_least_one(config.mtu),
                updated: false,
                closed: false,
                conv,
            }),
    {
        SendingWorker {
            window: SendingWindow::new(),
            first_unacknowledged: 0,
            next_number: 0,
            remote_next_number: 32,
            control_window: config.get_sending_in_flight_size(),
            window_size: config.get_sending_buffer_size(),
            first_unacknowledged_updated: false,
            closed: false,
            conv,
        }
    }

    /// The conversation.
    pub fn conv(&self) -> (conv: u16)
        ensures
            conv == self@.conv,
    {
        self.conv
    }

    /// Drops every segment and takes no more.
    pub fn release(&mut self)
        ensures
            final(self)@ == (SendingView {
                window: WindowView { segs: Seq::empty(), ..old(self)@.window },
                closed: true,
                ..old(self)@
            }),
    {
        self.window.release();
        self.closed = true;
    }

    /// Hears that the peer has read every number below `next_number`.
    pub fn process_receiving_next(&mut self, next_number: u32)
        ensures
            final(self)@ == after_receiving_next(old(self)@, next_number),
    {
        self.window.clear_before(next_number);
        self.find_first_unacknowledged();
    }

    fn find_first_unacknowledged(&mut self)
        ensures
            final(self)@ == find_first(old(self)@),
    {
        let first: u32 = self.first_unacknowledged;
        self.first_unacknowledged = match self.window.first_number() {
            Some(n) => n,
            None => self.next_number,
        };
        if first != self.first_unacknowledged {
            self.first_unacknowledged_updated = true;
        }
    }

    fn process_ack(&mut self, number: u32) -> (hit: bool)
        ensures
            hit == ack_hits(old(self)@, number),
            final(self)@ == after_one_ack(old(self)@, number),
    {
        let too_low: bool = number.wrapping_sub(self.first_unacknowledged) > 0x7FFF_FFFF;
        let too_high: bool = number.wrapping_sub(self.next_number) < 0x7FFF_FFFF;
        if too_low || too_high {
            return false;
        }
        let removed: bool = self.window.remove(number);
        if removed {
            self.find_first_unacknowledged();
        }
        removed
    }

    /// Takes in an ack segment that arrived at `current`.
    pub fn process_ack_segment(
        &mut self,
        rtt: &mut RoundTripInfo,
        current: u32,
        ack: &AckSegment,
        rto: u32,
    )
        ensures
            final(self)@ == after_ack(old(self)@, ack@, rto),
            *final(rtt) == rtt_after_ack(*old(rtt), old(self)@, ack@, current),
    {
        if self.closed {
            return;
        }
        if self.remote_next_number < ack.receiving_window {
            self.remote_next_number = ack.receiving_window;
        }
        self.window.clear_before(ack.receiving_next);
        self.find_first_unacknowledged();
        let ghost start = self@;
        let mut max: u32 = 0;
        let mut max_hit: bool = false;
        let mut i: usize = 0;
        while i < ack.number_list.len()
            invariant
                i <= ack.number_list@.len(),
                ack_scan(start, ack.number_list@, i as nat) == (AckScan {
                    worker: self@,
                    max,
                    max_hit,
                }),
            decreases ack.number_list@.len() - i,
        {
            let number: u32 = ack.number_list[i];
            let hit: bool = self.process_ack(number);
            if max < number {
                max = number;
                max_hit = hit;
            }
            i += 1;
        }
        if max_hit {
            self.window.handle_fast_ack(max, rto);
            let sample: u32 = current.wrapping_sub(ack.timestamp);
            if sample < 10000 {
                rtt.update(sample, current);
            }
        }
    }

    /// Takes a payload, and says whether there was room for it.
    pub fn push(&mut self, payload: Buffer) -> (taken: bool)
        ensures
            taken == has_room(old(self)@),
            taken ==> final(self)@ == after_push(old(self)@, payload@),
            !taken ==> final(self)@ == old(self)@,
    {
        if self.closed {
            return false;
        }
        if self.window.exceeds(self.window_size) {
            return false;
        }
        self.window.push(self.next_number, payload);
        self.next_number = self.next_number.wrapping_add(1);
        true
    }

    fn most_in_flight(&self, config: &Config) -> (most: u32)
        ensures
            most == send_window(self@, *config),
    {
        reveal(send_window);
        let mut window: u32 = config.get_sending_in_flight_size();
        let peer: u32 = self.remote_next_number.wrapping_sub(self.first_unacknowledged);
        if window > peer {
            window = peer;
        }
        if window > self.control_window {
            window = self.control_window;
        }
        let times: u32 = if config.cwnd_multiplier < 1 {
            1
        } else {
            config.cwnd_multiplier
        };
        assert(window * times <= u32::MAX * u32::MAX) by (nonlinear_arith);
        let product: u64 = window as u64 * times as u64;
        if product > u32::MAX as u64 {
            u32::MAX
        } else {
            product as u32
        }
    }

    /// Makes a round of sending: returns the segments to send.
    pub fn flush(
        &mut self,
        rtt: &RoundTripInfo,
        config: &Config,
        current: u32,
        state: State,
    ) -> (r: (Vec<DataSegment>, FlushOutcome))
        ensures
            final(self)@ == after_worker_flush(old(self)@, *rtt, *config, current, state),
            data_views(r.0@) == flush_sends(old(self)@, *rtt, *config, current, state),
            !r.1.needs_ping,
    {
        if self.closed {
            let none: Vec<DataSegment> = Vec::new();
            assert(data_views(none@) =~= Seq::<DataView>::empty());
            return (none, FlushOutcome { needs_ping: false });
        }
        let most: u32 = self.most_in_flight(config);
        let first: u32 = self.first_unacknowledged;
        let prep = self.window.prepare_flush(
            current,
            rtt.timeout(),
            most,
            self.conv,
            state,
            first,
        );
        if prep.in_flight > 0 && prep.total_in_flight_size > 0 {
            let scaled: u32 = ((prep.lost as u64 * 100) % 0x1_0000_0000) as u32;
            let rate: u32 = scaled / prep.total_in_flight_size;
            self.control_window = adjust_control_window(self.control_window, rate, config);
        }
        self.first_unacknowledged_updated = false;
        (prep.to_send, FlushOutcome { needs_ping: false })
    }

    /// Makes a round of sending: hands the segments to `writer`, whatever
    /// becomes of them.
    pub fn flush_with_writer<W: SegmentWriter>(
        &mut self,
        rtt: &RoundTripInfo,
        config: &Config,
        current: u32,
        writer: &mut W,
        state: State,
    ) -> (outcome: FlushOutcome)
        requires
            forall|i: int|
                0 <= i < old(self)@.window.segs.len() ==> DATA_SEGMENT_OVERHEAD + (
                #[trigger] old(self)@.window.segs[i]).bytes().len() <= usize::MAX,
        ensures
            final(self)@ == after_worker_flush(old(self)@, *rtt, *config, current, state),
            final(writer).sent() == old(writer).sent() + wires(
                flush_sends(old(self)@, *rtt, *config, current, state),
            ),
            !outcome.needs_ping,
    {
        let ghost before = self@;
        let (segs, outcome) = self.flush(rtt, config, current, state);
        let ghost sends = flush_sends(before, *rtt, *config, current, state);
        let ghost sent_before = writer.sent();
        proof {
            if !before.closed {
                lemma_sends_fit(
                    before.window.segs,
                    round_of(before, *rtt, *config, current, state),
                    before.window.segs.len(),
                );
            }
            assert(sent_before + wires(sends.take(0)) =~= sent_before);
        }
        let mut i: usize = 0;
        while i < segs.len()
            invariant
                i <= segs@.len(),
                data_views(segs@) == sends,
                forall|k: int|
                    0 <= k < sends.len() ==> DATA_SEGMENT_OVERHEAD + (
                    #[trigger] sends[k]).bytes().len() <= usize::MAX,
                writer.sent() == sent_before + wires(sends.take(i as int)),
            decreases segs@.len() - i,
        {
            proof {
                assert(sends[i as int] == segs@[i as int]@);
                lemma_data_wire_len(sends[i as int]);
            }
            let _ = writer.write_segment(&segs[i]);
            i += 1;
            assert(writer.sent() =~= sent_before + wires(sends.take(i as int)));
        }
        assert(sends.take(i as int) =~= sends);
        outcome
    }

    /// Drops every segment whose number is not the last one.
    pub fn close_write(&mut self)
        ensures
            final(self)@ == after_close_write(old(self)@),
    {
        self.window.clear_before(0xFFFF_FFFF);
    }

    /// Whether no segment waits.
    pub fn is_empty(&self) -> (b: bool)
        ensures
            b == (self@.window.segs.len() == 0),
    {
        self.window.is_empty()
    }

    /// Whether there is something to send.
    pub fn update_necessary(&self) -> (b: bool)
        ensures
            b == (self@.window.segs.len() > 0),
    {
        !self.window.is_empty()
    }

    /// The number of the first segment that waits for its acknowledgement.
    pub fn first_unacknowledged(&self) -> (n: u32)
        ensures
            n == self@.first_unacknowledged,
    {
        self.first_unacknowledged
    }
}

/// The worker once nothing more is written: the segments in front are dropped
/// up to one with the last number there is.
pub open spec fn after_close_write(w: SendingView) -> SendingView {
    SendingView {
        window: WindowView { segs: drop_below(w.window.segs, 0xFFFF_FFFF), ..w.window },
        ..w
    }
}

/// What the segments are written as.
pub open spec fn wires(segs: Seq<DataView>) -> Seq<Seq<u8>> {
    Seq::new(segs.len(), |i: int| segs[i].wire())
}

proof fn lemma_sends_fit(segs: Seq<DataView>, round: SendRound, n: nat)
    requires
        n <= segs.len(),
        forall|i: int|
            0 <= i < segs.len() ==> DATA_SEGMENT_OVERHEAD + (#[trigger] segs[i]).bytes().len()
                <= usize::MAX,
    ensures
        forall|i: int|
            0 <= i < round_sends(segs, round, n).len() ==> DATA_SEGMENT_OVERHEAD + (
            #[trigger] round_sends(segs, round, n)[i]).bytes().len() <= usize::MAX,
    decreases n,
{
    if n > 0 {
        lemma_sends_fit(segs, round, (n - 1) as nat);
        let before = round_sends(segs, round, (n - 1) as nat);
        let all = round_sends(segs, round, n);
        assert forall|i: int| 0 <= i < all.len() implies DATA_SEGMENT_OVERHEAD + (
        #[trigger] all[i]).bytes().len() <= usize::MAX by {
            if i < before.len() {
                assert(all[i] == before[i]);
            } else {
                assert(all[i].bytes() == segs[n - 1].bytes());
            }
        }
    }
}

/// Whether a segment with that number and payload waits in the window.
pub open spec fn waits(segs: Seq<DataView>, number: u32, payload: Option<Seq<u8>>) -> bool {
    exists|i: int|
        #![trigger segs[i]]
        0 <= i < segs.len() && segs[i].number == number && segs[i].payload == payload
}

proof fn lemma_drop_below_keeps(
    segs: Seq<DataView>,
    una: u32,
    number: u32,
    payload: Option<Seq<u8>>,
)
    requires
        waits(segs, number, payload),
        number >= una,
    ensures
        waits(drop_below(segs, una), number, payload),
    decreases segs.len(),
{
    if segs.len() > 0 && segs[0].number < una {
        let i = choose|i: int|
            #![trigger segs[i]]
            0 <= i < segs.len() && segs[i].number == number && segs[i].payload == payload;
        assert(segs.skip(1)[i - 1] == segs[i]);
        lemma_drop_below_keeps(segs.skip(1), una, number, payload);
    }
}

proof fn lemma_leading_is_first(segs: Seq<DataView>, number: u32)
    requires
        has_number(segs, number),
    ensures
        leading(segs, number) < segs.len(),
        segs[leading(segs, number) as int].number == number,
    decreases segs.len(),
{
    let i = choose|i: int| 0 <= i < segs.len() && #[trigger] segs[i].number == number;
    if segs[0].number != number {
        let tail = segs.skip(1);
        assert(tail[i - 1].number == number);
        lemma_leading_is_first(tail, number);
        assert(segs[leading(segs, number) as int] == tail[leading(tail, number) as int]);
    }
}

proof fn lemma_one_ack_keeps(
    w: SendingView,
    acked: u32,
    number: u32,
    payload: Option<Seq<u8>>,
)
    requires
        waits(w.window.segs, number, payload),
        acked != number,
    ensures
        waits(after_one_ack(w, acked).window.segs, number, payload),
{
    if ack_hits(w, acked) {
        let segs = w.window.segs;
        lemma_leading_is_first(segs, acked);
        let gone = leading(segs, acked) as int;
        let i = choose|i: int|
            #![trigger segs[i]]
            0 <= i < segs.len() && segs[i].number == number && segs[i].payload == payload;
        let rest = segs.remove(gone);
        if i < gone {
            assert(rest[i] == segs[i]);
        } else {
            assert(rest[i - 1] == segs[i]);
        }
    }
}

proof fn lemma_scan_keeps(
    w: SendingView,
    numbers: Seq<u32>,
    n: nat,
    number: u32,
    payload: Option<Seq<u8>>,
)
    requires
        waits(w.window.segs, number, payload),
        n <= numbers.len(),
        !numbers.contains(number),
    ensures
        waits(ack_scan(w, numbers, n).worker.window.segs, number, payload),
    decreases n,
{
    if n > 0 {
        lemma_scan_keeps(w, numbers, (n - 1) as nat, number, payload);
        assert(numbers[n - 1] != number);
        lemma_one_ack_keeps(
            ack_scan(w, numbers, (n - 1) as nat).worker,
            numbers[n - 1],
            number,
            payload,
        );
    }
}

/// An ack segment drops no segment but those that it names and those below its
/// receiving number: every other one goes on waiting, payload and all.
pub proof fn law_ack_keeps_unacknowledged(
    w: SendingView,
    ack: AckView,
    rto: u32,
    number: u32,
    payload: Option<Seq<u8>>,
)
    requires
        waits(w.window.segs, number, payload),
        number >= ack.receiving_next,
        !ack.numbers.contains(number),
    ensures
        waits(after_ack(w, ack, rto).window.segs, number, payload),
{
    if !w.closed {
        let wider = SendingView {
            remote_next: if w.remote_next < ack.receiving_window {
                ack.receiving_window
            } else {
                w.remote_next
            },
            ..w
        };
        lemma_drop_below_keeps(w.window.segs, ack.receiving_next, number, payload);
        let start = after_receiving_next(wider, ack.receiving_next);
        lemma_scan_keeps(start, ack.numbers, ack.numbers.len(), number, payload);
        let scan = scan_of(w, ack);
        let segs = scan.worker.window.segs;
        let i = choose|i: int|
            #![trigger segs[i]]
            0 <= i < segs.len() && segs[i].number == number && segs[i].payload == payload;
        let hasty = after_fast_ack(segs, scan.max, rto);
        assert(hasty[i].number == number && hasty[i].payload == payload);
    }
}

/// A round of sending drops nothing: the same numbers and payloads wait
/// afterwards, in the same order.
pub proof fn law_flush_keeps_segments(
    w: SendingView,
    rtt: RoundTripInfo,
    config: Config,
    current: u32,
    state: State,
    i: int,
)
    requires
        0 <= i < w.window.segs.len(),
    ensures
        ({
            let new = after_worker_flush(w, rtt, config, current, state).window.segs;
            &&& new.len() == w.window.segs.len()
            &&& new[i].number == w.window.segs[i].number
            &&& new[i].payload == w.window.segs[i].payload
        }),
{
}

/// What a round sends is what waits: each segment sent has the number and the
/// payload of a segment in the window.
pub proof fn law_flush_sends_what_waits(
    w: SendingView,
    rtt: RoundTripInfo,
    config: Config,
    current: u32,
    state: State,
    k: int,
)
    requires
        0 <= k < flush_sends(w, rtt, config, current, state).len(),
    ensures
        ({
            let sent = flush_sends(w, rtt, config, current, state)[k];
            &&& waits(w.window.segs, sent.number, sent.payload)
            &&& sent.conv == w.conv
            &&& sent.timestamp == current
            &&& sent.sending_next == w.first_unacknowledged
        }),
{
    lemma_sends_wait(
        w.window.segs,
        round_of(w, rtt, config, current, state),
        w.window.segs.len(),
        k,
    );
}

proof fn lemma_sends_wait(segs: Seq<DataView>, round: SendRound, n: nat, k: int)
    requires
        n <= segs.len(),
        0 <= k < round_sends(segs, round, n).len(),
    ensures
        ({
            let sent = round_sends(segs, round, n)[k];
            &&& waits(segs, sent.number, sent.payload)
            &&& sent.conv == round.conv
            &&& sent.timestamp == round.current
            &&& sent.sending_next == round.first_unacknowledged
        }),
    decreases n,
{
    if n > 0 {
        let before = round_sends(segs, round, (n - 1) as nat);
        if k < before.len() {
            lemma_sends_wait(segs, round, (n - 1) as nat, k);
        } else {
            let seg = segs[n - 1];
            assert(seg.number == stamped(seg, round).number);
        }
    }
}

/// A worker sends no more segments in a round than the window allows, one at
/// least where one is due.
pub proof fn law_flush_respects_window(
    w: SendingView,
    rtt: RoundTripInfo,
    config: Config,
    current: u32,
    state: State,
)
    ensures
        ({
            let most = send_window(w, config);
            flush_sends(w, rtt, config, current, state).len() <= (if most == 0 {
                1
            } else {
                most
            })
        }),
{
    lemma_sends_bounded(
        w.window.segs,
        round_of(w, rtt, config, current, state),
        w.window.segs.len(),
    );
}

/// A round sends as many segments as are due, up to its most.
pub proof fn lemma_sends_bounded(segs: Seq<DataView>, round: SendRound, n: nat)
    requires
        n <= segs.len(),
    ensures
        ({
            let most = if round.max_in_flight == 0 {
                1
            } else {
                round.max_in_flight
            };
            let due = expired_count(segs.take(n as int), round.current);
            round_sends(segs, round, n).len() == (if due <= most {
                due as int
            } else {
                most as int
            })
        }),
    decreases n,
{
    if n > 0 {
        lemma_sends_bounded(segs, round, (n - 1) as nat);
        assert(segs.take(n as int).drop_last() =~= segs.take(n - 1));
        assert(segs.take(n as int).last() == segs[n - 1]);
    }
}

/// The congestion window never exceeds what the link takes, and is at least
/// sixteen where the link takes as many.
pub proof fn law_control_window_bounded(current: u32, loss_rate: u32, config: Config)
    ensures
        ({
            let most = in_flight_size(config.uplink_capacity, config.mtu, config.tti);
            let new = adjusted_window(current, loss_rate, config);
            &&& new <= most
            &&& new >= 16 || new == most
        }),
{
    reveal(adjusted_window);
}

} // verus!
