//! The receiving half of a connection: segments that came ahead of their turn,
//! the bytes that are ready to be read, and the acknowledgements that are due.

use std::collections::HashMap;

use vstd::prelude::*;

use crate::kcp::buffer::{concat, lemma_concat_first, MultiBuffer};
use crate::kcp::config::{in_flight_size, Config, ConfigExt};
use crate::kcp::round_trip::{wrap32, RoundTripInfo};
use crate::kcp::segment::{
    clamp_limit, later_timestamp, wrapping_distance, AckSegment, AckView, DataSegment,
    DataView, Segment, SegmentOption, SEGMENT_OPTION_CLOSE,
};
use crate::kcp::state::State;

verus! {

broadcast use vstd::std_specs::hash::group_hash_axioms;

/// Segments that have arrived and were not read yet, by their numbers.
pub struct ReceivingWindow {
    cache: HashMap<u32, DataSegment>,
}

impl View for ReceivingWindow {
    type V = Map<u32, DataView>;

    closed spec fn view(&self) -> Map<u32, DataView> {
        self.cache@.map_values(|s: DataSegment| s@)
    }
}

impl ReceivingWindow {
    /// An empty window.
    pub fn new() -> (w: Self)
        ensures
            w@ == Map::<u32, DataView>::empty(),
    {
        let w = ReceivingWindow { cache: HashMap::new() };
        assert(w@ =~= Map::<u32, DataView>::empty());
        w
    }

    /// Puts a segment in. Where the window holds one under `id` already, that
    /// one stays and the new one is handed back.
    pub fn set(&mut self, id: u32, value: DataSegment) -> (rejected: Option<DataSegment>)
        ensures
            old(self)@.contains_key(id) ==> final(self)@ == old(self)@ && rejected == Some(value),
            !old(self)@.contains_key(id) ==> final(self)@ == old(self)@.insert(id, value@)
                && rejected is None,
            old(self)@.dom().finite() ==> final(self)@.dom().finite(),
    {
        if self.cache.contains_key(&id) {
            return Some(value);
        }
        self.cache.insert(id, value);
        assert(self@ =~= old(self)@.insert(id, value@));
        None
    }

    /// Whether the window holds a segment under `id`.
    pub fn has(&self, id: u32) -> (b: bool)
        ensures
            b == self@.contains_key(id),
    {
        self.cache.contains_key(&id)
    }

    /// Takes the segment under `id` out.
    pub fn remove(&mut self, id: u32) -> (taken: Option<DataSegment>)
        ensures
            final(self)@ == old(self)@.remove(id),
            taken is Some <==> old(self)@.contains_key(id),
            taken matches Some(seg) ==> seg@ == old(self)@[id],
    {
        let taken = self.cache.remove(&id);
        assert(self@ =~= old(self)@.remove(id));
        taken
    }
}

impl Default for ReceivingWindow {
    fn default() -> (w: Self)
        ensures
            w@ == Map::<u32, DataView>::empty(),
    {
        ReceivingWindow::new()
    }
}

/// How many numbers that are not due again yet may fill up a segment.
pub const FLUSH_CANDIDATES: usize = 128;

/// A number that is to be acknowledged.
pub struct AckEntry {
    pub number: u32,
    /// When the segment was sent.
    pub timestamp: u32,
    /// Before that time the number is not due again.
    pub next_flush: u32,
}

/// The contents of an [`AckList`].
pub struct AckListView {
    pub entries: Seq<AckEntry>,
    pub dirty: bool,
    pub mss: usize,
}

/// The numbers to acknowledge, oldest first.
pub struct AckList {
    pub timestamps: Vec<u32>,
    pub numbers: Vec<u32>,
    pub next_flush: Vec<u32>,
    /// Whether the list has changed since a segment was made of it.
    pub dirty: bool,
    /// The size of the largest segment.
    pub mss: usize,
}

impl View for AckList {
    type V = AckListView;

    open spec fn view(&self) -> AckListView {
        AckListView {
            entries: Seq::new(
                self.numbers@.len(),
                |i: int|
                    AckEntry {
                        number: self.numbers@[i],
                        timestamp: self.timestamps@[i],
                        next_flush: self.next_flush@[i],
                    },
            ),
            dirty: self.dirty,
            mss: self.mss,
        }
    }
}

/// The entries from `una` on.
pub open spec fn kept(entries: Seq<AckEntry>, una: u32) -> Seq<AckEntry>
    decreases entries.len(),
{
    if entries.len() == 0 {
        entries
    } else if entries.last().number >= una {
        kept(entries.drop_last(), una).push(entries.last())
    } else {
        kept(entries.drop_last(), una)
    }
}

/// The entries that are due at `current`.
pub open spec fn due(entries: Seq<AckEntry>, current: u32) -> Seq<AckEntry>
    decreases entries.len(),
{
    if entries.len() == 0 {
        entries
    } else if entries.last().next_flush <= current {
        due(entries.drop_last(), current).push(entries.last())
    } else {
        due(entries.drop_last(), current)
    }
}

/// The numbers of the first entries that are not due at `current`.
pub open spec fn candidates(entries: Seq<AckEntry>, current: u32) -> Seq<u32>
    decreases entries.len(),
{
    if entries.len() == 0 {
        Seq::empty()
    } else {
        let before = candidates(entries.drop_last(), current);
        if entries.last().next_flush > current && before.len() < FLUSH_CANDIDATES {
            before.push(entries.last().number)
        } else {
            before
        }
    }
}

/// The numbers of the entries.
pub open spec fn numbers_of(entries: Seq<AckEntry>) -> Seq<u32> {
    Seq::new(entries.len(), |i: int| entries[i].number)
}

/// The latest timestamp of the entries.
pub open spec fn latest(entries: Seq<AckEntry>) -> u32
    decreases entries.len(),
{
    if entries.len() == 0 {
        0
    } else {
        later_timestamp(latest(entries.drop_last()), entries.last().timestamp)
    }
}

/// How many numbers a segment of `mss` bytes takes.
pub open spec fn numbers_per_segment(mss: usize) -> usize {
    clamp_limit(
        (if mss < 17 {
            0
        } else {
            mss - 17
        }) / 4,
    )
}

/// The segment that acknowledges `entries`, and `extra` numbers besides.
pub open spec fn ack_for(limit: usize, entries: Seq<AckEntry>, extra: Seq<u32>) -> AckView {
    AckView {
        conv: 0,
        option: 0,
        receiving_window: 0,
        receiving_next: 0,
        timestamp: latest(entries),
        numbers: numbers_of(entries) + extra,
        limit,
    }
}

/// The first of `numbers`, at most `room` of them.
pub open spec fn first_of(numbers: Seq<u32>, room: int) -> Seq<u32> {
    if numbers.len() <= room {
        numbers
    } else {
        numbers.take(room)
    }
}

/// The segments that a flush makes: as many full ones as the due entries fill;
/// then, where due entries are left over or the list has changed and no segment
/// told so, one more, which numbers that are not due yet fill up.
pub open spec fn flush_segments(list: AckListView, current: u32) -> Seq<AckView> {
    let limit = numbers_per_segment(list.mss);
    let ready = due(list.entries, current);
    let full = ready.len() / (limit as nat);
    let rest = ready.skip((full * limit) as int);
    let count = if rest.len() > 0 || (list.dirty && full == 0) {
        full + 1
    } else {
        full
    };
    Seq::new(
        count,
        |k: int|
            if k < full {
                ack_for(limit, ready.subrange(k * limit, (k + 1) * limit), Seq::empty())
            } else {
                ack_for(
                    limit,
                    rest,
                    first_of(candidates(list.entries, current), limit - rest.len()),
                )
            },
    )
}

/// How long a number that was acknowledged is not due again: half the timeout,
/// and at least twenty milliseconds.
pub open spec fn repeat_pause(rto: u32) -> u32 {
    if rto / 2 < 20 {
        20
    } else {
        rto / 2
    }
}

/// The list after a flush.
pub open spec fn after_flush(list: AckListView, current: u32, rto: u32) -> AckListView {
    AckListView {
        entries: Seq::new(
            list.entries.len(),
            |i: int|
                if list.entries[i].next_flush > current {
                    list.entries[i]
                } else {
                    AckEntry {
                        next_flush: wrap32(current + repeat_pause(rto)),
                        ..list.entries[i]
                    }
                },
        ),
        dirty: false,
        mss: list.mss,
    }
}

/// The list with one number more.
pub open spec fn after_add(list: AckListView, number: u32, timestamp: u32) -> AckListView {
    AckListView {
        entries: list.entries.push(AckEntry { number, timestamp, next_flush: 0 }),
        dirty: true,
        mss: list.mss,
    }
}

/// The list without the numbers below `una`.
pub open spec fn after_clear(list: AckListView, una: u32) -> AckListView {
    AckListView {
        entries: kept(list.entries, una),
        dirty: list.dirty || kept(list.entries, una).len() < list.entries.len(),
        mss: list.mss,
    }
}

proof fn lemma_kept_len(entries: Seq<AckEntry>, una: u32)
    ensures
        kept(entries, una).len() <= entries.len(),
    decreases entries.len(),
{
    if entries.len() > 0 {
        lemma_kept_len(entries.drop_last(), una);
    }
}

/// The contents of segments.
pub open spec fn ack_views(segments: Seq<AckSegment>) -> Seq<AckView> {
    Seq::new(segments.len(), |k: int| segments[k]@)
}

impl AckList {
    /// The three columns have the same length.
    pub open spec fn wf(&self) -> bool {
        self.timestamps@.len() == self.numbers@.len() && self.next_flush@.len()
            == self.numbers@.len()
    }

    /// An empty list, from which segments of up to `mss` bytes are made.
    pub fn new(mss: usize) -> (l: Self)
        ensures
            l.wf(),
            l@ == (AckListView { entries: Seq::empty(), dirty: false, mss }),
    {
        let l = AckList {
            timestamps: Vec::new(),
            numbers: Vec::new(),
            next_flush: Vec::new(),
            dirty: false,
            mss,
        };
        assert(l@.entries =~= Seq::<AckEntry>::empty());
        l
    }

    /// Adds a number. It is due at once.
    pub fn add(&mut self, number: u32, timestamp: u32)
        requires
            old(self).wf(),
        ensures
            final(self).wf(),
            final(self)@ == after_add(old(self)@, number, timestamp),
    {
        self.timestamps.push(timestamp);
        self.numbers.push(number);
        self.next_flush.push(0);
        self.dirty = true;
        assert(self@.entries =~= after_add(old(self)@, number, timestamp).entries);
    }

    /// Drops the numbers below `una`.
    pub fn clear(&mut self, una: u32)
        requires
            old(self).wf(),
        ensures
            final(self).wf(),
            final(self)@ == after_clear(old(self)@, una),
    {
        let ghost all = self@.entries;
        let len: usize = self.numbers.len();
        let mut count: usize = 0;
        let mut i: usize = 0;
        assert(all.take(0) =~= Seq::<AckEntry>::empty());
        while i < len
            invariant
                self.wf(),
                len == all.len(),
                self.numbers@.len() == len,
                count <= i <= len,
                self.dirty == old(self).dirty,
                self.mss == old(self).mss,
                self@.entries.take(count as int) == kept(all.take(i as int), una),
                forall|k: int| i <= k < len ==> self@.entries[k] == all[k],
            decreases len - i,
        {
            let ghost before = self@.entries;
            assert(before[i as int] == all[i as int]);
            proof {
                assert(all.take(i + 1).drop_last() =~= all.take(i as int));
                assert(all.take(i + 1).last() == all[i as int]);
            }
            if self.numbers[i] < una {
                i += 1;
                continue;
            }
            if i != count {
                let number: u32 = self.numbers[i];
                let timestamp: u32 = self.timestamps[i];
                let next_flush: u32 = self.next_flush[i];
                self.numbers.set(count, number);
                self.timestamps.set(count, timestamp);
                self.next_flush.set(count, next_flush);
            }
            proof {
                assert(self@.entries =~= before.update(count as int, all[i as int]));
                assert(self@.entries.take(count + 1) =~= before.take(count as int).push(
                    all[i as int],
                ));
            }
            count += 1;
            i += 1;
        }
        proof {
            assert(all.take(len as int) =~= all);
            lemma_kept_len(all, una);
        }
        if count < len {
            let ghost before = self@.entries;
            self.numbers.truncate(count);
            self.timestamps.truncate(count);
            self.next_flush.truncate(count);
            self.dirty = true;
            assert(self@.entries =~= before.take(count as int));
        } else {
            assert(self@.entries.take(count as int) =~= self@.entries);
        }
    }

    /// Makes the segments that are due at `current`, where `rto` is the
    /// retransmission timeout. Their conversation, option and window fields
    /// are for the caller to fill.
    pub fn flush(&mut self, current: u32, rto: u32) -> (out: Vec<AckSegment>)
        requires
            old(self).wf(),
        ensures
            final(self).wf(),
            final(self)@ == after_flush(old(self)@, current, rto),
            ack_views(out@) == flush_segments(old(self)@, current),
    {
        let ghost list = self@;
        let ghost all = self@.entries;
        let room: usize = if self.mss < 17 {
            0
        } else {
            (self.mss - 17) / 4
        };
        let ghost limit = numbers_per_segment(self.mss);
        let mut waiting: Vec<u32> = Vec::new();
        let mut out: Vec<AckSegment> = Vec::new();
        let mut seg = AckSegment::new(room);
        let pause: u32 = if rto / 2 < 20 {
            20
        } else {
            rto / 2
        };
        let next: u32 = current.wrapping_add(pause);
        let len: usize = self.numbers.len();
        let mut i: usize = 0;
        proof {
            assert(all.take(0) =~= Seq::<AckEntry>::empty());
            assert(seg@ =~~= ack_for(limit, all.take(0), Seq::empty()));
            assert(due(all.take(0), current).skip(0) =~= all.take(0));
            assert(out@.len() * limit == 0 && (out@.len() + 1) * limit == limit)
                by (nonlinear_arith)
                requires
                    out@.len() == 0,
            ;
        }
        while i < len
            invariant
                self.wf(),
                i <= len,
                len == all.len(),
                self.numbers@.len() == len,
                self.mss == list.mss,
                limit == numbers_per_segment(list.mss),
                limit == clamp_limit(room as int),
                1 <= limit <= 128,
                next == wrap32(current + repeat_pause(rto)),
                self.dirty == (list.dirty && out@.len() == 0),
                all == list.entries,
                list == old(self)@,
                waiting@ == candidates(all.take(i as int), current),
                waiting@.len() <= FLUSH_CANDIDATES,
                out@.len() * limit <= due(all.take(i as int), current).len() < (out@.len() + 1)
                    * limit,
                seg@ == ack_for(
                    limit,
                    due(all.take(i as int), current).skip((out@.len() * limit) as int),
                    Seq::empty(),
                ),
                forall|k: int|
                    0 <= k < out@.len() ==> #[trigger] out@[k]@ == ack_for(
                        limit,
                        due(all.take(i as int), current).subrange(k * limit, (k + 1) * limit),
                        Seq::empty(),
                    ),
                forall|k: int|
                    i <= k < len ==> #[trigger] self@.entries[k] == all[k],
                forall|k: int|
                    0 <= k < i ==> #[trigger] self@.entries[k] == after_flush(
                        list,
                        current,
                        rto,
                    ).entries[k],
            decreases len - i,
        {
            let ghost before = self@.entries;
            let ghost ready = due(all.take(i as int), current);
            assert(before[i as int] == all[i as int]);
            proof {
                assert(all.take(i + 1).drop_last() =~= all.take(i as int));
                assert(all.take(i + 1).last() == all[i as int]);
            }
            if self.next_flush[i] > current {
                if waiting.len() < FLUSH_CANDIDATES {
                    waiting.push(self.numbers[i]);
                }
                i += 1;
                continue;
            }
            let ghost grown = ready.push(all[i as int]);
            let ghost start = (out@.len() * limit) as int;
            let ghost made = out@;
            seg.put_number(self.numbers[i]);
            seg.put_timestamp(self.timestamps[i]);
            self.next_flush.set(i, next);
            proof {
                assert(due(all.take(i + 1), current) == grown);
                assert(self@.entries =~= before.update(
                    i as int,
                    AckEntry { next_flush: next, ..all[i as int] },
                ));
                assert(grown.skip(start) =~= ready.skip(start).push(all[i as int]));
                assert(grown.skip(start).drop_last() =~= ready.skip(start));
                assert(seg@.numbers =~= numbers_of(grown.skip(start)) + Seq::empty());
                assert(grown.skip(start).last() == all[i as int]);
                assert(seg@.timestamp == latest(grown.skip(start)));
                assert(seg@ == ack_for(limit, grown.skip(start), Seq::empty()));
                assert(start + limit == (out@.len() + 1) * limit) by (nonlinear_arith)
                    requires
                        start == out@.len() * limit,
                ;
                assert(seg@.numbers.len() == grown.len() - start);
                assert forall|k: int| 0 <= k < made.len() implies #[trigger] made[k]@ == ack_for(
                    limit,
                    grown.subrange(k * limit, (k + 1) * limit),
                    Seq::empty(),
                ) by {
                    assert(0 <= k * limit <= (k + 1) * limit <= made.len() * limit)
                        by (nonlinear_arith)
                        requires
                            0 <= k < made.len(),
                            limit >= 1,
                    ;
                    assert(ready.subrange(k * limit, (k + 1) * limit) =~= grown.subrange(
                        k * limit,
                        (k + 1) * limit,
                    ));
                }
            }
            if seg.is_full() {
                let done = seg;
                seg = AckSegment::new(room);
                out.push(done);
                self.dirty = false;
                proof {
                    let stop = (out@.len() * limit) as int;
                    assert(stop == start + limit);
                    assert(grown.len() == stop);
                    assert((out@.len() + 1) * limit == stop + limit) by (nonlinear_arith)
                        requires
                            stop == out@.len() * limit,
                    ;
                    assert(grown.skip(start) =~= grown.subrange(start, stop));
                    assert(grown.skip(stop) =~= Seq::<AckEntry>::empty());
                    assert(seg@ =~~= ack_for(limit, grown.skip(stop), Seq::empty()));
                }
            }
            i += 1;
        }
        let ghost ready = due(all, current);
        let ghost full = out@.len();
        let ghost rest = ready.skip((full * limit) as int);
        proof {
            assert(all.take(len as int) =~= all);
            assert(full == ready.len() / (limit as nat)) by (nonlinear_arith)
                requires
                    full * limit <= ready.len() < (full + 1) * limit,
                    limit >= 1,
            ;
            assert((full + 1) * limit == full * limit + limit) by (nonlinear_arith);
            assert(rest.len() < limit);
        }
        let ghost updated = self@.entries;
        if self.dirty || !seg.is_empty() {
            let mut j: usize = 0;
            let ghost base = numbers_of(rest);
            assert(seg@ =~~= (AckView {
                numbers: base + waiting@.take(0),
                ..ack_for(limit, rest, Seq::empty())
            }));
            while j < waiting.len() && !seg.is_full()
                invariant
                    j <= waiting@.len(),
                    base.len() + j <= limit,
                    seg@.limit == limit,
                    seg@ == (AckView {
                        numbers: base + waiting@.take(j as int),
                        ..ack_for(limit, rest, Seq::empty())
                    }),
                decreases waiting@.len() - j,
            {
                seg.put_number(waiting[j]);
                j += 1;
                assert(seg@.numbers =~= base + waiting@.take(j as int));
            }
            proof {
                let extra = first_of(waiting@, limit - rest.len());
                assert(waiting@.take(j as int) =~= extra);
                assert(seg@ == ack_for(limit, rest, extra));
            }
            out.push(seg);
            self.dirty = false;
        }
        proof {
            assert(self@.entries =~= updated);
            assert(updated =~= after_flush(list, current, rto).entries);
            assert(ack_views(out@) =~= flush_segments(list, current));
        }
        out
    }

    /// The number of numbers to acknowledge.
    pub fn pending_len(&self) -> (n: usize)
        ensures
            n == self@.entries.len(),
    {
        self.numbers.len()
    }

    /// How many numbers that are not due again yet may fill up a segment.
    pub fn flush_candidates_capacity(&self) -> (n: usize)
        ensures
            n == FLUSH_CANDIDATES,
    {
        FLUSH_CANDIDATES
    }
}

/// The segments that follow each other in the window from `next` on, read in
/// their order: the payloads, what stays in the window, and the first number
/// that is missing.
pub open spec fn drain(window: Map<u32, DataView>, next: u32) -> (
    Seq<Seq<u8>>,
    Map<u32, DataView>,
    u32,
)
    decreases window.dom().len(),
    when window.dom().finite()
{
    if window.contains_key(next) {
        let rest = drain(window.remove(next), wrap32(next + 1));
        match window[next].payload {
            Some(b) => (seq![b] + rest.0, rest.1, rest.2),
            None => rest,
        }
    } else {
        (Seq::empty(), window, next)
    }
}

/// The contents of a [`ReceivingWorker`].
pub struct ReceivingView {
    pub window: Map<u32, DataView>,
    pub acks: AckListView,
    /// The first number that was not read.
    pub next: u32,
    pub size: u32,
    /// Bytes that were taken out of the window and not read yet.
    pub left: Option<Seq<u8>>,
    pub conv: u16,
}

/// The bytes that a read finds, and the worker once they are taken out.
pub open spec fn take_ready(w: ReceivingView) -> (Seq<u8>, ReceivingView) {
    match w.left {
        Some(left) => (left, ReceivingView { left: None, ..w }),
        None => {
            let d = drain(w.window, w.next);
            (concat(d.0), ReceivingView { window: d.1, next: d.2, ..w })
        },
    }
}

/// The worker after a read into `room` bytes.
pub open spec fn after_read(w: ReceivingView, room: int) -> (Seq<u8>, ReceivingView) {
    let (ready, taken) = take_ready(w);
    if ready.len() > room {
        (ready.take(room), ReceivingView { left: Some(ready.skip(room)), ..taken })
    } else {
        (ready, taken)
    }
}

/// The worker after a data segment has arrived. One that lies outside the
/// window changes nothing; another one is acknowledged, and kept unless one
/// with its number is there already.
pub open spec fn after_segment(w: ReceivingView, seg: DataView) -> ReceivingView {
    if wrapping_distance(seg.number, w.next) >= w.size {
        w
    } else {
        ReceivingView {
            acks: after_add(after_clear(w.acks, seg.sending_next), seg.number, seg.timestamp),
            window: if w.window.contains_key(seg.number) {
                w.window
            } else {
                w.window.insert(seg.number, seg)
            },
            ..w
        }
    }
}

/// An ack segment with the fields that tell the peer about the receiver.
pub open spec fn addressed(seg: AckView, w: ReceivingView, option: SegmentOption) -> AckView {
    AckView {
        conv: w.conv,
        option,
        receiving_next: w.next,
        receiving_window: wrap32(w.next + w.size),
        ..seg
    }
}

/// The option that goes with segments sent in `state`.
pub open spec fn option_in(state: State) -> SegmentOption {
    if state == State::ReadyToClose {
        SEGMENT_OPTION_CLOSE
    } else {
        0
    }
}

/// The receiving half of a connection.
pub struct ReceivingWorker {
    pub window: ReceivingWindow,
    pub acklist: AckList,
    pub next_number: u32,
    pub window_size: u32,
    pub left_over: Option<MultiBuffer>,
    pub conv: u16,
}

impl View for ReceivingWorker {
    type V = ReceivingView;

    open spec fn view(&self) -> ReceivingView {
        ReceivingView {
            window: self.window@,
            acks: self.acklist@,
            next: self.next_number,
            size: self.window_size,
            left: match self.left_over {
                Some(mb) => Some(mb.flat()),
                None => None,
            },
            conv: self.conv,
        }
    }
}

impl ReceivingWorker {
    /// The list of acknowledgements is well formed.
    pub open spec fn wf(&self) -> bool {
        self.acklist.wf() && self.window@.dom().finite()
    }

    /// A worker that has received nothing. Acknowledgements travel in segments
    /// of up to `mss` bytes.
    pub fn new(config: &Config, conv: u16, mss: usize) -> (w: Self)
        ensures
            w.wf(),
            w@ == (ReceivingView {
                window: Map::empty(),
                acks: AckListView { entries: Seq::empty(), dirty: false, mss },
                next: 0,
                size: in_flight_size(config.downlink_capacity, config.mtu, config.tti),
                left: None,
                conv,
            }),
    {
        ReceivingWorker {
            window: ReceivingWindow::new(),
            acklist: AckList::new(mss),
            next_number: 0,
            window_size: config.get_receiving_in_flight_size(),
            left_over: None,
            conv,
        }
    }

    /// Drops the bytes that were taken out of the window and not read.
    pub fn release(&mut self)
        requires
            old(self).wf(),
        ensures
            final(self).wf(),
            final(self)@ == (ReceivingView { left: None, ..old(self)@ }),
    {
        self.left_over = None;
    }

    /// Forgets the acknowledgements below `number`, which the peer has seen.
    pub fn process_sending_next(&mut self, number: u32)
        requires
            old(self).wf(),
        ensures
            final(self).wf(),
            final(self)@ == (ReceivingView {
                acks: after_clear(old(self)@.acks, number),
                ..old(self)@
            }),
    {
        self.acklist.clear(number);
    }

    /// Takes in a data segment.
    pub fn process_segment(&mut self, seg: DataSegment)
        requires
            old(self).wf(),
        ensures
            final(self).wf(),
            final(self)@ == after_segment(old(self)@, seg@),
    {
        let number: u32 = seg.number;
        if number.wrapping_sub(self.next_number) >= self.window_size {
            return;
        }
        self.acklist.clear(seg.sending_next);
        self.acklist.add(number, seg.timestamp);
        let _ = self.window.set(number, seg);
    }

    /// Takes out the bytes that are ready to be read: those that an earlier
    /// read left over, else the payloads of the segments that follow each other
    /// from the next number on.
    pub fn read_multi_buffer(&mut self) -> (mb: MultiBuffer)
        requires
            old(self).wf(),
        ensures
            final(self).wf(),
            mb.flat() == take_ready(old(self)@).0,
            final(self)@ == take_ready(old(self)@).1,
            old(self)@.left is None ==> mb@ == drain(old(self)@.window, old(self)@.next).0,
    {
        if let Some(mb) = self.left_over.take() {
            return mb;
        }
        let ghost goal = drain(self.window@, self.next_number);
        let mut mb = MultiBuffer::new();
        assert(mb@ + goal.0 =~= goal.0);
        while self.window.has(self.next_number)
            invariant
                self.wf(),
                self.left_over is None,
                self.acklist == old(self).acklist,
                self.window_size == old(self).window_size,
                self.conv == old(self).conv,
                goal.0 == mb@ + drain(self.window@, self.next_number).0,
                goal.1 == drain(self.window@, self.next_number).1,
                goal.2 == drain(self.window@, self.next_number).2,
            decreases self.window@.dom().len(),
        {
            let next: u32 = self.next_number;
            let ghost before = self.window@;
            let ghost read = mb@;
            if let Some(mut seg) = self.window.remove(next) {
                self.next_number = next.wrapping_add(1);
                if let Some(buf) = seg.detach() {
                    mb.push(buf);
                }
                seg.release();
            }
            proof {
                let rest = drain(self.window@, self.next_number);
                assert(self.next_number == wrap32(next + 1));
                match before[next].payload {
                    Some(b) => {
                        assert(read + (seq![b] + rest.0) =~= read.push(b) + rest.0);
                    },
                    None => {},
                }
            }
        }
        proof {
            assert(mb@ + Seq::<Seq<u8>>::empty() =~= mb@);
        }
        mb
    }

    /// Reads bytes to the start of `b` and returns how many they are. What
    /// does not fit is read next time.
    pub fn read(&mut self, b: &mut [u8]) -> (n: usize)
        requires
            old(self).wf(),
        ensures
            final(self).wf(),
            n == after_read(old(self)@, old(b)@.len() as int).0.len(),
            final(b)@ == crate::wire::splice(
                old(b)@,
                0,
                after_read(old(self)@, old(b)@.len() as int).0,
            ),
            final(self)@ == after_read(old(self)@, old(b)@.len() as int).1,
    {
        let mut mb = self.read_multi_buffer();
        let ghost ready = mb.flat();
        let ghost room = b@.len() as int;
        if mb.is_empty() {
            assert(b@ =~= crate::wire::splice(b@, 0, Seq::empty()));
            assert(ready =~= Seq::empty());
            return 0;
        }
        let want: usize = b.len();
        let split = mb.split_bytes(want);
        let written: usize = split.copy_to(b);
        if !mb.is_empty() {
            self.left_over = Some(mb);
        }
        proof {
            if want as int == ready.len() {
                assert(ready.take(want as int) =~= ready);
            }
        }
        written
    }

    /// Whether the segment that the reader waits for is there.
    pub fn is_data_available(&self) -> (b: bool)
        ensures
            b == self@.window.contains_key(self@.next),
    {
        self.window.has(self.next_number)
    }

    /// The first number that was not read.
    pub fn next_number(&self) -> (n: u32)
        ensures
            n == self@.next,
    {
        self.next_number
    }

    /// Whether there is something to acknowledge.
    pub fn update_necessary(&self) -> (b: bool)
        ensures
            b == (self@.acks.entries.len() > 0),
    {
        self.acklist.pending_len() > 0
    }

    /// Makes the ack segments that are due at `current`.
    pub fn flush(&mut self, rtt: &RoundTripInfo, current: u32, state: State) -> (out: Vec<
        AckSegment,
    >)
        requires
            old(self).wf(),
        ensures
            final(self).wf(),
            final(self)@ == (ReceivingView {
                acks: after_flush(old(self)@.acks, current, rtt.rto),
                ..old(self)@
            }),
            ack_views(out@) == worker_flush_segments(old(self)@, current, state),
    {
        let ghost acks = self@.acks;
        let mut out = self.acklist.flush(current, rtt.timeout());
        let ghost made = ack_views(out@);
        let option: SegmentOption = if state == State::ReadyToClose {
            SEGMENT_OPTION_CLOSE
        } else {
            0
        };
        let window_end: u32 = self.next_number.wrapping_add(self.window_size);
        let mut i: usize = 0;
        while i < out.len()
            invariant
                i <= out@.len(),
                out@.len() == made.len(),
                option == option_in(state),
                window_end == wrap32(self.next_number + self.window_size),
                forall|k: int|
                    0 <= k < i ==> #[trigger] out@[k]@ == addressed(made[k], self@, option),
                forall|k: int| i <= k < out@.len() ==> #[trigger] out@[k]@ == made[k],
            decreases out@.len() - i,
        {
            assert(out@[i as int]@ == made[i as int]);
            out[i].conv = self.conv;
            out[i].option = option;
            out[i].receiving_next = self.next_number;
            out[i].receiving_window = window_end;
            assert(out@[i as int]@ == addressed(made[i as int], self@, option));
            i += 1;
        }
        assert(ack_views(out@) =~= worker_flush_segments(old(self)@, current, state));
        out
    }

    /// Nothing is left to do when reading ends.
    pub fn close_read(&self)
    {
    }

    /// How many segments the receiver takes ahead of the one it waits for.
    pub fn window_size(&self) -> (n: u32)
        ensures
            n == self@.size,
    {
        self.window_size
    }
}

/// The ack segments that a worker makes at `current`.
pub open spec fn worker_flush_segments(w: ReceivingView, current: u32, state: State) -> Seq<
    AckView,
> {
    let made = flush_segments(w.acks, current);
    Seq::new(made.len(), |k: int| addressed(made[k], w, option_in(state)))
}

/// The payload that a sender numbered `n`, for each `n`.
pub type Stream = spec_fn(u32) -> Seq<u8>;

/// The payloads of `count` numbers from `start` on, one after the other.
pub open spec fn stream_bytes(stream: Stream, start: u32, count: nat) -> Seq<u8>
    decreases count,
{
    if count == 0 {
        Seq::empty()
    } else {
        stream_bytes(stream, start, (count - 1) as nat) + stream(wrap32(start + count - 1))
    }
}

/// Every segment in the window holds what the sender gave its number.
pub open spec fn agrees(window: Map<u32, DataView>, stream: Stream) -> bool {
    forall|n: u32| #[trigger] window.contains_key(n) ==> window[n].bytes() == stream(n)
}

/// `w` has handed out the bytes `read` of a stream that starts at `start`: what
/// was handed out and what is left over together are the payloads of the
/// numbers before its next one, and what waits in its window agrees with the
/// stream.
pub open spec fn follows(w: ReceivingView, stream: Stream, start: u32, read: Seq<u8>) -> bool {
    &&& w.window.dom().finite()
    &&& agrees(w.window, stream)
    &&& exists|count: nat|
        #![trigger stream_bytes(stream, start, count)]
        w.next == wrap32(start + count) && stream_bytes(stream, start, count) == read + (
        match w.left {
            Some(left) => left,
            None => Seq::empty(),
        })
}

proof fn lemma_wrap_add(a: int, b: int)
    ensures
        wrap32(wrap32(a) + b) == wrap32(a + b),
{
}

proof fn lemma_stream_first(stream: Stream, start: u32, count: nat)
    requires
        count > 0,
    ensures
        stream_bytes(stream, start, count) == stream(start) + stream_bytes(
            stream,
            wrap32(start + 1),
            (count - 1) as nat,
        ),
    decreases count,
{
    let after = wrap32(start + 1);
    let init = stream_bytes(stream, start, (count - 1) as nat);
    let last = stream(wrap32(start + count - 1));
    assert(stream_bytes(stream, start, count) == init + last);
    if count == 1 {
        assert(init =~= Seq::empty());
        assert(wrap32(start + 0) == start);
        assert(init + last =~= stream(start) + stream_bytes(stream, after, 0));
    } else {
        lemma_stream_first(stream, start, (count - 1) as nat);
        lemma_wrap_add(start + 1, count - 2);
        let middle = stream_bytes(stream, after, (count - 2) as nat);
        assert(init == stream(start) + middle);
        assert(stream_bytes(stream, after, (count - 1) as nat) == middle + last);
        assert((stream(start) + middle) + last =~= stream(start) + (middle + last));
    }
}

proof fn lemma_stream_add(stream: Stream, start: u32, a: nat, b: nat)
    ensures
        stream_bytes(stream, start, a + b) == stream_bytes(stream, start, a) + stream_bytes(
            stream,
            wrap32(start + a),
            b,
        ),
    decreases b,
{
    if b == 0 {
        assert(stream_bytes(stream, start, a) + Seq::<u8>::empty() =~= stream_bytes(
            stream,
            start,
            a,
        ));
    } else {
        lemma_stream_add(stream, start, a, (b - 1) as nat);
        lemma_wrap_add(start + a, b - 1);
        assert(stream_bytes(stream, start, a + b) =~= stream_bytes(stream, start, a)
            + stream_bytes(stream, wrap32(start + a), b));
    }
}

/// What is drained from a window that agrees with a stream is a gapless piece
/// of that stream, from the next number on; the rest still agrees, and the next
/// number moves on by the number of segments drained.
pub proof fn law_drain_is_in_order(window: Map<u32, DataView>, next: u32, stream: Stream) -> (
    count: nat)
    requires
        window.dom().finite(),
        agrees(window, stream),
    ensures
        concat(drain(window, next).0) == stream_bytes(stream, next, count),
        drain(window, next).2 == wrap32(next + count),
        drain(window, next).1.dom().finite(),
        agrees(drain(window, next).1, stream),
        !drain(window, next).1.contains_key(drain(window, next).2),
    decreases window.dom().len(),
{
    if window.contains_key(next) {
        let smaller = window.remove(next);
        let after = wrap32(next + 1);
        assert forall|n: u32| #[trigger] smaller.contains_key(n) implies smaller[n].bytes()
            == stream(n) by {
            assert(window.contains_key(n));
        }
        let tail = law_drain_is_in_order(smaller, after, stream);
        let rest = drain(smaller, after);
        let count = (tail + 1) as nat;
        lemma_stream_first(stream, next, count);
        assert(wrap32(after + tail) == wrap32(next + count));
        match window[next].payload {
            Some(b) => {
                lemma_concat_first(seq![b] + rest.0);
                assert((seq![b] + rest.0).skip(1) =~= rest.0);
            },
            None => {
                assert(stream(next) =~= Seq::<u8>::empty());
                assert(stream(next) + stream_bytes(stream, after, tail) =~= stream_bytes(
                    stream,
                    after,
                    tail,
                ));
            },
        }
        count
    } else {
        assert(wrap32(next + 0) == next);
        0
    }
}

/// A segment that carries what the sender gave its number keeps the receiver
/// in step with the stream, whenever it arrives and however often.
pub proof fn law_segment_keeps_in_step(
    w: ReceivingView,
    seg: DataView,
    stream: Stream,
    start: u32,
    read: Seq<u8>,
)
    requires
        follows(w, stream, start, read),
        seg.bytes() == stream(seg.number),
    ensures
        follows(after_segment(w, seg), stream, start, read),
{
    let new = after_segment(w, seg);
    assert forall|n: u32| #[trigger] new.window.contains_key(n) implies new.window[n].bytes()
        == stream(n) by {
        if n != seg.number {
            assert(w.window.contains_key(n));
        } else if w.window.contains_key(n) {
        }
    }
}

proof fn lemma_follows(w: ReceivingView, stream: Stream, start: u32, read: Seq<u8>, count: nat)
    requires
        w.window.dom().finite(),
        agrees(w.window, stream),
        w.next == wrap32(start + count),
        stream_bytes(stream, start, count) == read + (match w.left {
            Some(left) => left,
            None => Seq::empty(),
        }),
    ensures
        follows(w, stream, start, read),
{
}

/// Reading gives back the stream: what a receiver in step with a stream hands
/// out next continues what it has handed out before, without a gap, without
/// repetition and in order.
pub proof fn law_read_continues_stream(
    w: ReceivingView,
    room: nat,
    stream: Stream,
    start: u32,
    read: Seq<u8>,
)
    requires
        follows(w, stream, start, read),
    ensures
        follows(
            after_read(w, room as int).1,
            stream,
            start,
            read + after_read(w, room as int).0,
        ),
{
    let (ready, taken) = take_ready(w);
    let (got, new) = after_read(w, room as int);
    let count = choose|count: nat|
        #![trigger stream_bytes(stream, start, count)]
        w.next == wrap32(start + count) && stream_bytes(stream, start, count) == read + (
        match w.left {
            Some(left) => left,
            None => Seq::empty(),
        });
    let total = match w.left {
        Some(_) => count,
        None => {
            let more = law_drain_is_in_order(w.window, w.next, stream);
            lemma_stream_add(stream, start, count, more);
            lemma_wrap_add(start + count, more as int);
            assert(read + Seq::<u8>::empty() =~= read);
            (count + more) as nat
        },
    };
    assert(stream_bytes(stream, start, total) == read + ready);
    if ready.len() > room {
        assert(read + ready =~= (read + got) + ready.skip(room as int));
    } else {
        assert((read + got) + Seq::<u8>::empty() =~= read + ready);
    }
    lemma_follows(new, stream, start, read + got, total);
}

/// A receiver that has received nothing is in step with every stream that
/// starts at its next number.
pub proof fn law_fresh_receiver_in_step(w: ReceivingView, stream: Stream)
    requires
        w.window == Map::<u32, DataView>::empty(),
        w.left is None,
    ensures
        follows(w, stream, w.next, Seq::empty()),
{
    assert(wrap32(w.next + 0) == w.next);
    assert(stream_bytes(stream, w.next, 0) =~= Seq::<u8>::empty() + Seq::<u8>::empty());
}

/// No segment that a flush makes holds more numbers than fit, and every number
/// that is due is in one of them: the numbers of the segments, one after the
/// other, start with the numbers that are due.
pub proof fn law_flush_covers_due(list: AckListView, current: u32, i: int) -> (at: (int, int))
    requires
        0 <= i < due(list.entries, current).len(),
    ensures
        ({
            let made = flush_segments(list, current);
            &&& 0 <= at.0 < made.len()
            &&& 0 <= at.1 < made[at.0].numbers.len()
            &&& made[at.0].numbers[at.1] == due(list.entries, current)[i].number
        }),
{
    let limit = numbers_per_segment(list.mss) as int;
    let ready = due(list.entries, current);
    let full = (ready.len() / (limit as nat)) as int;
    let k = i / limit;
    let j = i % limit;
    assert(i == k * limit + j && 0 <= j < limit && 0 <= k) by (nonlinear_arith)
        requires
            k == i / limit,
            j == i % limit,
            limit >= 1,
            i >= 0,
    ;
    assert(full * limit <= ready.len() < (full + 1) * limit) by (nonlinear_arith)
        requires
            full == ready.len() as int / limit,
            limit >= 1,
    ;
    assert(k <= full) by (nonlinear_arith)
        requires
            k * limit <= i,
            i < (full + 1) * limit,
            limit >= 1,
    ;
    assert((k + 1) * limit == k * limit + limit) by (nonlinear_arith);
    if k < full {
        assert((k + 1) * limit <= full * limit) by (nonlinear_arith)
            requires
                k + 1 <= full,
                limit >= 1,
        ;
    }
    (k, j)
}

/// No segment that a flush makes holds more numbers than fit.
pub proof fn law_flush_respects_limit(list: AckListView, current: u32, k: int)
    requires
        0 <= k < flush_segments(list, current).len(),
    ensures
        flush_segments(list, current)[k].numbers.len() <= numbers_per_segment(list.mss),
{
    let limit = numbers_per_segment(list.mss) as int;
    let ready = due(list.entries, current);
    let full = (ready.len() / (limit as nat)) as int;
    assert(full * limit <= ready.len() < (full + 1) * limit) by (nonlinear_arith)
        requires
            full == ready.len() as int / limit,
            limit >= 1,
    ;
    assert((full + 1) * limit == full * limit + limit) by (nonlinear_arith);
    assert((k + 1) * limit == k * limit + limit) by (nonlinear_arith);
    if k < full {
        assert(0 <= k * limit && (k + 1) * limit <= full * limit) by (nonlinear_arith)
            requires
                0 <= k < full,
                limit >= 1,
        ;
    }
}

} // verus!
