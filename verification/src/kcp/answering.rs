//! What a receiver promises: everything that arrives is acknowledged, again and
//! again until the sender knows, and nothing else is.

use vstd::prelude::*;

use crate::kcp::receiving::{
    after_add, after_clear, after_flush, after_segment, candidates, due, flush_segments, kept,
    latest, law_flush_covers_due, numbers_per_segment, worker_flush_segments, AckEntry,
    AckListView, ReceivingView,
};
use crate::kcp::segment::{AckView, DataView};
use crate::kcp::state::State;

verus! {

proof fn lemma_due_holds(entries: Seq<AckEntry>, current: u32, i: int) -> (at: int)
    requires
        0 <= i < entries.len(),
        entries[i].next_flush <= current,
    ensures
        0 <= at < due(entries, current).len(),
        due(entries, current)[at] == entries[i],
    decreases entries.len(),
{
    let less = entries.drop_last();
    if i == entries.len() - 1 {
        due(less, current).len() as int
    } else {
        lemma_due_holds(less, current, i)
    }
}

proof fn lemma_due_is_due(entries: Seq<AckEntry>, current: u32, at: int) -> (i: int)
    requires
        0 <= at < due(entries, current).len(),
    ensures
        0 <= i < entries.len(),
        entries[i].next_flush <= current,
        due(entries, current)[at] == entries[i],
    decreases entries.len(),
{
    let less = entries.drop_last();
    if entries.last().next_flush <= current && at == due(less, current).len() {
        entries.len() - 1
    } else {
        let i = lemma_due_is_due(less, current, at);
        assert(less[i] == entries[i]);
        i
    }
}

proof fn lemma_candidate_waits(entries: Seq<AckEntry>, current: u32, at: int) -> (i: int)
    requires
        0 <= at < candidates(entries, current).len(),
    ensures
        0 <= i < entries.len(),
        entries[i].next_flush > current,
        candidates(entries, current)[at] == entries[i].number,
    decreases entries.len(),
{
    let less = entries.drop_last();
    let before = candidates(less, current);
    if at < before.len() {
        let i = lemma_candidate_waits(less, current, at);
        assert(less[i] == entries[i]);
        i
    } else {
        entries.len() - 1
    }
}

proof fn lemma_due_none(entries: Seq<AckEntry>, current: u32)
    requires
        forall|i: int| 0 <= i < entries.len() ==> (#[trigger] entries[i]).next_flush > current,
    ensures
        due(entries, current).len() == 0,
{
    if due(entries, current).len() > 0 {
        let i = lemma_due_is_due(entries, current, 0);
        assert(entries[i].next_flush > current);
    }
}

/// Some segment of `made` acknowledges `number`.
pub open spec fn acknowledges(made: Seq<AckView>, number: u32) -> bool {
    exists|k: int, j: int|
        0 <= k < made.len() && 0 <= j < made[k].numbers.len() && #[trigger] made[k].numbers[j]
            == number
}

/// A number on the list whose pause is over is acknowledged by the next flush.
pub proof fn law_due_number_is_acknowledged(list: AckListView, current: u32, i: int)
    requires
        0 <= i < list.entries.len(),
        list.entries[i].next_flush <= current,
    ensures
        acknowledges(flush_segments(list, current), list.entries[i].number),
{
    let at = lemma_due_holds(list.entries, current, i);
    let (k, j) = law_flush_covers_due(list, current, at);
    assert(flush_segments(list, current)[k].numbers[j] == list.entries[i].number);
}

/// A segment whose number lies in the window, counted on from the first number
/// that was not read, is acknowledged by the next round, whatever it carries and
/// however often it has arrived before. One outside of the window changes
/// nothing.
pub proof fn law_arrival_is_acknowledged(
    w: ReceivingView,
    seg: DataView,
    current: u32,
    state: State,
)
    ensures
        (seg.number - w.next) % 0x1_0000_0000 < w.size ==> acknowledges(
            worker_flush_segments(after_segment(w, seg), current, state),
            seg.number,
        ),
        (seg.number - w.next) % 0x1_0000_0000 < w.size ==> after_segment(
            w,
            seg,
        ).window.contains_key(seg.number),
        (seg.number - w.next) % 0x1_0000_0000 >= w.size ==> after_segment(w, seg) == w,
{
    if (seg.number - w.next) % 0x1_0000_0000 < w.size {
        let new = after_segment(w, seg);
        let i = new.acks.entries.len() - 1;
        law_due_number_is_acknowledged(new.acks, current, i);
        let made = flush_segments(new.acks, current);
        let (k, j) = choose|k: int, j: int|
            0 <= k < made.len() && 0 <= j < made[k].numbers.len() && #[trigger] made[k].numbers[j]
                == seg.number;
        assert(worker_flush_segments(new, current, state)[k].numbers[j] == seg.number);
    }
}

/// A segment that arrives leaves what has arrived before alone, and the first
/// one with its number is the one that is kept.
pub proof fn law_first_arrival_is_kept(w: ReceivingView, seg: DataView, number: u32)
    ensures
        ({
            let new = after_segment(w, seg);
            &&& w.window.contains_key(number) ==> new.window.contains_key(number)
                && new.window[number] == w.window[number]
            &&& !w.window.contains_key(number) && new.window.contains_key(number) ==> number
                == seg.number && new.window[number] == seg
            &&& new.next == w.next && new.size == w.size && new.left == w.left && new.conv
                == w.conv
        }),
{
}

/// What every ack segment of a round tells: the conversation, the first number
/// that was not read, how far the window reaches from there, and whether this
/// side has closed.
pub proof fn law_acknowledgements_tell_the_window(
    w: ReceivingView,
    current: u32,
    state: State,
    k: int,
)
    requires
        0 <= k < worker_flush_segments(w, current, state).len(),
    ensures
        ({
            let seg = worker_flush_segments(w, current, state)[k];
            &&& seg.conv == w.conv
            &&& seg.receiving_next == w.next
            &&& seg.receiving_window == (w.next + w.size) % 0x1_0000_0000
            &&& seg.option == (if state == State::ReadyToClose {
                1u8
            } else {
                0
            })
        }),
{
}

/// A flush names no number that is not on the list.
pub proof fn law_only_arrivals_are_acknowledged(list: AckListView, current: u32, number: u32)
    requires
        acknowledges(flush_segments(list, current), number),
    ensures
        exists|i: int| 0 <= i < list.entries.len() && (#[trigger] list.entries[i]).number == number,
{
    let made = flush_segments(list, current);
    let (k, j) = choose|k: int, j: int|
        0 <= k < made.len() && 0 <= j < made[k].numbers.len() && #[trigger] made[k].numbers[j]
            == number;
    let limit = numbers_per_segment(list.mss) as int;
    let ready = due(list.entries, current);
    let full = (ready.len() / (limit as nat)) as int;
    assert(full * limit <= ready.len() < full * limit + limit) by (nonlinear_arith)
        requires
            full == ready.len() as int / limit,
            limit >= 1,
    ;
    if k < full {
        assert(0 <= k * limit && k * limit + limit == (k + 1) * limit && (k + 1) * limit <= full
            * limit) by (nonlinear_arith)
            requires
                0 <= k < full,
                limit >= 1,
        ;
        let i = lemma_due_is_due(list.entries, current, k * limit + j);
        assert(list.entries[i].number == number);
    } else {
        let rest = ready.skip(full * limit);
        assert(0 <= full * limit) by (nonlinear_arith)
            requires
                0 <= full,
                limit >= 1,
        ;
        if j < rest.len() {
            let i = lemma_due_is_due(list.entries, current, full * limit + j);
            assert(list.entries[i].number == number);
        } else {
            let i = lemma_candidate_waits(list.entries, current, j - rest.len());
            assert(list.entries[i].number == number);
        }
    }
}

/// A number that was acknowledged is due again after half the timeout, after
/// twenty milliseconds at least, and not before: it is told once more then, in
/// case the first time was lost. The other numbers keep their pause.
pub proof fn law_acknowledged_again_after_pause(
    list: AckListView,
    current: u32,
    rto: u32,
    later: u32,
    i: int,
)
    requires
        0 <= i < list.entries.len(),
        list.entries[i].next_flush <= current,
        current + vstd::math::max(20, rto as int / 2) <= u32::MAX,
    ensures
        ({
            let new = after_flush(list, current, rto);
            &&& new.entries.len() == list.entries.len()
            &&& new.entries[i].number == list.entries[i].number
            &&& new.entries[i].timestamp == list.entries[i].timestamp
            &&& new.entries[i].next_flush == current + vstd::math::max(20, rto as int / 2)
            &&& later >= current + vstd::math::max(20, rto as int / 2) ==> acknowledges(
                flush_segments(new, later),
                list.entries[i].number,
            )
        }),
        forall|j: int|
            0 <= j < list.entries.len() && (#[trigger] list.entries[j]).next_flush > current
                ==> after_flush(list, current, rto).entries[j] == list.entries[j],
{
    let new = after_flush(list, current, rto);
    if later >= current + vstd::math::max(20, rto as int / 2) {
        law_due_number_is_acknowledged(new, later, i);
    }
}

/// A flush with nothing due tells nothing, unless the list has changed since
/// the last one; then it tells something.
pub proof fn law_flush_is_silent_without_cause(list: AckListView, current: u32, rto: u32)
    ensures
        !list.dirty && (forall|i: int|
            0 <= i < list.entries.len() ==> (#[trigger] list.entries[i]).next_flush > current)
            ==> flush_segments(list, current).len() == 0,
        list.dirty ==> flush_segments(list, current).len() > 0,
        !after_flush(list, current, rto).dirty,
{
    if forall|i: int|
        0 <= i < list.entries.len() ==> (#[trigger] list.entries[i]).next_flush > current {
        lemma_due_none(list.entries, current);
        let most = numbers_per_segment(list.mss) as nat;
        assert(0nat / most == 0 && 0nat * most == 0) by (nonlinear_arith)
            requires
                most >= 1,
        ;
    }
}

/// A number stays on the list until the sender tells that it needs none below a
/// later one, and no longer; the others stay as they are. A list that a number
/// leaves has changed.
pub proof fn law_told_is_forgotten(list: AckListView, una: u32, entry: AckEntry)
    ensures
        after_clear(list, una).entries.contains(entry) <==> list.entries.contains(entry)
            && entry.number >= una,
        after_clear(list, una).dirty <==> list.dirty || exists|i: int|
            0 <= i < list.entries.len() && (#[trigger] list.entries[i]).number < una,
{
    lemma_kept(list.entries, una, entry);
    lemma_kept_changes(list.entries, una);
}

proof fn lemma_kept(entries: Seq<AckEntry>, una: u32, entry: AckEntry)
    ensures
        kept(entries, una).contains(entry) <==> entries.contains(entry) && entry.number >= una,
    decreases entries.len(),
{
    if entries.len() > 0 {
        let less = entries.drop_last();
        let last = entries.last();
        lemma_kept(less, una, entry);
        if less.contains(entry) {
            let i = choose|i: int| 0 <= i < less.len() && less[i] == entry;
            assert(entries[i] == entry);
        }
        if entries.contains(entry) {
            let i = choose|i: int| 0 <= i < entries.len() && entries[i] == entry;
            if i < less.len() {
                assert(less[i] == entry);
            }
        }
        if last == entry {
            assert(entries[entries.len() - 1] == entry);
        }
        let before = kept(less, una);
        if last.number >= una {
            let all = before.push(last);
            assert(all[before.len() as int] == last);
            if before.contains(entry) {
                let i = choose|i: int| 0 <= i < before.len() && before[i] == entry;
                assert(all[i] == entry);
            }
            if all.contains(entry) {
                let i = choose|i: int| 0 <= i < all.len() && all[i] == entry;
                if i < before.len() {
                    assert(before[i] == entry);
                }
            }
        }
    }
}

proof fn lemma_kept_changes(entries: Seq<AckEntry>, una: u32)
    ensures
        kept(entries, una).len() <= entries.len(),
        kept(entries, una).len() < entries.len() <==> exists|i: int|
            0 <= i < entries.len() && (#[trigger] entries[i]).number < una,
    decreases entries.len(),
{
    if entries.len() > 0 {
        let less = entries.drop_last();
        lemma_kept_changes(less, una);
        if exists|i: int| 0 <= i < less.len() && (#[trigger] less[i]).number < una {
            let i = choose|i: int| 0 <= i < less.len() && (#[trigger] less[i]).number < una;
            assert(entries[i].number < una);
        }
        if entries.last().number < una {
            assert(entries[entries.len() - 1].number < una);
        }
        if exists|i: int| 0 <= i < entries.len() && (#[trigger] entries[i]).number < una {
            let i = choose|i: int| 0 <= i < entries.len() && (#[trigger] entries[i]).number < una;
            if i < less.len() {
                assert(less[i].number < una);
            }
        }
    }
}

/// A new number is on the list at once, due at any time, behind those that are
/// there already.
pub proof fn law_added_is_due(list: AckListView, number: u32, timestamp: u32, current: u32)
    ensures
        ({
            let new = after_add(list, number, timestamp);
            &&& new.entries.len() == list.entries.len() + 1
            &&& new.entries.drop_last() == list.entries
            &&& new.entries.last().number == number
            &&& new.entries.last().timestamp == timestamp
            &&& new.dirty
            &&& acknowledges(flush_segments(new, current), number)
        }),
{
    let new = after_add(list, number, timestamp);
    assert(new.entries.drop_last() =~= list.entries);
    law_due_number_is_acknowledged(new, current, new.entries.len() - 1);
}

/// The time that an ack segment gives back is the latest at which one of the
/// segments that it acknowledges was sent, so that the sender measures the
/// round trip of the newest one.
pub proof fn law_latest_is_given_back(entries: Seq<AckEntry>)
    requires
        entries.len() > 0,
        forall|i: int| 0 <= i < entries.len() ==> (#[trigger] entries[i]).timestamp < 0x7FFF_FFFF,
    ensures
        forall|i: int| 0 <= i < entries.len() ==> (#[trigger] entries[i]).timestamp <= latest(entries),
        exists|i: int| 0 <= i < entries.len() && (#[trigger] entries[i]).timestamp == latest(entries),
    decreases entries.len(),
{
    let less = entries.drop_last();
    if less.len() > 0 {
        assert forall|i: int| 0 <= i < less.len() implies (#[trigger] less[i]).timestamp
            < 0x7FFF_FFFF by {
            assert(less[i] == entries[i]);
        }
        law_latest_is_given_back(less);
        let i = choose|i: int| 0 <= i < less.len() && (#[trigger] less[i]).timestamp == latest(less);
        assert(less[i] == entries[i]);
        assert(entries[i].timestamp == latest(less));
    } else {
        assert(latest(less) == 0);
    }
    let last = entries.len() - 1;
    assert(entries[last].timestamp < 0x7FFF_FFFF);
    if latest(entries) == entries.last().timestamp {
        assert(entries[last].timestamp == latest(entries));
    } else if less.len() > 0 {
        assert(latest(entries) == latest(less));
    }
    assert forall|i: int| 0 <= i < entries.len() implies (#[trigger] entries[i]).timestamp <= latest(
        entries,
    ) by {
        if i < less.len() {
            assert(less[i] == entries[i]);
        }
    }
}

/// An ack segment holds as many numbers as its size has room for, behind seventeen
/// bytes and at four bytes each, a hundred and twenty-eight at most and one at
/// least.
pub proof fn law_ack_segments_are_filled(mss: usize)
    ensures
        ({
            let n = numbers_per_segment(mss) as int;
            &&& 1 <= n <= 128
            &&& mss >= 21 ==> 17 + 4 * n <= mss
            &&& n < 128 ==> 17 + 4 * (n + 1) > mss
        }),
{
}

/// How many of the entries are not due.
pub open spec fn waiting(entries: Seq<AckEntry>, current: u32) -> nat
    decreases entries.len(),
{
    if entries.len() == 0 {
        0
    } else {
        waiting(entries.drop_last(), current) + if entries.last().next_flush > current {
            1nat
        } else {
            0
        }
    }
}

proof fn lemma_candidates_len(entries: Seq<AckEntry>, current: u32)
    ensures
        candidates(entries, current).len() == vstd::math::min(
            128,
            waiting(entries, current) as int,
        ),
        due(entries, current).len() + waiting(entries, current) == entries.len(),
    decreases entries.len(),
{
    if entries.len() > 0 {
        lemma_candidates_len(entries.drop_last(), current);
    }
}

/// A flush wastes no room: the numbers that are due fill segments, and the last
/// segment, where it is not full of them, is filled up with others, as many as
/// fit and at most a hundred and twenty-eight, which are told once more for free.
pub proof fn law_last_segment_is_filled(list: AckListView, current: u32)
    ensures
        ({
            let made = flush_segments(list, current);
            let limit = numbers_per_segment(list.mss) as int;
            let ready = list.entries.len() - waiting(list.entries, current);
            let others = vstd::math::min(128, waiting(list.entries, current) as int);
            &&& ready == due(list.entries, current).len()
            &&& forall|k: int|
                0 <= k < made.len() - 1 ==> (#[trigger] made[k]).numbers.len() == limit
            &&& ready % limit != 0 ==> made.len() == ready / limit + 1 && made.last().numbers.len()
                == vstd::math::min(limit, ready % limit + others)
            &&& ready == 0 && list.dirty ==> made.len() == 1 && made[0].numbers.len()
                == vstd::math::min(limit, others)
            &&& ready > 0 && ready % limit == 0 ==> made.len() == ready / limit
        }),
{
    lemma_candidates_len(list.entries, current);
    let made = flush_segments(list, current);
    let limit = numbers_per_segment(list.mss) as int;
    let all = due(list.entries, current);
    let ready = all.len() as int;
    let full = ready / limit;
    let over = ready % limit;
    assert(ready == full * limit + over && 0 <= over < limit && 0 <= full) by (nonlinear_arith)
        requires
            full == ready / limit,
            over == ready % limit,
            limit >= 1,
            ready >= 0,
    ;
    assert(all.len() / (limit as nat) == full);
    assert forall|k: int| 0 <= k < made.len() - 1 implies (#[trigger] made[k]).numbers.len()
        == limit by {
        assert(0 <= k * limit && k * limit + limit == (k + 1) * limit && (k + 1) * limit <= full
            * limit) by (nonlinear_arith)
            requires
                0 <= k < full,
                limit >= 1,
        ;
    }
    if ready > 0 && over == 0 {
        assert(full > 0) by (nonlinear_arith)
            requires
                ready == full * limit,
                ready > 0,
                limit >= 1,
        ;
    }
    if ready == 0 {
        assert(full == 0) by (nonlinear_arith)
            requires
                full == ready / limit,
                ready == 0,
                limit >= 1,
        ;
    }
}

/// The time that a segment gives back is no earlier than the time at which any of
/// the due segments that it acknowledges was sent.
pub proof fn law_acknowledgement_gives_back_time(list: AckListView, current: u32, i: int) -> (at: (
    int,
    int,
))
    requires
        0 <= i < due(list.entries, current).len(),
        forall|j: int|
            0 <= j < list.entries.len() ==> (#[trigger] list.entries[j]).timestamp < 0x7FFF_FFFF,
    ensures
        ({
            let made = flush_segments(list, current);
            let entry = due(list.entries, current)[i];
            &&& 0 <= at.0 < made.len()
            &&& 0 <= at.1 < made[at.0].numbers.len()
            &&& made[at.0].numbers[at.1] == entry.number
            &&& made[at.0].timestamp >= entry.timestamp
        }),
{
    let made = flush_segments(list, current);
    let limit = numbers_per_segment(list.mss) as int;
    let ready = due(list.entries, current);
    let full = ready.len() as int / limit;
    let k = i / limit;
    let j = i % limit;
    assert(i == k * limit + j && 0 <= j < limit && 0 <= k) by (nonlinear_arith)
        requires
            k == i / limit,
            j == i % limit,
            limit >= 1,
            i >= 0,
    ;
    assert(full * limit <= ready.len() < full * limit + limit && 0 <= full) by (nonlinear_arith)
        requires
            full == ready.len() as int / limit,
            limit >= 1,
    ;
    assert(ready.len() / (limit as nat) == full);
    assert forall|m: int| 0 <= m < ready.len() implies (#[trigger] ready[m]).timestamp
        < 0x7FFF_FFFF by {
        let n = lemma_due_is_due(list.entries, current, m);
        assert(list.entries[n].timestamp < 0x7FFF_FFFF);
    }
    assert(k <= full) by (nonlinear_arith)
        requires
            k * limit <= i,
            i < full * limit + limit,
            limit >= 1,
    ;
    assert(k * limit + limit == (k + 1) * limit) by (nonlinear_arith);
    if k < full {
        assert((k + 1) * limit <= full * limit) by (nonlinear_arith)
            requires
                k + 1 <= full,
                limit >= 1,
        ;
        let part = ready.subrange(k * limit, (k + 1) * limit);
        assert forall|m: int| 0 <= m < part.len() implies (#[trigger] part[m]).timestamp
            < 0x7FFF_FFFF by {
            assert(part[m] == ready[k * limit + m]);
        }
        law_latest_is_given_back(part);
        assert(part[j] == ready[i]);
    } else {
        let part = ready.skip(full * limit);
        assert forall|m: int| 0 <= m < part.len() implies (#[trigger] part[m]).timestamp
            < 0x7FFF_FFFF by {
            assert(part[m] == ready[full * limit + m]);
        }
        law_latest_is_given_back(part);
        assert(part[j] == ready[i]);
    }
    (k, j)
}

/// A segment that is taken in tells below which number the sender knows its
/// acknowledgements: those are forgotten, and the others stay to be told, beside
/// the segment's own.
pub proof fn law_arrival_forgets_told(w: ReceivingView, seg: DataView, entry: AckEntry)
    requires
        (seg.number - w.next) % 0x1_0000_0000 < w.size,
    ensures
        ({
            let new = after_segment(w, seg).acks;
            &&& new.entries.contains(entry) <==> (w.acks.entries.contains(entry) && entry.number
                >= seg.sending_next) || (entry.number == seg.number && entry.timestamp
                == seg.timestamp && entry.next_flush == 0)
            &&& new.dirty
            &&& new.entries.last().number == seg.number
        }),
{
    let cleared = after_clear(w.acks, seg.sending_next);
    law_told_is_forgotten(w.acks, seg.sending_next, entry);
    let new = after_segment(w, seg).acks;
    let own = AckEntry { number: seg.number, timestamp: seg.timestamp, next_flush: 0 };
    assert(new.entries =~= cleared.entries.push(own));
    if cleared.entries.contains(entry) {
        let i = choose|i: int| 0 <= i < cleared.entries.len() && cleared.entries[i] == entry;
        assert(new.entries[i] == entry);
    }
    assert(new.entries[cleared.entries.len() as int] == own);
    if new.entries.contains(entry) {
        let i = choose|i: int| 0 <= i < new.entries.len() && new.entries[i] == entry;
        if i < cleared.entries.len() {
            assert(cleared.entries[i] == entry);
        }
    }
}

} // verus!
