//! What acknowledgements do to a sender: what was acknowledged is dropped, and
//! nothing else is.

use vstd::prelude::*;

use crate::kcp::config::Config;
use crate::kcp::round_trip::{after_sample, RoundTripInfo};
use crate::kcp::segment::{AckView, DataView};
use crate::kcp::sending::{
    ack_hits, ack_scan, after_ack, after_one_ack, after_push, after_receiving_next,
    after_worker_flush, drop_below, find_first, has_number, leading, not_skipped, rtt_after_ack, scan_of,
    SendingView, WindowView,
};
use crate::kcp::state::State;

verus! {

/// The numbers of the segments that wait lie one after the other, perhaps with
/// gaps, from the first unacknowledged one up to the next one, counted on where
/// numbers start again.
#[verifier::opaque]
pub open spec fn in_order(w: SendingView) -> bool {
    let segs = w.window.segs;
    let all = (w.next - w.first_unacknowledged) % 0x1_0000_0000;
    &&& all <= 0x7FFF_FFFF
    &&& forall|i: int|
        0 <= i < segs.len() ==> ((#[trigger] segs[i]).number - w.first_unacknowledged)
            % 0x1_0000_0000 < all
    &&& forall|i: int, j: int|
        0 <= i < j < segs.len() ==> ((#[trigger] segs[i]).number - w.first_unacknowledged)
            % 0x1_0000_0000 < ((#[trigger] segs[j]).number - w.first_unacknowledged)
            % 0x1_0000_0000
    &&& segs.len() > 0 ==> segs[0].number == w.first_unacknowledged
    &&& segs.len() == 0 ==> w.first_unacknowledged == w.next
}

/// Whether the numbers from the first unacknowledged one to the next one do not
/// start again.
pub open spec fn unwrapped(w: SendingView) -> bool {
    w.first_unacknowledged <= w.next
}

spec fn ahead(a: u32, from: u32) -> int {
    (a - from) % 0x1_0000_0000
}

proof fn lemma_rebase(a: u32, f: u32, g: u32)
    requires
        ahead(g, f) <= ahead(a, f),
    ensures
        ahead(a, g) == ahead(a, f) - ahead(g, f),
{
}

/// The segments at those positions.
spec fn picked(segs: Seq<DataView>, at: Seq<int>) -> Seq<DataView> {
    Seq::new(at.len(), |k: int| segs[at[k]])
}

spec fn picks(segs: Seq<DataView>, at: Seq<int>) -> bool {
    &&& forall|k: int| 0 <= k < at.len() ==> 0 <= #[trigger] at[k] < segs.len()
    &&& forall|j: int, k: int| 0 <= j < k < at.len() ==> #[trigger] at[j] < #[trigger] at[k]
}

proof fn lemma_picked_in_order(w: SendingView, at: Seq<int>, in_flight: u32)
    requires
        in_order(w),
        picks(w.window.segs, at),
    ensures
        in_order(
            find_first(
                SendingView {
                    window: WindowView { segs: picked(w.window.segs, at), in_flight },
                    ..w
                },
            ),
        ),
        unwrapped(w) ==> unwrapped(
            find_first(
                SendingView {
                    window: WindowView { segs: picked(w.window.segs, at), in_flight },
                    ..w
                },
            ),
        ),
{
    reveal(in_order);
    let segs = w.window.segs;
    let rest = picked(segs, at);
    let f = w.first_unacknowledged;
    let new = find_first(
        SendingView { window: WindowView { segs: rest, in_flight }, ..w },
    );
    let g = new.first_unacknowledged;
    if at.len() > 0 {
        assert(rest[0] == segs[at[0]]);
        lemma_rebase(w.next, f, g);
        assert forall|i: int| 0 <= i < rest.len() implies {
            &&& ahead((#[trigger] rest[i]).number, g) == ahead(rest[i].number, f) - ahead(g, f)
            &&& ahead(rest[i].number, g) < ahead(w.next, g)
        } by {
            assert(rest[i] == segs[at[i]]);
            if i > 0 {
                assert(at[0] < at[i]);
            }
            lemma_rebase(rest[i].number, f, g);
        }
        assert forall|i: int, j: int| 0 <= i < j < rest.len() implies ahead(
            (#[trigger] rest[i]).number,
            g,
        ) < ahead((#[trigger] rest[j]).number, g) by {
            assert(rest[i] == segs[at[i]]);
            assert(rest[j] == segs[at[j]]);
            assert(at[i] < at[j]);
        }
    } else {
        assert(ahead(w.next, w.next) == 0);
    }
}

spec fn from_on(n: nat, k: int) -> Seq<int> {
    Seq::new((n - k) as nat, |i: int| k + i)
}

spec fn all_but(n: nat, gone: int) -> Seq<int> {
    Seq::new(
        (n - 1) as nat,
        |i: int|
            if i < gone {
                i
            } else {
                i + 1
            },
    )
}

proof fn lemma_drop_below(segs: Seq<DataView>, una: u32) -> (k: nat)
    ensures
        k <= segs.len(),
        drop_below(segs, una) == segs.skip(k as int),
        forall|i: int| 0 <= i < k ==> (#[trigger] segs[i]).number < una,
        k < segs.len() ==> segs[k as int].number >= una,
    decreases segs.len(),
{
    if segs.len() > 0 && segs[0].number < una {
        let rest = segs.skip(1);
        let j = lemma_drop_below(rest, una);
        assert(rest.skip(j as int) =~= segs.skip((j + 1) as int));
        assert forall|i: int| 0 <= i < j + 1 implies (#[trigger] segs[i]).number < una by {
            if i > 0 {
                assert(rest[i - 1] == segs[i]);
            }
        }
        if j + 1 < segs.len() {
            assert(rest[j as int] == segs[(j + 1) as int]);
        }
        (j + 1) as nat
    } else {
        assert(segs.skip(0) =~= segs);
        0
    }
}

proof fn lemma_leading_at(segs: Seq<DataView>, number: u32)
    requires
        has_number(segs, number),
    ensures
        leading(segs, number) < segs.len(),
        segs[leading(segs, number) as int].number == number,
    decreases segs.len(),
{
    let i = choose|i: int| 0 <= i < segs.len() && #[trigger] segs[i].number == number;
    if segs[0].number != number {
        let tail = segs.skip(1);
        assert(tail[i - 1].number == number);
        lemma_leading_at(tail, number);
        assert(segs[leading(segs, number) as int] == tail[leading(tail, number) as int]);
    }
}

proof fn lemma_waiting_is_plausible(w: SendingView, number: u32)
    requires
        in_order(w),
        has_number(w.window.segs, number),
    ensures
        ack_hits(w, number),
{
    reveal(in_order);
    let i = choose|i: int|
        0 <= i < w.window.segs.len() && #[trigger] w.window.segs[i].number == number;
    assert(ahead(w.window.segs[i].number, w.first_unacknowledged) < ahead(
        w.next,
        w.first_unacknowledged,
    ));
    lemma_behind(number, w.first_unacknowledged, w.next);
}

proof fn lemma_behind(n: u32, first: u32, next: u32)
    requires
        ahead(n, first) < ahead(next, first) <= 0x7FFF_FFFF,
    ensures
        ahead(n, first) <= 0x7FFF_FFFF,
        ahead(n, next) >= 0x7FFF_FFFF,
{
}

proof fn lemma_distinct(w: SendingView, i: int, j: int)
    requires
        in_order(w),
        0 <= i < w.window.segs.len(),
        0 <= j < w.window.segs.len(),
        w.window.segs[i].number == w.window.segs[j].number,
    ensures
        i == j,
{
    reveal(in_order);
    let segs = w.window.segs;
    let f = w.first_unacknowledged;
    if i < j {
        assert(ahead(segs[i].number, f) < ahead(segs[j].number, f));
    } else if j < i {
        assert(ahead(segs[j].number, f) < ahead(segs[i].number, f));
    }
}

proof fn lemma_increasing(w: SendingView, i: int, j: int)
    requires
        in_order(w),
        unwrapped(w),
        0 <= i < j < w.window.segs.len(),
    ensures
        w.window.segs[i].number < w.window.segs[j].number,
{
    reveal(in_order);
    let segs = w.window.segs;
    let f = w.first_unacknowledged;
    assert(ahead(segs[i].number, f) < ahead(segs[j].number, f));
    lemma_plain(segs[i].number, f, w.next);
    lemma_plain(segs[j].number, f, w.next);
}

proof fn lemma_not_skipped(w: SendingView, i: int, j: int)
    requires
        in_order(w),
        unwrapped(w),
        0 <= i < w.window.segs.len(),
        0 <= j < w.window.segs.len(),
    ensures
        not_skipped(w.window.segs[i], w.window.segs[j].number) == (w.window.segs[i].number
            >= w.window.segs[j].number),
{
    reveal(in_order);
    let f = w.first_unacknowledged;
    lemma_plain(w.window.segs[i].number, f, w.next);
    lemma_plain(w.window.segs[j].number, f, w.next);
    lemma_passed(w.window.segs[i].number, w.window.segs[j].number, f, w.next);
}

proof fn lemma_passed(n: u32, top: u32, first: u32, next: u32)
    requires
        first <= n < next,
        first <= top < next,
        next - first <= 0x7FFF_FFFF,
    ensures
        (top == n || ahead(top, n) > 0x7FFF_FFFF) == (n >= top),
{
}

proof fn lemma_retimed(old: SendingView, new: SendingView)
    requires
        in_order(old),
        new.first_unacknowledged == old.first_unacknowledged,
        new.next == old.next,
        new.window.segs.len() == old.window.segs.len(),
        forall|i: int|
            0 <= i < old.window.segs.len() ==> (#[trigger] new.window.segs[i]).number
                == old.window.segs[i].number,
    ensures
        in_order(new),
{
    reveal(in_order);
    let segs = new.window.segs;
    let f = new.first_unacknowledged;
    assert forall|i: int, j: int| 0 <= i < j < segs.len() implies ((#[trigger] segs[i]).number - f)
        % 0x1_0000_0000 < ((#[trigger] segs[j]).number - f) % 0x1_0000_0000 by {
        assert(segs[i].number == old.window.segs[i].number);
        assert(segs[j].number == old.window.segs[j].number);
    }
}

/// What one acknowledgement leaves: the segments at those positions.
proof fn lemma_one_ack(w: SendingView, number: u32) -> (at: Seq<int>)
    requires
        in_order(w),
    ensures
        picks(w.window.segs, at),
        after_one_ack(w, number).window.segs == picked(w.window.segs, at),
        in_order(after_one_ack(w, number)),
        unwrapped(w) ==> unwrapped(after_one_ack(w, number)),
        !has_number(after_one_ack(w, number).window.segs, number),
        forall|i: int|
            0 <= i < w.window.segs.len() && (#[trigger] w.window.segs[i]).number != number
                ==> at.contains(i),
        ack_hits(w, number) == has_number(w.window.segs, number),
        ({
            let hit: int = if has_number(w.window.segs, number) {
                1
            } else {
                0
            };
            &&& at.len() == w.window.segs.len() - hit
            &&& after_one_ack(w, number).window.in_flight == vstd::math::max(
                0,
                w.window.in_flight - hit,
            )
        }),
{
    let segs = w.window.segs;
    if has_number(segs, number) {
        lemma_waiting_is_plausible(w, number);
        lemma_leading_at(segs, number);
        let gone = leading(segs, number) as int;
        let at = all_but(segs.len(), gone);
        assert(picked(segs, at) =~= segs.remove(gone));
        let left: u32 = if w.window.in_flight > 0 {
            (w.window.in_flight - 1) as u32
        } else {
            0
        };
        lemma_picked_in_order(w, at, left);
        let rest = segs.remove(gone);
        if has_number(rest, number) {
            let k = choose|k: int| 0 <= k < rest.len() && #[trigger] rest[k].number == number;
            let i = at[k];
            assert(rest[k] == segs[i]);
            lemma_distinct(w, i, gone);
        }
        assert forall|i: int|
            0 <= i < segs.len() && (#[trigger] segs[i]).number != number implies at.contains(
            i,
        ) by {
            if i < gone {
                assert(at[i] == i);
            } else {
                assert(at[i - 1] == i);
            }
        }
        at
    } else {
        let at = from_on(segs.len(), 0);
        assert(picked(segs, at) =~= segs);
        assert forall|i: int| 0 <= i < segs.len() implies at.contains(i) by {
            assert(at[i] == i);
        }
        at
    }
}

spec fn greatest(numbers: Seq<u32>, n: nat) -> u32
    decreases n,
{
    if n == 0 {
        0
    } else {
        let before = greatest(numbers, (n - 1) as nat);
        if before < numbers[n - 1] {
            numbers[n - 1]
        } else {
            before
        }
    }
}

proof fn lemma_greatest(numbers: Seq<u32>, n: nat)
    requires
        n <= numbers.len(),
    ensures
        forall|i: int| 0 <= i < n ==> #[trigger] numbers[i] <= greatest(numbers, n),
        greatest(numbers, n) > 0 ==> exists|i: int|
            0 <= i < n && #[trigger] numbers[i] == greatest(numbers, n),
    decreases n,
{
    if n > 0 {
        lemma_greatest(numbers, (n - 1) as nat);
    }
}

proof fn lemma_scan(w: SendingView, numbers: Seq<u32>, n: nat) -> (at: Seq<int>)
    requires
        in_order(w),
        n <= numbers.len(),
    ensures
        ({
            let scan = ack_scan(w, numbers, n);
            let segs = w.window.segs;
            &&& picks(segs, at)
            &&& scan.worker.window.segs == picked(segs, at)
            &&& in_order(scan.worker)
            &&& unwrapped(w) ==> unwrapped(scan.worker)
            &&& scan.worker == (SendingView {
                window: scan.worker.window,
                first_unacknowledged: scan.worker.first_unacknowledged,
                updated: scan.worker.updated,
                ..w
            })
            &&& forall|i: int| 0 <= i < n ==> !has_number(picked(segs, at), #[trigger] numbers[i])
            &&& forall|i: int|
                0 <= i < segs.len() && !numbers.contains((#[trigger] segs[i]).number)
                    ==> at.contains(i)
            &&& scan.worker.window.in_flight == vstd::math::max(
                0,
                w.window.in_flight - (segs.len() - at.len()),
            )
        }),
    decreases n,
{
    let segs = w.window.segs;
    if n == 0 {
        let at = from_on(segs.len(), 0);
        assert(picked(segs, at) =~= segs);
        assert forall|i: int| 0 <= i < segs.len() implies at.contains(i) by {
            assert(at[i] == i);
        }
        at
    } else {
        let m = (n - 1) as nat;
        let number = numbers[m as int];
        let first = lemma_scan(w, numbers, m);
        let before = ack_scan(w, numbers, m);
        let second = lemma_one_ack(before.worker, number);
        let mid = picked(segs, first);
        let at = Seq::new(second.len(), |k: int| first[second[k]]);
        assert(picked(mid, second) =~= picked(segs, at));
        assert forall|i: int| 0 <= i < n implies !has_number(
            picked(segs, at),
            #[trigger] numbers[i],
        ) by {
            if i < m {
                if has_number(picked(segs, at), numbers[i]) {
                    let k = choose|k: int|
                        0 <= k < at.len() && #[trigger] picked(segs, at)[k].number == numbers[i];
                    assert(mid[second[k]].number == numbers[i]);
                }
            }
        }
        assert forall|i: int|
            0 <= i < segs.len() && !numbers.contains((#[trigger] segs[i]).number) implies at.contains(
            i,
        ) by {
            let k = choose|k: int| 0 <= k < first.len() && first[k] == i;
            assert(mid[k] == segs[i]);
            assert(numbers.contains(number));
            let j = choose|j: int| 0 <= j < second.len() && second[j] == k;
            assert(at[j] == i);
        }
        at
    }
}

proof fn lemma_scan_max(w: SendingView, numbers: Seq<u32>, n: nat)
    requires
        in_order(w),
        n <= numbers.len(),
    ensures
        ({
            let scan = ack_scan(w, numbers, n);
            &&& scan.max == greatest(numbers, n)
            &&& scan.max_hit == (scan.max > 0 && has_number(w.window.segs, scan.max))
        }),
    decreases n,
{
    if n > 0 {
        let m = (n - 1) as nat;
        let segs = w.window.segs;
        let number = numbers[m as int];
        lemma_scan_max(w, numbers, m);
        let first = lemma_scan(w, numbers, m);
        let mid = picked(segs, first);
        let _ = lemma_one_ack(ack_scan(w, numbers, m).worker, number);
        lemma_greatest(numbers, m);
        if greatest(numbers, m) < number {
            assert(has_number(mid, number) == has_number(segs, number)) by {
                if has_number(mid, number) {
                    let k = choose|k: int| 0 <= k < mid.len() && #[trigger] mid[k].number == number;
                    assert(segs[first[k]].number == number);
                }
                if has_number(segs, number) && !has_number(mid, number) {
                    lemma_gone_was_named(w, numbers, m, number);
                }
            }
        }
    }
}

/// A segment that is gone after some numbers was named by one of them.
proof fn lemma_gone_was_named(w: SendingView, numbers: Seq<u32>, n: nat, number: u32)
    requires
        in_order(w),
        n <= numbers.len(),
        has_number(w.window.segs, number),
        !has_number(ack_scan(w, numbers, n).worker.window.segs, number),
    ensures
        exists|i: int| 0 <= i < n && #[trigger] numbers[i] == number,
    decreases n,
{
    let m = (n - 1) as nat;
    let before = ack_scan(w, numbers, m);
    if !has_number(before.worker.window.segs, number) {
        lemma_gone_was_named(w, numbers, m, number);
    } else {
        lemma_scan_in_order(w, numbers, m);
        let at = lemma_one_ack(before.worker, numbers[m as int]);
        let segs = before.worker.window.segs;
        let i = choose|i: int| 0 <= i < segs.len() && #[trigger] segs[i].number == number;
        if numbers[m as int] != number {
            let k = choose|k: int| 0 <= k < at.len() && at[k] == i;
            assert(picked(segs, at)[k].number == number);
        }
    }
}

proof fn lemma_scan_in_order(w: SendingView, numbers: Seq<u32>, n: nat)
    requires
        in_order(w),
        n <= numbers.len(),
    ensures
        in_order(ack_scan(w, numbers, n).worker),
    decreases n,
{
    if n > 0 {
        lemma_scan_in_order(w, numbers, (n - 1) as nat);
        let _ = lemma_one_ack(
            ack_scan(w, numbers, (n - 1) as nat).worker,
            numbers[n - 1],
        );
    }
}

/// The sender once it has heard what the peer has read and has room for, and
/// how many segments are dropped from the front for it.
proof fn lemma_start(w: SendingView, ack: AckView) -> (dropped: nat)
    requires
        in_order(w),
    ensures
        ({
            let wider = SendingView {
                remote_next: if w.remote_next < ack.receiving_window {
                    ack.receiving_window
                } else {
                    w.remote_next
                },
                ..w
            };
            let start = after_receiving_next(wider, ack.receiving_next);
            let segs = w.window.segs;
            &&& dropped <= segs.len()
            &&& start.window.segs == segs.skip(dropped as int)
            &&& start.window.in_flight == w.window.in_flight
            &&& in_order(start)
            &&& unwrapped(w) ==> unwrapped(start)
            &&& start == (SendingView {
                window: start.window,
                first_unacknowledged: start.first_unacknowledged,
                updated: start.updated,
                ..wider
            })
            &&& forall|i: int| 0 <= i < dropped ==> (#[trigger] segs[i]).number < ack.receiving_next
            &&& unwrapped(w) ==> forall|i: int|
                dropped <= i < segs.len() ==> (#[trigger] segs[i]).number >= ack.receiving_next
        }),
{
    let segs = w.window.segs;
    let wider = SendingView {
        remote_next: if w.remote_next < ack.receiving_window {
            ack.receiving_window
        } else {
            w.remote_next
        },
        ..w
    };
    let k = lemma_drop_below(segs, ack.receiving_next);
    let at = from_on(segs.len(), k as int);
    assert(picked(segs, at) =~= segs.skip(k as int));
    lemma_retimed(w, wider);
    lemma_picked_in_order(wider, at, w.window.in_flight);
    if unwrapped(w) {
        assert forall|i: int| k <= i < segs.len() implies (#[trigger] segs[i]).number
            >= ack.receiving_next by {
            if i > k {
                lemma_increasing(w, k as int, i);
            }
        }
    }
    k
}

proof fn lemma_plain(n: u32, first: u32, next: u32)
    requires
        first <= next,
        ahead(n, first) < ahead(next, first),
    ensures
        ahead(n, first) == n - first,
{
}

/// What an ack segment does to a sender that is not closed. How many segments
/// are dropped from the front is returned; where numbers do not start again,
/// those are the segments below the number that the peer waits for.
///
/// Of the others, those that the segment names are dropped as well and none
/// else. What stays keeps its number and payload. The peer's room only grows.
pub proof fn law_acknowledged_is_dropped(w: SendingView, ack: AckView, rto: u32) -> (dropped: nat)
    requires
        !w.closed,
        in_order(w),
    ensures
        ({
            let segs = w.window.segs;
            let new = after_ack(w, ack, rto);
            let left = new.window.segs;
            &&& in_order(new)
            &&& new.next == w.next && !new.closed && new.conv == w.conv && new.size == w.size
            &&& new.control_window == w.control_window
            &&& new.remote_next == vstd::math::max(
                w.remote_next as int,
                ack.receiving_window as int,
            )
            &&& dropped <= segs.len()
            &&& forall|i: int| 0 <= i < dropped ==> (#[trigger] segs[i]).number < ack.receiving_next
            &&& forall|k: int|
                0 <= k < left.len() ==> !ack.numbers.contains((#[trigger] left[k]).number)
            &&& unwrapped(w) ==> forall|k: int|
                0 <= k < left.len() ==> (#[trigger] left[k]).number >= ack.receiving_next
            &&& forall|k: int|
                0 <= k < left.len() ==> exists|i: int|
                    dropped <= i < segs.len() && #[trigger] left[k] == (DataView {
                        timeout: left[k].timeout,
                        ..#[trigger] segs[i]
                    })
            &&& forall|i: int|
                dropped <= i < segs.len() && !ack.numbers.contains((#[trigger] segs[i]).number)
                    ==> exists|k: int|
                    0 <= k < left.len() && (#[trigger] left[k]).number == segs[i].number
                        && left[k].payload == segs[i].payload
            &&& new.window.in_flight == vstd::math::max(
                0,
                w.window.in_flight - (segs.len() - dropped - left.len()),
            )
        }),
{
    let segs = w.window.segs;
    let dropped = lemma_start(w, ack);
    let wider = SendingView {
        remote_next: if w.remote_next < ack.receiving_window {
            ack.receiving_window
        } else {
            w.remote_next
        },
        ..w
    };
    let start = after_receiving_next(wider, ack.receiving_next);
    let at = lemma_scan(start, ack.numbers, ack.numbers.len());
    let scan = scan_of(w, ack);
    let mid = scan.worker.window.segs;
    let new = after_ack(w, ack, rto);
    let left = new.window.segs;
    assert(left.len() == mid.len());
    assert forall|k: int| 0 <= k < left.len() implies {
        &&& #[trigger] left[k] == (DataView { timeout: left[k].timeout, ..mid[k] })
        &&& mid[k] == segs[dropped + at[k]]
    } by {
        assert(mid[k] == start.window.segs[at[k]]);
    }
    lemma_retimed(scan.worker, new);
    assert forall|k: int| 0 <= k < left.len() implies !ack.numbers.contains(
        (#[trigger] left[k]).number,
    ) by {
        if ack.numbers.contains(left[k].number) {
            let i = choose|i: int|
                0 <= i < ack.numbers.len() && ack.numbers[i] == left[k].number;
            assert(!has_number(mid, ack.numbers[i]));
            assert(mid[k].number == ack.numbers[i]);
        }
    }
    assert forall|k: int| 0 <= k < left.len() implies exists|i: int|
        dropped <= i < segs.len() && #[trigger] left[k] == (DataView {
            timeout: left[k].timeout,
            ..#[trigger] segs[i]
        }) by {
        let i = dropped + at[k];
        assert(mid[k] == segs[i]);
    }
    assert forall|i: int|
        dropped <= i < segs.len() && !ack.numbers.contains(
            (#[trigger] segs[i]).number,
        ) implies exists|k: int|
        0 <= k < left.len() && (#[trigger] left[k]).number == segs[i].number && left[k].payload
            == segs[i].payload by {
        assert(start.window.segs[i - dropped] == segs[i]);
        let k = choose|k: int| 0 <= k < at.len() && at[k] == i - dropped;
        assert(left[k].number == segs[i].number && left[k].payload == segs[i].payload);
    }
    dropped
}

/// A sender that hears that a later segment has arrived sends the earlier ones
/// sooner: where the greatest number of an ack segment finds its segment, those
/// that were sent before it and still wait come due a third of the timeout
/// earlier. Where it does not, nothing comes due earlier.
pub proof fn law_passed_over_is_sent_sooner(w: SendingView, ack: AckView, rto: u32, top: u32)
    requires
        !w.closed,
        in_order(w),
        unwrapped(w),
        ack.numbers.contains(top),
        forall|i: int| 0 <= i < ack.numbers.len() ==> #[trigger] ack.numbers[i] <= top,
        top > 0,
    ensures
        ({
            let segs = w.window.segs;
            let left = after_ack(w, ack, rto).window.segs;
            let found = top >= ack.receiving_next && exists|i: int|
                0 <= i < segs.len() && (#[trigger] segs[i]).number == top;
            forall|i: int, k: int|
                0 <= i < segs.len() && 0 <= k < left.len() && (#[trigger] segs[i]).number == (
                #[trigger] left[k]).number ==> left[k].timeout == (if found && segs[i].number < top
                    && segs[i].transmit > 0 && segs[i].timeout > rto / 3 {
                    segs[i].timeout - rto / 3
                } else {
                    segs[i].timeout as int
                })
        }),
{
    let segs = w.window.segs;
    let dropped = lemma_start(w, ack);
    let wider = SendingView {
        remote_next: if w.remote_next < ack.receiving_window {
            ack.receiving_window
        } else {
            w.remote_next
        },
        ..w
    };
    let start = after_receiving_next(wider, ack.receiving_next);
    let numbers = ack.numbers;
    let at = lemma_scan(start, numbers, numbers.len());
    lemma_scan_max(start, numbers, numbers.len());
    lemma_greatest(numbers, numbers.len());
    let scan = scan_of(w, ack);
    let mid = scan.worker.window.segs;
    let left = after_ack(w, ack, rto).window.segs;
    let found = top >= ack.receiving_next && exists|i: int|
        0 <= i < segs.len() && (#[trigger] segs[i]).number == top;
    assert(scan.max == top);
    assert(scan.max_hit == found) by {
        if has_number(start.window.segs, top) {
            let i = choose|i: int|
                0 <= i < start.window.segs.len() && #[trigger] start.window.segs[i].number == top;
            assert(segs[i + dropped].number == top);
        }
        if found {
            let i = choose|i: int| 0 <= i < segs.len() && (#[trigger] segs[i]).number == top;
            assert(i >= dropped);
            assert(start.window.segs[i - dropped].number == top);
        }
    }
    assert forall|i: int, k: int|
        0 <= i < segs.len() && 0 <= k < left.len() && (#[trigger] segs[i]).number == (
        #[trigger] left[k]).number implies left[k].timeout == (if found && segs[i].number < top
        && segs[i].transmit > 0 && segs[i].timeout > rto / 3 {
        segs[i].timeout - rto / 3
    } else {
        segs[i].timeout as int
    }) by {
        let j = dropped + at[k];
        assert(mid[k] == start.window.segs[at[k]]);
        assert(mid[k] == segs[j]);
        assert(left[k].number == mid[k].number);
        lemma_distinct(w, i, j);
        if scan.max_hit {
            let t = choose|t: int| 0 <= t < segs.len() && (#[trigger] segs[t]).number == top;
            lemma_not_skipped(w, i, t);
            if segs[i].number < top {
                assert forall|m: int| 0 <= m <= k implies !not_skipped(#[trigger] mid[m], top) by {
                    assert(mid[m] == start.window.segs[at[m]]);
                    let n = dropped + at[m];
                    assert(mid[m] == segs[n]);
                    if m < k {
                        assert(at[m] < at[k]);
                        lemma_increasing(w, n, i);
                    }
                    lemma_not_skipped(w, n, t);
                }
            } else {
                assert(not_skipped(mid[k], top));
            }
        }
    }
}

/// An ack segment counts as a sample of the round trip time where its greatest
/// number finds its segment, and the sample is the time since that segment was
/// sent; a sample of ten seconds or more does not count.
pub proof fn law_acknowledgement_is_a_sample(
    rtt: RoundTripInfo,
    w: SendingView,
    ack: AckView,
    current: u32,
    top: u32,
)
    requires
        !w.closed,
        in_order(w),
        unwrapped(w),
        ack.numbers.contains(top),
        forall|i: int| 0 <= i < ack.numbers.len() ==> #[trigger] ack.numbers[i] <= top,
        top > 0,
    ensures
        ({
            let segs = w.window.segs;
            let found = top >= ack.receiving_next && exists|i: int|
                0 <= i < segs.len() && (#[trigger] segs[i]).number == top;
            let sample = (current - ack.timestamp) % 0x1_0000_0000;
            rtt_after_ack(rtt, w, ack, current) == if found && sample < 10_000 {
                after_sample(rtt, sample as u32, current)
            } else {
                rtt
            }
        }),
{
    let segs = w.window.segs;
    let dropped = lemma_start(w, ack);
    let wider = SendingView {
        remote_next: if w.remote_next < ack.receiving_window {
            ack.receiving_window
        } else {
            w.remote_next
        },
        ..w
    };
    let start = after_receiving_next(wider, ack.receiving_next);
    lemma_scan_max(start, ack.numbers, ack.numbers.len());
    lemma_greatest(ack.numbers, ack.numbers.len());
    if has_number(start.window.segs, top) {
        let i = choose|i: int|
            0 <= i < start.window.segs.len() && #[trigger] start.window.segs[i].number == top;
        assert(segs[i + dropped].number == top);
    }
    if exists|i: int| 0 <= i < segs.len() && (#[trigger] segs[i]).number == top {
        let i = choose|i: int| 0 <= i < segs.len() && (#[trigger] segs[i]).number == top;
        if i >= dropped {
            assert(start.window.segs[i - dropped].number == top);
        }
    }
}

/// A payload that is taken gets the next number and waits at the end, unsent;
/// everything else stays. A sender in order stays in order.
pub proof fn law_taken_waits_at_the_end(w: SendingView, payload: Seq<u8>)
    ensures
        ({
            let new = after_push(w, payload);
            let segs = new.window.segs;
            &&& segs.len() == w.window.segs.len() + 1
            &&& segs.drop_last() == w.window.segs
            &&& segs.last().number == w.next
            &&& segs.last().payload == Some(payload)
            &&& segs.last().transmit == 0
            &&& segs.last().timeout == 0
            &&& new.next == (w.next + 1) % 0x1_0000_0000
            &&& new == (SendingView { window: new.window, next: new.next, ..w })
            &&& new.window.in_flight == w.window.in_flight
            &&& in_order(w) && (w.next - w.first_unacknowledged) % 0x1_0000_0000 < 0x7FFF_FFFF
                ==> in_order(new)
        }),
{
    reveal(in_order);
    let new = after_push(w, payload);
    let segs = new.window.segs;
    assert(segs.drop_last() =~= w.window.segs);
    let f = w.first_unacknowledged;
    if in_order(w) && (w.next - f) % 0x1_0000_0000 < 0x7FFF_FFFF {
        assert(ahead(new.next, f) == ahead(w.next, f) + 1);
        assert forall|i: int| 0 <= i < segs.len() implies ((#[trigger] segs[i]).number - f)
            % 0x1_0000_0000 < (new.next - f) % 0x1_0000_0000 by {
            if i < w.window.segs.len() {
                assert(segs[i] == w.window.segs[i]);
            }
        }
        assert forall|i: int, j: int| 0 <= i < j < segs.len() implies ((#[trigger] segs[i]).number
            - f) % 0x1_0000_0000 < ((#[trigger] segs[j]).number - f) % 0x1_0000_0000 by {
            assert(segs[i] == w.window.segs[i]);
            if j < w.window.segs.len() {
                assert(segs[j] == w.window.segs[j]);
            }
        }
        if w.window.segs.len() > 0 {
            assert(segs[0] == w.window.segs[0]);
        }
    }
}

/// A round of sending keeps a sender in order.
pub proof fn law_rounds_keep_order(
    w: SendingView,
    rtt: RoundTripInfo,
    config: Config,
    current: u32,
    state: State,
)
    requires
        in_order(w),
    ensures
        in_order(after_worker_flush(w, rtt, config, current, state)),
{
    reveal(in_order);
    if !w.closed {
        let segs = w.window.segs;
        let new = after_worker_flush(w, rtt, config, current, state);
        let f = w.first_unacknowledged;
        assert forall|i: int| 0 <= i < segs.len() implies (#[trigger] new.window.segs[i]).number
            == segs[i].number by {}
        assert forall|i: int, j: int| 0 <= i < j < segs.len() implies ((
        #[trigger] new.window.segs[i]).number - f) % 0x1_0000_0000 < ((
        #[trigger] new.window.segs[j]).number - f) % 0x1_0000_0000 by {
            assert(new.window.segs[i].number == segs[i].number);
            assert(new.window.segs[j].number == segs[j].number);
        }
    }
}

/// What a sender does when it hears which number the peer waits for: the segments
/// below it are dropped from the front, and the others go on waiting as they
/// are. How many are dropped is returned.
pub proof fn law_told_next_drops(w: SendingView, una: u32) -> (dropped: nat)
    requires
        in_order(w),
    ensures
        ({
            let new = after_receiving_next(w, una);
            let segs = w.window.segs;
            &&& in_order(new)
            &&& dropped <= segs.len()
            &&& new.window.segs == segs.skip(dropped as int)
            &&& forall|i: int| 0 <= i < dropped ==> (#[trigger] segs[i]).number < una
            &&& unwrapped(w) ==> forall|i: int|
                dropped <= i < segs.len() ==> (#[trigger] segs[i]).number >= una
            &&& new.next == w.next && new.closed == w.closed && new.remote_next == w.remote_next
            &&& new.control_window == w.control_window && new.window.in_flight
                == w.window.in_flight
        }),
{
    let ack = AckView {
        conv: 0,
        option: 0,
        receiving_window: w.remote_next,
        receiving_next: una,
        timestamp: 0,
        numbers: Seq::empty(),
        limit: 1,
    };
    lemma_start(w, ack)
}

/// A closed sender hears no acknowledgements.
pub proof fn law_closed_hears_nothing(
    w: SendingView,
    rtt: RoundTripInfo,
    ack: AckView,
    rto: u32,
    current: u32,
)
    requires
        w.closed,
    ensures
        after_ack(w, ack, rto) == w,
        rtt_after_ack(rtt, w, ack, current) == rtt,
{
}

/// An ack segment that names no number is no sample of the round trip time.
pub proof fn law_no_number_is_no_sample(
    w: SendingView,
    rtt: RoundTripInfo,
    ack: AckView,
    current: u32,
)
    requires
        ack.numbers.len() == 0,
    ensures
        rtt_after_ack(rtt, w, ack, current) == rtt,
{
}

/// The first number without acknowledgement is that of the first segment that
/// waits, or the next number where none does; that it has changed is remembered
/// until the next round.
pub proof fn law_first_number_is_kept(w: SendingView, una: u32)
    ensures
        ({
            let new = after_receiving_next(w, una);
            &&& new.window.segs.len() > 0 ==> new.first_unacknowledged == new.window.segs[0].number
            &&& new.window.segs.len() == 0 ==> new.first_unacknowledged == w.next
            &&& new.updated <==> w.updated || new.first_unacknowledged != w.first_unacknowledged
        }),
{
}

} // verus!
