//! What a receiver hands out over its whole course.

use vstd::prelude::*;

use crate::kcp::buffer::{concat, lemma_concat_first};
use crate::kcp::receiving::{
    after_read, after_segment, drain, AckListView, ReceivingView,
};
use crate::kcp::round_trip::wrap32;
use crate::kcp::segment::{wrapping_distance, DataView};

verus! {

/// What happens to a receiver.
pub ghost enum Step {
    /// A segment arrives.
    Segment(DataView),
    /// Bytes are read into a buffer of that size.
    Read(nat),
    /// The list of acknowledgements changes.
    Acks(AckListView),
}

/// A receiver and what has become of it since its start. Numbers are counted on
/// where they start again: the place of a number tells how many lie before it.
pub ghost struct Course {
    pub receiver: ReceivingView,
    /// The bytes that were handed out, one after the other.
    pub read: Seq<u8>,
    /// The place of the receiver's next number.
    pub place: nat,
    /// For each place, the payload of the segment that was the first one to
    /// arrive for it within the window.
    pub firsts: Map<nat, Seq<u8>>,
}

/// A receiver at its start.
pub open spec fn begun(receiver: ReceivingView) -> Course {
    Course { receiver, read: Seq::empty(), place: 0, firsts: Map::empty() }
}

/// The first payloads, once a segment has arrived: it counts where it lies
/// within the window and is the first one for its place.
pub open spec fn firsts_with(c: Course, seg: DataView) -> Map<nat, Seq<u8>> {
    let ahead = wrapping_distance(seg.number, c.receiver.next);
    let place = (c.place + ahead) as nat;
    if ahead >= c.receiver.size || c.firsts.contains_key(place) {
        c.firsts
    } else {
        c.firsts.insert(place, seg.bytes())
    }
}

/// The course after one more step.
pub open spec fn continued(c: Course, step: Step) -> Course {
    match step {
        Step::Segment(seg) => Course {
            receiver: after_segment(c.receiver, seg),
            firsts: firsts_with(c, seg),
            ..c
        },
        Step::Read(room) => {
            let (got, receiver) = after_read(c.receiver, room as int);
            Course {
                receiver,
                read: c.read + got,
                place: (c.place + wrapping_distance(receiver.next, c.receiver.next)) as nat,
                ..c
            }
        },
        Step::Acks(acks) => Course { receiver: ReceivingView { acks, ..c.receiver }, ..c },
    }
}

/// The course of a receiver.
pub open spec fn course(receiver: ReceivingView, steps: Seq<Step>) -> Course
    decreases steps.len(),
{
    if steps.len() == 0 {
        begun(receiver)
    } else {
        continued(course(receiver, steps.drop_last()), steps.last())
    }
}

/// The payloads of the first `count` places, one after the other.
pub open spec fn joined(firsts: Map<nat, Seq<u8>>, count: nat) -> Seq<u8>
    decreases count,
{
    if count == 0 {
        Seq::empty()
    } else {
        joined(firsts, (count - 1) as nat) + firsts[(count - 1) as nat]
    }
}

/// Whether the first place without a payload is that one.
pub open spec fn first_missing(firsts: Map<nat, Seq<u8>>, place: nat) -> bool {
    &&& forall|k: nat| k < place ==> #[trigger] firsts.contains_key(k)
    &&& !firsts.contains_key(place)
}

/// What is left over from a read.
spec fn left_of(w: ReceivingView) -> Seq<u8> {
    match w.left {
        Some(left) => left,
        None => Seq::empty(),
    }
}

/// The window holds the first payloads from the next number on.
#[verifier::opaque]
spec fn holds(
    window: Map<u32, DataView>,
    next: u32,
    size: int,
    place: nat,
    firsts: Map<nat, Seq<u8>>,
) -> bool {
    &&& forall|n: u32| #[trigger]
        window.contains_key(n) ==> {
            let ahead = wrapping_distance(n, next);
            &&& ahead < size
            &&& firsts.contains_key((place + ahead) as nat)
            &&& firsts[(place + ahead) as nat] == window[n].bytes()
        }
    &&& forall|k: nat| #[trigger]
        firsts.contains_key(k) && k >= place ==> {
            &&& k - place < size
            &&& window.contains_key(wrap32(next + (k - place)))
        }
}

/// What every step keeps.
spec fn sound(c: Course, start: ReceivingView) -> bool {
    let w = c.receiver;
    &&& w.window.dom().finite()
    &&& w.size == start.size
    &&& w.next == wrap32(start.next + c.place)
    &&& holds(w.window, w.next, w.size as int, c.place, c.firsts)
    &&& forall|k: nat| k < c.place ==> #[trigger] c.firsts.contains_key(k)
    &&& joined(c.firsts, c.place) == c.read + left_of(w)
    &&& w.left matches Some(left) ==> left.len() > 0
}

proof fn lemma_joined_same(a: Map<nat, Seq<u8>>, b: Map<nat, Seq<u8>>, count: nat)
    requires
        forall|k: nat| k < count ==> #[trigger] a[k] == b[k],
    ensures
        joined(a, count) == joined(b, count),
    decreases count,
{
    if count > 0 {
        lemma_joined_same(a, b, (count - 1) as nat);
        assert(a[(count - 1) as nat] == b[(count - 1) as nat]);
    }
}

proof fn lemma_joined_grows(firsts: Map<nat, Seq<u8>>, a: nat, b: nat)
    requires
        a <= b,
    ensures
        joined(firsts, a).is_prefix_of(joined(firsts, b)),
    decreases b,
{
    if a < b {
        lemma_joined_grows(firsts, a, (b - 1) as nat);
        let less = joined(firsts, (b - 1) as nat);
        let more = joined(firsts, b);
        assert(more.take(less.len() as int) =~= less);
        assert(joined(firsts, a) =~= more.take(joined(firsts, a).len() as int));
    } else {
        assert(joined(firsts, a) =~= joined(firsts, b).take(joined(firsts, a).len() as int));
    }
}

proof fn lemma_holds_next(
    window: Map<u32, DataView>,
    next: u32,
    size: int,
    place: nat,
    firsts: Map<nat, Seq<u8>>,
)
    requires
        0 <= size <= u32::MAX,
        holds(window, next, size, place, firsts),
    ensures
        window.contains_key(next) <==> firsts.contains_key(place),
        window.contains_key(next) ==> {
            &&& size > 0
            &&& firsts[place] == window[next].bytes()
            &&& holds(window.remove(next), wrap32(next + 1), size - 1, place + 1, firsts)
        },
{
    reveal(holds);
    assert(wrap32(next + 0) == next);
    assert(wrapping_distance(next, next) == 0);
    if firsts.contains_key(place) {
        assert(window.contains_key(wrap32(next + (place - place))));
    }
    if window.contains_key(next) {
        let smaller = window.remove(next);
        let after = wrap32(next + 1);
        assert forall|n: u32| #[trigger] smaller.contains_key(n) implies {
            let ahead = wrapping_distance(n, after);
            &&& ahead < size - 1
            &&& firsts.contains_key((place + 1 + ahead) as nat)
            &&& firsts[(place + 1 + ahead) as nat] == smaller[n].bytes()
        } by {
            assert(window.contains_key(n));
            lemma_one_less(n, next);
        }
        assert forall|k: nat| #[trigger] firsts.contains_key(k) && k >= place + 1 implies {
            &&& k - (place + 1) < size - 1
            &&& smaller.contains_key(wrap32(after + (k - (place + 1))))
        } by {
            lemma_shift(next, 1, k - (place + 1));
            assert(window.contains_key(wrap32(next + (k - place))));
            lemma_not_around(next, k - place);
        }
    }
}

proof fn lemma_holds_wider(
    window: Map<u32, DataView>,
    next: u32,
    size: int,
    wider: int,
    place: nat,
    firsts: Map<nat, Seq<u8>>,
)
    requires
        size <= wider,
        holds(window, next, size, place, firsts),
    ensures
        holds(window, next, wider, place, firsts),
{
    reveal(holds);
}

/// What is drained are the payloads of the places up to the first one that is
/// missing, and what stays are those beyond.
proof fn lemma_drained(
    window: Map<u32, DataView>,
    next: u32,
    size: int,
    place: nat,
    firsts: Map<nat, Seq<u8>>,
) -> (count: nat)
    requires
        window.dom().finite(),
        0 <= size <= u32::MAX,
        holds(window, next, size, place, firsts),
    ensures
        count <= size,
        drain(window, next).1.dom().finite(),
        drain(window, next).2 == wrap32(next + count),
        joined(firsts, place + count) == joined(firsts, place) + concat(drain(window, next).0),
        forall|k: nat| place <= k < place + count ==> #[trigger] firsts.contains_key(k),
        !firsts.contains_key(place + count),
        holds(
            drain(window, next).1,
            drain(window, next).2,
            size - count,
            place + count,
            firsts,
        ),
    decreases window.dom().len(),
{
    lemma_holds_next(window, next, size, place, firsts);
    if window.contains_key(next) {
        let smaller = window.remove(next);
        let after = wrap32(next + 1);
        let tail = lemma_drained(smaller, after, size - 1, place + 1, firsts);
        let rest = drain(smaller, after);
        let count = (tail + 1) as nat;
        let before = joined(firsts, place);
        lemma_shift(next, 1, tail as int);
        assert(joined(firsts, place + 1) == before + firsts[place]);
        match window[next].payload {
            Some(b) => {
                lemma_concat_first(seq![b] + rest.0);
                assert((seq![b] + rest.0).skip(1) =~= rest.0);
                assert(before + (b + concat(rest.0)) =~= (before + b) + concat(rest.0));
            },
            None => {
                assert(before + Seq::<u8>::empty() =~= before);
            },
        }
        assert(place + 1 + tail == place + count);
        assert(size - 1 - tail == size - count);
        count
    } else {
        assert(wrap32(next + 0) == next);
        assert(joined(firsts, place) + Seq::<u8>::empty() =~= joined(firsts, place));
        0
    }
}

proof fn lemma_one_less(n: u32, next: u32)
    requires
        n != next,
    ensures
        wrapping_distance(n, wrap32(next + 1)) == wrapping_distance(n, next) - 1,
        wrapping_distance(n, next) >= 1,
{
}

proof fn lemma_shift(next: u32, a: int, b: int)
    ensures
        wrap32(wrap32(next + a) + b) == wrap32(next + (a + b)),
{
}

proof fn lemma_not_around(next: u32, ahead: int)
    requires
        1 <= ahead <= u32::MAX,
    ensures
        wrap32(next + ahead) != next,
{
}

proof fn lemma_distance_of(next: u32, ahead: int)
    requires
        0 <= ahead <= u32::MAX,
    ensures
        wrapping_distance(wrap32(next + ahead), next) == ahead,
{
}

proof fn lemma_number_at(n: u32, next: u32)
    ensures
        0 <= wrapping_distance(n, next) <= u32::MAX,
        wrap32(next + wrapping_distance(n, next)) == n,
{
}

proof fn lemma_segment_sound(c: Course, start: ReceivingView, seg: DataView)
    requires
        sound(c, start),
    ensures
        sound(continued(c, Step::Segment(seg)), start),
{
    let w = c.receiver;
    let d = continued(c, Step::Segment(seg));
    let ahead = wrapping_distance(seg.number, w.next);
    let place = (c.place + ahead) as nat;
    reveal(holds);
    lemma_number_at(seg.number, w.next);
    if ahead < w.size {
        assert(c.firsts.contains_key(place) <==> w.window.contains_key(seg.number));
        if !c.firsts.contains_key(place) {
            assert forall|n: u32| #[trigger] d.receiver.window.contains_key(n) implies {
                let far = wrapping_distance(n, w.next);
                &&& far < w.size
                &&& d.firsts.contains_key((c.place + far) as nat)
                &&& d.firsts[(c.place + far) as nat] == d.receiver.window[n].bytes()
            } by {
                lemma_number_at(n, w.next);
                if n != seg.number {
                    assert(w.window.contains_key(n));
                }
            }
            assert forall|k: nat| #[trigger] d.firsts.contains_key(k) && k >= c.place implies {
                &&& k - c.place < w.size
                &&& d.receiver.window.contains_key(wrap32(w.next + (k - c.place)))
            } by {
                if k != place {
                    assert(c.firsts.contains_key(k));
                }
            }
            assert forall|k: nat| k < c.place implies #[trigger] d.firsts.contains_key(k) by {
                assert(c.firsts.contains_key(k));
            }
            lemma_joined_same(c.firsts, d.firsts, c.place);
        }
    }
}

proof fn lemma_read_sound(c: Course, start: ReceivingView, room: nat)
    requires
        sound(c, start),
    ensures
        sound(continued(c, Step::Read(room)), start),
        ({
            let d = continued(c, Step::Read(room));
            room > 0 && d.read == c.read ==> first_missing(d.firsts, d.place) && d.read == joined(
                d.firsts,
                d.place,
            )
        }),
{
    let w = c.receiver;
    let (got, new) = after_read(w, room as int);
    let d = continued(c, Step::Read(room));
    assert(wrapping_distance(w.next, w.next) == 0);
    match w.left {
        Some(left) => {
            if left.len() > room {
                assert(c.read + left =~= (c.read + got) + left.skip(room as int));
            } else {
                assert((c.read + got) + Seq::<u8>::empty() =~= c.read + left);
            }
            assert(room > 0 ==> d.read.len() > c.read.len());
        },
        None => {
            let count = lemma_drained(w.window, w.next, w.size as int, c.place, c.firsts);
            let ready = concat(drain(w.window, w.next).0);
            lemma_distance_of(w.next, count as int);
            assert(d.place == c.place + count);
            lemma_shift(start.next, c.place as int, count as int);
            lemma_holds_wider(new.window, new.next, w.size - count, w.size as int, d.place, d.firsts);
            assert(c.read + Seq::<u8>::empty() =~= c.read);
            assert(joined(c.firsts, d.place) == c.read + ready);
            if ready.len() > room {
                assert(c.read + ready =~= (c.read + got) + ready.skip(room as int));
                assert(room > 0 ==> d.read.len() > c.read.len());
            } else {
                assert((c.read + got) + Seq::<u8>::empty() =~= c.read + ready);
                assert(d.read == joined(d.firsts, d.place));
            }
        },
    }
}

proof fn lemma_sound(start: ReceivingView, steps: Seq<Step>)
    requires
        start.window == Map::<u32, DataView>::empty(),
        start.left is None,
    ensures
        sound(course(start, steps), start),
    decreases steps.len(),
{
    if steps.len() == 0 {
        reveal(holds);
        assert(wrap32(start.next + 0) == start.next);
        assert(Seq::<u8>::empty() + Seq::<u8>::empty() =~= Seq::<u8>::empty());
    } else {
        let c = course(start, steps.drop_last());
        lemma_sound(start, steps.drop_last());
        match steps.last() {
            Step::Segment(seg) => lemma_segment_sound(c, start, seg),
            Step::Read(room) => lemma_read_sound(c, start, room),
            Step::Acks(_) => {},
        }
    }
}

/// Whatever arrives at a receiver that starts with nothing, in whatever order,
/// however often and with whatever bytes, and whenever it is read into buffers
/// of whatever size: what was handed out so far is the start of the payloads
/// of the first segments that arrived for each place, one after the other, up
/// to the first place for which none has arrived. That place is returned.
pub proof fn law_first_arrivals_are_read(start: ReceivingView, steps: Seq<Step>) -> (missing: nat)
    requires
        start.window == Map::<u32, DataView>::empty(),
        start.left is None,
    ensures
        ({
            let c = course(start, steps);
            &&& c.receiver.next == wrap32(start.next + c.place)
            &&& c.place <= missing
            &&& first_missing(c.firsts, missing)
            &&& c.read.is_prefix_of(joined(c.firsts, missing))
        }),
{
    let c = course(start, steps);
    lemma_sound(start, steps);
    let w = c.receiver;
    let count = lemma_drained(w.window, w.next, w.size as int, c.place, c.firsts);
    let missing = c.place + count;
    lemma_joined_grows(c.firsts, c.place, missing);
    let all = joined(c.firsts, missing);
    let ready = joined(c.firsts, c.place);
    assert(ready =~= all.take(ready.len() as int));
    assert(c.read =~= all.take(c.read.len() as int)) by {
        assert(ready.take(c.read.len() as int) =~= c.read);
    }
    missing
}

/// A read that hands out nothing, though there is room, tells that everything
/// was handed out: the payloads of all places up to the first one for which no
/// segment has arrived. That place is returned.
pub proof fn law_nothing_read_is_all_read(start: ReceivingView, steps: Seq<Step>, room: nat) -> (
    missing: nat)
    requires
        start.window == Map::<u32, DataView>::empty(),
        start.left is None,
        room > 0,
        after_read(course(start, steps).receiver, room as int).0.len() == 0,
    ensures
        ({
            let c = course(start, steps);
            &&& first_missing(c.firsts, missing)
            &&& c.read == joined(c.firsts, missing)
        }),
{
    let c = course(start, steps);
    lemma_sound(start, steps);
    lemma_read_sound(c, start, room);
    let d = continued(c, Step::Read(room));
    assert(d.read =~= c.read);
    d.place
}

} // verus!
