//! A queue of entries that are found by packet number.

use vstd::prelude::*;

use crate::hysteria::congestion::bbr::ringbuffer::RingBuffer;
use crate::hysteria::congestion::types::{PacketNumber, INVALID_PACKET_NUMBER};

verus! {

/// The contents of a queue: the number of the first slot, and for each number
/// from there on its entry, where it has one.
pub struct QueueView<T> {
    pub first: int,
    pub slots: Seq<Option<T>>,
}

/// How many slots have an entry.
pub open spec fn present<T>(slots: Seq<Option<T>>) -> nat
    decreases slots.len(),
{
    if slots.len() == 0 {
        0
    } else {
        present(slots.skip(1)) + if slots[0] is Some {
            1nat
        } else {
            0
        }
    }
}

/// The queue with nothing in it.
pub open spec fn empty_queue<T>() -> QueueView<T> {
    QueueView { first: INVALID_PACKET_NUMBER as int, slots: Seq::empty() }
}

/// The queue without the slots in front that have no entry.
pub open spec fn cleaned<T>(q: QueueView<T>) -> QueueView<T>
    decreases q.slots.len(),
{
    if q.slots.len() == 0 {
        empty_queue()
    } else if q.slots[0] is Some {
        q
    } else {
        cleaned(QueueView { first: q.first + 1, slots: q.slots.skip(1) })
    }
}

/// The queue without the slots of lower numbers. The number of no packet is
/// not passed.
pub open spec fn dropped_below<T>(q: QueueView<T>, number: int) -> QueueView<T>
    decreases q.slots.len(),
{
    if q.slots.len() > 0 && q.first != INVALID_PACKET_NUMBER && q.first < number {
        dropped_below(QueueView { first: q.first + 1, slots: q.slots.skip(1) }, number)
    } else {
        q
    }
}

impl<T> QueueView<T> {
    /// The number of the last slot.
    pub open spec fn last(self) -> int {
        if self.slots.len() == 0 {
            INVALID_PACKET_NUMBER as int
        } else {
            self.first + self.slots.len() - 1
        }
    }

    /// The entry of that number.
    pub open spec fn entry(self, number: int) -> Option<T> {
        if number == INVALID_PACKET_NUMBER || number < self.first || number >= self.first
            + self.slots.len() {
            None
        } else {
            self.slots[number - self.first]
        }
    }

    /// Whether an entry of that number is taken.
    pub open spec fn takes(self, number: int) -> bool {
        number != INVALID_PACKET_NUMBER && (self.slots.len() == 0 || number > self.last())
    }

    /// The queue with an entry of that number at the end.
    pub open spec fn with(self, number: int, entry: T) -> Self {
        if self.slots.len() == 0 {
            QueueView { first: number, slots: seq![Some(entry)] }
        } else {
            QueueView {
                first: self.first,
                slots: Seq::new(
                    (number - self.first + 1) as nat,
                    |i: int|
                        if i < self.slots.len() {
                            self.slots[i]
                        } else if i == number - self.first {
                            Some(entry)
                        } else {
                            None
                        },
                ),
            }
        }
    }

    /// The queue without the entry of that number.
    pub open spec fn without(self, number: int) -> Self {
        let marked = QueueView {
            first: self.first,
            slots: self.slots.update(number - self.first, None),
        };
        if number == self.first {
            cleaned(marked)
        } else {
            marked
        }
    }
}

proof fn lemma_present_push<T>(slots: Seq<Option<T>>, x: Option<T>)
    ensures
        present(slots.push(x)) == present(slots) + if x is Some {
            1nat
        } else {
            0
        },
    decreases slots.len(),
{
    let more = slots.push(x);
    if slots.len() == 0 {
        assert(more.skip(1) =~= Seq::<Option<T>>::empty());
        assert(present(more.skip(1)) == 0);
        assert(more[0] == x);
    } else {
        lemma_present_push(slots.skip(1), x);
        assert(more.skip(1) =~= slots.skip(1).push(x));
    }
}

proof fn lemma_present_remove<T>(slots: Seq<Option<T>>, i: int)
    requires
        0 <= i < slots.len(),
        slots[i] is Some,
    ensures
        present(slots.update(i, None)) + 1 == present(slots),
    decreases slots.len(),
{
    let less = slots.update(i, None);
    if i == 0 {
        assert(less.skip(1) =~= slots.skip(1));
    } else {
        lemma_present_remove(slots.skip(1), i - 1);
        assert(less.skip(1) =~= slots.skip(1).update(i - 1, None));
    }
}

proof fn lemma_present_replace<T>(slots: Seq<Option<T>>, i: int, x: T)
    requires
        0 <= i < slots.len(),
        slots[i] is Some,
    ensures
        present(slots.update(i, Some(x))) == present(slots),
    decreases slots.len(),
{
    let other = slots.update(i, Some(x));
    if i == 0 {
        assert(other.skip(1) =~= slots.skip(1));
    } else {
        lemma_present_replace(slots.skip(1), i - 1, x);
        assert(other.skip(1) =~= slots.skip(1).update(i - 1, Some(x)));
    }
}

proof fn lemma_present_bound<T>(slots: Seq<Option<T>>)
    ensures
        present(slots) <= slots.len(),
    decreases slots.len(),
{
    if slots.len() > 0 {
        lemma_present_bound(slots.skip(1));
    }
}

/// Entries in the order of their packet numbers. Numbers may be left out.
pub struct PacketNumberIndexedQueue<T: Copy> {
    entries: RingBuffer<Option<T>>,
    number_of_present_entries: usize,
    first_packet: PacketNumber,
}

impl<T: Copy> View for PacketNumberIndexedQueue<T> {
    type V = QueueView<T>;

    closed spec fn view(&self) -> QueueView<T> {
        QueueView { first: self.first_packet as int, slots: self.entries@ }
    }
}

impl<T: Copy> PacketNumberIndexedQueue<T> {
    closed spec fn counted(&self) -> bool {
        self.number_of_present_entries == present(self.entries@)
    }

    /// No entry has the number of no packet.
    closed spec fn named(&self) -> bool {
        forall|i: int|
            0 <= i < self.entries@.len() && (#[trigger] self.entries@[i]) is Some
                ==> self.first_packet + i != INVALID_PACKET_NUMBER
    }

    /// The first slot has an entry, no entry has the number of no packet, and
    /// the numbers fit.
    pub closed spec fn wf(&self) -> bool {
        &&& self.counted()
        &&& self.named()
        &&& self@.slots.len() == 0 ==> self@.first == INVALID_PACKET_NUMBER
        &&& self@.slots.len() > 0 ==> self@.slots[0] is Some
        &&& self@.first + self@.slots.len() <= i64::MAX
        &&& self@.slots.len() <= usize::MAX
        &&& self@.slots.len() <= i64::MAX
    }

    /// An empty queue with room for `size` slots.
    pub fn new(size: usize) -> (q: Self)
        ensures
            q.wf(),
            q@ == empty_queue::<T>(),
    {
        PacketNumberIndexedQueue {
            entries: RingBuffer::with_capacity(size),
            number_of_present_entries: 0,
            first_packet: INVALID_PACKET_NUMBER,
        }
    }

    /// Whether there are no entries.
    pub fn is_empty(&self) -> (b: bool)
        requires
            self.wf(),
        ensures
            b == (self@.slots.len() == 0),
            b == (present(self@.slots) == 0),
    {
        self.number_of_present_entries == 0
    }

    /// The number of entries.
    pub fn number_of_present_entries(&self) -> (n: usize)
        requires
            self.wf(),
        ensures
            n == present(self@.slots),
    {
        self.number_of_present_entries
    }

    /// The number of slots, with and without an entry.
    pub fn entry_slots_used(&self) -> (n: usize)
        ensures
            n == self@.slots.len(),
    {
        self.entries.len()
    }

    /// The number of the first entry.
    pub fn first_packet(&self) -> (n: PacketNumber)
        ensures
            n == self@.first,
    {
        self.first_packet
    }

    /// The number of the last slot.
    pub fn last_packet(&self) -> (n: PacketNumber)
        requires
            self.wf(),
        ensures
            n == self@.last(),
    {
        if self.is_empty() {
            INVALID_PACKET_NUMBER
        } else {
            let behind: i64 = (self.entries.len() - 1) as i64;
            self.first_packet + behind
        }
    }

    /// Adds an entry. It is refused where its number is not above all others.
    pub fn emplace(&mut self, packet_number: PacketNumber, entry: T) -> (b: bool)
        requires
            old(self).wf(),
            packet_number < i64::MAX,
            old(self)@.takes(packet_number as int) && old(self)@.slots.len() > 0 ==> packet_number
                - old(self)@.first < usize::MAX && packet_number - old(self)@.first < i64::MAX,
        ensures
            final(self).wf(),
            b == old(self)@.takes(packet_number as int),
            final(self)@ == if b {
                old(self)@.with(packet_number as int, entry)
            } else {
                old(self)@
            },
    {
        if packet_number == INVALID_PACKET_NUMBER {
            return false;
        }
        let ghost before = self@;
        if self.is_empty() {
            proof {
                lemma_present_push(self.entries@, Some(entry));
            }
            self.entries.push_back(Some(entry));
            self.number_of_present_entries = 1;
            self.first_packet = packet_number;
            assert(self@.slots =~= seq![Some(entry)]);
            return true;
        }
        if packet_number <= self.last_packet() {
            return false;
        }
        let offset: usize = (packet_number - self.first_packet) as usize;
        let ghost goal = before.with(packet_number as int, entry);
        assert(self.entries@ =~= goal.slots.take(self.entries@.len() as int));
        while self.entries.len() < offset
            invariant
                before == old(self)@,
                before.slots.len() > 0,
                before.slots[0] is Some,
                goal == before.with(packet_number as int, entry),
                offset == packet_number - before.first,
                before.slots.len() <= self.entries@.len() <= offset,
                offset < usize::MAX,
                self.first_packet == old(self).first_packet,
                self.counted(),
                self.named(),
                self.entries@ == goal.slots.take(self.entries@.len() as int),
            decreases offset - self.entries@.len(),
        {
            proof {
                lemma_present_push(self.entries@, None);
            }
            let ghost at = self.entries@.len() as int;
            self.entries.push_back(None);
            assert(self.entries@ =~= goal.slots.take(at + 1));
        }
        proof {
            lemma_present_push(self.entries@, Some(entry));
            lemma_present_bound(self.entries@);
        }
        self.entries.push_back(Some(entry));
        self.number_of_present_entries += 1;
        assert(self.entries@ =~= goal.slots);
        assert(goal.slots[0] == before.slots[0]);
        true
    }

    /// The entry of that number.
    pub fn get_entry(&self, packet_number: PacketNumber) -> (r: Option<&T>)
        requires
            self.wf(),
        ensures
            match r {
                Some(e) => self@.entry(packet_number as int) == Some(*e),
                None => self@.entry(packet_number as int) is None,
            },
    {
        match self.slot_of(packet_number) {
            None => None,
            Some(at) => match self.entries.offset(at) {
                Some(e) => Some(e),
                None => None,
            },
        }
    }

    /// Where the entry of that number stands.
    fn slot_of(&self, packet_number: PacketNumber) -> (at: Option<usize>)
        requires
            self.wf(),
        ensures
            at is Some <==> self@.entry(packet_number as int) is Some,
            at matches Some(i) ==> {
                &&& i < self.entries@.len()
                &&& i == packet_number - self.first_packet
                &&& self.entries@[i as int] == self@.entry(packet_number as int)
            },
    {
        if packet_number == INVALID_PACKET_NUMBER || self.is_empty() || packet_number
            < self.first_packet {
            return None;
        }
        if packet_number > self.last_packet() {
            return None;
        }
        let at: usize = (packet_number - self.first_packet) as usize;
        if self.entries.offset(at).is_some() {
            Some(at)
        } else {
            None
        }
    }

    /// The entry of that number, to change it.
    pub fn get_entry_mut(&mut self, packet_number: PacketNumber) -> (r: Option<&mut T>)
        requires
            old(self).wf(),
        ensures
            final(self).wf(),
            r is Some <==> old(self)@.entry(packet_number as int) is Some,
            r matches Some(e) ==> {
                &&& old(self)@.entry(packet_number as int) == Some(*e)
                &&& final(self)@ == (QueueView {
                    first: old(self)@.first,
                    slots: old(self)@.slots.update(
                        packet_number - old(self)@.first,
                        Some(*final(e)),
                    ),
                })
            },
            r is None ==> final(self)@ == old(self)@,
    {
        match self.slot_of(packet_number) {
            None => None,
            Some(at) => {
                proof {
                    assert forall|x: T|
                        present(#[trigger] self.entries@.update(at as int, Some(x))) == present(
                            self.entries@,
                        ) by {
                        lemma_present_replace(self.entries@, at as int, x);
                    }
                }
                match self.entries.offset_mut(at) {
                    Some(e) => Some(e),
                    None => None,
                }
            },
        }
    }

    /// Takes the entry of that number away.
    pub fn remove(&mut self, packet_number: PacketNumber) -> (r: Option<T>)
        requires
            old(self).wf(),
        ensures
            final(self).wf(),
            r == old(self)@.entry(packet_number as int),
            final(self)@ == if r is Some {
                old(self)@.without(packet_number as int)
            } else {
                old(self)@
            },
    {
        match self.slot_of(packet_number) {
            None => None,
            Some(at) => {
                let entry: Option<T> = *self.entries.offset(at);
                proof {
                    lemma_present_remove(self.entries@, at as int);
                }
                *self.entries.offset_mut(at) = None;
                self.number_of_present_entries -= 1;
                if packet_number == self.first_packet {
                    self.cleanup();
                }
                entry
            },
        }
    }

    /// Takes the slots of lower numbers away.
    pub fn remove_up_to(&mut self, packet_number: PacketNumber)
        requires
            old(self).wf(),
        ensures
            final(self).wf(),
            final(self)@ == cleaned(dropped_below(old(self)@, packet_number as int)),
    {
        while self.entries.len() > 0 && self.first_packet != INVALID_PACKET_NUMBER
            && self.first_packet < packet_number
            invariant
                self.counted(),
                self.named(),
                self@.first + self@.slots.len() <= i64::MAX,
                self@.slots.len() <= usize::MAX,
                self@.slots.len() <= i64::MAX,
                dropped_below(self@, packet_number as int) == dropped_below(
                    old(self)@,
                    packet_number as int,
                ),
            decreases self.entries@.len(),
        {
            if self.entries.front().is_some() {
                self.number_of_present_entries -= 1;
            }
            let ghost slots = self.entries@;
            let _ = self.entries.pop_front();
            self.first_packet += 1;
            assert forall|i: int|
                0 <= i < self.entries@.len() && (#[trigger] self.entries@[i]) is Some implies
                self.first_packet + i != INVALID_PACKET_NUMBER by {
                assert(self.entries@[i] == slots[i + 1]);
            }
        }
        self.cleanup();
    }

    fn cleanup(&mut self)
        requires
            old(self).counted(),
            old(self).named(),
            old(self)@.first + old(self)@.slots.len() <= i64::MAX,
            old(self)@.slots.len() <= usize::MAX,
            old(self)@.slots.len() <= i64::MAX,
        ensures
            final(self).wf(),
            final(self)@ == cleaned(old(self)@),
    {
        while self.entries.len() > 0 && self.entries.front().is_none()
            invariant
                self.counted(),
                self.named(),
                self@.first + self@.slots.len() <= i64::MAX,
                self@.slots.len() <= usize::MAX,
                self@.slots.len() <= i64::MAX,
                cleaned(self@) == cleaned(old(self)@),
            decreases self.entries@.len(),
        {
            let ghost slots = self.entries@;
            let _ = self.entries.pop_front();
            self.first_packet += 1;
            assert forall|i: int|
                0 <= i < self.entries@.len() && (#[trigger] self.entries@[i]) is Some implies
                self.first_packet + i != INVALID_PACKET_NUMBER by {
                assert(self.entries@[i] == slots[i + 1]);
            }
        }
        if self.entries.is_empty() {
            self.first_packet = INVALID_PACKET_NUMBER;
            assert(self.entries@ =~= Seq::<Option<T>>::empty());
        }
    }
}

/// A queue has no first number if and only if it is empty, and it is empty if
/// and only if no slot has an entry.
pub proof fn law_only_the_empty_have_no_first<T: Copy>(q: PacketNumberIndexedQueue<T>)
    requires
        q.wf(),
    ensures
        q@.first == INVALID_PACKET_NUMBER <==> q@.slots.len() == 0,
        present(q@.slots) == 0 <==> q@.slots.len() == 0,
        q@.slots.len() > 0 ==> q@.entry(q@.first) is Some,
{
    if q@.slots.len() > 0 {
        assert(q.entries@[0] is Some);
    }
}

/// An entry that was added is found under its number, and the others are found
/// as before.
pub proof fn law_emplaced_is_found<T>(q: QueueView<T>, number: int, entry: T, other: int)
    requires
        q.takes(number),
        q.slots.len() == 0 ==> q.first == INVALID_PACKET_NUMBER,
        other != number,
    ensures
        q.with(number, entry).entry(number) == Some(entry),
        q.with(number, entry).entry(other) == q.entry(other),
{
}

proof fn lemma_cleaned_keeps<T>(q: QueueView<T>, other: int)
    ensures
        cleaned(q).entry(other) == q.entry(other),
        cleaned(q).slots.len() > 0 ==> cleaned(q).slots[0] is Some,
    decreases q.slots.len(),
{
    if q.slots.len() > 0 && q.slots[0] is None {
        let less = QueueView { first: q.first + 1, slots: q.slots.skip(1) };
        lemma_cleaned_keeps(less, other);
    }
}

/// An entry that was taken away is no longer found, and the others are found
/// as before.
pub proof fn law_removed_is_not_found<T>(q: QueueView<T>, number: int, other: int)
    requires
        q.entry(number) is Some,
        other != number,
    ensures
        q.without(number).entry(number) is None,
        q.without(number).entry(other) == q.entry(other),
{
    let marked = QueueView { first: q.first, slots: q.slots.update(number - q.first, None) };
    lemma_cleaned_keeps(marked, number);
    lemma_cleaned_keeps(marked, other);
}

/// What is taken away up to a number is exactly what is below it, where packet
/// numbers are not negative.
pub proof fn law_remove_up_to_keeps_the_rest<T>(q: QueueView<T>, number: int, other: int)
    requires
        q.slots.len() > 0 ==> q.first >= 0,
        other >= 0,
    ensures
        cleaned(dropped_below(q, number)).entry(other) == if other < number {
            None
        } else {
            q.entry(other)
        },
    decreases q.slots.len(),
{
    lemma_cleaned_keeps(dropped_below(q, number), other);
    if q.slots.len() > 0 && q.first < number {
        let less = QueueView { first: q.first + 1, slots: q.slots.skip(1) };
        law_remove_up_to_keeps_the_rest(less, number, other);
        lemma_cleaned_keeps(dropped_below(less, number), other);
    }
}

/// A queue takes only numbers behind all of its own.
pub proof fn law_only_later_numbers_are_taken<T>(q: QueueView<T>, number: int, other: int)
    requires
        q.takes(number),
        q.entry(other) is Some,
    ensures
        other < number,
        number != -1,
{
}

/// A number behind all numbers of a queue is taken.
pub proof fn law_later_numbers_are_taken<T>(q: QueueView<T>, number: int)
    requires
        number != -1,
        q.slots.len() > 0 ==> number >= q.first + q.slots.len(),
    ensures
        q.takes(number),
{
}

proof fn lemma_present_nones<T>(slots: Seq<Option<T>>, k: nat)
    ensures
        present(slots + Seq::new(k, |i: int| None::<T>)) == present(slots),
    decreases k,
{
    let nones = Seq::new(k, |i: int| None::<T>);
    if k == 0 {
        assert(slots + nones =~= slots);
    } else {
        let fewer = Seq::new((k - 1) as nat, |i: int| None::<T>);
        lemma_present_nones(slots, (k - 1) as nat);
        lemma_present_push(slots + fewer, None);
        assert(slots + nones =~= (slots + fewer).push(None));
    }
}

proof fn lemma_present_cleaned<T>(q: QueueView<T>)
    ensures
        present(cleaned(q).slots) == present(q.slots),
    decreases q.slots.len(),
{
    if q.slots.len() > 0 && q.slots[0] is None {
        lemma_present_cleaned(QueueView { first: q.first + 1, slots: q.slots.skip(1) });
    }
}

/// An entry that is added counts one more, and one that is taken away one fewer,
/// whatever numbers are left out.
pub proof fn law_entries_are_counted<T>(q: QueueView<T>, number: int, entry: T)
    ensures
        q.takes(number) && (q.slots.len() > 0 ==> number >= q.first) ==> present(
            q.with(number, entry).slots,
        ) == present(q.slots) + 1,
        q.entry(number) is Some ==> present(q.without(number).slots) + 1 == present(q.slots),
{
    if q.takes(number) && (q.slots.len() > 0 ==> number >= q.first) {
        if q.slots.len() == 0 {
            let one = seq![Some(entry)];
            assert(one =~= Seq::<Option<T>>::empty().push(Some(entry)));
            lemma_present_push(Seq::<Option<T>>::empty(), Some(entry));
        } else {
            let k = (number - q.first - q.slots.len()) as nat;
            let nones = Seq::new(k, |i: int| None::<T>);
            lemma_present_nones(q.slots, k);
            lemma_present_push(q.slots + nones, Some(entry));
            assert(q.with(number, entry).slots =~= (q.slots + nones).push(Some(entry)));
        }
    }
    if q.entry(number) is Some {
        lemma_present_remove(q.slots, number - q.first);
        lemma_present_cleaned(
            QueueView { first: q.first, slots: q.slots.update(number - q.first, None) },
        );
    }
}

} // verus!
