//! A queue.

use std::collections::VecDeque;

use vstd::prelude::*;

verus! {

/// The item at a position, to change it, by `VecDeque::get_mut`: the reference
/// is to that item, and the others stay as they are.
#[verifier::external_body]
fn slot_mut<T>(queue: &mut VecDeque<T>, index: usize) -> (slot: &mut T)
    requires
        index < old(queue)@.len(),
    ensures
        *slot == old(queue)@[index as int],
        final(queue)@ == old(queue)@.update(index as int, *final(slot)),
{
    queue.get_mut(index).expect("RingBuffer::offset_mut index out of range")
}

/// The position, where there is an item.
fn position_in(len: usize, index: usize) -> (p: Option<usize>)
    ensures
        p == if index < len {
            Some(index)
        } else {
            None
        },
{
    if index < len {
        Some(index)
    } else {
        None
    }
}

/// A queue whose items can also be reached by their position.
pub struct RingBuffer<T> {
    pub inner: VecDeque<T>,
}

impl<T> View for RingBuffer<T> {
    type V = Seq<T>;

    open spec fn view(&self) -> Seq<T> {
        self.inner@
    }
}

impl<T> RingBuffer<T> {
    /// An empty queue.
    pub fn new() -> (r: Self)
        ensures
            r@ == Seq::<T>::empty(),
    {
        RingBuffer { inner: VecDeque::new() }
    }

    /// An empty queue with room for `size` items.
    pub fn with_capacity(size: usize) -> (r: Self)
        ensures
            r@ == Seq::<T>::empty(),
    {
        RingBuffer { inner: VecDeque::with_capacity(size) }
    }

    /// The number of items.
    pub fn len(&self) -> (n: usize)
        ensures
            n == self@.len(),
    {
        self.inner.len()
    }

    /// Whether there are no items.
    pub fn is_empty(&self) -> (b: bool)
        ensures
            b == (self@.len() == 0),
    {
        self.inner.len() == 0
    }

    /// Adds an item at the end.
    pub fn push_back(&mut self, value: T)
        ensures
            final(self)@ == old(self)@.push(value),
    {
        self.inner.push_back(value);
    }

    /// Takes the first item away.
    pub fn pop_front(&mut self) -> (value: T)
        requires
            old(self)@.len() > 0,
        ensures
            value == old(self)@[0],
            final(self)@ == old(self)@.skip(1),
    {
        let value = self.inner.pop_front().expect("RingBuffer::pop_front on empty queue");
        assert(self@ =~= old(self)@.skip(1));
        value
    }

    /// The first item.
    pub fn front(&self) -> (value: &T)
        requires
            self@.len() > 0,
        ensures
            *value == self@[0],
    {
        let at: usize = position_in(self.inner.len(), 0).expect("RingBuffer::front on empty queue");
        &self.inner[at]
    }

    /// The first item, to change it.
    pub fn front_mut(&mut self) -> (value: &mut T)
        requires
            old(self)@.len() > 0,
        ensures
            *value == old(self)@[0],
            final(self)@ == old(self)@.update(0, *final(value)),
    {
        slot_mut(&mut self.inner, 0)
    }

    /// The last item.
    pub fn back(&self) -> (value: &T)
        requires
            self@.len() > 0,
        ensures
            *value == self@.last(),
    {
        let last: usize = self.inner.len().checked_sub(1).expect("RingBuffer::back on empty queue");
        &self.inner[last]
    }

    /// The item at that position.
    pub fn offset(&self, index: usize) -> (value: &T)
        requires
            index < self@.len(),
        ensures
            *value == self@[index as int],
    {
        let at: usize = position_in(self.inner.len(), index).expect(
            "RingBuffer::offset index out of range",
        );
        &self.inner[at]
    }

    /// The item at that position, to change it.
    pub fn offset_mut(&mut self, index: usize) -> (value: &mut T)
        requires
            index < old(self)@.len(),
        ensures
            *value == old(self)@[index as int],
            final(self)@ == old(self)@.update(index as int, *final(value)),
    {
        slot_mut(&mut self.inner, index)
    }

    /// Takes all items away.
    pub fn clear(&mut self)
        ensures
            final(self)@ == Seq::<T>::empty(),
    {
        self.inner.clear();
    }
}

impl<T> Default for RingBuffer<T> {
    fn default() -> (r: Self)
        ensures
            r@ == Seq::<T>::empty(),
    {
        RingBuffer::new()
    }
}

} // verus!
