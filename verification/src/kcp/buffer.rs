//! Growable byte buffers and lists of them.

use vstd::prelude::*;

use crate::wire;

verus! {

/// A growable run of bytes.
#[derive(Debug)]
pub struct Buffer {
    data: Vec<u8>,
}

impl View for Buffer {
    type V = Seq<u8>;

    closed spec fn view(&self) -> Seq<u8> {
        self.data@
    }
}

impl Buffer {
    /// An empty buffer.
    pub fn new() -> (b: Self)
        ensures
            b@ == Seq::<u8>::empty(),
    {
        Buffer { data: Vec::new() }
    }

    /// Appends `src` and returns the number of bytes taken.
    pub fn write_from(&mut self, src: &[u8]) -> (n: usize)
        ensures
            final(self)@ == old(self)@ + src@,
            n == src@.len(),
    {
        wire::push_bytes(&mut self.data, src);
        src.len()
    }

    /// Appends one byte.
    pub fn write_byte(&mut self, b: u8)
        ensures
            final(self)@ == old(self)@.push(b),
    {
        self.data.push(b);
    }

    /// The bytes held.
    pub fn bytes(&self) -> (s: &[u8])
        ensures
            s@ == self@,
    {
        self.data.as_slice()
    }

    /// The number of bytes held.
    pub fn len(&self) -> (n: usize)
        ensures
            n == self@.len(),
    {
        self.data.len()
    }

    /// Whether no byte is held.
    pub fn is_empty(&self) -> (b: bool)
        ensures
            b == (self@.len() == 0),
    {
        self.data.len() == 0
    }

    /// Drops every byte.
    pub fn clear(&mut self)
        ensures
            final(self)@ == Seq::<u8>::empty(),
    {
        self.data.clear();
    }

    /// Drops every byte; may be called again.
    pub fn release(&mut self)
        ensures
            final(self)@ == Seq::<u8>::empty(),
    {
        self.data.clear();
    }

    /// A buffer with the same bytes.
    pub fn duplicate(&self) -> (b: Self)
        ensures
            b@ == self@,
    {
        Buffer { data: wire::copy_range(self.data.as_slice(), 0, self.data.len()) }
    }
}

/// The given runs of bytes, one after the other.
pub open spec fn concat(parts: Seq<Seq<u8>>) -> Seq<u8>
    decreases parts.len(),
{
    if parts.len() == 0 {
        Seq::empty()
    } else {
        concat(parts.drop_last()) + parts.last()
    }
}

/// A run that is added at the end comes last.
pub proof fn lemma_concat_push(parts: Seq<Seq<u8>>, part: Seq<u8>)
    ensures
        concat(parts.push(part)) == concat(parts) + part,
{
    assert(parts.push(part).drop_last() =~= parts);
}

/// The first run comes first.
pub proof fn lemma_concat_first(parts: Seq<Seq<u8>>)
    requires
        parts.len() > 0,
    ensures
        concat(parts) == parts[0] + concat(parts.skip(1)),
    decreases parts.len(),
{
    if parts.len() == 1 {
        assert(parts.drop_last() =~= Seq::empty());
        assert(parts.skip(1) =~= Seq::empty());
        assert(concat(parts) =~= parts[0] + concat(parts.skip(1)));
    } else {
        lemma_concat_first(parts.drop_last());
        assert(parts.skip(1).drop_last() =~= parts.drop_last().skip(1));
        assert(concat(parts) =~= parts[0] + concat(parts.skip(1)));
    }
}

/// Two lists of runs, one after the other.
pub proof fn lemma_concat_add(a: Seq<Seq<u8>>, b: Seq<Seq<u8>>)
    ensures
        concat(a + b) == concat(a) + concat(b),
    decreases b.len(),
{
    if b.len() == 0 {
        assert(a + b =~= a);
        assert(concat(a) + concat(b) =~= concat(a));
    } else {
        lemma_concat_add(a, b.drop_last());
        assert((a + b).drop_last() =~= a + b.drop_last());
        assert(concat(a + b) =~= concat(a) + concat(b));
    }
}

/// A list of buffers that together hold one run of bytes.
#[derive(Debug)]
pub struct MultiBuffer {
    bufs: Vec<Buffer>,
}

impl View for MultiBuffer {
    type V = Seq<Seq<u8>>;

    closed spec fn view(&self) -> Seq<Seq<u8>> {
        Seq::new(self.bufs@.len(), |i: int| self.bufs@[i]@)
    }
}

impl MultiBuffer {
    /// The bytes of all buffers, one after the other.
    pub open spec fn flat(&self) -> Seq<u8> {
        concat(self@)
    }

    /// A list without buffers.
    pub fn new() -> (mb: Self)
        ensures
            mb@ == Seq::<Seq<u8>>::empty(),
    {
        let mb = MultiBuffer { bufs: Vec::new() };
        assert(mb@ =~= Seq::<Seq<u8>>::empty());
        mb
    }

    /// Adds a buffer at the end.
    pub fn push(&mut self, b: Buffer)
        ensures
            final(self)@ == old(self)@.push(b@),
    {
        self.bufs.push(b);
        assert(self@ =~= old(self)@.push(b@));
    }

    /// The number of buffers.
    pub fn buffer_count(&self) -> (n: usize)
        ensures
            n == self@.len(),
    {
        self.bufs.len()
    }

    /// The bytes of the `i`-th buffer.
    pub fn get(&self, i: usize) -> (s: &[u8])
        requires
            i < self@.len(),
        ensures
            s@ == self@[i as int],
    {
        self.bufs[i].bytes()
    }

    /// Whether no buffer holds a byte.
    pub fn is_empty(&self) -> (b: bool)
        ensures
            b == (self.flat().len() == 0),
    {
        let mut i: usize = 0;
        while i < self.bufs.len()
            invariant
                i <= self.bufs@.len(),
                concat(self@.take(i as int)).len() == 0,
            decreases self.bufs@.len() - i,
        {
            if !self.bufs[i].is_empty() {
                proof {
                    lemma_concat_push(self@.take(i as int), self@[i as int]);
                    assert(self@.take(i as int).push(self@[i as int]) =~= self@.take(i + 1));
                    lemma_concat_add(self@.take(i + 1), self@.skip(i + 1));
                    assert(self@.take(i + 1) + self@.skip(i + 1) =~= self@);
                }
                return false;
            }
            proof {
                lemma_concat_push(self@.take(i as int), self@[i as int]);
                assert(self@.take(i as int).push(self@[i as int]) =~= self@.take(i + 1));
            }
            i += 1;
        }
        assert(self@.take(i as int) =~= self@);
        true
    }

    /// Takes the first `want` bytes out, all of them where there are no more.
    pub fn split_bytes(&mut self, want: usize) -> (head: MultiBuffer)
        ensures
            want <= old(self).flat().len() ==> {
                &&& head.flat() == old(self).flat().take(want as int)
                &&& final(self).flat() == old(self).flat().skip(want as int)
            },
            want > old(self).flat().len() ==> {
                &&& head.flat() == old(self).flat()
                &&& final(self).flat() == Seq::<u8>::empty()
            },
    {
        let ghost all = self.flat();
        let mut head = MultiBuffer::new();
        let mut left: usize = want;
        assert(head.flat() + self.flat() =~= all);
        while left > 0 && self.bufs.len() > 0
            invariant
                head.flat() + self.flat() == all,
                head.flat().len() + left == want,
            decreases left, self.bufs@.len(),
        {
            proof {
                lemma_concat_first(self@);
            }
            let ghost before = self@;
            let ghost head_before = head@;
            let n: usize = self.bufs[0].len();
            if n <= left {
                let b = self.bufs.remove(0);
                head.push(b);
                left -= n;
                proof {
                    assert(self@ =~= before.skip(1));
                    lemma_concat_push(head_before, before[0]);
                }
            } else {
                let b = self.bufs.remove(0);
                let mut first = Buffer::new();
                first.write_from(wire::copy_range(b.bytes(), 0, left).as_slice());
                let mut second = Buffer::new();
                second.write_from(wire::copy_range(b.bytes(), left, n).as_slice());
                self.bufs.insert(0, second);
                head.push(first);
                proof {
                    assert(first@ =~= before[0].take(left as int));
                    assert(second@ =~= before[0].skip(left as int));
                    assert(first@ + second@ =~= before[0]);
                    lemma_concat_push(head_before, first@);
                    lemma_concat_first(self@);
                    assert(self@.skip(1) =~= before.skip(1));
                    assert(self@[0] == second@);
                    assert(head.flat() + self.flat() =~= all);
                }
                left = 0;
            }
            assert(head.flat() + self.flat() =~= all);
        }
        proof {
            if left > 0 {
                assert(self@ =~= Seq::<Seq<u8>>::empty());
                assert(head.flat() =~= all);
            } else {
                assert(head.flat() =~= all.take(want as int));
                assert(self.flat() =~= all.skip(want as int));
            }
        }
        head
    }

    /// Copies the bytes to the start of `out` and returns how many they are.
    pub fn copy_to(&self, out: &mut [u8]) -> (n: usize)
        requires
            self.flat().len() <= old(out)@.len(),
        ensures
            n == self.flat().len(),
            final(out)@ == wire::splice(old(out)@, 0, self.flat()),
    {
        let ghost before = out@;
        let room: usize = out.len();
        let mut written: usize = 0;
        let mut i: usize = 0;
        assert(out@ =~= wire::splice(before, 0, concat(self@.take(0))));
        while i < self.bufs.len()
            invariant
                i <= self.bufs@.len(),
                room == before.len(),
                self.flat().len() <= room,
                written == concat(self@.take(i as int)).len(),
                out@ == wire::splice(before, 0, concat(self@.take(i as int))),
            decreases self.bufs@.len() - i,
        {
            proof {
                lemma_concat_push(self@.take(i as int), self@[i as int]);
                assert(self@.take(i as int).push(self@[i as int]) =~= self@.take(i + 1));
                lemma_concat_add(self@.take(i + 1), self@.skip(i + 1));
                assert(self@.take(i + 1) + self@.skip(i + 1) =~= self@);
                assert(concat(self@.take(i + 1)).len() <= self.flat().len());
            }
            wire::set_bytes(out, written, self.bufs[i].bytes());
            written += self.bufs[i].len();
            i += 1;
            assert(out@ =~= wire::splice(before, 0, concat(self@.take(i as int))));
        }
        assert(self@.take(i as int) =~= self@);
        written
    }

    /// Drops every buffer; may be called again.
    pub fn release(&mut self)
        ensures
            final(self)@ == Seq::<Seq<u8>>::empty(),
    {
        self.bufs.clear();
        assert(self@ =~= Seq::<Seq<u8>>::empty());
    }
}

} // verus!
