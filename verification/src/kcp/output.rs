//! Writing segments to a socket.

use vstd::prelude::*;

use crate::kcp::error::{KcpError, Result};
use crate::kcp::segment::Segment;

verus! {

/// Byte strings, one after another.
pub type Datagrams = Seq<Seq<u8>>;

/// What came of attempts, one after another.
pub type Outcomes = Seq<Result<()>>;

/// A sink for datagrams.
pub trait UnderlyingWriter {
    /// The datagrams that were handed over so far, whatever became of them.
    spec fn handed(&self) -> Datagrams;

    /// What became of them.
    spec fn outcomes(&self) -> Outcomes;

    /// Hands a datagram over.
    fn write_all(&mut self, buf: &[u8]) -> (r: Result<()>)
        ensures
            final(self).handed() == old(self).handed().push(buf@),
            final(self).outcomes() == old(self).outcomes().push(r),
    ;
}

/// A sink for segments.
pub trait SegmentWriter {
    /// The bytes of the segments that were handed over so far, whatever became
    /// of them.
    spec fn sent(&self) -> Datagrams;

    /// What became of them.
    spec fn results(&self) -> Outcomes;

    /// Hands a segment over.
    fn write_segment<S: Segment>(&mut self, seg: &S) -> (r: Result<()>)
        requires
            seg.wire().len() <= usize::MAX,
        ensures
            final(self).sent() == old(self).sent().push(seg.wire()),
            final(self).results() == old(self).results().push(r),
    ;
}

/// Writes each segment as one datagram.
pub struct SimpleSegmentWriter<W: UnderlyingWriter> {
    pub writer: W,
}

impl<W: UnderlyingWriter> SimpleSegmentWriter<W> {
    /// Writes to `writer`.
    pub fn new(writer: W) -> (s: Self)
        ensures
            s.writer == writer,
    {
        SimpleSegmentWriter { writer }
    }

    /// Lets `f` look at the sink.
    pub fn with_writer<R, F: FnOnce(&W) -> R>(&self, f: F) -> (r: R)
        requires
            call_requires(f, (&self.writer,)),
        ensures
            call_ensures(f, (&self.writer,), r),
    {
        f(&self.writer)
    }
}

impl<W: UnderlyingWriter> SegmentWriter for SimpleSegmentWriter<W> {
    open spec fn sent(&self) -> Datagrams {
        self.writer.handed()
    }

    open spec fn results(&self) -> Outcomes {
        self.writer.outcomes()
    }

    fn write_segment<S: Segment>(&mut self, seg: &S) -> (r: Result<()>) {
        let size: usize = seg.byte_size();
        let mut buf: Vec<u8> = vec![0u8; size];
        seg.serialize(buf.as_mut_slice());
        assert(buf@ =~= seg.wire());
        self.writer.write_all(buf.as_slice())
    }
}

/// What came of an attempt to write.
#[derive(Debug)]
pub enum Attempt {
    /// The segment is written.
    Written,
    /// Wait that many milliseconds and try again.
    PauseThenRetry(u64),
    /// Wait that many milliseconds and give up.
    PauseThenFail(u64, KcpError),
}

/// Tries again where writing fails, a fixed time later and a fixed number of
/// times.
pub struct RetryableWriter<W: SegmentWriter> {
    pub inner: W,
    pub retries: u32,
    pub interval_ms: u64,
    /// The failures of the segment that is being written.
    pub failures: u32,
}

impl<W: SegmentWriter> RetryableWriter<W> {
    /// Failures never exceed the retries.
    pub open spec fn wf(&self) -> bool {
        self.failures <= self.retries
    }

    /// Tries again five times, 100 milliseconds apart.
    pub fn new(inner: W) -> (r: Self)
        ensures
            r.wf(),
            r == (RetryableWriter { inner, retries: 5, interval_ms: 100, failures: 0 }),
    {
        RetryableWriter { inner, retries: 5, interval_ms: 100, failures: 0 }
    }

    /// Tries again `retries` times, `interval_ms` milliseconds apart.
    pub fn with_retries(inner: W, retries: u32, interval_ms: u64) -> (r: Self)
        ensures
            r.wf(),
            r == (RetryableWriter { inner, retries, interval_ms, failures: 0 }),
    {
        RetryableWriter { inner, retries, interval_ms, failures: 0 }
    }

    /// Hands the segment over once. After a failure it says to wait and try
    /// again as long as retries are left, and to give up when they are not.
    pub fn attempt<S: Segment>(&mut self, seg: &S) -> (r: Attempt)
        requires
            old(self).wf(),
            seg.wire().len() <= usize::MAX,
        ensures
            final(self).wf(),
            final(self).inner.sent() == old(self).inner.sent().push(seg.wire()),
            final(self).retries == old(self).retries,
            final(self).interval_ms == old(self).interval_ms,
            final(self).inner.results().len() == old(self).inner.results().len() + 1,
            match final(self).inner.results().last() {
                Ok(_) => r is Written && final(self).failures == 0,
                Err(e) => if old(self).failures < old(self).retries {
                    &&& r == Attempt::PauseThenRetry(old(self).interval_ms)
                    &&& final(self).failures == old(self).failures + 1
                } else {
                    &&& r == Attempt::PauseThenFail(old(self).interval_ms, e)
                    &&& final(self).failures == 0
                },
            },
    {
        match self.inner.write_segment(seg) {
            Ok(()) => {
                self.failures = 0;
                Attempt::Written
            },
            Err(e) => {
                if self.failures < self.retries {
                    self.failures += 1;
                    Attempt::PauseThenRetry(self.interval_ms)
                } else {
                    self.failures = 0;
                    Attempt::PauseThenFail(self.interval_ms, e)
                }
            },
        }
    }
}

} // verus!
