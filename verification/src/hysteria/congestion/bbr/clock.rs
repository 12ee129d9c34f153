//! Times since a start.

use vstd::prelude::*;

use crate::hysteria::congestion::types::MonoTime;

verus! {

/// Something that tells the time since its start, by a reading of the
/// machine's clock.
pub trait Clock {
    /// When the clock started, where `start` is when the program did.
    spec fn started(&self, start: MonoTime) -> MonoTime;

    /// The time since the start.
    fn now(&self, reading: MonoTime, start: MonoTime) -> (t: MonoTime)
        ensures
            t == since(self.started(start), reading),
    ;
}

/// The time from a start to a reading, none where the reading is before it.
pub open spec fn since(start: MonoTime, reading: MonoTime) -> MonoTime {
    if reading < start {
        0
    } else {
        (reading - start) as u64
    }
}

/// A clock that starts at a given time, or with the program.
#[derive(Debug, Clone, Copy, PartialEq, Eq, Structural)]
pub struct DefaultClock {
    pub base: Option<MonoTime>,
}

impl DefaultClock {
    /// A clock that starts with the program.
    pub fn new() -> (c: Self)
        ensures
            c.base is None,
    {
        DefaultClock { base: None }
    }

    /// A clock that starts at that time.
    pub fn with_base(base: MonoTime) -> (c: Self)
        ensures
            c.base == Some(base),
    {
        DefaultClock { base: Some(base) }
    }
}

impl Clock for DefaultClock {
    open spec fn started(&self, start: MonoTime) -> MonoTime {
        match self.base {
            Some(base) => base,
            None => start,
        }
    }

    fn now(&self, reading: MonoTime, start: MonoTime) -> (t: MonoTime) {
        let base: u64 = match self.base {
            Some(base) => base,
            None => start,
        };
        reading.saturating_sub(base)
    }
}

/// A later reading never gives an earlier time.
pub proof fn law_time_does_not_go_back(start: MonoTime, earlier: MonoTime, later: MonoTime)
    requires
        earlier <= later,
    ensures
        since(start, earlier) <= since(start, later),
{
}

/// The time since a start is what has passed, and nothing before the start.
pub proof fn law_time_counts_from_the_start(start: MonoTime, reading: MonoTime)
    ensures
        since(start, reading) == vstd::math::max(0, reading - start),
{
}

} // verus!
