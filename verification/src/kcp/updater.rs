//! Deciding when a connection is looked after.

use vstd::prelude::*;

verus! {

/// Something that can be woken, and that runs at an interval.
pub trait Updater {
    /// How often it was woken.
    spec fn wakes(&self) -> nat;

    /// The interval, in milliseconds.
    spec fn period(&self) -> u64;

    /// Whether it can be woken once more.
    spec fn can_wake(&self) -> bool;

    /// Wakes it.
    fn wake_up(&mut self)
        requires
            old(self).can_wake(),
        ensures
            final(self).wakes() == old(self).wakes() + 1,
            final(self).period() == old(self).period(),
    ;

    /// Changes the interval.
    fn set_interval(&mut self, interval_ms: u64)
        ensures
            final(self).period() == interval_ms,
            final(self).wakes() == old(self).wakes(),
    ;

    /// The interval.
    fn interval(&self) -> (ms: u64)
        ensures
            ms == self.period(),
    ;
}

/// An updater that only counts.
#[derive(Debug)]
pub struct NoopUpdater {
    pub interval_ms: u64,
    pub wake_count: u32,
}

impl NoopUpdater {
    /// Never woken, with an interval of fifty milliseconds.
    pub fn new() -> (u: Self)
        ensures
            u.wakes() == 0,
            u.period() == 50,
    {
        NoopUpdater { interval_ms: 50, wake_count: 0 }
    }

    /// How often it was woken.
    pub fn wake_count(&self) -> (n: u32)
        ensures
            n == self.wakes(),
    {
        self.wake_count
    }
}

impl Updater for NoopUpdater {
    open spec fn wakes(&self) -> nat {
        self.wake_count as nat
    }

    open spec fn period(&self) -> u64 {
        self.interval_ms
    }

    open spec fn can_wake(&self) -> bool {
        self.wake_count < u32::MAX
    }

    fn wake_up(&mut self) {
        self.wake_count += 1;
    }

    fn set_interval(&mut self, interval_ms: u64) {
        self.interval_ms = interval_ms;
    }

    fn interval(&self) -> (ms: u64) {
        self.interval_ms
    }
}

/// What waking a task comes to.
#[derive(Debug, Clone, Copy, PartialEq, Eq, Structural)]
pub enum Wake {
    /// There is no task: start one.
    Start,
    /// There is one: tell it.
    Notify,
}

/// What a task does next.
#[derive(Debug, Clone, Copy, PartialEq, Eq, Structural)]
pub enum TaskStep {
    /// Run the update, then wait for the end of the interval.
    Update,
    /// End.
    Stop,
}

/// The decisions of an updater that runs a task: at most one at a time, which
/// runs an update per interval as long as there is something to do.
#[derive(Debug, Clone, Copy, PartialEq, Eq, Structural)]
pub struct TaskUpdater {
    /// The interval that was set last, in milliseconds.
    pub interval_ms: u64,
    /// The interval that the running task waits for.
    pub period_ms: u64,
    pub running: bool,
}

impl TaskUpdater {
    /// No task runs.
    pub fn new(interval_ms: u64) -> (u: Self)
        ensures
            u == (TaskUpdater { interval_ms, period_ms: interval_ms, running: false }),
    {
        TaskUpdater { interval_ms, period_ms: interval_ms, running: false }
    }

    /// Wakes the task. Where none runs, one is started and counts as running.
    pub fn wake_up(&mut self) -> (w: Wake)
        ensures
            w == if old(self).running {
                Wake::Notify
            } else {
                Wake::Start
            },
            *final(self) == (TaskUpdater { running: true, ..*old(self) }),
    {
        if self.running {
            Wake::Notify
        } else {
            self.running = true;
            Wake::Start
        }
    }

    /// The first step of a task: it ends at once where the connection has
    /// ended, and otherwise takes up the interval.
    pub fn begin(&mut self, terminate: bool, necessary: bool) -> (s: TaskStep)
        ensures
            s == if !terminate && necessary {
                TaskStep::Update
            } else {
                TaskStep::Stop
            },
            final(self).interval_ms == old(self).interval_ms,
            final(self).running == (s == TaskStep::Update && old(self).running),
            final(self).period_ms == if terminate {
                old(self).period_ms
            } else {
                old(self).interval_ms
            },
    {
        if terminate {
            self.running = false;
            return TaskStep::Stop;
        }
        self.period_ms = self.interval_ms;
        self.next(necessary)
    }

    /// The step after an interval has ended.
    pub fn next(&mut self, necessary: bool) -> (s: TaskStep)
        ensures
            s == if necessary {
                TaskStep::Update
            } else {
                TaskStep::Stop
            },
            final(self).interval_ms == old(self).interval_ms,
            final(self).period_ms == old(self).period_ms,
            final(self).running == (necessary && old(self).running),
    {
        if necessary {
            TaskStep::Update
        } else {
            self.running = false;
            TaskStep::Stop
        }
    }

    /// The interval to wait for from now on, where it was changed while the
    /// task waited.
    pub fn changed_interval(&mut self) -> (ms: Option<u64>)
        ensures
            ms == if old(self).period_ms != old(self).interval_ms {
                Some(old(self).interval_ms)
            } else {
                None
            },
            *final(self) == (TaskUpdater { period_ms: old(self).interval_ms, ..*old(self) }),
    {
        if self.period_ms != self.interval_ms {
            self.period_ms = self.interval_ms;
            Some(self.interval_ms)
        } else {
            None
        }
    }

    /// Changes the interval.
    pub fn set_interval(&mut self, interval_ms: u64)
        ensures
            *final(self) == (TaskUpdater { interval_ms, ..*old(self) }),
    {
        self.interval_ms = interval_ms;
    }

    /// The interval.
    pub fn interval(&self) -> (ms: u64)
        ensures
            ms == self.interval_ms,
    {
        self.interval_ms
    }
}

} // verus!
