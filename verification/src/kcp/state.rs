//! The six states of a connection.

use vstd::prelude::*;

verus! {

/// Where a connection stands between opening and being gone.
#[derive(Debug, Clone, Copy, PartialEq, Eq, Structural, Hash)]
pub enum State {
    /// Both sides send.
    Active,
    /// This side has closed.
    ReadyToClose,
    /// The peer has closed.
    PeerClosed,
    /// This side ends the connection.
    Terminating,
    /// The peer ends the connection.
    PeerTerminating,
    /// Gone. No state follows.
    Terminated,
}

/// The state that a connection starts in.
pub const STATE_ACTIVE: State = State::Active;

impl State {
    /// The state's number.
    pub open spec fn code(self) -> i32 {
        match self {
            State::Active => 0,
            State::ReadyToClose => 1,
            State::PeerClosed => 2,
            State::Terminating => 3,
            State::PeerTerminating => 4,
            State::Terminated => 5,
        }
    }

    /// The state's number.
    pub fn to_i32(self) -> (v: i32)
        ensures
            v == self.code(),
    {
        match self {
            State::Active => 0,
            State::ReadyToClose => 1,
            State::PeerClosed => 2,
            State::Terminating => 3,
            State::PeerTerminating => 4,
            State::Terminated => 5,
        }
    }

    /// The state whose number is `v`, if there is one.
    pub fn from_i32(v: i32) -> (s: Option<Self>)
        ensures
            s is Some <==> 0 <= v <= 5,
            s matches Some(t) ==> t.code() == v,
    {
        if v == 0 {
            Some(State::Active)
        } else if v == 1 {
            Some(State::ReadyToClose)
        } else if v == 2 {
            Some(State::PeerClosed)
        } else if v == 3 {
            Some(State::Terminating)
        } else if v == 4 {
            Some(State::PeerTerminating)
        } else if v == 5 {
            Some(State::Terminated)
        } else {
            None
        }
    }

    /// Whether this state is among `candidates`.
    pub fn is(self, candidates: &[State]) -> (b: bool)
        ensures
            b == candidates@.contains(self),
    {
        let mut i: usize = 0;
        while i < candidates.len()
            invariant
                i <= candidates@.len(),
                forall|k: int| 0 <= k < i ==> candidates@[k] != self,
            decreases candidates@.len() - i,
        {
            if candidates[i] == self {
                return true;
            }
            i += 1;
        }
        false
    }

    /// Whether this side has closed.
    pub fn is_locally_closed(self) -> (b: bool)
        ensures
            b == (self == State::ReadyToClose || self == State::Terminating || self
                == State::Terminated),
    {
        matches!(self, State::ReadyToClose | State::Terminating | State::Terminated)
    }

    /// Whether the connection is gone.
    pub fn is_terminated(self) -> (b: bool)
        ensures
            b == (self == State::Terminated),
    {
        matches!(self, State::Terminated)
    }

    /// The state's name.
    pub open spec fn name(self) -> Seq<char> {
        match self {
            State::Active => "Active"@,
            State::ReadyToClose => "ReadyToClose"@,
            State::PeerClosed => "PeerClosed"@,
            State::Terminating => "Terminating"@,
            State::PeerTerminating => "PeerTerminating"@,
            State::Terminated => "Terminated"@,
        }
    }

    /// The state's name.
    pub fn as_str(self) -> (s: &'static str)
        ensures
            s@ == self.name(),
    {
        match self {
            State::Active => "Active",
            State::ReadyToClose => "ReadyToClose",
            State::PeerClosed => "PeerClosed",
            State::Terminating => "Terminating",
            State::PeerTerminating => "PeerTerminating",
            State::Terminated => "Terminated",
        }
    }
}

} // verus!
