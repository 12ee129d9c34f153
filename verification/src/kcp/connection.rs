//! A connection: its state, its two halves, and what it asks of the socket and
//! of the tasks around it.
//!
//! Time is counted in milliseconds since the connection was made, in 32 bits,
//! and is handed in. What is to be done outside comes back as a list of
//! [`Action`]s, in order.

use vstd::prelude::*;

use crate::kcp::buffer::{concat, Buffer};
use crate::kcp::config::{at_least_one, in_flight_size, Config};
use crate::kcp::error::{KcpError, Result};
use crate::kcp::receiving::{
    after_clear, after_read, after_segment, stream_bytes, worker_flush_segments, AckListView,
    ReceivingView, ReceivingWorker, Stream,
};
use crate::kcp::round_trip::{after_peer_rto, wrap32, RoundTripInfo};
use crate::kcp::segment::{
    segment_views, AckSegment, AckView, CmdOnlySegment, Command, DataSegment, DataView,
    SegmentKind, SegmentOption, SegmentView, DATA_SEGMENT_OVERHEAD, SEGMENT_OPTION_CLOSE,
};
use crate::kcp::sending::{
    after_ack, after_close_write, after_push, after_receiving_next, after_worker_flush,
    flush_sends, rtt_after_ack, SendingView, SendingWorker, WindowView,
};
use crate::kcp::state::State;
use crate::net::SocketAddress;
use crate::wire;

verus! {

/// After that time without anything from the peer the connection closes.
pub const STALE_TIMEOUT_MS: u32 = 30_000;

/// The time between two pings.
pub const PING_INTERVAL_MS: u32 = 3_000;

/// The longest time that ending the connection takes.
pub const TERMINATING_TIMEOUT_MS: u32 = 8_000;

/// The longest time to wait once the peer ends the connection.
pub const PEER_TERMINATING_TIMEOUT_MS: u32 = 4_000;

/// The longest time to wait for acknowledgements after closing.
pub const READY_TO_CLOSE_TIMEOUT_MS: u32 = 15_000;

/// The time between two rounds of the task that pings.
pub const PING_UPDATER_INTERVAL_MS: u64 = 5_000;

/// That time while the connection ends.
pub const ENDING_PING_INTERVAL_MS: u64 = 1_000;

/// Who a connection is with.
#[derive(Debug, Clone, Copy, PartialEq, Eq, Structural)]
pub struct ConnMetadata {
    pub conv: u16,
    pub local_addr: Option<SocketAddress>,
    pub remote_addr: Option<SocketAddress>,
}

impl ConnMetadata {
    /// A conversation whose addresses are not known.
    pub fn new(conv: u16) -> (m: Self)
        ensures
            m == (ConnMetadata { conv, local_addr: None, remote_addr: None }),
    {
        ConnMetadata { conv, local_addr: None, remote_addr: None }
    }
}

/// Something to be done outside.
#[derive(Debug)]
pub enum Action {
    /// Send the segment; a failure does not matter.
    Write(SegmentKind),
    /// Close the socket.
    CloseSocket,
    /// Wake one reader.
    NotifyInputOne,
    /// Wake all readers that wait.
    NotifyInputAll,
    /// Wake one writer.
    NotifyOutputOne,
    /// Wake all writers that wait.
    NotifyOutputAll,
    /// Wake the task that sends.
    WakeData,
    /// Wake the task that pings.
    WakePing,
    /// Let the task that pings run that often, in milliseconds.
    PingInterval(u64),
}

/// The contents of an [`Action`].
pub enum ActionView {
    Write(SegmentView),
    CloseSocket,
    NotifyInputOne,
    NotifyInputAll,
    NotifyOutputOne,
    NotifyOutputAll,
    WakeData,
    WakePing,
    PingInterval(u64),
}

impl View for Action {
    type V = ActionView;

    open spec fn view(&self) -> ActionView {
        match self {
            Action::Write(s) => ActionView::Write(s@),
            Action::CloseSocket => ActionView::CloseSocket,
            Action::NotifyInputOne => ActionView::NotifyInputOne,
            Action::NotifyInputAll => ActionView::NotifyInputAll,
            Action::NotifyOutputOne => ActionView::NotifyOutputOne,
            Action::NotifyOutputAll => ActionView::NotifyOutputAll,
            Action::WakeData => ActionView::WakeData,
            Action::WakePing => ActionView::WakePing,
            Action::PingInterval(ms) => ActionView::PingInterval(*ms),
        }
    }
}

/// The contents of actions.
pub open spec fn action_views(actions: Seq<Action>) -> Seq<ActionView> {
    Seq::new(actions.len(), |i: int| actions[i]@)
}

fn emit(out: &mut Vec<Action>, action: Action)
    ensures
        action_views(final(out)@) == action_views(old(out)@).push(action@),
{
    out.push(action);
    assert(action_views(out@) =~= action_views(old(out)@).push(action@));
}

/// The contents of a [`Connection`].
pub struct ConnView {
    pub meta: ConnMetadata,
    pub state: State,
    /// When the state was entered.
    pub state_begin: u32,
    /// When something came from the peer last.
    pub last_incoming: u32,
    /// When a ping was sent last.
    pub last_ping: u32,
    /// The most bytes that one segment carries.
    pub mss: u32,
    pub rtt: RoundTripInfo,
    pub config: Config,
    pub sending: SendingView,
    pub receiving: ReceivingView,
    pub read_deadline: Option<u64>,
    pub write_deadline: Option<u64>,
}

/// A connection and what is to be done outside.
pub type Outcome = (ConnView, Seq<ActionView>);

/// A new connection.
pub open spec fn fresh(meta: ConnMetadata, config: Config) -> ConnView {
    let mss = if config.mtu < DATA_SEGMENT_OVERHEAD {
        0
    } else {
        (config.mtu - DATA_SEGMENT_OVERHEAD) as u32
    };
    ConnView {
        meta,
        state: State::Active,
        state_begin: 0,
        last_incoming: 0,
        last_ping: 0,
        mss,
        rtt: RoundTripInfo {
            variation: 0,
            srtt: 0,
            rto: 100,
            min_rtt: config.tti,
            updated_timestamp: 0,
        },
        config,
        sending: SendingView {
            window: WindowView { segs: Seq::empty(), in_flight: 0 },
            first_unacknowledged: 0,
            next: 0,
            remote_next: 32,
            control_window: in_flight_size(config.uplink_capacity, config.mtu, config.tti),
            size: config.max_sending_window / at_least_one(config.mtu),
            updated: false,
            closed: false,
            conv: meta.conv,
        },
        receiving: ReceivingView {
            window: Map::empty(),
            acks: AckListView {
                entries: Seq::empty(),
                dirty: false,
                mss: (mss + DATA_SEGMENT_OVERHEAD) as usize,
            },
            next: 0,
            size: in_flight_size(config.downlink_capacity, config.mtu, config.tti),
            left: None,
            conv: meta.conv,
        },
        read_deadline: None,
        write_deadline: None,
    }
}

/// Whether nothing is written any more in that state.
pub open spec fn stops_writing(state: State) -> bool {
    state != State::Active && state != State::ReadyToClose
}

/// The connection as it enters `state`.
pub open spec fn entered(c: ConnView, state: State, now: u32) -> ConnView {
    ConnView {
        state,
        state_begin: now,
        sending: if stops_writing(state) {
            after_close_write(c.sending)
        } else {
            c.sending
        },
        ..c
    }
}

/// The connection once its halves have let go of what they held.
pub open spec fn released(c: ConnView) -> ConnView {
    ConnView {
        sending: SendingView {
            window: WindowView { segs: Seq::empty(), ..c.sending.window },
            closed: true,
            ..c.sending
        },
        receiving: ReceivingView { left: None, ..c.receiving },
        ..c
    }
}

/// What ends a connection outside.
pub open spec fn terminate_actions() -> Seq<ActionView> {
    seq![ActionView::NotifyInputAll, ActionView::NotifyOutputAll, ActionView::CloseSocket]
}

/// The connection after a change of state.
pub open spec fn after_set_state(c: ConnView, state: State, now: u32) -> ConnView {
    if state == State::Terminated {
        released(entered(c, state, now))
    } else {
        entered(c, state, now)
    }
}

/// What a change of state asks for.
pub open spec fn set_state_actions(state: State) -> Seq<ActionView> {
    let faster = ActionView::PingInterval(ENDING_PING_INTERVAL_MS);
    match state {
        State::Terminating | State::PeerTerminating => seq![faster],
        State::Terminated => seq![faster, ActionView::WakeData, ActionView::WakePing]
            + terminate_actions(),
        _ => Seq::empty(),
    }
}

/// A change of state.
pub open spec fn set_state_outcome(c: ConnView, state: State, now: u32) -> Outcome {
    (after_set_state(c, state, now), set_state_actions(state))
}

/// The state that follows when this side closes.
pub open spec fn closing_state(state: State) -> Option<State> {
    match state {
        State::Active => Some(State::ReadyToClose),
        State::PeerClosed => Some(State::Terminating),
        State::PeerTerminating => Some(State::Terminated),
        _ => None,
    }
}

/// This side closes.
pub open spec fn close_outcome(c: ConnView, now: u32) -> Outcome {
    let woken = seq![ActionView::NotifyInputAll, ActionView::NotifyOutputAll];
    match closing_state(c.state) {
        Some(state) => (after_set_state(c, state, now), woken + set_state_actions(state)),
        None => (c, woken),
    }
}

/// The peer closes.
pub open spec fn peer_closed_outcome(c: ConnView, now: u32) -> Outcome {
    match c.state {
        State::ReadyToClose => set_state_outcome(c, State::Terminating, now),
        State::Active => set_state_outcome(c, State::PeerClosed, now),
        _ => (c, Seq::empty()),
    }
}

/// The option of an incoming segment: its lowest bit says that the peer has
/// closed.
pub open spec fn option_outcome(c: ConnView, opt: SegmentOption, now: u32) -> Outcome {
    if opt % 2 == 1 {
        peer_closed_outcome(c, now)
    } else {
        (c, Seq::empty())
    }
}

/// A data segment comes in.
pub open spec fn data_outcome(c: ConnView, seg: DataView, now: u32) -> Outcome {
    let (c1, a1) = option_outcome(c, seg.option, now);
    let receiving = after_segment(c1.receiving, seg);
    let ready = if receiving.window.contains_key(receiving.next) {
        seq![ActionView::NotifyInputOne]
    } else {
        Seq::empty()
    };
    (ConnView { receiving, ..c1 }, a1 + ready + seq![ActionView::WakeData])
}

/// An ack segment comes in.
pub open spec fn ack_outcome(c: ConnView, ack: AckView, now: u32) -> Outcome {
    let (c1, a1) = option_outcome(c, ack.option, now);
    (
        ConnView {
            sending: after_ack(c1.sending, ack, c.rtt.rto),
            rtt: rtt_after_ack(c1.rtt, c1.sending, ack, now),
            ..c1
        },
        a1 + seq![ActionView::NotifyOutputOne, ActionView::WakeData],
    )
}

/// The state that follows when the peer ends the connection.
pub open spec fn peer_terminates(c: ConnView, now: u32) -> Outcome {
    match c.state {
        State::Active | State::PeerClosed => set_state_outcome(c, State::PeerTerminating, now),
        State::ReadyToClose => set_state_outcome(c, State::Terminating, now),
        State::Terminating => set_state_outcome(c, State::Terminated, now),
        _ => (c, Seq::empty()),
    }
}

/// A command segment comes in.
pub open spec fn cmd_outcome(c: ConnView, cmd: CmdOnlySegment, now: u32) -> Outcome {
    let (c1, a1) = option_outcome(c, cmd.option, now);
    let (c2, a2) = if cmd.cmd == Command::Terminate {
        peer_terminates(c1, now)
    } else {
        (c1, Seq::empty())
    };
    let woken = if cmd.option == SEGMENT_OPTION_CLOSE || cmd.cmd == Command::Terminate {
        seq![ActionView::NotifyInputOne, ActionView::NotifyOutputOne]
    } else {
        Seq::empty()
    };
    (
        ConnView {
            sending: after_receiving_next(c2.sending, cmd.receiving_next),
            receiving: ReceivingView {
                acks: after_clear(c2.receiving.acks, cmd.sending_next),
                ..c2.receiving
            },
            rtt: after_peer_rto(c2.rtt, cmd.peer_rto, now),
            ..c2
        },
        a1 + a2 + woken,
    )
}

/// A segment of this conversation comes in.
pub open spec fn segment_outcome(c: ConnView, seg: SegmentView, now: u32) -> Outcome {
    match seg {
        SegmentView::Data(s) => data_outcome(c, s, now),
        SegmentView::Ack(s) => ack_outcome(c, s, now),
        SegmentView::Cmd(s) => cmd_outcome(c, s, now),
    }
}

/// Segments come in one after the other, up to the first one of another
/// conversation.
pub open spec fn segments_outcome(c: ConnView, segs: Seq<SegmentView>, now: u32) -> Outcome
    decreases segs.len(),
{
    if segs.len() == 0 || segs[0].conv() != c.meta.conv {
        (c, Seq::empty())
    } else {
        let (c1, a1) = segment_outcome(c, segs[0], now);
        let (c2, a2) = segments_outcome(c1, segs.skip(1), now);
        (c2, a1 + a2)
    }
}

/// The segments of a datagram come in.
pub open spec fn input_outcome(c: ConnView, segs: Seq<SegmentView>, now: u32) -> Outcome {
    segments_outcome(ConnView { last_incoming: now, ..c }, segs, now)
}

/// The command segment that a connection sends.
pub open spec fn command_segment(c: ConnView, cmd: Command) -> CmdOnlySegment {
    CmdOnlySegment {
        conv: c.meta.conv,
        cmd,
        option: if c.state == State::ReadyToClose {
            SEGMENT_OPTION_CLOSE
        } else {
            0
        },
        sending_next: c.sending.first_unacknowledged,
        receiving_next: c.receiving.next,
        peer_rto: c.rtt.rto,
    }
}

/// A command is sent.
pub open spec fn ping_outcome(c: ConnView, now: u32, cmd: Command) -> Outcome {
    (
        ConnView { last_ping: now, ..c },
        seq![ActionView::Write(SegmentView::Cmd(command_segment(c, cmd)))],
    )
}

/// A round while this side ends the connection: the peer is told, and after
/// eight seconds the connection is gone.
pub open spec fn terminating_outcome(c: ConnView, now: u32) -> Outcome {
    let (c1, a1) = ping_outcome(c, now, Command::Terminate);
    if wrap32(now - c.state_begin) > TERMINATING_TIMEOUT_MS {
        (released(entered(c1, State::Terminated, now)), a1 + terminate_actions())
    } else {
        (c1, a1)
    }
}

/// The segments that the two halves send.
pub open spec fn worker_writes(c: ConnView, now: u32) -> Seq<ActionView> {
    let acks = worker_flush_segments(c.receiving, now, c.state);
    let data = flush_sends(c.sending, c.rtt, c.config, now, c.state);
    Seq::new(acks.len(), |i: int| ActionView::Write(SegmentView::Ack(acks[i]))) + Seq::new(
        data.len(),
        |i: int| ActionView::Write(SegmentView::Data(data[i])),
    )
}

/// A round in which the two halves send what is due, and a ping follows three
/// seconds after the last one.
pub open spec fn working_outcome(c: ConnView, now: u32) -> Outcome {
    let c1 = ConnView {
        receiving: ReceivingView {
            acks: crate::kcp::receiving::after_flush(c.receiving.acks, now, c.rtt.rto),
            ..c.receiving
        },
        sending: after_worker_flush(c.sending, c.rtt, c.config, now, c.state),
        ..c
    };
    if wrap32(now - c.last_ping) >= PING_INTERVAL_MS {
        let (c2, a2) = ping_outcome(c1, now, Command::Ping);
        (c2, worker_writes(c, now) + a2)
    } else {
        (c1, worker_writes(c, now))
    }
}

/// Whether an active connection has heard nothing for too long.
pub open spec fn is_stale(c: ConnView, now: u32) -> bool {
    c.state == State::Active && wrap32(now - c.last_incoming) >= STALE_TIMEOUT_MS
}

/// Whether it is time to end the connection.
pub open spec fn ends_now(c: ConnView, now: u32) -> bool {
    ||| c.state == State::ReadyToClose && c.sending.window.segs.len() == 0
    ||| c.state == State::PeerTerminating && wrap32(now - c.state_begin)
        > PEER_TERMINATING_TIMEOUT_MS
    ||| c.state == State::ReadyToClose && wrap32(now - c.state_begin) > READY_TO_CLOSE_TIMEOUT_MS
}

/// What a connection that is not stale does in a round.
pub open spec fn round_outcome(c: ConnView, now: u32) -> Outcome {
    if c.state == State::Terminating {
        terminating_outcome(c, now)
    } else if ends_now(c, now) {
        terminating_outcome(entered(c, State::Terminating, now), now)
    } else {
        working_outcome(c, now)
    }
}

/// Whoever waits on a connection that has gone stale is woken.
pub open spec fn stale_actions(c: ConnView, now: u32) -> Seq<ActionView> {
    if is_stale(c, now) {
        seq![ActionView::NotifyInputAll, ActionView::NotifyOutputAll]
    } else {
        Seq::empty()
    }
}

/// A connection that has gone stale is to be closed.
pub open spec fn after_stale(c: ConnView, now: u32) -> ConnView {
    if is_stale(c, now) {
        entered(c, State::ReadyToClose, now)
    } else {
        c
    }
}

/// A round of a connection.
pub open spec fn flush_outcome(c: ConnView, now: u32) -> Outcome {
    if c.state == State::Terminated {
        (c, Seq::empty())
    } else {
        let round = round_outcome(after_stale(c, now), now);
        (round.0, stale_actions(c, now) + round.1)
    }
}

/// How many segments the sending half takes.
pub open spec fn room_of(w: SendingView) -> nat {
    if w.closed || w.window.segs.len() > w.size {
        0
    } else {
        (w.size + 1 - w.window.segs.len()) as nat
    }
}

/// Where the `i`-th chunk of `len` bytes ends, `mss` bytes to a chunk.
pub open spec fn chunk_end(len: nat, mss: u32, i: nat) -> nat {
    if i * mss < len {
        (i * mss) as nat
    } else {
        len
    }
}

/// The `i`-th chunk of `b`.
pub open spec fn chunk(b: Seq<u8>, mss: u32, i: nat) -> Seq<u8> {
    b.subrange(chunk_end(b.len(), mss, i) as int, chunk_end(b.len(), mss, i + 1) as int)
}

/// The sending half after the first `n` chunks of `b`.
pub open spec fn after_pushes(w: SendingView, b: Seq<u8>, mss: u32, n: nat) -> SendingView
    decreases n,
{
    if n == 0 {
        w
    } else {
        after_push(after_pushes(w, b, mss, (n - 1) as nat), chunk(b, mss, (n - 1) as nat))
    }
}

/// How many chunks a write makes: as many as `b` has, as far as there is room.
/// Segments that carry nothing fill all the room.
pub open spec fn write_chunks(w: SendingView, len: nat, mss: u32) -> nat {
    let needed = if len == 0 {
        0
    } else if mss == 0 {
        room_of(w)
    } else {
        (len + mss - 1) as nat / (mss as nat)
    };
    if needed < room_of(w) {
        needed
    } else {
        room_of(w)
    }
}

/// How many bytes a write takes.
pub open spec fn write_len(w: SendingView, len: nat, mss: u32) -> nat {
    chunk_end(len, mss, write_chunks(w, len, mss))
}

/// A connection.
pub struct Connection {
    pub meta: ConnMetadata,
    pub state: State,
    pub state_begin_time: u32,
    pub last_incoming_time: u32,
    pub last_ping_time: u32,
    pub mss: u32,
    pub round_trip: RoundTripInfo,
    pub config: Config,
    pub sending_worker: SendingWorker,
    pub receiving_worker: ReceivingWorker,
    pub read_deadline: Option<u64>,
    pub write_deadline: Option<u64>,
}

impl View for Connection {
    type V = ConnView;

    open spec fn view(&self) -> ConnView {
        ConnView {
            meta: self.meta,
            state: self.state,
            state_begin: self.state_begin_time,
            last_incoming: self.last_incoming_time,
            last_ping: self.last_ping_time,
            mss: self.mss,
            rtt: self.round_trip,
            config: self.config,
            sending: self.sending_worker@,
            receiving: self.receiving_worker@,
            read_deadline: self.read_deadline,
            write_deadline: self.write_deadline,
        }
    }
}

impl Connection {
    /// The receiving half is well formed.
    pub open spec fn wf(&self) -> bool {
        self.receiving_worker.wf()
    }

    /// A new connection, whose ping task is to be woken.
    pub fn new(meta: ConnMetadata, config: Config) -> (r: (Self, Vec<Action>))
        ensures
            r.0.wf(),
            r.0@ == fresh(meta, config),
            action_views(r.1@) == seq![ActionView::WakePing],
    {
        let mut out: Vec<Action> = Vec::new();
        emit(&mut out, Action::WakePing);
        assert(action_views(out@) =~= seq![ActionView::WakePing]);
        (Self::new_without_updater(meta, config), out)
    }

    /// A new connection that no task looks after.
    pub fn new_without_updater(meta: ConnMetadata, config: Config) -> (c: Self)
        ensures
            c.wf(),
            c@ == fresh(meta, config),
    {
        let overhead: u32 = DATA_SEGMENT_OVERHEAD as u32;
        let mss: u32 = if config.mtu < overhead {
            0
        } else {
            config.mtu - overhead
        };
        Connection {
            meta,
            state: State::Active,
            state_begin_time: 0,
            last_incoming_time: 0,
            last_ping_time: 0,
            mss,
            round_trip: RoundTripInfo::new(config.tti),
            config,
            sending_worker: SendingWorker::new(meta.conv, &config),
            receiving_worker: ReceivingWorker::new(
                &config,
                meta.conv,
                mss as usize + DATA_SEGMENT_OVERHEAD,
            ),
            read_deadline: None,
            write_deadline: None,
        }
    }

    /// The state.
    pub fn state(&self) -> (s: State)
        ensures
            s == self@.state,
    {
        self.state
    }

    fn enter(&mut self, state: State, now: u32)
        requires
            old(self).wf(),
        ensures
            final(self).wf(),
            final(self)@ == entered(old(self)@, state, now),
    {
        self.state = state;
        self.state_begin_time = now;
        match state {
            State::Active | State::ReadyToClose => {},
            _ => self.sending_worker.close_write(),
        }
    }

    fn release(&mut self)
        requires
            old(self).wf(),
        ensures
            final(self).wf(),
            final(self)@ == released(old(self)@),
    {
        self.sending_worker.release();
        self.receiving_worker.release();
    }

    fn terminate_into(&mut self, out: &mut Vec<Action>)
        requires
            old(self).wf(),
        ensures
            final(self).wf(),
            final(self)@ == released(old(self)@),
            action_views(final(out)@) == action_views(old(out)@) + terminate_actions(),
    {
        let ghost before = action_views(out@);
        emit(out, Action::NotifyInputAll);
        emit(out, Action::NotifyOutputAll);
        emit(out, Action::CloseSocket);
        self.release();
        assert(action_views(out@) =~= before + terminate_actions());
    }

    fn set_state_into(&mut self, state: State, now: u32, out: &mut Vec<Action>)
        requires
            old(self).wf(),
        ensures
            final(self).wf(),
            final(self)@ == after_set_state(old(self)@, state, now),
            action_views(final(out)@) == action_views(old(out)@) + set_state_actions(state),
    {
        let ghost before = action_views(out@);
        self.enter(state, now);
        match state {
            State::Terminating | State::PeerTerminating => {
                emit(out, Action::PingInterval(ENDING_PING_INTERVAL_MS));
            },
            State::Terminated => {
                emit(out, Action::PingInterval(ENDING_PING_INTERVAL_MS));
                emit(out, Action::WakeData);
                emit(out, Action::WakePing);
                self.terminate_into(out);
            },
            _ => {},
        }
        assert(action_views(out@) =~= before + set_state_actions(state));
    }

    /// Changes the state.
    pub fn set_state(&mut self, state: State, now: u32) -> (out: Vec<Action>)
        requires
            old(self).wf(),
        ensures
            final(self).wf(),
            final(self)@ == set_state_outcome(old(self)@, state, now).0,
            action_views(out@) == set_state_outcome(old(self)@, state, now).1,
    {
        let mut out: Vec<Action> = Vec::new();
        self.set_state_into(state, now, &mut out);
        assert(action_views(Seq::empty()) + set_state_actions(state) =~= set_state_actions(state));
        out
    }

    /// Closes this side. It is an error where this side has closed already.
    pub fn close(&mut self, now: u32) -> (r: (Result<()>, Vec<Action>))
        requires
            old(self).wf(),
        ensures
            final(self).wf(),
            final(self)@ == close_outcome(old(self)@, now).0,
            action_views(r.1@) == close_outcome(old(self)@, now).1,
            r.0 == (if closing_state(old(self)@.state) is Some {
                Ok::<(), KcpError>(())
            } else {
                Err(KcpError::ClosedConnection)
            }),
    {
        let mut out: Vec<Action> = Vec::new();
        emit(&mut out, Action::NotifyInputAll);
        emit(&mut out, Action::NotifyOutputAll);
        assert(action_views(out@) =~= seq![
            ActionView::NotifyInputAll,
            ActionView::NotifyOutputAll,
        ]);
        match self.state {
            State::ReadyToClose | State::Terminating | State::Terminated => (
                Err(KcpError::ClosedConnection),
                out,
            ),
            State::Active => {
                self.set_state_into(State::ReadyToClose, now, &mut out);
                (Ok(()), out)
            },
            State::PeerClosed => {
                self.set_state_into(State::Terminating, now, &mut out);
                (Ok(()), out)
            },
            State::PeerTerminating => {
                self.set_state_into(State::Terminated, now, &mut out);
                (Ok(()), out)
            },
        }
    }

    /// Lets go of everything and closes the socket.
    pub fn terminate(&mut self) -> (out: Vec<Action>)
        requires
            old(self).wf(),
        ensures
            final(self).wf(),
            final(self)@ == released(old(self)@),
            action_views(out@) == terminate_actions(),
    {
        let mut out: Vec<Action> = Vec::new();
        self.terminate_into(&mut out);
        assert(action_views(out@) =~= terminate_actions());
        out
    }

    fn on_peer_closed_into(&mut self, now: u32, out: &mut Vec<Action>)
        requires
            old(self).wf(),
        ensures
            final(self).wf(),
            final(self)@ == peer_closed_outcome(old(self)@, now).0,
            action_views(final(out)@) == action_views(old(out)@) + peer_closed_outcome(
                old(self)@,
                now,
            ).1,
    {
        let ghost before = action_views(out@);
        match self.state {
            State::ReadyToClose => self.set_state_into(State::Terminating, now, out),
            State::Active => self.set_state_into(State::PeerClosed, now, out),
            _ => {
                assert(before + Seq::<ActionView>::empty() =~= before);
            },
        }
    }

    fn handle_option_into(&mut self, opt: SegmentOption, now: u32, out: &mut Vec<Action>)
        requires
            old(self).wf(),
        ensures
            final(self).wf(),
            final(self)@ == option_outcome(old(self)@, opt, now).0,
            action_views(final(out)@) == action_views(old(out)@) + option_outcome(
                old(self)@,
                opt,
                now,
            ).1,
    {
        let ghost before = action_views(out@);
        if opt % 2 == 1 {
            self.on_peer_closed_into(now, out);
        } else {
            assert(before + Seq::<ActionView>::empty() =~= before);
        }
    }

    /// Hears the option of an incoming segment.
    pub fn handle_option(&mut self, opt: SegmentOption, now: u32) -> (out: Vec<Action>)
        requires
            old(self).wf(),
        ensures
            final(self).wf(),
            final(self)@ == option_outcome(old(self)@, opt, now).0,
            action_views(out@) == option_outcome(old(self)@, opt, now).1,
    {
        let mut out: Vec<Action> = Vec::new();
        self.handle_option_into(opt, now, &mut out);
        assert(action_views(out@) =~= option_outcome(old(self)@, opt, now).1);
        out
    }

    /// Hears that the peer has closed.
    pub fn on_peer_closed(&mut self, now: u32) -> (out: Vec<Action>)
        requires
            old(self).wf(),
        ensures
            final(self).wf(),
            final(self)@ == peer_closed_outcome(old(self)@, now).0,
            action_views(out@) == peer_closed_outcome(old(self)@, now).1,
    {
        let mut out: Vec<Action> = Vec::new();
        self.on_peer_closed_into(now, &mut out);
        assert(action_views(out@) =~= peer_closed_outcome(old(self)@, now).1);
        out
    }

    fn input_data(&mut self, seg: DataSegment, now: u32, out: &mut Vec<Action>)
        requires
            old(self).wf(),
        ensures
            final(self).wf(),
            final(self)@ == data_outcome(old(self)@, seg@, now).0,
            action_views(final(out)@) == action_views(old(out)@) + data_outcome(
                old(self)@,
                seg@,
                now,
            ).1,
    {
        let ghost before = action_views(out@);
        let ghost c = self@;
        self.handle_option_into(seg.option, now, out);
        self.receiving_worker.process_segment(seg);
        if self.receiving_worker.is_data_available() {
            emit(out, Action::NotifyInputOne);
        }
        emit(out, Action::WakeData);
        assert(action_views(out@) =~= before + data_outcome(c, seg@, now).1);
    }

    fn input_ack(&mut self, ack: AckSegment, now: u32, out: &mut Vec<Action>)
        requires
            old(self).wf(),
        ensures
            final(self).wf(),
            final(self)@ == ack_outcome(old(self)@, ack@, now).0,
            action_views(final(out)@) == action_views(old(out)@) + ack_outcome(
                old(self)@,
                ack@,
                now,
            ).1,
    {
        let ghost before = action_views(out@);
        let ghost c = self@;
        let rto: u32 = self.round_trip.timeout();
        self.handle_option_into(ack.option, now, out);
        self.sending_worker.process_ack_segment(&mut self.round_trip, now, &ack, rto);
        emit(out, Action::NotifyOutputOne);
        emit(out, Action::WakeData);
        assert(action_views(out@) =~= before + ack_outcome(c, ack@, now).1);
    }

    fn peer_terminates_into(&mut self, now: u32, out: &mut Vec<Action>)
        requires
            old(self).wf(),
        ensures
            final(self).wf(),
            final(self)@ == peer_terminates(old(self)@, now).0,
            action_views(final(out)@) == action_views(old(out)@) + peer_terminates(
                old(self)@,
                now,
            ).1,
    {
        let ghost before = action_views(out@);
        match self.state {
            State::Active | State::PeerClosed => {
                self.set_state_into(State::PeerTerminating, now, out);
            },
            State::ReadyToClose => self.set_state_into(State::Terminating, now, out),
            State::Terminating => self.set_state_into(State::Terminated, now, out),
            _ => {
                assert(before + Seq::<ActionView>::empty() =~= before);
            },
        }
    }

    fn input_cmd(&mut self, cmd: CmdOnlySegment, now: u32, out: &mut Vec<Action>)
        requires
            old(self).wf(),
        ensures
            final(self).wf(),
            final(self)@ == cmd_outcome(old(self)@, cmd, now).0,
            action_views(final(out)@) == action_views(old(out)@) + cmd_outcome(
                old(self)@,
                cmd,
                now,
            ).1,
    {
        let ghost before = action_views(out@);
        let ghost c = self@;
        self.handle_option_into(cmd.option, now, out);
        if cmd.cmd == Command::Terminate {
            self.peer_terminates_into(now, out);
        }
        if cmd.option == SEGMENT_OPTION_CLOSE || cmd.cmd == Command::Terminate {
            emit(out, Action::NotifyInputOne);
            emit(out, Action::NotifyOutputOne);
        }
        self.sending_worker.process_receiving_next(cmd.receiving_next);
        self.receiving_worker.process_sending_next(cmd.sending_next);
        self.round_trip.update_peer_rto(cmd.peer_rto, now);
        assert(action_views(out@) =~= before + cmd_outcome(c, cmd, now).1);
    }

    /// Takes in the segments of a datagram, up to the first one of another
    /// conversation.
    pub fn input(&mut self, segments: Vec<SegmentKind>, now: u32) -> (out: Vec<Action>)
        requires
            old(self).wf(),
        ensures
            final(self).wf(),
            final(self)@ == input_outcome(old(self)@, segment_views(segments@), now).0,
            action_views(out@) == input_outcome(old(self)@, segment_views(segments@), now).1,
    {
        let ghost goal = input_outcome(self@, segment_views(segments@), now);
        let mut rest = segments;
        let mut out: Vec<Action> = Vec::new();
        self.last_incoming_time = now;
        assert(action_views(out@) + goal.1 =~= goal.1);
        while rest.len() > 0
            invariant
                self.wf(),
                segments_outcome(self@, segment_views(rest@), now).0 == goal.0,
                goal.1 == action_views(out@) + segments_outcome(self@, segment_views(rest@), now).1,
            ensures
                self.wf(),
                self@ == goal.0,
                action_views(out@) == goal.1,
            decreases rest@.len(),
        {
            let ghost c = self@;
            let ghost segs = segment_views(rest@);
            let ghost done = action_views(out@);
            if rest[0].conversation() != self.meta.conv {
                assert(done + Seq::<ActionView>::empty() =~= done);
                break;
            }
            let seg = rest.remove(0);
            assert(segment_views(rest@) =~= segs.skip(1));
            match seg {
                SegmentKind::Data(s) => self.input_data(s, now, &mut out),
                SegmentKind::Ack(s) => self.input_ack(s, now, &mut out),
                SegmentKind::Cmd(s) => self.input_cmd(s, now, &mut out),
            }
            proof {
                let a1 = segment_outcome(c, segs[0], now).1;
                let a2 = segments_outcome(self@, segment_views(rest@), now).1;
                assert(done + (a1 + a2) =~= (done + a1) + a2);
            }
            if rest.len() == 0 {
                assert(action_views(out@) + Seq::<ActionView>::empty() =~= action_views(out@));
            }
        }
        out
    }

    fn ping_into(&mut self, now: u32, cmd: Command, out: &mut Vec<Action>)
        requires
            old(self).wf(),
        ensures
            final(self).wf(),
            final(self)@ == ping_outcome(old(self)@, now, cmd).0,
            action_views(final(out)@) == action_views(old(out)@) + ping_outcome(
                old(self)@,
                now,
                cmd,
            ).1,
    {
        let ghost before = action_views(out@);
        let ghost c = self@;
        let mut seg = CmdOnlySegment::new();
        seg.conv = self.meta.conv;
        seg.cmd = cmd;
        seg.receiving_next = self.receiving_worker.next_number();
        seg.sending_next = self.sending_worker.first_unacknowledged();
        seg.peer_rto = self.round_trip.timeout();
        if self.state == State::ReadyToClose {
            seg.option = SEGMENT_OPTION_CLOSE;
        }
        emit(out, Action::Write(SegmentKind::Cmd(seg)));
        self.last_ping_time = now;
        assert(action_views(out@) =~= before + ping_outcome(c, now, cmd).1);
    }

    /// Sends a command segment.
    pub fn ping(&mut self, now: u32, cmd: Command) -> (out: Vec<Action>)
        requires
            old(self).wf(),
        ensures
            final(self).wf(),
            final(self)@ == ping_outcome(old(self)@, now, cmd).0,
            action_views(out@) == ping_outcome(old(self)@, now, cmd).1,
    {
        let mut out: Vec<Action> = Vec::new();
        self.ping_into(now, cmd, &mut out);
        assert(action_views(out@) =~= ping_outcome(old(self)@, now, cmd).1);
        out
    }

    fn terminating_round(&mut self, now: u32, out: &mut Vec<Action>)
        requires
            old(self).wf(),
        ensures
            final(self).wf(),
            final(self)@ == terminating_outcome(old(self)@, now).0,
            action_views(final(out)@) == action_views(old(out)@) + terminating_outcome(
                old(self)@,
                now,
            ).1,
    {
        let ghost before = action_views(out@);
        let ghost c = self@;
        self.ping_into(now, Command::Terminate, out);
        if now.wrapping_sub(self.state_begin_time) > TERMINATING_TIMEOUT_MS {
            self.enter(State::Terminated, now);
            self.terminate_into(out);
        }
        assert(action_views(out@) =~= before + terminating_outcome(c, now).1);
    }

    fn working_round(&mut self, now: u32, out: &mut Vec<Action>)
        requires
            old(self).wf(),
        ensures
            final(self).wf(),
            final(self)@ == working_outcome(old(self)@, now).0,
            action_views(final(out)@) == action_views(old(out)@) + working_outcome(
                old(self)@,
                now,
            ).1,
    {
        let ghost before = action_views(out@);
        let ghost c = self@;
        let ghost ack_goal = worker_flush_segments(c.receiving, now, c.state);
        let ghost data_goal = flush_sends(c.sending, c.rtt, c.config, now, c.state);
        let ghost ack_writes = Seq::new(
            ack_goal.len(),
            |i: int| ActionView::Write(SegmentView::Ack(ack_goal[i])),
        );
        let ghost data_writes = Seq::new(
            data_goal.len(),
            |i: int| ActionView::Write(SegmentView::Data(data_goal[i])),
        );
        let mut acks = self.receiving_worker.flush(&self.round_trip, now, self.state);
        let ghost made = acks@;
        assert(before + ack_writes.take(0) =~= before);
        while acks.len() > 0
            invariant
                acks@.len() <= ack_goal.len(),
                ack_writes.len() == ack_goal.len(),
                made.len() == ack_goal.len(),
                acks@ == made.skip(ack_goal.len() - acks@.len()),
                forall|i: int| 0 <= i < made.len() ==> ack_writes[i] == ActionView::Write(
                    SegmentView::Ack((#[trigger] made[i])@),
                ),
                action_views(out@) == before + ack_writes.take(ack_goal.len() - acks@.len()),
            decreases acks@.len(),
        {
            let ghost at = ack_goal.len() - acks@.len();
            let ack = acks.remove(0);
            assert(ack == made[at]);
            emit(out, Action::Write(SegmentKind::Ack(ack)));
            assert(acks@ =~= made.skip(at + 1));
            assert(action_views(out@) =~= before + ack_writes.take(at + 1));
        }
        assert(ack_writes.take(ack_goal.len() as int) =~= ack_writes);
        let (data, _) = self.sending_worker.flush(
            &self.round_trip,
            &self.config,
            now,
            self.state,
        );
        let ghost sent = data@;
        let mut data = data;
        assert(before + ack_writes + data_writes.take(0) =~= before + ack_writes);
        while data.len() > 0
            invariant
                data@.len() <= data_goal.len(),
                data_writes.len() == data_goal.len(),
                sent.len() == data_goal.len(),
                data@ == sent.skip(data_goal.len() - data@.len()),
                forall|i: int| 0 <= i < sent.len() ==> data_writes[i] == ActionView::Write(
                    SegmentView::Data((#[trigger] sent[i])@),
                ),
                action_views(out@) == before + ack_writes + data_writes.take(
                    data_goal.len() - data@.len(),
                ),
            decreases data@.len(),
        {
            let ghost at = data_goal.len() - data@.len();
            let seg = data.remove(0);
            assert(seg == sent[at]);
            emit(out, Action::Write(SegmentKind::Data(seg)));
            assert(data@ =~= sent.skip(at + 1));
            assert(action_views(out@) =~= before + ack_writes + data_writes.take(at + 1));
        }
        proof {
            assert(data_writes.take(data_goal.len() as int) =~= data_writes);
            assert(action_views(out@) =~= before + worker_writes(c, now));
        }
        if now.wrapping_sub(self.last_ping_time) >= PING_INTERVAL_MS {
            self.ping_into(now, Command::Ping, out);
        }
        assert(action_views(out@) =~= before + working_outcome(c, now).1);
    }

    /// Makes a round: sends what is due and moves the state on as time passes.
    pub fn flush(&mut self, now: u32) -> (out: Vec<Action>)
        requires
            old(self).wf(),
        ensures
            final(self).wf(),
            final(self)@ == flush_outcome(old(self)@, now).0,
            action_views(out@) == flush_outcome(old(self)@, now).1,
    {
        let mut out: Vec<Action> = Vec::new();
        assert(action_views(out@) =~= Seq::<ActionView>::empty());
        if self.state == State::Terminated {
            return out;
        }
        self.notice_stale(now, &mut out);
        self.round(now, &mut out);
        out
    }

    fn notice_stale(&mut self, now: u32, out: &mut Vec<Action>)
        requires
            old(self).wf(),
            action_views(old(out)@) == Seq::<ActionView>::empty(),
        ensures
            final(self).wf(),
            final(self)@ == after_stale(old(self)@, now),
            action_views(final(out)@) == stale_actions(old(self)@, now),
    {
        if self.state == State::Active && now.wrapping_sub(self.last_incoming_time)
            >= STALE_TIMEOUT_MS {
            emit(out, Action::NotifyInputAll);
            emit(out, Action::NotifyOutputAll);
            self.enter(State::ReadyToClose, now);
        }
        assert(action_views(out@) =~= stale_actions(old(self)@, now));
    }

    fn ends(&self, now: u32) -> (b: bool)
        ensures
            b == ends_now(self@, now),
    {
        let age: u32 = now.wrapping_sub(self.state_begin_time);
        (self.state == State::ReadyToClose && (self.sending_worker.is_empty() || age
            > READY_TO_CLOSE_TIMEOUT_MS)) || (self.state == State::PeerTerminating && age
            > PEER_TERMINATING_TIMEOUT_MS)
    }

    #[verifier::spinoff_prover]
    fn round(&mut self, now: u32, out: &mut Vec<Action>)
        requires
            old(self).wf(),
        ensures
            final(self).wf(),
            final(self)@ == round_outcome(old(self)@, now).0,
            action_views(final(out)@) == action_views(old(out)@) + round_outcome(
                old(self)@,
                now,
            ).1,
    {
        if self.state == State::Terminating {
            self.terminating_round(now, out);
        } else if self.ends(now) {
            self.enter(State::Terminating, now);
            self.terminating_round(now, out);
        } else {
            self.working_round(now, out);
        }
    }

    /// Reads bytes to the start of `b`: how many they are, none where none have
    /// come. It is an error once this side has closed.
    pub fn read(&mut self, b: &mut [u8]) -> (r: (Result<usize>, Vec<Action>))
        requires
            old(self).wf(),
        ensures
            final(self).wf(),
            old(self)@.state == State::ReadyToClose || old(self)@.state == State::Terminating
                || old(self)@.state == State::Terminated ==> {
                &&& r.0 == Err::<usize, KcpError>(KcpError::ClosedConnection)
                &&& action_views(r.1@) == Seq::<ActionView>::empty()
                &&& final(self)@ == old(self)@
                &&& final(b)@ == old(b)@
            },
            old(self)@.state == State::Active || old(self)@.state == State::PeerClosed
                || old(self)@.state == State::PeerTerminating ==> {
                let (got, receiving) = after_read(old(self)@.receiving, old(b)@.len() as int);
                &&& r.0 == Ok::<usize, KcpError>(got.len() as usize)
                &&& got.len() <= old(b)@.len()
                &&& action_views(r.1@) == (if got.len() > 0 {
                    seq![ActionView::WakeData]
                } else {
                    Seq::empty()
                })
                &&& final(self)@ == (ConnView { receiving, ..old(self)@ })
                &&& final(b)@ == wire::splice(old(b)@, 0, got)
            },
    {
        let mut out: Vec<Action> = Vec::new();
        if self.state.is_locally_closed() {
            assert(action_views(out@) =~= Seq::<ActionView>::empty());
            return (Err(KcpError::ClosedConnection), out);
        }
        let n: usize = self.receiving_worker.read(b);
        if n > 0 {
            emit(&mut out, Action::WakeData);
        }
        proof {
            if n > 0 {
                assert(action_views(out@) =~= seq![ActionView::WakeData]);
            } else {
                assert(action_views(out@) =~= Seq::<ActionView>::empty());
            }
        }
        (Ok(n), out)
    }

    /// Takes the first bytes of `b` to be sent, as many as there is room for,
    /// and returns how many they are. It is an error unless the connection is
    /// active.
    pub fn write(&mut self, b: &[u8]) -> (r: (Result<usize>, Vec<Action>))
        requires
            old(self).wf(),
        ensures
            final(self).wf(),
            old(self)@.state != State::Active ==> {
                &&& r.0 == Err::<usize, KcpError>(KcpError::ClosedConnection)
                &&& action_views(r.1@) == Seq::<ActionView>::empty()
                &&& final(self)@ == old(self)@
            },
            old(self)@.state == State::Active ==> {
                let sending = old(self)@.sending;
                let mss = old(self)@.mss;
                let n = write_chunks(sending, b@.len(), mss);
                &&& r.0 == Ok::<usize, KcpError>(write_len(sending, b@.len(), mss) as usize)
                &&& action_views(r.1@) == (if write_len(sending, b@.len(), mss) > 0 {
                    seq![ActionView::WakeData]
                } else {
                    Seq::empty()
                })
                &&& final(self)@ == (ConnView {
                    sending: after_pushes(sending, b@, mss, n),
                    ..old(self)@
                })
            },
    {
        let mut out: Vec<Action> = Vec::new();
        if self.state != State::Active {
            assert(action_views(out@) =~= Seq::<ActionView>::empty());
            return (Err(KcpError::ClosedConnection), out);
        }
        let ghost start = self@.sending;
        let ghost len = b@.len();
        let ghost mss32 = self.mss;
        let ghost mut n: nat = 0;
        let total: usize = b.len();
        let mut written: usize = 0;
        let mut full: bool = false;
        while written < total && !full
            invariant
                self.wf(),
                total == len,
                len == b@.len(),
                written <= total,
                self.mss == mss32,
                written == chunk_end(len, mss32, n),
                self.sending_worker@ == after_pushes(start, b@, mss32, n),
                n + room_of(self@.sending) == room_of(start),
                full ==> room_of(self@.sending) == 0 && written < total,
                n > 0 ==> (n - 1) * mss32 < len,
                self@ == (ConnView { sending: self@.sending, ..old(self)@ }),
            decreases room_of(self@.sending) + (if full {
                0int
            } else {
                1
            }),
        {
            let mss: usize = self.mss as usize;
            let end: usize = if mss < total - written {
                written + mss
            } else {
                total
            };
            proof {
                assert((n + 1) * mss32 == n * mss32 + mss32) by (nonlinear_arith);
                assert(written == n * mss32);
                assert(end == chunk_end(len, mss32, n + 1));
            }
            let piece = wire::copy_range(b, written, end);
            let mut buf = Buffer::new();
            buf.write_from(piece.as_slice());
            assert(buf@ =~= chunk(b@, mss32, n));
            if self.sending_worker.push(buf) {
                written = end;
                proof {
                    n = n + 1;
                }
            } else {
                full = true;
            }
        }
        proof {
            lemma_write_chunks(start, len, mss32, n, full);
        }
        if written > 0 {
            emit(&mut out, Action::WakeData);
        }
        proof {
            if written > 0 {
                assert(action_views(out@) =~= seq![ActionView::WakeData]);
            } else {
                assert(action_views(out@) =~= Seq::<ActionView>::empty());
            }
        }
        (Ok(written), out)
    }

    /// Whether the task that sends has something to do.
    pub fn data_update_necessary(&self) -> (b: bool)
        ensures
            b == (self@.state != State::Terminating && self@.state != State::Terminated && (
            self@.sending.window.segs.len() > 0 || self@.receiving.acks.entries.len() > 0)),
    {
        self.state != State::Terminating && self.state != State::Terminated && (
        self.sending_worker.update_necessary() || self.receiving_worker.update_necessary())
    }

    /// Whether the task that sends is over.
    pub fn data_update_over(&self) -> (b: bool)
        ensures
            b == (self@.state == State::Terminating || self@.state == State::Terminated),
    {
        self.state == State::Terminating || self.state == State::Terminated
    }

    /// Whether the task that pings has something to do.
    pub fn ping_update_necessary(&self) -> (b: bool)
        ensures
            b == (self@.state != State::Terminated),
    {
        self.state != State::Terminated
    }

    /// The conversation.
    pub fn conv(&self) -> (conv: u16)
        ensures
            conv == self@.meta.conv,
    {
        self.meta.conv
    }

    /// This side's address.
    pub fn local_addr(&self) -> (a: Option<SocketAddress>)
        ensures
            a == self@.meta.local_addr,
    {
        self.meta.local_addr
    }

    /// The peer's address.
    pub fn remote_addr(&self) -> (a: Option<SocketAddress>)
        ensures
            a == self@.meta.remote_addr,
    {
        self.meta.remote_addr
    }

    /// Wakes one reader.
    pub fn notify_data_input(&self) -> (a: Action)
        ensures
            a@ == ActionView::NotifyInputOne,
    {
        Action::NotifyInputOne
    }

    /// Wakes one writer.
    pub fn notify_data_output(&self) -> (a: Action)
        ensures
            a@ == ActionView::NotifyOutputOne,
    {
        Action::NotifyOutputOne
    }

    /// Sets the time up to which reads wait, in milliseconds. It is an error
    /// unless the connection is active.
    pub fn set_read_deadline(&mut self, t: Option<u64>) -> (r: Result<()>)
        ensures
            old(self)@.state == State::Active ==> r == Ok::<(), KcpError>(()) && final(self)@ == (
            ConnView { read_deadline: t, ..old(self)@ }),
            old(self)@.state != State::Active ==> r == Err::<(), KcpError>(
                KcpError::ClosedConnection,
            ) && final(self)@ == old(self)@,
    {
        if self.state != State::Active {
            return Err(KcpError::ClosedConnection);
        }
        self.read_deadline = t;
        Ok(())
    }

    /// Sets the time up to which writes wait, in milliseconds. It is an error
    /// unless the connection is active.
    pub fn set_write_deadline(&mut self, t: Option<u64>) -> (r: Result<()>)
        ensures
            old(self)@.state == State::Active ==> r == Ok::<(), KcpError>(()) && final(self)@ == (
            ConnView { write_deadline: t, ..old(self)@ }),
            old(self)@.state != State::Active ==> r == Err::<(), KcpError>(
                KcpError::ClosedConnection,
            ) && final(self)@ == old(self)@,
    {
        if self.state != State::Active {
            return Err(KcpError::ClosedConnection);
        }
        self.write_deadline = t;
        Ok(())
    }
}

proof fn lemma_write_chunks(w: SendingView, len: nat, mss: u32, n: nat, full: bool)
    requires
        n <= room_of(w),
        n > 0 ==> (n - 1) * mss < len,
        full ==> n == room_of(w) && chunk_end(len, mss, n) < len,
        !full ==> chunk_end(len, mss, n) == len,
    ensures
        n == write_chunks(w, len, mss),
{
    if len > 0 && mss > 0 {
        let needed = (len + mss - 1) as nat / (mss as nat);
        if full {
            assert(needed > n) by (nonlinear_arith)
                requires
                    needed == (len + mss - 1) as nat / (mss as nat),
                    n * mss < len,
                    mss > 0,
            ;
        } else {
            assert(n * mss >= len);
            assert(n > 0) by (nonlinear_arith)
                requires
                    n * mss >= len,
                    len > 0,
            ;
            assert(needed == n) by (nonlinear_arith)
                requires
                    needed == (len + mss - 1) as nat / (mss as nat),
                    n * mss >= len,
                    (n - 1) * mss < len,
                    mss > 0,
            ;
        }
    } else if len > 0 {
        assert(n * mss == 0) by (nonlinear_arith)
            requires
                mss == 0,
        ;
    } else {
        if n > 0 {
            assert((n - 1) * mss >= 0) by (nonlinear_arith)
                requires
                    n > 0,
            ;
        }
    }
}

/// How far a connection has come towards its end.
pub open spec fn progress(state: State) -> int {
    match state {
        State::Active => 0,
        State::ReadyToClose => 1,
        State::PeerClosed => 1,
        State::PeerTerminating => 2,
        State::Terminating => 3,
        State::Terminated => 4,
    }
}

/// Whether a connection in state `a` may come to state `b`: it is the same
/// state or one nearer the end.
pub open spec fn leads_to(a: State, b: State) -> bool {
    a == b || progress(a) < progress(b)
}

proof fn lemma_segments_lead_on(c: ConnView, segs: Seq<SegmentView>, now: u32)
    ensures
        leads_to(c.state, segments_outcome(c, segs, now).0.state),
    decreases segs.len(),
{
    if segs.len() > 0 && segs[0].conv() == c.meta.conv {
        let c1 = segment_outcome(c, segs[0], now).0;
        lemma_segments_lead_on(c1, segs.skip(1), now);
    }
}

/// Nothing that comes in, no passing of time and no closing takes a connection
/// back to an earlier state.
pub proof fn law_state_only_moves_on(c: ConnView, segs: Seq<SegmentView>, now: u32)
    ensures
        leads_to(c.state, input_outcome(c, segs, now).0.state),
        leads_to(c.state, flush_outcome(c, now).0.state),
        leads_to(c.state, close_outcome(c, now).0.state),
{
    lemma_segments_lead_on(ConnView { last_incoming: now, ..c }, segs, now);
}

/// A connection that is gone stays gone, and sends nothing.
pub proof fn law_terminated_is_final(c: ConnView, segs: Seq<SegmentView>, now: u32)
    requires
        c.state == State::Terminated,
    ensures
        input_outcome(c, segs, now).0.state == State::Terminated,
        flush_outcome(c, now) == (c, Seq::<ActionView>::empty()),
        closing_state(c.state) is None,
{
    law_state_only_moves_on(c, segs, now);
}

/// Eight seconds after this side began to end a connection, the next round
/// makes it gone and closes the socket.
pub proof fn law_terminating_ends(c: ConnView, now: u32)
    requires
        c.state == State::Terminating,
        wrap32(now - c.state_begin) > TERMINATING_TIMEOUT_MS,
    ensures
        flush_outcome(c, now).0.state == State::Terminated,
        flush_outcome(c, now).1.contains(ActionView::CloseSocket),
{
    let a = flush_outcome(c, now).1;
    let ping = ping_outcome(c, now, Command::Terminate).1;
    assert(a =~= ping + terminate_actions());
    assert(a[3] == ActionView::CloseSocket);
}

/// Segments of another conversation change nothing but the time at which
/// something came in.
pub proof fn law_other_conversation_ignored(c: ConnView, segs: Seq<SegmentView>, now: u32)
    requires
        segs.len() > 0,
        segs[0].conv() != c.meta.conv,
    ensures
        input_outcome(c, segs, now) == (ConnView { last_incoming: now, ..c }, Seq::<
            ActionView,
        >::empty()),
{
}

proof fn lemma_first_chunk(len: nat, mss: u32)
    ensures
        chunk_end(len, mss, 0) == 0,
{
    assert(0 * (mss as int) == 0) by (nonlinear_arith);
}

/// A write takes bytes from the front, in order, and hands them on as the
/// payloads of consecutive numbers: the segments it makes carry its bytes, one
/// after the other.
pub proof fn law_write_extends_stream(w: SendingView, b: Seq<u8>, mss: u32, n: nat)
    ensures
        after_pushes(w, b, mss, n).next == wrap32(w.next + n),
        after_pushes(w, b, mss, n).window.segs.len() == w.window.segs.len() + n,
        forall|i: int|
            0 <= i < w.window.segs.len() ==> #[trigger] after_pushes(w, b, mss, n).window.segs[i]
                == w.window.segs[i],
        forall|i: nat|
            #![trigger chunk(b, mss, i)]
            i < n ==> after_pushes(w, b, mss, n).window.segs[(w.window.segs.len() + i) as int]
                == crate::kcp::sending::fresh_segment(wrap32(w.next + i), chunk(b, mss, i)),
        concat(Seq::new(n, |i: int| chunk(b, mss, i as nat))) == b.take(
            chunk_end(b.len(), mss, n) as int,
        ),
    decreases n,
{
    let parts = Seq::new(n, |i: int| chunk(b, mss, i as nat));
    if n == 0 {
        lemma_first_chunk(b.len(), mss);
        assert(b.take(0) =~= Seq::<u8>::empty());
        assert(wrap32(w.next + 0) == w.next);
    } else {
        let m = (n - 1) as nat;
        law_write_extends_stream(w, b, mss, m);
        let fewer = Seq::new(m, |i: int| chunk(b, mss, i as nat));
        assert(parts.drop_last() =~= fewer);
        assert(parts.last() == chunk(b, mss, m));
        assert(chunk_end(b.len(), mss, m) <= chunk_end(b.len(), mss, n)) by (nonlinear_arith)
            requires
                n == m + 1,
        ;
        assert(chunk_end(b.len(), mss, n) <= b.len());
        assert(b.take(chunk_end(b.len(), mss, m) as int) + chunk(b, mss, m) =~= b.take(
            chunk_end(b.len(), mss, n) as int,
        ));
        let before = after_pushes(w, b, mss, m);
        let after = after_pushes(w, b, mss, n);
        assert(after.next == wrap32(before.next + 1));
        assert(wrap32(w.next + n) == wrap32(wrap32(w.next + m) + 1));
        assert forall|i: nat|
            #![trigger chunk(b, mss, i)]
            i < n implies after.window.segs[(w.window.segs.len() + i) as int]
            == crate::kcp::sending::fresh_segment(wrap32(w.next + i), chunk(b, mss, i)) by {
            if i < m {
                assert(after.window.segs[(w.window.segs.len() + i) as int] == before.window.segs[(w.window.segs.len() + i) as int]);
            }
        }
        assert forall|i: int| 0 <= i < w.window.segs.len() implies #[trigger] after.window.segs[i]
            == w.window.segs[i] by {
            assert(before.window.segs[i] == w.window.segs[i]);
        }
    }
}

/// What one side writes the other side reads: where the payloads of the numbers
/// from the sender's next one on are those that a write has made, a receiver in
/// step with that stream that has read so many segments has been given exactly
/// the bytes that the write took.
pub proof fn law_written_bytes_are_the_stream(
    w: SendingView,
    b: Seq<u8>,
    mss: u32,
    n: nat,
    stream: Stream,
)
    requires
        forall|i: nat|
            #![trigger chunk(b, mss, i)]
            i < n ==> stream(wrap32(w.next + i)) == chunk(b, mss, i),
    ensures
        stream_bytes(stream, w.next, n) == b.take(chunk_end(b.len(), mss, n) as int),
    decreases n,
{
    if n == 0 {
        lemma_first_chunk(b.len(), mss);
        assert(b.take(0) =~= Seq::<u8>::empty());
    } else {
        let m = (n - 1) as nat;
        law_written_bytes_are_the_stream(w, b, mss, m, stream);
        assert(stream(wrap32(w.next + m)) == chunk(b, mss, m));
        assert(chunk_end(b.len(), mss, m) <= chunk_end(b.len(), mss, n)) by (nonlinear_arith)
            requires
                n == m + 1,
        ;
        assert(b.take(chunk_end(b.len(), mss, m) as int) + chunk(b, mss, m) =~= b.take(
            chunk_end(b.len(), mss, n) as int,
        ));
    }
}

/// A write takes all bytes that there is room for: as many as fill the segments
/// that the window still takes, one more than its size, and as many segments as
/// that needs.
pub proof fn law_write_takes_what_fits(w: SendingView, len: nat, mss: u32)
    requires
        mss > 0,
    ensures
        ({
            let room: int = if !w.closed && w.window.segs.len() <= w.size {
                w.size + 1 - w.window.segs.len()
            } else {
                0
            };
            let taken = write_len(w, len, mss) as int;
            let segments = write_chunks(w, len, mss) as int;
            &&& taken == vstd::math::min(len as int, room * mss)
            &&& segments <= room
            &&& segments * mss >= taken
            &&& segments > 0 ==> (segments - 1) * mss < taken
        }),
{
    let room: int = if !w.closed && w.window.segs.len() <= w.size {
        w.size + 1 - w.window.segs.len()
    } else {
        0
    };
    assert(room == room_of(w));
    let m = mss as int;
    let l = len as int;
    let needed = (l + m - 1) / m;
    assert(needed * m >= l && (l > 0 ==> (needed - 1) * m < l) && needed >= 0 && (l == 0 ==> needed
        == 0)) by (nonlinear_arith)
        requires
            needed == (l + m - 1) / m,
            m >= 1,
            l >= 0,
    ;
    let n = write_chunks(w, len, mss) as int;
    assert(n == vstd::math::min(needed, room));
    assert(0 * m == 0) by (nonlinear_arith);
    if n < needed {
        assert(n * m <= (needed - 1) * m) by (nonlinear_arith)
            requires
                n <= needed - 1,
                m >= 1,
        ;
    } else {
        assert(room * m >= needed * m) by (nonlinear_arith)
            requires
                room >= needed,
                m >= 1,
        ;
    }
    if n > 0 && n < needed {
        assert((n - 1) * m < n * m) by (nonlinear_arith)
            requires
                m >= 1,
        ;
    }
}

/// Each segment of a write carries as many bytes as one may, and only the last
/// one fewer: the bytes from where those of the segments before it end.
pub proof fn law_segments_are_filled(b: Seq<u8>, mss: u32, i: nat)
    requires
        mss > 0,
        i * mss < b.len(),
    ensures
        chunk(b, mss, i) == b.subrange(
            (i * mss) as int,
            vstd::math::min(b.len() as int, i * mss + mss),
        ),
        chunk(b, mss, i).len() == vstd::math::min(mss as int, b.len() - i * mss),
{
    assert((i + 1) * mss == i * mss + mss) by (nonlinear_arith);
}

/// Once a connection ends nothing waits to be sent any more, and what arrives is
/// still counted on from where it was.
pub proof fn law_ending_drops_what_waits(c: ConnView, state: State, now: u32)
    requires
        state != State::Active,
        state != State::ReadyToClose,
        forall|i: int|
            0 <= i < c.sending.window.segs.len() ==> (#[trigger] c.sending.window.segs[i]).number
                != u32::MAX,
    ensures
        ({
            let d = after_set_state(c, state, now);
            &&& d.state == state
            &&& d.state_begin == now
            &&& d.sending.window.segs.len() == 0
            &&& d.sending.next == c.sending.next
            &&& d.receiving.next == c.receiving.next
            &&& d.receiving.window == c.receiving.window
            &&& state == State::Terminated ==> d.sending.closed && d.receiving.left is None
            &&& state != State::Terminated ==> d.receiving == c.receiving
        }),
{
    lemma_all_dropped(c.sending.window.segs);
}

proof fn lemma_all_dropped(segs: Seq<DataView>)
    requires
        forall|i: int| 0 <= i < segs.len() ==> (#[trigger] segs[i]).number != u32::MAX,
    ensures
        crate::kcp::sending::drop_below(segs, 0xFFFF_FFFF).len() == 0,
    decreases segs.len(),
{
    if segs.len() > 0 {
        assert(segs[0].number != u32::MAX);
        let rest = segs.skip(1);
        assert forall|i: int| 0 <= i < rest.len() implies (#[trigger] rest[i]).number
            != u32::MAX by {
            assert(rest[i] == segs[i + 1]);
        }
        lemma_all_dropped(rest);
    }
}

/// Closing and hearing that the peer has closed keep what waits: an open
/// connection only changes its state by them.
pub proof fn law_closing_keeps_what_waits(c: ConnView, now: u32)
    ensures
        after_set_state(c, State::ReadyToClose, now) == (ConnView {
            state: State::ReadyToClose,
            state_begin: now,
            ..c
        }),
        set_state_actions(State::ReadyToClose).len() == 0,
{
}

} // verus!
