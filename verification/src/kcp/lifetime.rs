//! The course of a connection from opening to being gone: what each round does
//! in each state, and what closing on either side leads to.

use vstd::prelude::*;

use crate::kcp::acknowledging::{in_order, law_told_next_drops, unwrapped};
use crate::kcp::answering::law_told_is_forgotten;
use crate::kcp::config::{in_flight_size, Config};
use crate::kcp::connection::{
    close_outcome, flush_outcome, fresh, input_outcome, option_outcome,
    peer_closed_outcome, ping_outcome, segment_outcome, segments_outcome, set_state_outcome,
    terminate_actions, terminating_outcome, worker_writes, ActionView, ConnMetadata, ConnView,
};
use crate::kcp::delivery::law_first_waiting_is_sent;
use crate::kcp::receiving::{after_flush, worker_flush_segments, AckEntry, ReceivingView};
use crate::kcp::segment::{AckView, CmdOnlySegment, Command, DataView, SegmentView};
use crate::kcp::sending::{after_worker_flush, flush_sends};
use crate::kcp::state::State;

verus! {

/// Whether `actions` writes `data` somewhere.
pub open spec fn writes_data(actions: Seq<ActionView>, data: DataView) -> bool {
    actions.contains(ActionView::Write(SegmentView::Data(data)))
}

/// A round that ends the connection: the peer is told, and nothing else is
/// written.
pub open spec fn only_tells_the_end(actions: Seq<ActionView>, c: ConnView) -> bool {
    &&& actions.len() == 1
    &&& actions[0] matches ActionView::Write(SegmentView::Cmd(told)) && {
        &&& told.conv == c.meta.conv
        &&& told.cmd == Command::Terminate
        &&& told.option == 0
        &&& told.receiving_next == c.receiving.next
        &&& told.peer_rto == c.rtt.rto
    }
}

/// What a connection that goes on does in a round: the acknowledgements that are
/// due, then the data, then a ping where the last one was three seconds ago.
/// Both halves go on as after a round of their own, and nothing else changes.
pub open spec fn goes_on(c: ConnView, now: u32, d: ConnView, actions: Seq<ActionView>) -> bool {
    let acks = worker_flush_segments(c.receiving, now, c.state);
    let data = flush_sends(c.sending, c.rtt, c.config, now, c.state);
    let pings: int = if (now - c.last_ping) % 0x1_0000_0000 >= 3000 {
        1
    } else {
        0
    };
    &&& actions.len() == acks.len() + data.len() + pings
    &&& forall|i: int|
        0 <= i < acks.len() ==> #[trigger] actions[i] == ActionView::Write(
            SegmentView::Ack(acks[i]),
        )
    &&& forall|i: int|
        0 <= i < data.len() ==> #[trigger] actions[acks.len() + i] == ActionView::Write(
            SegmentView::Data(data[i]),
        )
    &&& pings == 1 ==> actions.last() == ActionView::Write(
        SegmentView::Cmd(
            CmdOnlySegment {
                conv: c.meta.conv,
                cmd: Command::Ping,
                option: if c.state == State::ReadyToClose {
                    1
                } else {
                    0
                },
                sending_next: c.sending.first_unacknowledged,
                receiving_next: c.receiving.next,
                peer_rto: c.rtt.rto,
            },
        ),
    )
    &&& d == ConnView {
        last_ping: if pings == 1 {
            now
        } else {
            c.last_ping
        },
        sending: after_worker_flush(c.sending, c.rtt, c.config, now, c.state),
        receiving: ReceivingView {
            acks: after_flush(c.receiving.acks, now, c.rtt.rto),
            ..c.receiving
        },
        ..c
    }
}

proof fn lemma_goes_on(c: ConnView, now: u32)
    requires
        c.state != State::Terminated,
        c.state != State::Terminating,
        c.state == State::Active ==> (now - c.last_incoming) % 0x1_0000_0000 < 30_000,
        c.state == State::ReadyToClose ==> c.sending.window.segs.len() > 0 && (now - c.state_begin)
            % 0x1_0000_0000 <= 15_000,
        c.state == State::PeerTerminating ==> (now - c.state_begin) % 0x1_0000_0000 <= 4_000,
    ensures
        goes_on(c, now, flush_outcome(c, now).0, flush_outcome(c, now).1),
{
    let (d, actions) = flush_outcome(c, now);
    let acks = worker_flush_segments(c.receiving, now, c.state);
    let data = flush_sends(c.sending, c.rtt, c.config, now, c.state);
    let written = worker_writes(c, now);
    assert(Seq::<ActionView>::empty() + written =~= written);
    if (now - c.last_ping) % 0x1_0000_0000 >= 3000 {
        let pinged = ConnView {
            sending: after_worker_flush(c.sending, c.rtt, c.config, now, c.state),
            receiving: ReceivingView {
                acks: after_flush(c.receiving.acks, now, c.rtt.rto),
                ..c.receiving
            },
            ..c
        };
        let ping = ping_outcome(pinged, now, Command::Ping).1;
        assert(actions =~= written + ping);
        assert(pinged.sending.first_unacknowledged == c.sending.first_unacknowledged);
    } else {
        assert(actions =~= written);
    }
}

/// Closing loses nothing that was written before it. As long as something waits
/// for its acknowledgement, and for fifteen seconds at most, a connection that
/// this side has closed stays as it is, with the same numbers and payloads
/// waiting, and goes on to write the data that is due.
pub proof fn law_closing_waits_for_acknowledgements(c: ConnView, now: u32)
    requires
        c.state == State::ReadyToClose,
        (now - c.state_begin) % 0x1_0000_0000 <= 15_000,
        c.sending.window.segs.len() > 0,
    ensures
        ({
            let (d, actions) = flush_outcome(c, now);
            let segs = c.sending.window.segs;
            let data = flush_sends(c.sending, c.rtt, c.config, now, c.state);
            &&& d.state == State::ReadyToClose
            &&& d.state_begin == c.state_begin
            &&& d.sending.closed == c.sending.closed
            &&& d.sending.window.segs.len() == segs.len()
            &&& forall|i: int|
                0 <= i < segs.len() ==> (#[trigger] d.sending.window.segs[i]).number
                    == segs[i].number && d.sending.window.segs[i].payload == segs[i].payload
            &&& forall|k: int| 0 <= k < data.len() ==> writes_data(actions, #[trigger] data[k])
            &&& !actions.contains(ActionView::CloseSocket)
            &&& !c.sending.closed && (now - segs[0].timeout) % 0x1_0000_0000 < 0x7FFF_FFFF
                ==> exists|sent: DataView|
                #[trigger] writes_data(actions, sent) && sent.number == segs[0].number
                    && sent.payload == segs[0].payload && sent.option == 1
            &&& goes_on(c, now, d, actions)
        }),
{
    lemma_goes_on(c, now);
    let (d, actions) = flush_outcome(c, now);
    let segs = c.sending.window.segs;
    let acks = worker_flush_segments(c.receiving, now, c.state);
    let data = flush_sends(c.sending, c.rtt, c.config, now, c.state);
    assert forall|i: int| 0 <= i < segs.len() implies (#[trigger] d.sending.window.segs[i]).number
        == segs[i].number && d.sending.window.segs[i].payload == segs[i].payload by {}
    assert forall|k: int| 0 <= k < data.len() implies writes_data(actions, #[trigger] data[k]) by {
        assert(actions[acks.len() + k] == ActionView::Write(SegmentView::Data(data[k])));
    }
    assert forall|i: int| 0 <= i < actions.len() implies #[trigger] actions[i]
        != ActionView::CloseSocket by {
        if i < acks.len() {
        } else if i < acks.len() + data.len() {
            let k = i - acks.len();
            assert(actions[acks.len() + k] == ActionView::Write(SegmentView::Data(data[k])));
        } else {
            assert(actions.last() == actions[i]);
        }
    }
    if !c.sending.closed && (now - segs[0].timeout) % 0x1_0000_0000 < 0x7FFF_FFFF {
        law_first_waiting_is_sent(c.sending, c.rtt, c.config, now, c.state);
        crate::kcp::delivery::law_round_sends_what_is_due(
            c.sending,
            c.rtt,
            c.config,
            now,
            c.state,
        );
        assert(writes_data(actions, data[0]));
    }
}

/// A connection that this side has closed is ended as soon as nothing waits any
/// more, and after fifteen seconds in any case. From then on it only tells the
/// peer.
pub proof fn law_closing_ends(c: ConnView, now: u32)
    requires
        c.state == State::ReadyToClose,
        c.sending.window.segs.len() == 0 || (now - c.state_begin) % 0x1_0000_0000 > 15_000,
    ensures
        ({
            let (d, actions) = flush_outcome(c, now);
            &&& d.state == State::Terminating
            &&& d.state_begin == now
            &&& d.last_ping == now
            &&& only_tells_the_end(actions, c)
        }),
{
    assert(flush_outcome(c, now).1 =~= seq![flush_outcome(c, now).1[0]]);
}

/// An active connection goes on while something came from the peer in the last
/// thirty seconds.
pub proof fn law_active_goes_on(c: ConnView, now: u32)
    requires
        c.state == State::Active,
        (now - c.last_incoming) % 0x1_0000_0000 < 30_000,
    ensures
        goes_on(c, now, flush_outcome(c, now).0, flush_outcome(c, now).1),
        flush_outcome(c, now).0.state == State::Active,
{
    lemma_goes_on(c, now);
}

/// After thirty seconds without anything from the peer an active connection is
/// closed by its next round and whoever waits on it is woken: what waits for
/// its acknowledgement is still sent, and where nothing does the connection is
/// ended at once.
pub proof fn law_silence_closes(c: ConnView, now: u32)
    requires
        c.state == State::Active,
        (now - c.last_incoming) % 0x1_0000_0000 >= 30_000,
    ensures
        ({
            let (d, actions) = flush_outcome(c, now);
            &&& actions.len() >= 2
            &&& actions[0] == ActionView::NotifyInputAll
            &&& actions[1] == ActionView::NotifyOutputAll
            &&& d.state_begin == now
            &&& c.sending.window.segs.len() == 0 ==> d.state == State::Terminating
                && only_tells_the_end(actions.skip(2), c)
            &&& c.sending.window.segs.len() > 0 ==> d.state == State::ReadyToClose && goes_on(
                ConnView { state: State::ReadyToClose, state_begin: now, ..c },
                now,
                d,
                actions.skip(2),
            )
        }),
{
    let (d, actions) = flush_outcome(c, now);
    let closing = ConnView { state: State::ReadyToClose, state_begin: now, ..c };
    let (e, rest) = flush_outcome(closing, now);
    let woken = seq![ActionView::NotifyInputAll, ActionView::NotifyOutputAll];
    assert(Seq::<ActionView>::empty() + rest =~= rest);
    assert(actions =~= woken + rest);
    assert(actions.skip(2) =~= rest);
    if c.sending.window.segs.len() == 0 {
        law_closing_ends(closing, now);
    } else {
        lemma_goes_on(closing, now);
    }
}

/// Anything that came in keeps an active connection from being closed for the
/// next thirty seconds.
pub proof fn law_hearing_keeps_open(c: ConnView, segs: Seq<SegmentView>, heard: u32, now: u32)
    requires
        input_outcome(c, segs, heard).0.state == State::Active,
        (now - heard) % 0x1_0000_0000 < 30_000,
    ensures
        flush_outcome(input_outcome(c, segs, heard).0, now).0.state == State::Active,
{
    let d = input_outcome(c, segs, heard).0;
    lemma_heard(ConnView { last_incoming: heard, ..c }, segs, heard);
    lemma_goes_on(d, now);
}

/// Segments that come in leave the time at which something came in alone.
pub proof fn lemma_heard(c: ConnView, segs: Seq<SegmentView>, now: u32)
    ensures
        segments_outcome(c, segs, now).0.last_incoming == c.last_incoming,
    decreases segs.len(),
{
    if segs.len() > 0 && segs[0].conv() == c.meta.conv {
        let (c1, _) = segment_outcome(c, segs[0], now);
        assert(c1.last_incoming == c.last_incoming);
        lemma_heard(c1, segs.skip(1), now);
    }
}

/// A connection that the peer has closed goes on, for as long as this side
/// leaves it open.
pub proof fn law_peer_closed_goes_on(c: ConnView, now: u32)
    requires
        c.state == State::PeerClosed,
    ensures
        goes_on(c, now, flush_outcome(c, now).0, flush_outcome(c, now).1),
        flush_outcome(c, now).0.state == State::PeerClosed,
{
    lemma_goes_on(c, now);
}

/// A connection that the peer ends goes on for four seconds, and is then ended
/// by this side too.
pub proof fn law_peer_terminating_goes_on(c: ConnView, now: u32)
    requires
        c.state == State::PeerTerminating,
    ensures
        ({
            let (d, actions) = flush_outcome(c, now);
            &&& (now - c.state_begin) % 0x1_0000_0000 <= 4_000 ==> d.state
                == State::PeerTerminating && goes_on(c, now, d, actions)
            &&& (now - c.state_begin) % 0x1_0000_0000 > 4_000 ==> d.state == State::Terminating
                && d.state_begin == now && only_tells_the_end(actions, c)
        }),
{
    if (now - c.state_begin) % 0x1_0000_0000 <= 4_000 {
        lemma_goes_on(c, now);
    } else {
        assert(flush_outcome(c, now).1 =~= seq![flush_outcome(c, now).1[0]]);
    }
}

/// While this side ends a connection, every round tells the peer and does
/// nothing else, for eight seconds; the round after that makes the connection
/// gone, lets go of everything, wakes whoever waits and closes the socket.
pub proof fn law_ending_takes_eight_seconds(c: ConnView, now: u32)
    requires
        c.state == State::Terminating,
    ensures
        ({
            let (d, actions) = flush_outcome(c, now);
            &&& (now - c.state_begin) % 0x1_0000_0000 <= 8_000 ==> {
                &&& d == ConnView { last_ping: now, ..c }
                &&& only_tells_the_end(actions, c)
            }
            &&& (now - c.state_begin) % 0x1_0000_0000 > 8_000 ==> {
                &&& d.state == State::Terminated
                &&& d.sending.closed
                &&& d.sending.window.segs.len() == 0
                &&& d.receiving.left is None
                &&& actions.len() == 4
                &&& only_tells_the_end(actions.take(1), c)
                &&& actions[1] == ActionView::NotifyInputAll
                &&& actions[2] == ActionView::NotifyOutputAll
                &&& actions[3] == ActionView::CloseSocket
            }
        }),
{
    let (d, actions) = flush_outcome(c, now);
    let told = ping_outcome(c, now, Command::Terminate).1;
    let rest = terminating_outcome(c, now).1;
    assert(Seq::<ActionView>::empty() + rest =~= rest);
    if (now - c.state_begin) % 0x1_0000_0000 > 8_000 {
        assert(actions =~= told + terminate_actions());
        assert(actions.take(1) =~= told);
    }
}

/// What closing this side does: from an active connection what was written is
/// still sent; from one that the peer has closed, the end begins; from one that
/// the peer ends, it is gone. Whoever waits is woken, whatever the state. A
/// connection that this side has closed already stays as it is.
pub proof fn law_closing_by_state(c: ConnView, now: u32)
    ensures
        ({
            let (d, actions) = close_outcome(c, now);
            &&& actions.len() >= 2
            &&& actions[0] == ActionView::NotifyInputAll
            &&& actions[1] == ActionView::NotifyOutputAll
            &&& c.state == State::Active ==> d == (ConnView {
                state: State::ReadyToClose,
                state_begin: now,
                ..c
            }) && actions.len() == 2
            &&& c.state == State::PeerClosed ==> d.state == State::Terminating && d.state_begin
                == now && actions.len() == 3 && actions[2] == ActionView::PingInterval(1000)
            &&& c.state == State::PeerTerminating ==> d.state == State::Terminated
                && d.state_begin == now && d.sending.closed && d.sending.window.segs.len() == 0
                && actions.contains(ActionView::CloseSocket) && actions.contains(
                ActionView::WakePing,
            ) && actions.contains(ActionView::WakeData)
            &&& c.state == State::ReadyToClose || c.state == State::Terminating || c.state
                == State::Terminated ==> d == c && actions.len() == 2
        }),
{
    let (d, actions) = close_outcome(c, now);
    let woken = seq![ActionView::NotifyInputAll, ActionView::NotifyOutputAll];
    if c.state == State::PeerTerminating {
        let three = seq![
            ActionView::PingInterval(1000),
            ActionView::WakeData,
            ActionView::WakePing,
        ];
        assert(actions =~= woken + (three + terminate_actions()));
        assert(actions[3] == ActionView::WakeData);
        assert(actions[4] == ActionView::WakePing);
        assert(actions[7] == ActionView::CloseSocket);
    }
}

/// What hearing that the peer has closed does: an active connection is then
/// closed by the peer, one that this side has closed begins to end, and in any
/// other state nothing happens.
pub proof fn law_peer_closing_by_state(c: ConnView, now: u32)
    ensures
        ({
            let (d, actions) = peer_closed_outcome(c, now);
            &&& c.state == State::Active ==> d.state == State::PeerClosed && d.state_begin == now
                && actions.len() == 0
            &&& c.state == State::ReadyToClose ==> d.state == State::Terminating && d.state_begin
                == now && actions.len() == 1 && actions[0] == ActionView::PingInterval(1000)
            &&& c.state != State::Active && c.state != State::ReadyToClose ==> d == c
                && actions.len() == 0
            &&& d.receiving == c.receiving
        }),
{
}

/// The peer says with the lowest bit of any segment's option that it has closed,
/// and with no other bit.
pub proof fn law_option_tells_of_closing(c: ConnView, opt: u8, now: u32)
    ensures
        opt % 2 == 1 ==> option_outcome(c, opt, now) == peer_closed_outcome(c, now),
        opt % 2 == 0 ==> option_outcome(c, opt, now).0 == c && option_outcome(c, opt, now).1.len()
            == 0,
{
}

/// What a command that ends the connection does, heard with an option that says
/// nothing: an open connection is then ended by the peer; one that this side
/// has closed begins to end; one that this side ends is gone. One reader and one
/// writer are woken.
pub proof fn law_peer_ending_by_state(c: ConnView, cmd: CmdOnlySegment, now: u32)
    requires
        cmd.conv == c.meta.conv,
        cmd.cmd == Command::Terminate,
        cmd.option == 0,
    ensures
        ({
            let (d, actions) = input_outcome(c, seq![SegmentView::Cmd(cmd)], now);
            &&& c.state == State::Active || c.state == State::PeerClosed ==> d.state
                == State::PeerTerminating && d.state_begin == now
            &&& c.state == State::ReadyToClose ==> d.state == State::Terminating && d.state_begin
                == now
            &&& c.state == State::Terminating ==> d.state == State::Terminated && actions.contains(
                ActionView::CloseSocket,
            )
            &&& c.state == State::PeerTerminating || c.state == State::Terminated ==> d.state
                == c.state && d.state_begin == c.state_begin
            &&& actions.len() >= 2
            &&& actions[actions.len() - 2] == ActionView::NotifyInputOne
            &&& actions[actions.len() - 1] == ActionView::NotifyOutputOne
        }),
{
    let segs = seq![SegmentView::Cmd(cmd)];
    let start = ConnView { last_incoming: now, ..c };
    let (d, actions) = input_outcome(c, segs, now);
    let one = segment_outcome(start, segs[0], now);
    assert(segs.skip(1).len() == 0);
    assert(segments_outcome(one.0, segs.skip(1), now) == (one.0, Seq::<ActionView>::empty()));
    assert(actions =~= one.1);
    let state: State = if c.state == State::Terminating {
        State::Terminated
    } else {
        State::Terminating
    };
    if c.state == State::Terminating {
        let three = seq![
            ActionView::PingInterval(1000),
            ActionView::WakeData,
            ActionView::WakePing,
        ];
        let woken = seq![ActionView::NotifyInputOne, ActionView::NotifyOutputOne];
        assert(set_state_outcome(start, state, now).1 =~= three + terminate_actions());
        assert(actions =~= three + terminate_actions() + woken);
        assert(actions[5] == ActionView::CloseSocket);
    }
}

/// A data segment reaches the receiving half and leaves the sending half's
/// numbers and what the peer's room is alone; an ack segment reaches the sending
/// half and leaves the receiving half alone. Both wake the task that sends.
pub proof fn law_segments_reach_their_half(c: ConnView, data: DataView, ack: AckView, now: u32)
    requires
        data.option == 0,
        ack.option == 0,
    ensures
        ({
            let (d, actions) = segment_outcome(c, SegmentView::Data(data), now);
            &&& d == ConnView { receiving: d.receiving, ..c }
            &&& d.receiving == crate::kcp::receiving::after_segment(c.receiving, data)
            &&& actions.len() > 0
            &&& actions.last() == ActionView::WakeData
            &&& actions.contains(ActionView::NotifyInputOne)
                <==> d.receiving.window.contains_key(d.receiving.next)
        }),
        ({
            let (d, actions) = segment_outcome(c, SegmentView::Ack(ack), now);
            &&& d == ConnView { sending: d.sending, rtt: d.rtt, ..c }
            &&& d.sending == crate::kcp::sending::after_ack(c.sending, ack, c.rtt.rto)
            &&& actions == seq![ActionView::NotifyOutputOne, ActionView::WakeData]
        }),
{
    let (d, actions) = segment_outcome(c, SegmentView::Data(data), now);
    if d.receiving.window.contains_key(d.receiving.next) {
        assert(actions =~= seq![ActionView::NotifyInputOne, ActionView::WakeData]);
        assert(actions[0] == ActionView::NotifyInputOne);
    } else {
        assert(actions =~= seq![ActionView::WakeData]);
    }
    let acted = segment_outcome(c, SegmentView::Ack(ack), now).1;
    assert(acted =~= seq![ActionView::NotifyOutputOne, ActionView::WakeData]);
}

/// How a connection begins: both sides send, nothing waits and nothing has
/// arrived. A segment with a full payload is as long as the largest datagram.
/// The peer is taken to have room for thirty-two segments, and congestion lets
/// through what the link takes.
pub proof fn law_connections_begin_empty(meta: ConnMetadata, config: Config)
    ensures
        ({
            let c = fresh(meta, config);
            &&& c.state == State::Active
            &&& c.meta == meta
            &&& c.config == config
            &&& c.mss == vstd::math::max(0, config.mtu - 18)
            &&& c.rtt.rto == 100 && c.rtt.srtt == 0 && c.rtt.min_rtt == config.tti
            &&& c.sending.window.segs.len() == 0 && c.sending.window.in_flight == 0
            &&& !c.sending.closed
            &&& c.sending.first_unacknowledged == c.sending.next
            &&& c.sending.remote_next - c.sending.first_unacknowledged == 32
            &&& c.sending.control_window == in_flight_size(
                config.uplink_capacity,
                config.mtu,
                config.tti,
            )
            &&& config.mtu > 0 ==> c.sending.size == config.max_sending_window as int
                / config.mtu as int
            &&& c.receiving.size == in_flight_size(
                config.downlink_capacity,
                config.mtu,
                config.tti,
            )
            &&& c.receiving.window == Map::<u32, DataView>::empty()
            &&& c.receiving.next == c.sending.next
            &&& c.receiving.left is None
            &&& c.receiving.acks.entries.len() == 0
            &&& c.sending.conv == meta.conv && c.receiving.conv == meta.conv
            &&& in_order(c.sending)
        }),
{
    reveal(in_order);
}

/// A ping tells the number that the peer waits for, the number below which it
/// knows its acknowledgements, and its timeout: what waits below the one is
/// dropped, what is to be acknowledged below the other is forgotten, and the
/// timeout is taken where this side has not changed its own for three seconds.
/// Nothing is done outside.
pub proof fn law_ping_is_heard(c: ConnView, cmd: CmdOnlySegment, now: u32, entry: AckEntry) -> (
    dropped: nat)
    requires
        cmd.conv == c.meta.conv,
        cmd.cmd == Command::Ping,
        cmd.option == 0,
        in_order(c.sending),
        unwrapped(c.sending),
    ensures
        ({
            let (d, actions) = input_outcome(c, seq![SegmentView::Cmd(cmd)], now);
            let segs = c.sending.window.segs;
            &&& actions.len() == 0
            &&& d.state == c.state && d.state_begin == c.state_begin
            &&& d.last_incoming == now
            &&& dropped <= segs.len()
            &&& d.sending.window.segs == segs.skip(dropped as int)
            &&& forall|i: int|
                0 <= i < segs.len() ==> ((#[trigger] segs[i]).number < cmd.receiving_next <==> i
                    < dropped)
            &&& d.receiving.acks.entries.contains(entry) <==> c.receiving.acks.entries.contains(
                entry,
            ) && entry.number >= cmd.sending_next
            &&& d.receiving.next == c.receiving.next && d.receiving.window == c.receiving.window
            &&& d.rtt.rto == if (now - c.rtt.updated_timestamp) % 0x1_0000_0000 >= 3000 {
                cmd.peer_rto
            } else {
                c.rtt.rto
            }
        }),
{
    let segs = seq![SegmentView::Cmd(cmd)];
    let start = ConnView { last_incoming: now, ..c };
    let one = segment_outcome(start, segs[0], now);
    assert(segs.skip(1).len() == 0);
    assert(segments_outcome(one.0, segs.skip(1), now) == (one.0, Seq::<ActionView>::empty()));
    assert(input_outcome(c, segs, now).1 =~= one.1);
    law_told_is_forgotten(c.receiving.acks, cmd.sending_next, entry);
    law_told_next_drops(c.sending, cmd.receiving_next)
}

/// Segments are heard one after the other: those of one datagram do what the
/// first of them do, and then what the others do, as long as they are of the
/// connection's conversation. One of another conversation ends it, and nothing
/// behind it is heard.
pub proof fn law_segments_are_heard_in_turn(
    c: ConnView,
    first: Seq<SegmentView>,
    second: Seq<SegmentView>,
    foreign: SegmentView,
    now: u32,
)
    requires
        forall|i: int| 0 <= i < first.len() ==> (#[trigger] first[i]).conv() == c.meta.conv,
        foreign.conv() != c.meta.conv,
    ensures
        ({
            let (d, a) = segments_outcome(c, first, now);
            let (e, b) = segments_outcome(d, second, now);
            &&& segments_outcome(c, first + second, now) == (e, a + b)
            &&& segments_outcome(c, first + (seq![foreign] + second), now) == (d, a)
            &&& d.meta == c.meta
        }),
    decreases first.len(),
{
    let behind = seq![foreign] + second;
    if first.len() == 0 {
        assert(first + second =~= second);
        assert(first + behind =~= behind);
        assert(behind[0] == foreign);
        let b = segments_outcome(c, second, now).1;
        assert(Seq::<ActionView>::empty() + b =~= b);
    } else {
        let (c1, a1) = segment_outcome(c, first[0], now);
        let rest = first.skip(1);
        assert(c1.meta == c.meta);
        assert forall|i: int| 0 <= i < rest.len() implies (#[trigger] rest[i]).conv()
            == c1.meta.conv by {
            assert(rest[i] == first[i + 1]);
        }
        law_segments_are_heard_in_turn(c1, rest, second, foreign, now);
        assert((first + second)[0] == first[0]);
        assert((first + behind)[0] == first[0]);
        assert((first + second).skip(1) =~= rest + second);
        assert((first + behind).skip(1) =~= rest + behind);
        let (d, a) = segments_outcome(c1, rest, now);
        let (e, b) = segments_outcome(d, second, now);
        assert(a1 + (a + b) =~= (a1 + a) + b);
    }
}

/// A command that says that the peer has closed, or that ends the connection,
/// wakes one reader and one writer; a plain ping wakes nobody.
pub proof fn law_commands_wake(c: ConnView, cmd: CmdOnlySegment, now: u32)
    ensures
        ({
            let (d, actions) = segment_outcome(c, SegmentView::Cmd(cmd), now);
            &&& cmd.option == 1 || cmd.cmd == Command::Terminate ==> actions.len() >= 2
                && actions[actions.len() - 2] == ActionView::NotifyInputOne
                && actions[actions.len() - 1] == ActionView::NotifyOutputOne
            &&& cmd.option == 0 && cmd.cmd != Command::Terminate ==> actions.len() == 0
        }),
{
}

/// An ack segment counts for the round trip time as it stands when the segment
/// comes in.
pub proof fn law_acknowledgements_are_timed(c: ConnView, ack: AckView, now: u32)
    requires
        ack.option == 0,
    ensures
        segment_outcome(c, SegmentView::Ack(ack), now).0.rtt == crate::kcp::sending::rtt_after_ack(
            c.rtt,
            c.sending,
            ack,
            now,
        ),
{
}

/// What entering a state asks for: while the connection ends, on either side, it
/// is looked after once a second; once it is gone both tasks are woken so that
/// they end, whoever waits is woken, and the socket is closed. Every other state
/// asks for nothing.
pub proof fn law_entering_asks(c: ConnView, state: State, now: u32)
    ensures
        ({
            let (d, actions) = set_state_outcome(c, state, now);
            &&& d.state == state && d.state_begin == now
            &&& state == State::Terminating || state == State::PeerTerminating ==> actions =~= seq![
                ActionView::PingInterval(1000),
            ]
            &&& state == State::Terminated ==> actions =~= seq![
                ActionView::PingInterval(1000),
                ActionView::WakeData,
                ActionView::WakePing,
                ActionView::NotifyInputAll,
                ActionView::NotifyOutputAll,
                ActionView::CloseSocket,
            ]
            &&& state == State::Active || state == State::ReadyToClose || state
                == State::PeerClosed ==> actions.len() == 0
        }),
{
}

} // verus!
