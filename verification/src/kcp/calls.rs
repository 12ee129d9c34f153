//! What calls promise: each law speaks of a whole call, of what it was given,
//! what it gave back and what it left behind.

use vstd::prelude::*;

use crate::kcp::answering::law_arrival_is_acknowledged;
use crate::kcp::buffer::MultiBuffer;
use crate::kcp::config::{in_flight_size, Config};
use crate::kcp::connection::{
    action_views, after_pushes, chunk, law_segments_are_filled, law_write_extends_stream,
    law_write_takes_what_fits, segment_outcome, segments_outcome, write_chunks, Action, ActionView,
    ConnView, Connection,
};
use crate::kcp::delivery::{
    law_first_waiting_is_sent, law_round_is_limited, law_round_sends_what_is_due,
};
use crate::kcp::dialer::{fetch_input, next_conv, ConvCounter};
use crate::kcp::error::{KcpError, Result};
use crate::kcp::io::PacketReader;
use crate::kcp::lifetime::{
    law_active_goes_on, law_closing_by_state, law_closing_ends,
    law_closing_waits_for_acknowledgements, lemma_heard, writes_data,
};
use crate::kcp::listener::{Ended, Listener};
use crate::kcp::output::{Attempt, RetryableWriter, SegmentWriter};
use crate::kcp::receiving::{after_read, worker_flush_segments, ReceivingWindow, ReceivingWorker};
use crate::kcp::round_trip::{law_timeout_covers_the_spread, RoundTripInfo};
use crate::kcp::segment::{
    law_decode_inverts_wire, read_segment, segment_views, AckSegment, Command, DataSegment,
    DataView, Segment, SegmentKind, SegmentView,
};
use crate::kcp::sending::{data_views, flush_sends, FlushOutcome, SendingView, SendingWorker};
use crate::kcp::state::State;
use crate::kcp::updater::{TaskStep, TaskUpdater, Wake};

verus! {

/// A call of `flush` on a connection that this side has closed, with something
/// still waiting and no more than fifteen seconds later, leaves it closing, with
/// the same numbers and payloads waiting, and writes the first segment where its
/// time has come.
pub proof fn law_flush_call_keeps_closing(c: &mut Connection, now: u32, out: Vec<Action>)
    requires
        call_ensures(Connection::flush, (c, now), out),
        old(c).wf(),
        old(c)@.state == State::ReadyToClose,
        (now - old(c)@.state_begin) % 0x1_0000_0000 <= 15_000,
        old(c)@.sending.window.segs.len() > 0,
    ensures
        ({
            let segs = old(c)@.sending.window.segs;
            let left = final(c)@.sending.window.segs;
            &&& final(c)@.state == State::ReadyToClose
            &&& left.len() == segs.len()
            &&& forall|i: int|
                0 <= i < segs.len() ==> (#[trigger] left[i]).number == segs[i].number
                    && left[i].payload == segs[i].payload
            &&& !old(c)@.sending.closed && (now - segs[0].timeout) % 0x1_0000_0000 < 0x7FFF_FFFF
                ==> exists|sent: DataView|
                #[trigger] writes_data(action_views(out@), sent) && sent.number == segs[0].number
                    && sent.payload == segs[0].payload
        }),
{
    law_closing_waits_for_acknowledgements(old(c)@, now);
}

/// A call of `flush` on a connection that this side has closed begins to end it
/// where nothing waits, and after fifteen seconds.
pub proof fn law_flush_call_ends_closing(c: &mut Connection, now: u32, out: Vec<Action>)
    requires
        call_ensures(Connection::flush, (c, now), out),
        old(c).wf(),
        old(c)@.state == State::ReadyToClose,
        old(c)@.sending.window.segs.len() == 0 || (now - old(c)@.state_begin) % 0x1_0000_0000
            > 15_000,
    ensures
        final(c)@.state == State::Terminating,
        final(c)@.state_begin == now,
        out@.len() == 1,
{
    law_closing_ends(old(c)@, now);
    assert(action_views(out@).len() == out@.len());
}

/// A call of `close` succeeds where this side has not closed yet, and only then;
/// an active connection keeps all that waits.
pub proof fn law_close_call(c: &mut Connection, now: u32, r: (Result<()>, Vec<Action>))
    requires
        call_ensures(Connection::close, (c, now), r),
        old(c).wf(),
    ensures
        r.0 is Ok <==> old(c)@.state == State::Active || old(c)@.state == State::PeerClosed
            || old(c)@.state == State::PeerTerminating,
        r.0 matches Err(e) ==> e == KcpError::ClosedConnection && final(c)@ == old(c)@,
        old(c)@.state == State::Active ==> final(c)@.state == State::ReadyToClose
            && final(c)@.sending == old(c)@.sending && final(c)@.receiving == old(c)@.receiving,
        old(c)@.state == State::PeerClosed ==> final(c)@.state == State::Terminating,
        old(c)@.state == State::PeerTerminating ==> final(c)@.state == State::Terminated,
        action_views(r.1@).len() >= 2,
        action_views(r.1@)[0] == ActionView::NotifyInputAll,
        action_views(r.1@)[1] == ActionView::NotifyOutputAll,
{
    law_closing_by_state(old(c)@, now);
}

/// A call of `write` is refused unless the connection is active, and then nothing
/// changes. Otherwise it takes the bytes that there is room for, keeps what waits
/// already in front, and wakes the task that sends where it has taken any.
pub proof fn law_write_call(c: &mut Connection, b: &[u8], r: (Result<usize>, Vec<Action>))
    requires
        call_ensures(Connection::write, (c, b), r),
        old(c).wf(),
        old(c)@.mss > 0,
    ensures
        old(c)@.state != State::Active ==> r.0 == Err::<usize, KcpError>(
            KcpError::ClosedConnection,
        ) && final(c)@ == old(c)@ && action_views(r.1@).len() == 0,
        old(c)@.state == State::Active ==> {
            let w = old(c)@.sending;
            let room: int = if !w.closed && w.window.segs.len() <= w.size {
                w.size + 1 - w.window.segs.len()
            } else {
                0
            };
            let taken = vstd::math::min(b@.len() as int, room * old(c)@.mss);
            &&& taken <= usize::MAX ==> (r.0 matches Ok(n) && n == taken)
            &&& action_views(r.1@).contains(ActionView::WakeData) <==> taken > 0
            &&& final(c)@.state == State::Active
            &&& final(c)@.receiving == old(c)@.receiving
            &&& final(c)@.sending.window.segs.len() >= w.window.segs.len()
            &&& forall|i: int|
                0 <= i < w.window.segs.len() ==> #[trigger] final(c)@.sending.window.segs[i]
                    == w.window.segs[i]
        },
{
    if old(c)@.state == State::Active {
        let w = old(c)@.sending;
        law_write_takes_what_fits(w, b@.len(), old(c)@.mss);
        law_write_extends_stream(
            w,
            b@,
            old(c)@.mss,
            write_chunks(w, b@.len(), old(c)@.mss),
        );
        if crate::kcp::connection::write_len(w, b@.len(), old(c)@.mss) > 0 {
            assert(action_views(r.1@)[0] == ActionView::WakeData);
        }
    }
}

/// A call of `read` is refused where this side has closed, and then nothing
/// changes. Otherwise it gives as many bytes as it says, at the start of the
/// buffer, leaves the rest of the buffer alone, and wakes the task that sends
/// where there were any.
pub proof fn law_read_call(c: &mut Connection, b: &mut [u8], r: (Result<usize>, Vec<Action>))
    requires
        call_ensures(Connection::read, (c, b), r),
        old(c).wf(),
        old(b)@.len() <= usize::MAX,
    ensures
        r.0 is Ok <==> old(c)@.state == State::Active || old(c)@.state == State::PeerClosed
            || old(c)@.state == State::PeerTerminating,
        r.0 matches Err(e) ==> e == KcpError::ClosedConnection && final(c)@ == old(c)@ && final(b)@
            == old(b)@,
        r.0 matches Ok(n) ==> {
            &&& final(c)@.state == old(c)@.state
            &&& final(c)@.sending == old(c)@.sending
            &&& final(b)@.len() == old(b)@.len()
            &&& n <= old(b)@.len()
            &&& (final(b)@.take(n as int), final(c)@.receiving) == after_read(
                old(c)@.receiving,
                old(b)@.len() as int,
            )
            &&& forall|i: int|
                n <= i < old(b)@.len() ==> #[trigger] final(b)@[i] == old(b)@[i]
            &&& action_views(r.1@).contains(ActionView::WakeData) <==> n > 0
        },
{
    if r.0 is Ok {
        let got = after_read(old(c)@.receiving, old(b)@.len() as int).0;
        assert(final(b)@.take(got.len() as int) =~= got);
        if got.len() > 0 {
            assert(action_views(r.1@)[0] == ActionView::WakeData);
        }
    }
}

/// Deadlines are set while the connection is active, each on its own.
pub proof fn law_deadline_calls(
    c: &mut Connection,
    d: &mut Connection,
    t: Option<u64>,
    r: Result<()>,
    s: Result<()>,
)
    requires
        call_ensures(Connection::set_read_deadline, (c, t), r),
        call_ensures(Connection::set_write_deadline, (d, t), s),
    ensures
        r is Ok <==> old(c)@.state == State::Active,
        s is Ok <==> old(d)@.state == State::Active,
        r is Ok ==> final(c)@.read_deadline == t && final(c)@.write_deadline
            == old(c)@.write_deadline && final(c)@.state == old(c)@.state && final(c)@.sending
            == old(c)@.sending,
        s is Ok ==> final(d)@.write_deadline == t && final(d)@.read_deadline
            == old(d)@.read_deadline && final(d)@.state == old(d)@.state && final(d)@.sending
            == old(d)@.sending,
        r is Err ==> final(c)@ == old(c)@,
        s is Err ==> final(d)@ == old(d)@,
{
}

/// When the tasks of a connection have something to do: the one that sends while
/// data or acknowledgements wait and the connection does not end, the one that
/// pings until the connection is gone.
pub proof fn law_task_calls(c: &Connection, send: bool, over: bool, ping: bool)
    requires
        call_ensures(Connection::data_update_necessary, (c,), send),
        call_ensures(Connection::data_update_over, (c,), over),
        call_ensures(Connection::ping_update_necessary, (c,), ping),
    ensures
        over <==> c@.state == State::Terminating || c@.state == State::Terminated,
        send <==> !over && (c@.sending.window.segs.len() > 0 || c@.receiving.acks.entries.len()
            > 0),
        ping <==> c@.state != State::Terminated,
{
}

/// A call of `flush` on a sender sends the first segment that waits where its
/// time has come, however often it was sent before, and no more segments than
/// the peer has room for, than congestion lets through and than the link takes,
/// but one always may go.
pub proof fn law_sender_flush_call(
    w: &mut SendingWorker,
    rtt: &RoundTripInfo,
    config: &Config,
    current: u32,
    state: State,
    r: (Vec<DataSegment>, FlushOutcome),
)
    requires
        call_ensures(SendingWorker::flush, (w, rtt, config, current, state), r),
    ensures
        ({
            let v = old(w)@;
            let sent = data_views(r.0@);
            let peer = (v.remote_next - v.first_unacknowledged) % 0x1_0000_0000;
            let link = in_flight_size(config.uplink_capacity, config.mtu, config.tti) as int;
            &&& !v.closed && v.window.segs.len() > 0 && (current - v.window.segs[0].timeout)
                % 0x1_0000_0000 < 0x7FFF_FFFF ==> sent.len() > 0 && sent[0].number
                == v.window.segs[0].number && sent[0].payload == v.window.segs[0].payload
            &&& config.cwnd_multiplier <= 1 ==> {
                &&& sent.len() <= vstd::math::max(1, peer)
                &&& sent.len() <= vstd::math::max(1, v.control_window as int)
                &&& sent.len() <= vstd::math::max(1, link)
            }
            &&& v.closed ==> sent.len() == 0 && final(w)@ == v
            &&& final(w)@.window.segs.len() == v.window.segs.len()
            &&& !r.1.needs_ping
        }),
{
    let v = old(w)@;
    law_round_is_limited(v, *rtt, *config, current, state);
    if !v.closed && v.window.segs.len() > 0 && (current - v.window.segs[0].timeout) % 0x1_0000_0000
        < 0x7FFF_FFFF {
        law_first_waiting_is_sent(v, *rtt, *config, current, state);
    }
    if !v.closed {
        let _ = law_round_sends_what_is_due(v, *rtt, *config, current, state);
    }
}

/// A call of `push` takes a payload while the sender is open and no more than its
/// size of segments wait, gives it the next number and puts it last.
pub proof fn law_push_call(w: &mut SendingWorker, payload: crate::kcp::buffer::Buffer, taken: bool)
    requires
        call_ensures(SendingWorker::push, (w, payload), taken),
    ensures
        taken <==> !old(w)@.closed && old(w)@.window.segs.len() <= old(w)@.size,
        taken ==> final(w)@.window.segs.len() == old(w)@.window.segs.len() + 1
            && final(w)@.window.segs.last().number == old(w)@.next
            && final(w)@.window.segs.last().payload == Some(payload@) && final(w)@.next == (old(
            w,
        )@.next + 1) % 0x1_0000_0000,
        !taken ==> final(w)@ == old(w)@,
{
    crate::kcp::acknowledging::law_taken_waits_at_the_end(old(w)@, payload@);
}

/// A call of `update` with a sample leaves a timeout of five quarters of the
/// smoothed time and its spread, ten seconds at most before the quarter.
pub proof fn law_sample_call(info: &mut RoundTripInfo, rtt: u32, current: u32)
    requires
        call_ensures(RoundTripInfo::update, (info, rtt, current), ()),
        rtt <= 0x7FFF_FFFF,
        final(info).srtt + 4 * final(info).variation <= u32::MAX,
    ensures
        old(info).min_rtt < 4 * final(info).variation ==> final(info).rto == 5 * vstd::math::min(
            10_000,
            final(info).srtt + 4 * final(info).variation,
        ) / 4,
        old(info).min_rtt >= 4 * final(info).variation ==> final(info).rto == 5 * vstd::math::min(
            10_000,
            final(info).srtt + final(info).variation,
        ) / 4,
        final(info).srtt <= 10_000 ==> final(info).rto >= final(info).srtt,
{
    law_timeout_covers_the_spread(*old(info), rtt, current);
}

/// The first segment under a number stays in the window, and a later one is
/// handed back; a segment that is taken out is the one that was put in.
pub proof fn law_window_calls(
    w: &mut ReceivingWindow,
    x: &mut ReceivingWindow,
    id: u32,
    value: DataSegment,
    rejected: Option<DataSegment>,
    taken: Option<DataSegment>,
)
    requires
        call_ensures(ReceivingWindow::set, (w, id, value), rejected),
        call_ensures(ReceivingWindow::remove, (x, id), taken),
        old(x)@ == final(w)@,
    ensures
        old(w)@.contains_key(id) ==> rejected == Some(value) && (taken matches Some(seg) && seg@
            == old(w)@[id]),
        !old(w)@.contains_key(id) ==> rejected is None && (taken matches Some(seg) && seg@
            == value@),
        !final(x)@.contains_key(id),
        forall|other: u32| other != id ==> (final(x)@.contains_key(other) <==> #[trigger] old(
            w,
        )@.contains_key(other)),
{
}

/// What a receiver has read is no longer available, and a segment that it waits
/// for is.
pub proof fn law_available_calls(
    w: &mut ReceivingWorker,
    seg: DataSegment,
    x: &ReceivingWorker,
    b: bool,
)
    requires
        call_ensures(ReceivingWorker::process_segment, (w, seg), ()),
        call_ensures(ReceivingWorker::is_data_available, (x,), b),
        old(w).wf(),
        x@ == final(w)@,
        seg@.number == old(w)@.next,
        old(w)@.size > 0,
    ensures
        b,
        final(w)@.next == old(w)@.next,
{
}

/// Of two conversations in a row the second is the one after the first.
pub proof fn law_conversation_calls(
    c: &mut ConvCounter,
    d: &mut ConvCounter,
    first: u16,
    second: u16,
)
    requires
        call_ensures(next_conv, (c,), first),
        call_ensures(next_conv, (d,), second),
        *old(d) == *final(c),
    ensures
        second == (first + 1) % 0x1_0000,
        first == (old(c).last + 1) % 0x1_0000,
{
}

/// A task is started by the first call that wakes it, and only told by the
/// second; it runs until there is nothing to do, and can then be started anew.
pub proof fn law_task_updater_calls(
    a: &mut TaskUpdater,
    b: &mut TaskUpdater,
    c: &mut TaskUpdater,
    d: &mut TaskUpdater,
    first: Wake,
    second: Wake,
    step: TaskStep,
    again: Wake,
    necessary: bool,
)
    requires
        call_ensures(TaskUpdater::wake_up, (a,), first),
        call_ensures(TaskUpdater::wake_up, (b,), second),
        call_ensures(TaskUpdater::next, (c, necessary), step),
        call_ensures(TaskUpdater::wake_up, (d,), again),
        !old(a).running,
        *old(b) == *final(a),
        *old(c) == *final(b),
        *old(d) == *final(c),
    ensures
        first == Wake::Start,
        second == Wake::Notify,
        necessary ==> step == TaskStep::Update && again == Wake::Notify,
        !necessary ==> step == TaskStep::Stop && again == Wake::Start,
        final(d).interval_ms == old(a).interval_ms,
{
}

/// A task that begins takes up the interval that was set last, unless the
/// connection has ended; a later change of the interval is told once.
pub proof fn law_interval_calls(
    a: &mut TaskUpdater,
    b: &mut TaskUpdater,
    c: &mut TaskUpdater,
    d: &mut TaskUpdater,
    step: TaskStep,
    ms: u64,
    told: Option<u64>,
    then_told: Option<u64>,
    necessary: bool,
)
    requires
        call_ensures(TaskUpdater::begin, (a, false, necessary), step),
        call_ensures(TaskUpdater::set_interval, (b, ms), ()),
        call_ensures(TaskUpdater::changed_interval, (c,), told),
        call_ensures(TaskUpdater::changed_interval, (d,), then_told),
        *old(b) == *final(a),
        *old(c) == *final(b),
        *old(d) == *final(c),
    ensures
        step == if necessary {
            TaskStep::Update
        } else {
            TaskStep::Stop
        },
        final(a).period_ms == old(a).interval_ms,
        told == if ms == old(a).interval_ms {
            None
        } else {
            Some(ms)
        },
        then_told is None,
        final(d).period_ms == ms,
{
}

/// A task that begins after the connection has ended stops at once.
pub proof fn law_ended_task_call(a: &mut TaskUpdater, step: TaskStep, necessary: bool)
    requires
        call_ensures(TaskUpdater::begin, (a, true, necessary), step),
    ensures
        step == TaskStep::Stop,
        !final(a).running,
{
}

/// An ack segment that names the segment a sender waits for frees the sender of
/// it.
pub proof fn law_ack_call(
    w: &mut SendingWorker,
    rtt: &mut RoundTripInfo,
    current: u32,
    ack: &AckSegment,
    rto: u32,
    k: int,
)
    requires
        call_ensures(SendingWorker::process_ack_segment, (w, rtt, current, ack, rto), ()),
        !old(w)@.closed,
        crate::kcp::acknowledging::in_order(old(w)@),
        0 <= k < final(w)@.window.segs.len(),
    ensures
        !ack@.numbers.contains(final(w)@.window.segs[k].number),
        final(w)@.remote_next >= ack@.receiving_window,
        final(w)@.remote_next >= old(w)@.remote_next,
        crate::kcp::acknowledging::in_order(final(w)@),
{
    let _ = crate::kcp::acknowledging::law_acknowledged_is_dropped(old(w)@, ack@, rto);
}

/// What is written to an active connection with nothing waiting is sent by its
/// next round: the first segment carries the first bytes, as many as one may.
pub proof fn law_written_is_sent(
    c: &mut Connection,
    d: &mut Connection,
    b: &[u8],
    r: (Result<usize>, Vec<Action>),
    now: u32,
    out: Vec<Action>,
)
    requires
        call_ensures(Connection::write, (c, b), r),
        call_ensures(Connection::flush, (d, now), out),
        old(c).wf(),
        old(d).wf(),
        old(d)@ == final(c)@,
        old(c)@.state == State::Active,
        (now - old(c)@.last_incoming) % 0x1_0000_0000 < 30_000,
        now < 0x7FFF_FFFF,
        !old(c)@.sending.closed,
        old(c)@.sending.window.segs.len() == 0,
        old(c)@.mss > 0,
        b@.len() > 0,
    ensures
        final(d)@.state == State::Active,
        exists|sent: DataView|
            #[trigger] writes_data(action_views(out@), sent) && sent.number
                == old(c)@.sending.next && sent.payload == Some(
                b@.take(vstd::math::min(old(c)@.mss as int, b@.len() as int)),
            ),
{
    let w = old(c)@.sending;
    let mss = old(c)@.mss;
    let n = write_chunks(w, b@.len(), mss);
    law_write_takes_what_fits(w, b@.len(), mss);
    let room = w.size + 1;
    assert(room * mss >= mss) by (nonlinear_arith)
        requires
            room >= 1,
            mss > 0,
    ;
    assert(0 * mss == 0) by (nonlinear_arith);
    assert(n > 0);
    law_write_extends_stream(w, b@, mss, n);
    assert(0nat * mss == 0) by (nonlinear_arith);
    law_segments_are_filled(b@, mss, 0);
    let first = chunk(b@, mss, 0);
    assert(first =~= b@.take(vstd::math::min(mss as int, b@.len() as int)));
    let v = final(c)@;
    assert(v.sending.window.segs[(w.window.segs.len() + 0nat) as int].payload == Some(first));
    law_active_goes_on(v, now);
    assert(v.sending.closed == w.closed) by {
        lemma_pushes_stay_open(w, b@, mss, n);
    }
    law_first_waiting_is_sent(v.sending, v.rtt, v.config, now, v.state);
    let acks = worker_flush_segments(v.receiving, now, v.state);
    let data = flush_sends(v.sending, v.rtt, v.config, now, v.state);
    let actions = action_views(out@);
    let zero: int = 0;
    assert(actions[acks.len() + zero] == ActionView::Write(SegmentView::Data(data[0])));
    assert(writes_data(actions, data[0]));
}

proof fn lemma_pushes_stay_open(w: SendingView, b: Seq<u8>, mss: u32, n: nat)
    ensures
        after_pushes(w, b, mss, n).closed == w.closed,
    decreases n,
{
    if n > 0 {
        lemma_pushes_stay_open(w, b, mss, (n - 1) as nat);
    }
}

/// A data segment that comes in, with a number in the window, is acknowledged by
/// the next round of an active connection, however often it has come before.
pub proof fn law_arrival_is_answered(
    c: &mut Connection,
    d: &mut Connection,
    segments: Vec<SegmentKind>,
    seg: DataView,
    heard: u32,
    out: Vec<Action>,
    now: u32,
    answer: Vec<Action>,
)
    requires
        call_ensures(Connection::input, (c, segments, heard), out),
        call_ensures(Connection::flush, (d, now), answer),
        old(c).wf(),
        old(d).wf(),
        old(d)@ == final(c)@,
        segment_views(segments@) == seq![SegmentView::Data(seg)],
        seg.conv == old(c)@.meta.conv,
        seg.option == 0,
        (seg.number - old(c)@.receiving.next) % 0x1_0000_0000 < old(c)@.receiving.size,
        old(c)@.state == State::Active,
        (now - heard) % 0x1_0000_0000 < 30_000,
    ensures
        exists|i: int|
            0 <= i < action_views(answer@).len() && (#[trigger] action_views(answer@)[i]
                matches ActionView::Write(SegmentView::Ack(ack)) && ack.numbers.contains(
                seg.number,
            )),
{
    let start = ConnView { last_incoming: heard, ..old(c)@ };
    let segs = seq![SegmentView::Data(seg)];
    assert(segs[0].conv() == start.meta.conv);
    let one = segment_outcome(start, segs[0], heard);
    assert(segs.skip(1).len() == 0);
    assert(segments_outcome(one.0, segs.skip(1), heard) == (one.0, Seq::<ActionView>::empty()));
    let v = final(c)@;
    assert(v == one.0);
    law_arrival_is_acknowledged(old(c)@.receiving, seg, now, State::Active);
    law_active_goes_on(v, now);
    let acks = worker_flush_segments(v.receiving, now, v.state);
    let (k, j) = choose|k: int, j: int|
        0 <= k < acks.len() && 0 <= j < acks[k].numbers.len() && #[trigger] acks[k].numbers[j]
            == seg.number;
    let actions = action_views(answer@);
    assert(actions[k] == ActionView::Write(SegmentView::Ack(acks[k])));
    assert(acks[k].numbers.contains(seg.number));
}

/// A segment that was written to a buffer is read from it again, and ends where
/// it was written to.
pub proof fn law_serialize_and_read_calls(
    seg: &SegmentKind,
    buf: &mut [u8],
    b: &[u8],
    r: Option<(SegmentKind, usize)>,
)
    requires
        call_ensures(SegmentKind::serialize, (seg, buf), ()),
        call_ensures(read_segment, (b,), r),
        seg@.wire().len() <= old(buf)@.len(),
        seg@.fits_wire(),
        b@ == final(buf)@,
    ensures
        r matches Some((got, n)) && got@ == seg@.as_read() && n == seg@.wire().len(),
{
    law_decode_inverts_wire(seg@, old(buf)@.skip(seg@.wire().len() as int));
}

/// A writer that fails tries again after its pause as long as retries are left,
/// and gives up with the last failure when none is; a success starts the count
/// anew.
pub proof fn law_attempt_call<W: SegmentWriter, S: Segment>(
    w: &mut RetryableWriter<W>,
    seg: &S,
    r: Attempt,
)
    requires
        call_ensures(RetryableWriter::<W>::attempt::<S>, (w, seg), r),
        old(w).wf(),
        seg.wire().len() <= usize::MAX,
    ensures
        final(w).inner.sent().last() == seg.wire(),
        final(w).inner.sent().len() == old(w).inner.sent().len() + 1,
        final(w).inner.results().last() is Ok ==> r is Written && final(w).failures == 0,
        final(w).inner.results().last() is Err && old(w).failures < old(w).retries ==> (r
            matches Attempt::PauseThenRetry(ms) && ms == old(w).interval_ms) && final(w).failures
            == old(w).failures + 1,
        final(w).inner.results().last() is Err && old(w).failures >= old(w).retries ==> (r
            matches Attempt::PauseThenFail(ms, e) && ms == old(w).interval_ms),
        final(w).retries == old(w).retries && final(w).interval_ms == old(w).interval_ms,
{
}

/// Taking bytes out of buffers loses none: what is taken and what is left are
/// what was there, and as much is taken as was asked for, or all.
pub proof fn law_split_call(mb: &mut MultiBuffer, want: usize, head: MultiBuffer)
    requires
        call_ensures(MultiBuffer::split_bytes, (mb, want), head),
    ensures
        head.flat() + final(mb).flat() == old(mb).flat(),
        head.flat().len() == vstd::math::min(want as int, old(mb).flat().len() as int),
{
    let all = old(mb).flat();
    if want <= all.len() {
        assert(all.take(want as int) + all.skip(want as int) =~= all);
    } else {
        assert(all + Seq::<u8>::empty() =~= all);
    }
}

/// Closing a listener ends every session, in order, and lets go of what each one
/// held; no session is left.
pub proof fn law_listener_close_call<R: PacketReader>(
    l: &mut Listener<R>,
    ended: Vec<Ended>,
    i: int,
)
    requires
        call_ensures(Listener::<R>::close, (l,), ended),
        old(l).wf(),
        0 <= i < ended@.len(),
    ensures
        final(l)@.closed,
        final(l)@.sessions.len() == 0,
        ended@.len() == old(l)@.sessions.len(),
        ended@[i].session@.id == old(l)@.sessions[i].id,
        ended@[i].session@.conn.sending.closed,
        ended@[i].session@.conn.sending.window.segs.len() == 0,
        action_views(ended@[i].actions@).contains(ActionView::CloseSocket),
{
    assert(action_views(ended@[i].actions@)[2] == ActionView::CloseSocket);
}

/// The socket that has ended brings nothing; a datagram without a segment changes
/// nothing; any other one is heard.
pub proof fn law_fetch_call<R: PacketReader>(
    payload: Option<&[u8]>,
    reader: &R,
    c: &mut Connection,
    now: u32,
    r: Option<Vec<Action>>,
)
    requires
        call_ensures(fetch_input::<R>, (payload, reader, c, now), r),
        old(c).wf(),
    ensures
        payload is None ==> r is None && final(c)@ == old(c)@,
        payload matches Some(b) ==> r is Some && (reader.segments_of(b@).len() == 0 ==> final(c)@
            == old(c)@) && (reader.segments_of(b@).len() > 0 ==> final(c)@.last_incoming == now),
{
    if let Some(b) = payload {
        let segs = reader.segments_of(b@);
        lemma_heard(ConnView { last_incoming: now, ..old(c)@ }, segs, now);
    }
}

/// A state says that this side has closed where closing it again is refused, and
/// only there.
pub proof fn law_locally_closed_calls(
    s: State,
    b: bool,
    c: &mut Connection,
    now: u32,
    r: (Result<()>, Vec<Action>),
    gone: bool,
)
    requires
        call_ensures(State::is_locally_closed, (s,), b),
        call_ensures(State::is_terminated, (s,), gone),
        call_ensures(Connection::close, (c, now), r),
        old(c).wf(),
        old(c)@.state == s,
    ensures
        b <==> r.0 is Err,
        gone ==> b,
        gone <==> s == State::Terminated,
{
}

/// A state's number gives the state back, and so does a command's; other numbers
/// give nothing.
pub proof fn law_code_calls(
    s: State,
    n: i32,
    t: Option<State>,
    other: i32,
    none: Option<State>,
    cmd: Command,
    v: u8,
    back: Option<Command>,
)
    requires
        call_ensures(State::to_i32, (s,), n),
        call_ensures(State::from_i32, (n,), t),
        call_ensures(State::from_i32, (other,), none),
        call_ensures(Command::to_u8, (cmd,), v),
        call_ensures(Command::from_u8, (v,), back),
        other < 0 || other > 5,
    ensures
        t == Some(s),
        none is None,
        back == Some(cmd),
{
}

} // verus!
