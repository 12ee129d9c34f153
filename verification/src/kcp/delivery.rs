//! What a sender promises: everything is sent until it is acknowledged, and
//! never more at once than fits.

use vstd::prelude::*;

use crate::kcp::config::{in_flight_size, Config};
use crate::kcp::round_trip::RoundTripInfo;
use crate::kcp::segment::DataView;
use crate::kcp::sending::{
    adjusted_window, after_worker_flush, data_views, expired_count, flush_sends, is_chosen,
    lemma_sends_bounded, round_lost, round_of, round_sends, send_window, FlushPreparation,
    SendRound, SendingView, SendingWindow,
};
use crate::kcp::state::State;

verus! {

/// The positions of the segments that a round sends, of the first `n`.
spec fn chosen(segs: Seq<DataView>, round: SendRound, n: nat) -> Seq<int>
    decreases n,
{
    if n == 0 {
        Seq::empty()
    } else {
        let before = chosen(segs, round, (n - 1) as nat);
        if is_chosen(segs, round, n - 1) {
            before.push(n - 1)
        } else {
            before
        }
    }
}

proof fn lemma_chosen(segs: Seq<DataView>, round: SendRound, n: nat)
    requires
        n <= segs.len(),
    ensures
        ({
            let at = chosen(segs, round, n);
            let sends = round_sends(segs, round, n);
            let most = if round.max_in_flight == 0 {
                1
            } else {
                round.max_in_flight
            };
            &&& at.len() == sends.len()
            &&& forall|k: int|
                0 <= k < at.len() ==> {
                    let i = #[trigger] at[k];
                    &&& 0 <= i < n
                    &&& is_chosen(segs, round, i)
                    &&& sends[k] == crate::kcp::sending::stamped(segs[i], round)
                }
            &&& forall|j: int, k: int| 0 <= j < k < at.len() ==> #[trigger] at[j] < #[trigger] at[k]
            &&& forall|i: int|
                0 <= i < n && #[trigger] is_chosen(segs, round, i) ==> at.contains(i)
            &&& forall|i: int|
                0 <= i < n && crate::kcp::sending::is_expired(
                    #[trigger] segs[i],
                    round.current,
                ) && !at.contains(i) ==> at.len() == most && at.last() < i
        }),
    decreases n,
{
    if n > 0 {
        let m = (n - 1) as nat;
        lemma_chosen(segs, round, m);
        lemma_sends_bounded(segs, round, m);
        let before = chosen(segs, round, m);
        let at = chosen(segs, round, n);
        let sends = round_sends(segs, round, n);
        assert(segs.take(n as int).drop_last() =~= segs.take(m as int));
        assert forall|k: int| 0 <= k < at.len() implies {
            let i = #[trigger] at[k];
            &&& 0 <= i < n
            &&& is_chosen(segs, round, i)
            &&& sends[k] == crate::kcp::sending::stamped(segs[i], round)
        } by {
            if k < before.len() {
                assert(at[k] == before[k]);
            }
        }
        assert forall|i: int|
            0 <= i < n && #[trigger] is_chosen(segs, round, i) implies at.contains(i) by {
            if i < m {
                let k = choose|k: int| 0 <= k < before.len() && before[k] == i;
                assert(at[k] == i);
            } else {
                assert(at[before.len() as int] == i);
            }
        }
        assert forall|i: int|
            0 <= i < n && crate::kcp::sending::is_expired(#[trigger] segs[i], round.current)
                && !at.contains(i) implies at.len() == (if round.max_in_flight == 0 {
            1
        } else {
            round.max_in_flight
        }) && at.last() < i by {
            if i < m {
                if before.contains(i) {
                    let k = choose|k: int| 0 <= k < before.len() && before[k] == i;
                    assert(at[k] == i);
                }
                assert(expired_count(segs.take(m as int), round.current) >= before.len());
            } else {
                assert(!is_chosen(segs, round, i));
                assert(at =~= before);
                assert(before.last() == before[before.len() - 1]);
            }
        }
    }
}

/// The most segments of a round: the least of what the link takes, what the
/// peer has room for and what congestion lets through, times the multiplier,
/// and always one.
pub open spec fn round_limit(link: int, peer: int, congestion: int, multiplier: int) -> int {
    let least = vstd::math::min(vstd::math::min(link, peer), congestion);
    let product = least * vstd::math::max(1, multiplier);
    vstd::math::max(1, vstd::math::min(product, u32::MAX as int))
}

proof fn lemma_limit(w: SendingView, config: Config)
    ensures
        ({
            let most = send_window(w, config);
            (if most == 0 {
                1
            } else {
                most as int
            }) == round_limit(
                in_flight_size(config.uplink_capacity, config.mtu, config.tti) as int,
                (w.remote_next - w.first_unacknowledged) % 0x1_0000_0000,
                w.control_window as int,
                config.cwnd_multiplier as int,
            )
        }),
{
    reveal(send_window);
    let link = in_flight_size(config.uplink_capacity, config.mtu, config.tti) as int;
    let peer = (w.remote_next - w.first_unacknowledged) % 0x1_0000_0000;
    let least = vstd::math::min(vstd::math::min(link, peer), w.control_window as int);
    let times = vstd::math::max(1, config.cwnd_multiplier as int);
    assert(least * times >= 0) by (nonlinear_arith)
        requires
            least >= 0,
            times >= 1,
    ;
}

/// A round sends the segments whose timeout has passed, however often they were
/// sent before, in their order and none passed over, as long as the limit is
/// not reached. Each is sent as it waits, with the time, the conversation and
/// what the peer is to know, and is due again after the timeout. The others
/// wait as before. Those that are sent for the first time are on their way from
/// then on, and the share of the others changes the congestion window. The
/// positions of the segments that are sent are returned.
pub proof fn law_round_sends_what_is_due(
    w: SendingView,
    rtt: RoundTripInfo,
    config: Config,
    current: u32,
    state: State,
) -> (at: Seq<int>)
    requires
        !w.closed,
    ensures
        ({
            let segs = w.window.segs;
            let sends = flush_sends(w, rtt, config, current, state);
            let after = after_worker_flush(w, rtt, config, current, state);
            let limit = round_limit(
                in_flight_size(config.uplink_capacity, config.mtu, config.tti) as int,
                (w.remote_next - w.first_unacknowledged) % 0x1_0000_0000,
                w.control_window as int,
                config.cwnd_multiplier as int,
            );
            &&& at.len() == sends.len()
            &&& at.len() <= limit
            &&& forall|j: int, k: int| 0 <= j < k < at.len() ==> #[trigger] at[j] < #[trigger] at[k]
            &&& forall|k: int|
                0 <= k < at.len() ==> {
                    let i = #[trigger] at[k];
                    &&& 0 <= i < segs.len()
                    &&& (current - segs[i].timeout) % 0x1_0000_0000 < 0x7FFF_FFFF
                    &&& sends[k] == DataView {
                        conv: w.conv,
                        option: if state == State::ReadyToClose {
                            1
                        } else {
                            0
                        },
                        timestamp: current,
                        number: segs[i].number,
                        sending_next: w.first_unacknowledged,
                        payload: segs[i].payload,
                        timeout: ((current + rtt.rto) % 0x1_0000_0000) as u32,
                        transmit: ((segs[i].transmit + 1) % 0x1_0000_0000) as u32,
                    }
                    &&& after.window.segs[i] == sends[k]
                }
            &&& forall|i: int|
                0 <= i < segs.len() && (current - (#[trigger] segs[i]).timeout) % 0x1_0000_0000
                    < 0x7FFF_FFFF && !at.contains(i) ==> at.len() == limit && at.last() < i
            &&& after.window.segs.len() == segs.len()
            &&& forall|i: int|
                0 <= i < segs.len() && !at.contains(i) ==> #[trigger] after.window.segs[i]
                    == segs[i]
            &&& after.window.in_flight == (w.window.in_flight + at.len() - resent(segs, at))
                % 0x1_0000_0000
            &&& at.len() == 0 || after.window.in_flight == 0 ==> after.control_window
                == w.control_window
            &&& at.len() > 0 && after.window.in_flight > 0 ==> after.control_window
                == adjusted_window(
                w.control_window,
                (((100 * resent(segs, at) as int) % 0x1_0000_0000) / (
                after.window.in_flight as int)) as u32,
                config,
            )
            &&& after == (SendingView {
                window: after.window,
                control_window: after.control_window,
                updated: false,
                ..w
            })
        }),
{
    let segs = w.window.segs;
    let round = round_of(w, rtt, config, current, state);
    let at = chosen(segs, round, segs.len());
    let after = after_worker_flush(w, rtt, config, current, state);
    let sends = flush_sends(w, rtt, config, current, state);
    lemma_chosen(segs, round, segs.len());
    lemma_sends_bounded(segs, round, segs.len());
    lemma_limit(w, config);
    lemma_resent(segs, round, segs.len());
    assert forall|i: int|
        0 <= i < segs.len() && !at.contains(i) implies #[trigger] after.window.segs[i]
        == segs[i] by {
        assert(!is_chosen(segs, round, i));
    }
    assert forall|i: int|
        0 <= i < segs.len() && (current - (#[trigger] segs[i]).timeout) % 0x1_0000_0000
            < 0x7FFF_FFFF && !at.contains(i) implies at.len() == round_limit(
        in_flight_size(config.uplink_capacity, config.mtu, config.tti) as int,
        (w.remote_next - w.first_unacknowledged) % 0x1_0000_0000,
        w.control_window as int,
        config.cwnd_multiplier as int,
    ) && at.last() < i by {
        assert(crate::kcp::sending::is_expired(segs[i], round.current));
    }
    at
}

/// The first segment that waits is sent in every round after its timeout has
/// passed, whatever the windows say and however often it was sent before.
pub proof fn law_first_waiting_is_sent(
    w: SendingView,
    rtt: RoundTripInfo,
    config: Config,
    current: u32,
    state: State,
)
    requires
        !w.closed,
        w.window.segs.len() > 0,
        (current - w.window.segs[0].timeout) % 0x1_0000_0000 < 0x7FFF_FFFF,
    ensures
        ({
            let sends = flush_sends(w, rtt, config, current, state);
            &&& sends.len() > 0
            &&& sends[0].number == w.window.segs[0].number
            &&& sends[0].payload == w.window.segs[0].payload
        }),
{
    let at = law_round_sends_what_is_due(w, rtt, config, current, state);
    if !at.contains(0) {
        assert(at.last() == at[at.len() - 1]);
    }
    let k = choose|k: int| 0 <= k < at.len() && at[k] == 0;
    if k > 0 {
        assert(at[0] < at[k]);
    }
}

proof fn lemma_first_is_due_later(
    w: SendingView,
    rtt: RoundTripInfo,
    config: Config,
    current: u32,
    state: State,
)
    requires
        !w.closed,
        w.window.segs.len() > 0,
        (current - w.window.segs[0].timeout) % 0x1_0000_0000 < 0x7FFF_FFFF,
    ensures
        ({
            let after = after_worker_flush(w, rtt, config, current, state);
            &&& !after.closed
            &&& after.window.segs.len() > 0
            &&& after.window.segs[0].timeout == (current + rtt.rto) % 0x1_0000_0000
            &&& after.window.segs[0].number == w.window.segs[0].number
            &&& after.window.segs[0].payload == w.window.segs[0].payload
        }),
{
    let at = law_round_sends_what_is_due(w, rtt, config, current, state);
    if !at.contains(0) {
        assert(at.last() == at[at.len() - 1]);
    }
    let k = choose|k: int| 0 <= k < at.len() && at[k] == 0;
    assert(at[k] == 0);
}

proof fn lemma_due_after_timeout(first: u32, rto: u32, second: u32)
    ensures
        (second - (first + rto) % 0x1_0000_0000) % 0x1_0000_0000 == (second - first - rto)
            % 0x1_0000_0000,
{
}

/// A segment that was sent and not acknowledged is sent again as soon as its
/// timeout has passed: two rounds on the same window, the second one a timeout
/// or more after the first, both send the first segment.
pub proof fn law_unacknowledged_is_sent_again(
    w: SendingView,
    rtt: RoundTripInfo,
    config: Config,
    first: u32,
    second: u32,
    state: State,
)
    requires
        !w.closed,
        w.window.segs.len() > 0,
        (first - w.window.segs[0].timeout) % 0x1_0000_0000 < 0x7FFF_FFFF,
        (second - first - rtt.rto) % 0x1_0000_0000 < 0x7FFF_FFFF,
    ensures
        ({
            let after = after_worker_flush(w, rtt, config, first, state);
            let again = flush_sends(after, rtt, config, second, state);
            &&& again.len() > 0
            &&& again[0].number == w.window.segs[0].number
            &&& again[0].payload == w.window.segs[0].payload
        }),
{
    lemma_first_is_due_later(w, rtt, config, first, state);
    lemma_due_after_timeout(first, rtt.rto, second);
    let after = after_worker_flush(w, rtt, config, first, state);
    law_first_waiting_is_sent(after, rtt, config, second, state);
}

/// A segment whose timeout has not passed is not sent.
pub proof fn law_nothing_is_sent_early(
    w: SendingView,
    rtt: RoundTripInfo,
    config: Config,
    current: u32,
    state: State,
)
    requires
        forall|i: int|
            0 <= i < w.window.segs.len() ==> (current - (#[trigger] w.window.segs[i]).timeout)
                % 0x1_0000_0000 >= 0x7FFF_FFFF,
    ensures
        flush_sends(w, rtt, config, current, state).len() == 0,
{
    if !w.closed {
        let at = law_round_sends_what_is_due(w, rtt, config, current, state);
        if at.len() > 0 {
            let i = at[0];
            assert((current - w.window.segs[i].timeout) % 0x1_0000_0000 < 0x7FFF_FFFF);
        }
    }
}

/// A round sends no more segments than the link takes, than the peer has room
/// for and than congestion lets through, each times the multiplier; but one
/// segment always may be sent.
pub proof fn law_round_is_limited(
    w: SendingView,
    rtt: RoundTripInfo,
    config: Config,
    current: u32,
    state: State,
)
    ensures
        ({
            let sent = flush_sends(w, rtt, config, current, state).len();
            let link = in_flight_size(config.uplink_capacity, config.mtu, config.tti) as int;
            let peer = (w.remote_next - w.first_unacknowledged) % 0x1_0000_0000;
            let congestion = w.control_window as int;
            &&& config.cwnd_multiplier <= 1 ==> {
                &&& sent <= vstd::math::max(1, peer)
                &&& sent <= vstd::math::max(1, congestion)
                &&& sent <= vstd::math::max(1, link)
            }
            &&& config.cwnd_multiplier > 1 ==> {
                &&& sent <= vstd::math::max(1, peer * config.cwnd_multiplier)
                &&& sent <= vstd::math::max(1, congestion * config.cwnd_multiplier)
                &&& sent <= vstd::math::max(1, link * config.cwnd_multiplier)
            }
        }),
{
    if w.closed {
    } else {
        let at = law_round_sends_what_is_due(w, rtt, config, current, state);
        let link = in_flight_size(config.uplink_capacity, config.mtu, config.tti) as int;
        let peer = (w.remote_next - w.first_unacknowledged) % 0x1_0000_0000;
        let congestion = w.control_window as int;
        let least = vstd::math::min(vstd::math::min(link, peer), congestion);
        let times = vstd::math::max(1, config.cwnd_multiplier as int);
        assert(least * times <= link * times && least * times <= peer * times && least * times
            <= congestion * times) by (nonlinear_arith)
            requires
                least <= link,
                least <= peer,
                least <= congestion,
                times >= 1,
        ;
        if config.cwnd_multiplier <= 1 {
            assert(least * 1 == least);
        }
    }
}

/// How many of the first `n` segments have a timeout that has passed.
pub open spec fn due_before(segs: Seq<DataView>, current: u32, n: nat) -> nat
    decreases n,
{
    if n == 0 {
        0
    } else {
        due_before(segs, current, (n - 1) as nat) + if (current - segs[n - 1].timeout)
            % 0x1_0000_0000 < 0x7FFF_FFFF {
            1nat
        } else {
            0
        }
    }
}

proof fn lemma_due_counted(segs: Seq<DataView>, current: u32, at: Seq<int>, n: nat)
    requires
        n <= segs.len(),
        forall|j: int, k: int| 0 <= j < k < at.len() ==> #[trigger] at[j] < #[trigger] at[k],
        forall|k: int|
            0 <= k < at.len() ==> 0 <= #[trigger] at[k] < n && (current - segs[at[k]].timeout)
                % 0x1_0000_0000 < 0x7FFF_FFFF,
    ensures
        due_before(segs, current, n) >= at.len(),
    decreases n,
{
    if at.len() > 0 {
        let last = at[at.len() - 1];
        if last == n - 1 {
            let less = at.drop_last();
            assert forall|k: int| 0 <= k < less.len() implies 0 <= #[trigger] less[k] < n - 1 && (
            current - segs[less[k]].timeout) % 0x1_0000_0000 < 0x7FFF_FFFF by {
                assert(less[k] == at[k]);
                assert(at[k] < at[at.len() - 1]);
            }
            assert forall|j: int, k: int| 0 <= j < k < less.len() implies #[trigger] less[j]
                < #[trigger] less[k] by {
                assert(at[j] < at[k]);
            }
            lemma_due_counted(segs, current, less, (n - 1) as nat);
        } else {
            assert forall|k: int| 0 <= k < at.len() implies 0 <= #[trigger] at[k] < n - 1 by {
                if k < at.len() - 1 {
                    assert(at[k] < at[at.len() - 1]);
                }
            }
            lemma_due_counted(segs, current, at, (n - 1) as nat);
        }
    }
}

/// Every segment that waits, whose timeout has passed and before which fewer
/// such segments stand than a round may send, is among those that the round
/// sends, however often it was sent before.
pub proof fn law_due_is_sent(
    w: SendingView,
    rtt: RoundTripInfo,
    config: Config,
    current: u32,
    state: State,
    i: int,
)
    requires
        !w.closed,
        0 <= i < w.window.segs.len(),
        (current - w.window.segs[i].timeout) % 0x1_0000_0000 < 0x7FFF_FFFF,
        due_before(w.window.segs, current, i as nat) < round_limit(
            in_flight_size(config.uplink_capacity, config.mtu, config.tti) as int,
            (w.remote_next - w.first_unacknowledged) % 0x1_0000_0000,
            w.control_window as int,
            config.cwnd_multiplier as int,
        ),
    ensures
        ({
            let sends = flush_sends(w, rtt, config, current, state);
            exists|k: int|
                0 <= k < sends.len() && (#[trigger] sends[k]).number == w.window.segs[i].number
                    && sends[k].payload == w.window.segs[i].payload
        }),
{
    let segs = w.window.segs;
    let at = law_round_sends_what_is_due(w, rtt, config, current, state);
    let sends = flush_sends(w, rtt, config, current, state);
    if !at.contains(i) {
        assert(at.last() == at[at.len() - 1]);
        assert forall|k: int| 0 <= k < at.len() implies 0 <= #[trigger] at[k] < i && (current
            - segs[at[k]].timeout) % 0x1_0000_0000 < 0x7FFF_FFFF by {
            if k < at.len() - 1 {
                assert(at[k] < at[at.len() - 1]);
            }
        }
        lemma_due_counted(segs, current, at, i as nat);
    }
    let k = choose|k: int| 0 <= k < at.len() && at[k] == i;
    assert(sends[k].number == segs[i].number);
}

/// A closed sender sends nothing.
pub proof fn law_closed_sends_nothing(
    w: SendingView,
    rtt: RoundTripInfo,
    config: Config,
    current: u32,
    state: State,
)
    requires
        w.closed,
    ensures
        flush_sends(w, rtt, config, current, state).len() == 0,
        after_worker_flush(w, rtt, config, current, state) == w,
{
}

/// How many of the segments at those positions were sent before.
pub open spec fn resent(segs: Seq<DataView>, at: Seq<int>) -> nat
    decreases at.len(),
{
    if at.len() == 0 {
        0
    } else {
        resent(segs, at.drop_last()) + if segs[at.last()].transmit == 0 {
            0nat
        } else {
            1
        }
    }
}

proof fn lemma_resent(segs: Seq<DataView>, round: SendRound, n: nat)
    requires
        n <= segs.len(),
    ensures
        round_lost(segs, round, n) == resent(segs, chosen(segs, round, n)),
    decreases n,
{
    if n > 0 {
        let m = (n - 1) as nat;
        lemma_resent(segs, round, m);
        let before = chosen(segs, round, m);
        if is_chosen(segs, round, n - 1) {
            assert(before.push(n - 1).drop_last() =~= before);
        }
    }
}

/// What the share of segments that had to be sent again, in a hundred, does to
/// the congestion window: from fifteen on it loses a quarter, up to five it
/// grows by a quarter, and in between it stays; at least sixteen, and no more
/// than the link takes.
pub proof fn law_congestion_follows_losses(window: u32, loss_rate: u32, config: Config)
    requires
        window <= 0x3FFF_FFFF,
    ensures
        ({
            let link = in_flight_size(config.uplink_capacity, config.mtu, config.tti) as int;
            let new = adjusted_window(window, loss_rate, config) as int;
            &&& loss_rate >= 15 ==> new == vstd::math::min(
                link,
                vstd::math::max(16, 3 * window / 4),
            )
            &&& 5 < loss_rate < 15 ==> new == vstd::math::min(
                link,
                vstd::math::max(16, window as int),
            )
            &&& loss_rate <= 5 ==> new == vstd::math::min(
                link,
                vstd::math::max(16, window + window as int / 4),
            )
        }),
{
    reveal(adjusted_window);
}

/// The more is lost, the smaller the congestion window is.
pub proof fn law_more_loss_less_window(window: u32, less: u32, more: u32, config: Config)
    requires
        window <= 0x3FFF_FFFF,
        less <= more,
    ensures
        adjusted_window(window, more, config) <= adjusted_window(window, less, config),
{
    reveal(adjusted_window);
}

/// A round in which nothing is sent again lets the congestion window grow, up
/// to what the link takes.
pub proof fn law_clean_round_grows(
    w: SendingView,
    rtt: RoundTripInfo,
    config: Config,
    current: u32,
    state: State,
)
    requires
        !w.closed,
        forall|i: int| 0 <= i < w.window.segs.len() ==> (#[trigger] w.window.segs[i]).transmit == 0,
        flush_sends(w, rtt, config, current, state).len() > 0,
        w.window.in_flight + w.window.segs.len() <= u32::MAX,
        w.control_window <= 0x3FFF_FFFF,
    ensures
        ({
            let after = after_worker_flush(w, rtt, config, current, state);
            &&& after.control_window == vstd::math::min(
                in_flight_size(config.uplink_capacity, config.mtu, config.tti) as int,
                vstd::math::max(16, w.control_window + w.control_window as int / 4),
            )
            &&& after.window.in_flight == w.window.in_flight + flush_sends(
                w,
                rtt,
                config,
                current,
                state,
            ).len()
        }),
{
    let segs = w.window.segs;
    lemma_clean_round(segs, round_of(w, rtt, config, current, state), segs.len());
    let total = after_worker_flush(w, rtt, config, current, state).window.in_flight;
    assert(0u32 / total == 0) by (nonlinear_arith)
        requires
            total > 0,
    ;
    law_congestion_follows_losses(w.control_window, 0, config);
}

proof fn lemma_clean_round(segs: Seq<DataView>, round: SendRound, n: nat)
    requires
        n <= segs.len(),
        forall|i: int| 0 <= i < segs.len() ==> (#[trigger] segs[i]).transmit == 0,
    ensures
        round_lost(segs, round, n) == 0,
        round_sends(segs, round, n).len() <= n,
    decreases n,
{
    if n > 0 {
        lemma_clean_round(segs, round, (n - 1) as nat);
        assert(segs[n - 1].transmit == 0);
    }
}

/// A call of `prepare_flush` sends every segment whose timeout has passed and
/// before which fewer such segments stand than may be sent at once, one at least,
/// however often it was sent before; each with its number and payload, and due
/// again after the timeout. It sends no others, and says how many it sends and
/// how many of them were sent before.
pub proof fn law_prepare_flush_call(
    w: &mut SendingWindow,
    current: u32,
    rto: u32,
    most: u32,
    conv: u16,
    state: State,
    una: u32,
    p: FlushPreparation,
) -> (at: Seq<int>)
    requires
        call_ensures(
            SendingWindow::prepare_flush,
            (w, current, rto, most, conv, state, una),
            p,
        ),
    ensures
        ({
            let segs = old(w)@.segs;
            let sent = data_views(p.to_send@);
            let after = final(w)@.segs;
            &&& at.len() == sent.len()
            &&& sent.len() <= vstd::math::max(1, most as int)
            &&& p.in_flight == sent.len()
            &&& p.lost == resent(segs, at)
            &&& forall|j: int, k: int| 0 <= j < k < at.len() ==> #[trigger] at[j] < #[trigger] at[k]
            &&& forall|k: int|
                0 <= k < at.len() ==> {
                    let i = #[trigger] at[k];
                    &&& 0 <= i < segs.len()
                    &&& (current - segs[i].timeout) % 0x1_0000_0000 < 0x7FFF_FFFF
                    &&& sent[k].number == segs[i].number
                    &&& sent[k].payload == segs[i].payload
                    &&& sent[k].timestamp == current
                    &&& sent[k].timeout == (current + rto) % 0x1_0000_0000
                    &&& sent[k].transmit == (segs[i].transmit + 1) % 0x1_0000_0000
                    &&& after[i] == sent[k]
                }
            &&& forall|i: int|
                0 <= i < segs.len() && (current - (#[trigger] segs[i]).timeout) % 0x1_0000_0000
                    < 0x7FFF_FFFF && due_before(segs, current, i as nat) < vstd::math::max(
                    1,
                    most as int,
                ) ==> at.contains(i)
            &&& after.len() == segs.len()
        }),
{
    let segs = old(w)@.segs;
    let round = SendRound {
        current,
        rto,
        max_in_flight: most,
        conv,
        state,
        first_unacknowledged: una,
    };
    let at = chosen(segs, round, segs.len());
    let sent = data_views(p.to_send@);
    lemma_chosen(segs, round, segs.len());
    lemma_sends_bounded(segs, round, segs.len());
    lemma_resent(segs, round, segs.len());
    assert forall|i: int|
        0 <= i < segs.len() && (current - (#[trigger] segs[i]).timeout) % 0x1_0000_0000
            < 0x7FFF_FFFF && due_before(segs, current, i as nat) < vstd::math::max(
            1,
            most as int,
        ) implies at.contains(i) by {
        if !at.contains(i) {
            assert(at.last() == at[at.len() - 1]);
            assert(crate::kcp::sending::is_expired(segs[i], round.current));
            assert forall|k: int| 0 <= k < at.len() implies 0 <= #[trigger] at[k] < i && (current
                - segs[at[k]].timeout) % 0x1_0000_0000 < 0x7FFF_FFFF by {
                if k < at.len() - 1 {
                    assert(at[k] < at[at.len() - 1]);
                }
                assert(is_chosen(segs, round, at[k]));
            }
            lemma_due_counted(segs, current, at, i as nat);
        }
    }
    at
}

} // verus!
