//! What calls promise: each law speaks of a whole call, of what it was given,
//! what it gave back and what it left behind.

use vstd::prelude::*;

use crate::hysteria::config::Status;
use crate::hysteria::congestion::bbr::bbr_sender::{profile_config, BbrSender};
use crate::hysteria::congestion::bbr::packet_queue::{
    law_emplaced_is_found, law_entries_are_counted, law_removed_is_not_found, present,
    PacketNumberIndexedQueue,
};
use crate::hysteria::congestion::bbr::profile::Profile;
use crate::hysteria::congestion::bbr::ringbuffer::RingBuffer;
use crate::hysteria::congestion::brutal::{
    law_event_joins_recent_seconds, slot_share, BrutalSender,
};
use crate::hysteria::congestion::types::{
    AckedPacketInfo, ByteCount, CongestionControl, LostPacketInfo, MonoTime,
};
use crate::hysteria::congestion::pacer::fits64;
use crate::hysteria::congestion::utils::{
    apply_negotiated, negotiation, normalize_type, Choice, CongestionSetter, SenderView,
};
use crate::hysteria::conn::{
    stream_refusal, ConnError, InterConn, InterStreamConn, ReadStep,
};
use crate::hysteria::dialer::{
    law_clients_are_found, transport_plan, ClientManager, ConnectStep, DialDestination,
    HysteriaClient, QuicConfig, TransportPlan,
};
use crate::hysteria::error::Result;
use crate::hysteria::proto_config::Config;
use crate::hysteria::quic_params::QuicParams;
use crate::hysteria::udp_sessions::{inter_views, UdpSessionManager};
use crate::hysteria::udphop::{BufPool, HopError, PacketQueue, UdpHopPacketConn};
use crate::net::SocketAddress;
use crate::text::lower;

verus! {

/// A call of `on_congestion_event_ex` counts its packets in their second, beside
/// those of the five seconds before, and takes the part that has arrived of all of
/// them as the rate, where they are fifty or more and no more than a fifth got
/// lost.
pub proof fn law_congestion_event_call(
    s: &mut BrutalSender,
    prior: ByteCount,
    at: MonoTime,
    acked: &[AckedPacketInfo],
    lost: &[LostPacketInfo],
)
    requires
        call_ensures(
            <BrutalSender as CongestionControl>::on_congestion_event_ex,
            (s, prior, at, acked, lost),
            (),
        ),
        old(s).wf(),
        old(s)@.compensates,
        BrutalSender::can_count_event(old(s)@, prior, at, acked@, lost@),
    ensures
        ({
            let now = at as int / 1_000_000_000;
            let w = final(s)@;
            let (a0, l0) = slot_share(w.slots[0], now);
            let (a1, l1) = slot_share(w.slots[1], now);
            let (a2, l2) = slot_share(w.slots[2], now);
            let (a3, l3) = slot_share(w.slots[3], now);
            let (a4, l4) = slot_share(w.slots[4], now);
            let acks = a0 + a1 + a2 + a3 + a4;
            let total = acks + l0 + l1 + l2 + l3 + l4;
            &&& forall|k: int|
                0 <= k < 5 && k != now % 5 ==> #[trigger] w.slots[k] == old(s)@.slots[k]
            &&& w.slots[now % 5].timestamp == now
            &&& total < 50 ==> w.ack_rate.acked == w.ack_rate.total > 0
            &&& 50 <= total <= u64::MAX && 5 * acks >= 4 * total ==> w.ack_rate.acked == acks
                && w.ack_rate.total == total
        }),
{
    law_event_joins_recent_seconds(old(s)@, prior, at, acked@, lost@);
}

/// A datagram that comes to an open session with nothing waiting is the next one
/// that is read, and reading it counts as using the session.
pub proof fn law_fed_is_read(
    c: &mut InterConn,
    d: &mut InterConn,
    data: Vec<u8>,
    buf: &mut [u8],
    now: u64,
    r: ReadStep,
)
    requires
        call_ensures(InterConn::feed, (c, data), ()),
        call_ensures(InterConn::read, (d, buf, now), r),
        old(d)@ == final(c)@,
        !old(c)@.closed,
        old(c)@.queue.len() == 0,
        old(c)@.capacity > 0,
        data@.len() <= old(buf)@.len(),
        data@.len() <= usize::MAX,
    ensures
        r == ReadStep::Ready(data@.len() as usize),
        final(buf)@.take(data@.len() as int) == data@,
        final(buf)@.skip(data@.len() as int) == old(buf)@.skip(data@.len() as int),
        final(d)@.queue.len() == 0,
        final(d)@.last_active == now,
{
    assert(final(c)@.queue[0] == data@);
    assert(final(buf)@.take(data@.len() as int) =~= data@);
    assert(final(buf)@.skip(data@.len() as int) =~= old(buf)@.skip(data@.len() as int));
}

/// Datagrams are read in the order in which they came: a read takes the oldest
/// one away and leaves the others. One that is longer than the buffer is lost.
/// Where none waits, an open session waits and a closed one is at its end.
pub proof fn law_session_read_call(c: &mut InterConn, buf: &mut [u8], now: u64, r: ReadStep)
    requires
        call_ensures(InterConn::read, (c, buf, now), r),
    ensures
        old(c)@.queue.len() > 0 ==> final(c)@.queue == old(c)@.queue.skip(1),
        old(c)@.queue.len() > 0 && old(c)@.queue[0].len() > old(buf)@.len() ==> r
            == ReadStep::Failed(ConnError::WriteZero) && final(buf)@ == old(buf)@
            && final(c)@.last_active == old(c)@.last_active,
        old(c)@.queue.len() > 0 && old(c)@.queue[0].len() <= old(buf)@.len() ==> r is Ready
            && final(c)@.last_active == now,
        old(c)@.queue.len() == 0 ==> final(c)@ == old(c)@ && final(buf)@ == old(buf)@,
        old(c)@.queue.len() == 0 && !old(c)@.closed ==> r == ReadStep::Wait,
        old(c)@.queue.len() == 0 && old(c)@.closed ==> r == ReadStep::Failed(
            ConnError::UnexpectedEof,
        ),
        final(c)@.closed == old(c)@.closed && final(c)@.id == old(c)@.id,
{
}

/// A closed session takes no more writes; an open one sends its number and the
/// bytes. Closing tells whether the session was open, and is never taken back.
pub proof fn law_session_close_calls(
    c: &mut InterConn,
    d: &InterConn,
    was_open: bool,
    buf: &[u8],
    r: core::result::Result<(Vec<u8>, usize), ConnError>,
)
    requires
        call_ensures(InterConn::close, (c,), was_open),
        call_ensures(InterConn::write, (d, buf), r),
    ensures
        was_open == !old(c)@.closed,
        final(c)@.closed,
        final(c)@.queue == old(c)@.queue,
        d@.closed ==> (r matches Err(e) && e == ConnError::BrokenPipe),
        !d@.closed ==> (r matches Ok((sent, n)) && n == buf@.len() && sent@.len() == 4 + buf@.len()
            && sent@.skip(4) == buf@),
{
    if r is Ok {
        crate::hysteria::conn::law_frame_layout(d@.id, buf@);
    }
}

/// What a client writes first starts with the sort of the stream, and what it
/// writes later does not; a server never writes it. A server serves that sort and
/// no other.
pub proof fn law_stream_calls(
    c: &mut InterStreamConn,
    d: &mut InterStreamConn,
    first: &[u8],
    second: &[u8],
    a: Vec<u8>,
    b: Vec<u8>,
    sort: Option<u64>,
    refusal: Option<u64>,
)
    requires
        call_ensures(InterStreamConn::write, (c, first), a),
        call_ensures(InterStreamConn::write, (d, second), b),
        *old(d) == *final(c),
        call_ensures(stream_refusal, (sort,), refusal),
    ensures
        b@ == second@,
        old(c).client_first ==> a@ == seq![0x44u8, 0x01] + first@,
        !old(c).client_first ==> a@ == first@,
        refusal is None <==> sort == Some(0x401u64),
        refusal matches Some(reason) ==> reason == 0x101,
{
    crate::hysteria::conn::law_first_write_is_served(first@);
}

/// Sessions are numbered one after the other: the second one that is created has
/// the number after the first one's, and the first one is still there.
pub proof fn law_created_sessions_are_numbered(
    m: &mut UdpSessionManager,
    n: &mut UdpSessionManager,
    local: SocketAddress,
    remote: SocketAddress,
    now: u64,
    r: Result<(u32, Option<InterConn>)>,
    s: Result<(u32, Option<InterConn>)>,
)
    requires
        call_ensures(UdpSessionManager::create_session, (m, local, remote, now), r),
        call_ensures(UdpSessionManager::create_session, (n, local, remote, now), s),
        old(m).wf(),
        old(n)@ == final(m)@,
    ensures
        r is Ok <==> !old(m)@.closed,
        s is Ok <==> !old(m)@.closed,
        r matches Ok((first, _)) ==> (s matches Ok((second, _)) ==> {
            &&& first == old(m)@.next_id
            &&& second == (first + 1) % 0x1_0000_0000
            &&& final(n)@.sessions.contains_key(first)
            &&& final(n)@.sessions.contains_key(second)
            &&& final(n)@.sessions[first].remote == remote
            &&& !final(n)@.sessions[first].closed
            &&& final(n)@.sessions[first].forget
            &&& final(n)@.sessions[first].last_active == now
        }),
{
}

/// A session that its creator closes is forgotten; one that the other side opened
/// is kept, closed. Closing what is closed, or not there, does nothing.
pub proof fn law_close_session_call(m: &mut UdpSessionManager, id: u32, b: bool)
    requires
        call_ensures(UdpSessionManager::close_session, (m, id), b),
        old(m).wf(),
    ensures
        b <==> old(m)@.sessions.contains_key(id) && !old(m)@.sessions[id].closed,
        b && old(m)@.sessions[id].forget ==> !final(m)@.sessions.contains_key(id),
        b && !old(m)@.sessions[id].forget ==> final(m)@.sessions.contains_key(id)
            && final(m)@.sessions[id].closed,
        !old(m)@.sessions.contains_key(id) ==> final(m)@.sessions == old(m)@.sessions,
        forall|other: u32|
            other != id ==> (#[trigger] final(m)@.sessions.contains_key(other) <==> old(
                m,
            )@.sessions.contains_key(other)),
        final(m)@.closed == old(m)@.closed && final(m)@.next_id == old(m)@.next_id,
{
}

/// Looking for idle sessions ends those that nothing was read from or written to
/// for longer than the timeout, and no others: each of them is handed back,
/// closed. A manager that is closed looks for none.
pub proof fn law_clean_call(
    m: &mut UdpSessionManager,
    now: u64,
    r: Option<Vec<InterConn>>,
    id: u32,
)
    requires
        call_ensures(UdpSessionManager::clean, (m, now), r),
        old(m).wf(),
    ensures
        r is None <==> old(m)@.closed,
        r is None ==> final(m)@ == old(m)@,
        r matches Some(ended) ==> {
            &&& old(m)@.sessions.contains_key(id) && now <= old(m)@.sessions[id].last_active + old(
                m,
            )@.idle_timeout_ms ==> final(m)@.sessions.contains_key(id) && final(m)@.sessions[id]
                == old(m)@.sessions[id]
            &&& old(m)@.sessions.contains_key(id) && now > old(m)@.sessions[id].last_active + old(
                m,
            )@.idle_timeout_ms ==> !final(m)@.sessions.contains_key(id) && exists|i: int|
                0 <= i < inter_views(ended@).len() && (#[trigger] inter_views(ended@)[i]).id == id
                    && inter_views(ended@)[i].closed
            &&& !old(m)@.sessions.contains_key(id) ==> !final(m)@.sessions.contains_key(id)
        },
{
    if r is Some {
        let sessions = old(m)@.sessions;
        let timeout = old(m)@.idle_timeout_ms;
        if sessions.contains_key(id) {
            crate::hysteria::udp_sessions::law_sessions_end_after_the_timeout(
                sessions,
                timeout,
                now,
                id,
            );
            let idle = crate::hysteria::udp_sessions::idle(sessions, timeout, now);
            if now > sessions[id].last_active + timeout {
                assert(idle.contains_key(id));
            }
        }
    }
}

/// Closing ends every session, and hands each back, closed; no session is created
/// after that.
pub proof fn law_close_all_calls(
    m: &mut UdpSessionManager,
    n: &mut UdpSessionManager,
    ended: Vec<InterConn>,
    local: SocketAddress,
    remote: SocketAddress,
    now: u64,
    r: Result<(u32, Option<InterConn>)>,
    id: u32,
)
    requires
        call_ensures(UdpSessionManager::close_all, (m,), ended),
        call_ensures(UdpSessionManager::create_session, (n, local, remote, now), r),
        old(m).wf(),
        old(n)@ == final(m)@,
    ensures
        final(m)@.closed,
        !final(m)@.sessions.contains_key(id),
        old(m)@.sessions.contains_key(id) ==> exists|i: int|
            0 <= i < inter_views(ended@).len() && (#[trigger] inter_views(ended@)[i]).id == id
                && inter_views(ended@)[i].closed,
        r is Err,
{
}

/// What a client does to be connected: nothing where it is; it dials where it is
/// not, with its own secret and what it can receive, and hangs up first where its
/// connection has failed.
pub proof fn law_connect_call(c: &mut HysteriaClient, s: ConnectStep)
    requires
        call_ensures(HysteriaClient::ensure_connected, (c,), s),
        old(c).wf(),
        crate::hysteria::dialer::times_fit(old(c).quic_params@),
    ensures
        s == ConnectStep::Ready <==> old(c).connected && old(c).status == Status::Active,
        s == ConnectStep::Ready ==> *final(c) == *old(c),
        s matches ConnectStep::Dial { close_first, auth, brutal_down, .. } ==> {
            &&& close_first <==> old(c).connected && old(c).status == Status::Inactive
            &&& auth@ == old(c).config@.auth
            &&& brutal_down == old(c).quic_params@.brutal_down
            &&& close_first ==> !final(c).connected && final(c).udp_sm is None
            &&& final(c).dest == old(c).dest
        },
{
}

/// A client that has dialed is connected where that has succeeded; then it needs
/// nothing more. Where it has not, nothing changes.
pub proof fn law_dialed_calls(
    c: &mut HysteriaClient,
    d: &mut HysteriaClient,
    outcome: core::result::Result<(), String>,
    r: Result<()>,
    s: ConnectStep,
)
    requires
        call_ensures(HysteriaClient::dialed, (c, outcome), r),
        call_ensures(HysteriaClient::ensure_connected, (d,), s),
        old(c).wf(),
        *old(d) == *final(c),
        crate::hysteria::dialer::times_fit(old(c).quic_params@),
    ensures
        r is Ok <==> outcome is Ok,
        outcome is Ok ==> s == ConnectStep::Ready && final(c).connected,
        outcome is Err ==> *final(c) == *old(c),
        final(c).quic_params == old(c).quic_params,
{
}

/// Closing a client tells whether there was a connection, and forgets it and its
/// sessions; no session is opened before it is connected again.
pub proof fn law_client_close_calls(
    c: &mut HysteriaClient,
    d: &mut HysteriaClient,
    b: bool,
    local: SocketAddress,
    remote: SocketAddress,
    now: u64,
    r: Result<(u32, bool)>,
)
    requires
        call_ensures(HysteriaClient::close, (c,), b),
        call_ensures(HysteriaClient::udp, (d, local, remote, now), r),
        old(c).wf(),
        *old(d) == *final(c),
    ensures
        b == old(c).connected,
        !final(c).connected && final(c).udp_sm is None,
        final(c).dest == old(c).dest,
        r is Err,
{
}

/// A connected client opens sessions, numbered from one: the first one is the
/// first of a new manager, and the next one has the next number.
pub proof fn law_udp_calls(
    c: &mut HysteriaClient,
    d: &mut HysteriaClient,
    local: SocketAddress,
    remote: SocketAddress,
    now: u64,
    r: Result<(u32, bool)>,
    s: Result<(u32, bool)>,
)
    requires
        call_ensures(HysteriaClient::udp, (c, local, remote, now), r),
        call_ensures(HysteriaClient::udp, (d, local, remote, now), s),
        old(c).wf(),
        *old(d) == *final(c),
        old(c).connected,
        old(c).udp_sm is None,
    ensures
        r matches Ok((id, fresh)) && id == 1 && fresh,
        s matches Ok((id, fresh)) && id == 2 && !fresh,
{
}

/// Asking twice for the client of a destination gives the same one, whatever is
/// given with the destination the second time.
pub proof fn law_get_or_create_calls(
    m: &mut ClientManager,
    n: &mut ClientManager,
    dest: DialDestination,
    again: DialDestination,
    config: Config,
    other: Config,
    params: QuicParams,
    other_params: QuicParams,
    first: usize,
    second: usize,
)
    requires
        call_ensures(ClientManager::get_or_create, (m, dest, config, params), first),
        call_ensures(ClientManager::get_or_create, (n, again, other, other_params), second),
        old(m).wf(),
        *old(n) == *final(m),
        dest.host@ == again.host@,
        dest.udp_addr.spec_written() == again.udp_addr.spec_written(),
    ensures
        first == second,
        final(n).clients@ == final(m).clients@,
        first < final(m).clients@.len(),
        first == old(m).clients@.len() ==> final(m).clients@[first as int].dest == dest
            && !final(m).clients@[first as int].connected,
        first < old(m).clients@.len() ==> final(m).clients@ == old(m).clients@,
{
    crate::hysteria::dialer::law_destinations_differ_by_name_and_address(dest, again);
    law_clients_are_found(
        final(m).clients@,
        crate::hysteria::dialer::key_of(again),
        first as int,
    );
}

/// What a QUIC connection is told: the larger one of the two windows of each
/// kind, the times that are not zero, and as many streams as can be written.
pub proof fn law_transport_plan_call(qc: &QuicConfig, p: TransportPlan)
    requires
        call_ensures(transport_plan, (qc,), p),
    ensures
        0 < qc@.max_idle_timeout_ms < 0x4000_0000_0000_0000 ==> p.max_idle_timeout_ms == Some(
            qc@.max_idle_timeout_ms,
        ),
        qc@.max_idle_timeout_ms == 0 ==> p.max_idle_timeout_ms is None,
        qc@.keep_alive_period_ms > 0 ==> p.keep_alive_ms == Some(qc@.keep_alive_period_ms),
        qc@.keep_alive_period_ms == 0 ==> p.keep_alive_ms is None,
        p.datagram_receive_buffer is Some <==> qc@.enable_datagrams,
        0 <= qc@.max_incoming_streams < 0x4000_0000_0000_0000 ==> (p.max_streams matches Some(n)
            && n == qc@.max_incoming_streams),
        qc@.max_incoming_streams < 0 ==> p.max_streams is None,
        p.stream_receive_window matches Some(n) ==> n >= qc@.initial_stream_receive_window && n
            >= qc@.max_stream_receive_window && (n == qc@.initial_stream_receive_window || n
            == qc@.max_stream_receive_window),
        p.receive_window matches Some(n) ==> n >= qc@.initial_connection_receive_window && n
            >= qc@.max_connection_receive_window && (n == qc@.initial_connection_receive_window
            || n == qc@.max_connection_receive_window),
        p.no_mtu_discovery == qc@.disable_path_mtu_discovery,
{
}

/// A buffer that comes back to an empty pool is the next one that is handed out,
/// and no new one is made for it.
pub proof fn law_pool_calls(p: &mut BufPool, q: &mut BufPool, buf: Vec<u8>, got: Vec<u8>)
    requires
        call_ensures(BufPool::put, (p, buf), ()),
        call_ensures(BufPool::get, (q,), got),
        old(q)@ == final(p)@,
        old(p)@.bufs.len() == 0,
        old(p)@.allocs < usize::MAX,
    ensures
        got@ == buf@,
        final(q)@.bufs.len() == 0,
        final(q)@.allocs == old(p)@.allocs,
{
    assert(final(p)@.bufs[0] == buf@);
}

/// A datagram that was received while none waited is the next one that is read,
/// from the address that it came from.
pub proof fn law_received_is_read(
    p: &mut PacketQueue,
    q: &mut PacketQueue,
    data: Vec<u8>,
    n: usize,
    addr: SocketAddress,
    buf: &mut [u8],
    r: core::result::Result<(usize, SocketAddress), HopError>,
)
    requires
        call_ensures(PacketQueue::received, (p, data, n, addr), ()),
        call_ensures(PacketQueue::read_from, (q, buf), r),
        old(p).wf(),
        n <= data@.len(),
        n <= old(buf)@.len(),
        old(q)@ == final(p)@,
        old(q).wf(),
        old(p)@.packets.len() == 0,
    ensures
        r == Ok::<(usize, SocketAddress), HopError>((n, addr)),
        final(buf)@.take(n as int) == data@.take(n as int),
        final(q)@.packets.len() == 0,
{
    assert(final(p)@.packets[0].buf == data@);
    assert(final(buf)@.take(n as int) =~= data@.take(n as int));
}

/// A hop changes where is written to: the address of the new index, and, once its
/// socket is there, the new socket. The one before still receives, and the one
/// before that is handed back to be closed.
pub proof fn law_hop_calls(
    a: &mut UdpHopPacketConn,
    b: &mut UdpHopPacketConn,
    c: &UdpHopPacketConn,
    index: usize,
    addr: Option<SocketAddress>,
    socket: u64,
    closed: Option<Option<u64>>,
    r: core::result::Result<(u64, SocketAddress), HopError>,
)
    requires
        call_ensures(UdpHopPacketConn::hop_to, (a, index), addr),
        call_ensures(UdpHopPacketConn::hop_done, (b, socket), closed),
        call_ensures(UdpHopPacketConn::write_to, (c,), r),
        old(a).wf(),
        !old(a)@.closed,
        index < old(a)@.addrs.len(),
        old(b)@ == final(a)@,
        old(b).wf(),
        c@ == final(b)@,
    ensures
        addr == Some(old(a)@.addrs[index as int]),
        closed == Some(old(a)@.prev),
        r == Ok::<(u64, SocketAddress), HopError>((socket, old(a)@.addrs[index as int])),
        final(b)@.prev == old(a)@.current,
        final(b)@.min_ns == old(a)@.min_ns && final(b)@.max_ns == old(a)@.max_ns,
{
}

/// A closed connection hands both sockets back to be closed, once, and writes and
/// hops no more.
pub proof fn law_hop_close_calls(
    a: &mut UdpHopPacketConn,
    b: &mut UdpHopPacketConn,
    c: &UdpHopPacketConn,
    first: (Option<u64>, Option<u64>),
    second: (Option<u64>, Option<u64>),
    r: core::result::Result<(u64, SocketAddress), HopError>,
)
    requires
        call_ensures(UdpHopPacketConn::close, (a,), first),
        call_ensures(UdpHopPacketConn::close, (b,), second),
        call_ensures(UdpHopPacketConn::write_to, (c,), r),
        old(a).wf(),
        !old(a)@.closed,
        old(b)@ == final(a)@,
        old(b).wf(),
        c@ == final(b)@,
    ensures
        first == (old(a)@.prev, old(a)@.current),
        second == (None::<u64>, None::<u64>),
        r == Err::<(u64, SocketAddress), HopError>(HopError::Closed),
{
}

/// An entry that was added is found, counts one more, and is what taking it away
/// gives back; then it is found no more.
pub proof fn law_queue_calls<T: Copy>(
    a: &mut PacketNumberIndexedQueue<T>,
    b: &PacketNumberIndexedQueue<T>,
    c: &mut PacketNumberIndexedQueue<T>,
    d: &PacketNumberIndexedQueue<T>,
    number: i64,
    entry: T,
    taken: bool,
    found: Option<&T>,
    count: usize,
    removed: Option<T>,
    left: Option<&T>,
)
    requires
        call_ensures(PacketNumberIndexedQueue::<T>::emplace, (a, number, entry), taken),
        call_ensures(PacketNumberIndexedQueue::<T>::get_entry, (b, number), found),
        call_ensures(PacketNumberIndexedQueue::<T>::number_of_present_entries, (b,), count),
        call_ensures(PacketNumberIndexedQueue::<T>::remove, (c, number), removed),
        call_ensures(PacketNumberIndexedQueue::<T>::get_entry, (d, number), left),
        old(a).wf(),
        b.wf(),
        old(c).wf(),
        d.wf(),
        b@ == final(a)@,
        old(c)@ == b@,
        d@ == final(c)@,
        number >= 0,
        old(a)@.slots.len() == 0 || number >= old(a)@.first + old(a)@.slots.len(),
        old(a)@.slots.len() == 0 ==> old(a)@.first == -1,
    ensures
        taken,
        found matches Some(e) && *e == entry,
        count == present(old(a)@.slots) + 1,
        removed == Some(entry),
        left is None,
        present(final(c)@.slots) == present(old(a)@.slots),
{
    let q = old(a)@;
    let n = number as int;
    law_emplaced_is_found(q, n, entry, -2);
    law_entries_are_counted(q, n, entry);
    law_entries_are_counted(b@, n, entry);
    law_removed_is_not_found(b@, n, -2);
}

/// A queue gives back what was put in, the first first.
pub proof fn law_ring_calls<T>(
    a: &mut RingBuffer<T>,
    b: &mut RingBuffer<T>,
    c: &mut RingBuffer<T>,
    d: &mut RingBuffer<T>,
    x: T,
    y: T,
    first: T,
    second: T,
)
    requires
        call_ensures(RingBuffer::<T>::push_back, (a, x), ()),
        call_ensures(RingBuffer::<T>::push_back, (b, y), ()),
        call_ensures(RingBuffer::<T>::pop_front, (c,), first),
        call_ensures(RingBuffer::<T>::pop_front, (d,), second),
        old(b)@ == final(a)@,
        old(c)@ == final(b)@,
        old(d)@ == final(c)@,
        old(a)@.len() == 0,
    ensures
        first == x,
        second == y,
        final(d)@.len() == 0,
{
    assert(final(b)@[0] == x);
    assert(final(c)@[0] == final(b)@[1]);
}

/// A profile is taken up with all that it comes to; avoiding too high estimates
/// is never taken back.
pub proof fn law_profile_calls(
    a: &mut BbrSender,
    b: &mut BbrSender,
    first: Profile,
    second: Profile,
)
    requires
        call_ensures(BbrSender::apply_profile, (a, first), ()),
        call_ensures(BbrSender::apply_profile, (b, second), ()),
        old(b)@ == final(a)@,
    ensures
        final(b)@.state.profile == second,
        final(b)@.state.settings == profile_config(second),
        final(b)@.state.congestion_window == old(a)@.state.congestion_window,
        first == Profile::Conservative || second == Profile::Conservative
            ==> final(b)@.sampler.overestimate_avoidance,
        final(b)@.sampler.reduce_extra_acked <==> second == Profile::Conservative,
        final(b)@.pacer == old(a)@.pacer,
{
}

/// Which names of congestion controls there are, whatever the case of their
/// letters: no name stands for the first of the two, and any other is refused
/// with the name.
pub proof fn law_normalize_call(s: &str, r: Result<String>)
    requires
        call_ensures(normalize_type, (s,), r),
    ensures
        lower(s@) == ""@ || lower(s@) == "bbr"@ ==> (r matches Ok(name) && name@ == "bbr"@),
        lower(s@) == "reno"@ ==> (r matches Ok(name) && name@ == "reno"@),
        lower(s@) != ""@ && lower(s@) != "bbr"@ && lower(s@) != "reno"@ ==> r is Err,
{
    reveal_strlit("");
    reveal_strlit("bbr");
    reveal_strlit("reno");
    assert(""@.len() == 0 && "bbr"@.len() == 3 && "reno"@.len() == 4);
}

/// What both ends come to is set, once, and nothing else is; where they come to
/// nothing, or to what QUIC does by itself, nothing is set.
pub proof fn law_apply_negotiated_call<S: CongestionSetter>(
    setter: &mut S,
    congestion: &str,
    bbr_profile: &str,
    up: u64,
    down: u64,
    disabled: bool,
    size: i64,
    r: Result<()>,
)
    requires
        call_ensures(
            apply_negotiated::<S>,
            (setter, congestion, bbr_profile, up, down, disabled, size),
            r,
        ),
        fits64(100 * size),
    ensures
        ({
            let choice = negotiation(congestion@, bbr_profile@, up, down);
            let before = old(setter).installs();
            let after = final(setter).installs();
            &&& r is Ok <==> choice is Some
            &&& choice is None || choice == Some(Choice::Keep) ==> after == before
            &&& choice matches Some(Choice::Brutal(rate)) ==> {
                &&& after.len() == before.len() + 1
                &&& after.drop_last() == before
                &&& after.last() matches SenderView::Brutal(v) && (rate <= i64::MAX ==> v.bps
                    == rate) && v.compensates == !disabled
            }
            &&& choice matches Some(Choice::Bbr(p)) ==> {
                &&& after.len() == before.len() + 1
                &&& after.drop_last() == before
                &&& after.last() matches SenderView::Bbr(v) && v.state.profile == p
                    && v.state.max_datagram_size == size
            }
        }),
{
    let before = old(setter).installs();
    let after = final(setter).installs();
    if after.len() == before.len() + 1 {
        assert(after.drop_last() =~= before);
    }
}

/// The time to the next change is the shorter one and the milliseconds that
/// chance adds.
pub proof fn law_hop_interval_call(c: &UdpHopPacketConn, extra_ms: u64, ns: u64)
    requires
        call_ensures(UdpHopPacketConn::interval_with, (c, extra_ms), ns),
        c.wf(),
        extra_ms <= UdpHopPacketConn::spread_ms(c@),
    ensures
        ns == c@.min_ns + 1_000_000 * extra_ms,
        ns <= c@.max_ns,
{
}

} // verus!
