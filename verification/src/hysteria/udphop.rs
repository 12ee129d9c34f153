//! Changing the port of the other side from time to time.

use std::collections::VecDeque;

use vstd::prelude::*;

use crate::hysteria::error::{HysteriaError, Result};
use crate::hysteria::random::random_upto;
use crate::net::{port_of, IpAddress, SocketAddress};
use crate::text::join;
use crate::wire;

verus! {

/// The size of a buffer for a datagram.
pub const UDP_BUFFER_SIZE: usize = 1500;

/// The time between two changes where none is given, in nanoseconds.
pub const DEFAULT_HOP_INTERVAL_NS: u64 = 30_000_000_000;

/// The shortest time between two changes, in nanoseconds.
pub const MIN_HOP_INTERVAL_NS: u64 = 5_000_000_000;

/// How many datagrams wait to be read, and how many buffers are kept.
pub const PACKET_QUEUE_SIZE: usize = 1024;

/// The text for a time of so many nanoseconds.
pub uninterp spec fn duration_text(ns: u64) -> Seq<char>;

/// The text that `format!` makes by `{:?}` of the `core::time::Duration` of so
/// many nanoseconds. How it writes a time is not stated, only that it depends
/// on the time alone.
#[verifier::external_body]
fn duration_debug(ns: u64) -> (s: String)
    ensures
        s@ == duration_text(ns),
{
    format!("{:?}", core::time::Duration::from_nanos(ns))
}

/// A datagram that has come, or why none has.
#[derive(Debug)]
pub struct UdpPacket {
    pub buf: Vec<u8>,
    pub n: usize,
    pub addr: Option<SocketAddress>,
    pub err: Option<String>,
}

/// The contents of a [`UdpPacket`].
pub ghost struct PacketView {
    pub buf: Seq<u8>,
    pub n: nat,
    pub addr: Option<SocketAddress>,
    pub err: Option<Seq<char>>,
}

impl View for UdpPacket {
    type V = PacketView;

    open spec fn view(&self) -> PacketView {
        PacketView {
            buf: self.buf@,
            n: self.n as nat,
            addr: self.addr,
            err: match self.err {
                Some(e) => Some(e@),
                None => None,
            },
        }
    }
}

/// The contents of byte strings.
pub open spec fn buffer_views(bufs: Seq<Vec<u8>>) -> Seq<Seq<u8>> {
    Seq::new(bufs.len(), |i: int| bufs[i]@)
}

/// The contents of packets.
pub open spec fn packet_views(packets: Seq<UdpPacket>) -> Seq<PacketView> {
    Seq::new(packets.len(), |i: int| packets[i]@)
}

/// Buffers that are used again.
pub struct BufPool {
    pub bufs: VecDeque<Vec<u8>>,
    /// How many buffers had to be made.
    pub allocs: usize,
}

/// The contents of a [`BufPool`].
pub struct PoolView {
    pub bufs: Seq<Seq<u8>>,
    pub allocs: nat,
}

impl View for BufPool {
    type V = PoolView;

    open spec fn view(&self) -> PoolView {
        PoolView { bufs: buffer_views(self.bufs@), allocs: self.allocs as nat }
    }
}

/// The pool after a buffer came back: it is kept, unless enough are.
pub open spec fn kept(p: PoolView, buf: Seq<u8>) -> PoolView {
    if p.bufs.len() < PACKET_QUEUE_SIZE {
        PoolView { bufs: p.bufs.push(buf), ..p }
    } else {
        p
    }
}

impl BufPool {
    /// A pool that has made and kept no buffers.
    pub fn new() -> (p: Self)
        ensures
            p@ == (PoolView { bufs: Seq::empty(), allocs: 0 }),
    {
        let p = BufPool { bufs: VecDeque::new(), allocs: 0 };
        assert(p@.bufs =~= Seq::empty());
        p
    }

    /// A buffer: the one that is kept the longest, or a new one.
    pub fn get(&mut self) -> (buf: Vec<u8>)
        requires
            old(self)@.allocs < usize::MAX,
        ensures
            ({
                let p = old(self)@;
                if p.bufs.len() > 0 {
                    &&& buf@ == p.bufs[0]
                    &&& final(self)@ == (PoolView { bufs: p.bufs.skip(1), ..p })
                } else {
                    &&& buf@ == Seq::new(1500, |i: int| 0u8)
                    &&& final(self)@ == (PoolView { allocs: p.allocs + 1, ..p })
                }
            }),
    {
        let ghost p = self@;
        match self.bufs.pop_front() {
            Some(buf) => {
                assert(self@.bufs =~= p.bufs.skip(1));
                assert(buf@ == p.bufs[0]);
                buf
            },
            None => {
                self.allocs += 1;
                let buf: Vec<u8> = vec![0u8; UDP_BUFFER_SIZE];
                assert(buf@ =~= Seq::new(1500, |i: int| 0u8));
                assert(self@.bufs =~= p.bufs);
                buf
            },
        }
    }

    /// A buffer comes back.
    pub fn put(&mut self, buf: Vec<u8>)
        ensures
            final(self)@ == kept(old(self)@, buf@),
    {
        if self.bufs.len() < PACKET_QUEUE_SIZE {
            let ghost bytes = buf@;
            self.bufs.push_back(buf);
            assert(self@.bufs =~= old(self)@.bufs.push(bytes));
        }
    }
}

/// Why nothing is read or written.
#[derive(Debug, PartialEq, Eq)]
pub enum HopError {
    /// Nothing has come yet.
    Wait,
    /// The socket failed; the text says how.
    Socket(String),
    /// The datagram is longer than the buffer; it is dropped.
    ShortBuffer,
    /// The connection is closed.
    Closed,
    /// There is no socket.
    NoConn,
}

/// The datagrams of all sockets, and the buffers for them.
pub struct PacketQueue {
    pub packets: VecDeque<UdpPacket>,
    pub pool: BufPool,
}

/// The contents of a [`PacketQueue`].
pub ghost struct QueueView {
    pub packets: Seq<PacketView>,
    pub pool: PoolView,
}

impl View for PacketQueue {
    type V = QueueView;

    open spec fn view(&self) -> QueueView {
        QueueView { packets: packet_views(self.packets@), pool: self.pool@ }
    }
}

/// The queue after a packet came: it waits, unless too many do, and then its
/// buffer comes back.
pub open spec fn queued(q: QueueView, packet: PacketView) -> QueueView {
    if q.packets.len() < PACKET_QUEUE_SIZE {
        QueueView { packets: q.packets.push(packet), ..q }
    } else {
        QueueView { pool: kept(q.pool, packet.buf), ..q }
    }
}

/// The queue after a socket had nothing to give: the buffer comes back, and the
/// reason waits, unless too many packets do.
pub open spec fn nothing_came(q: QueueView, buf: Seq<u8>, reason: Seq<char>) -> QueueView {
    let back = QueueView { pool: kept(q.pool, buf), ..q };
    if q.packets.len() < PACKET_QUEUE_SIZE {
        QueueView {
            packets: q.packets.push(
                PacketView { buf: Seq::empty(), n: 0, addr: None, err: Some(reason) },
            ),
            ..back
        }
    } else {
        back
    }
}

impl PacketQueue {
    /// No packets, and no buffers.
    pub fn new() -> (q: Self)
        ensures
            q.wf(),
            q@ == (QueueView {
                packets: Seq::empty(),
                pool: PoolView { bufs: Seq::empty(), allocs: 0 },
            }),
    {
        let q = PacketQueue { packets: VecDeque::new(), pool: BufPool::new() };
        assert(q@.packets =~= Seq::empty());
        q
    }

    /// No packet is longer than its buffer.
    pub open spec fn wf(&self) -> bool {
        forall|i: int|
            0 <= i < self@.packets.len() ==> (#[trigger] self@.packets[i]).n
                <= self@.packets[i].buf.len()
    }

    /// A buffer to receive into.
    pub fn take_buffer(&mut self) -> (buf: Vec<u8>)
        requires
            old(self).wf(),
            old(self)@.pool.allocs < usize::MAX,
        ensures
            final(self).wf(),
            final(self)@.packets == old(self)@.packets,
            old(self)@.pool.bufs.len() > 0 ==> buf@ == old(self)@.pool.bufs[0]
                && final(self)@.pool == (PoolView {
                bufs: old(self)@.pool.bufs.skip(1),
                ..old(self)@.pool
            }),
            old(self)@.pool.bufs.len() == 0 ==> buf@ == Seq::new(1500, |i: int| 0u8)
                && final(self)@.pool == (PoolView {
                allocs: old(self)@.pool.allocs + 1,
                ..old(self)@.pool
            }),
    {
        self.pool.get()
    }

    /// A datagram of `n` bytes stands in the buffer.
    pub fn received(&mut self, buf: Vec<u8>, n: usize, addr: SocketAddress)
        requires
            old(self).wf(),
            n <= buf@.len(),
        ensures
            final(self).wf(),
            final(self)@ == queued(
                old(self)@,
                PacketView { buf: buf@, n: n as nat, addr: Some(addr), err: None },
            ),
    {
        let ghost q = self@;
        if self.packets.len() < PACKET_QUEUE_SIZE {
            let packet = UdpPacket { buf, n, addr: Some(addr), err: None };
            let ghost view = packet@;
            self.packets.push_back(packet);
            assert(self@.packets =~= q.packets.push(view));
        } else {
            self.pool.put(buf);
        }
    }

    /// The socket had nothing to give for now.
    pub fn timed_out(&mut self, buf: Vec<u8>, reason: String)
        requires
            old(self).wf(),
        ensures
            final(self).wf(),
            final(self)@ == nothing_came(old(self)@, buf@, reason@),
    {
        let ghost q = self@;
        self.pool.put(buf);
        if self.packets.len() < PACKET_QUEUE_SIZE {
            let packet = UdpPacket { buf: Vec::new(), n: 0, addr: None, err: Some(reason) };
            let ghost view = packet@;
            assert(view.buf =~= Seq::empty());
            self.packets.push_back(packet);
            assert(self@.packets =~= q.packets.push(view));
        }
    }

    /// Reads the oldest packet to the start of `buf`. Its own buffer comes
    /// back, unless `buf` is too short.
    pub fn read_from(&mut self, buf: &mut [u8]) -> (r: core::result::Result<
        (usize, SocketAddress),
        HopError,
    >)
        requires
            old(self).wf(),
        ensures
            final(self).wf(),
            final(buf)@.len() == old(buf)@.len(),
            ({
                let q = old(self)@;
                if q.packets.len() == 0 {
                    &&& r == Err::<(usize, SocketAddress), HopError>(HopError::Wait)
                    &&& final(self)@ == q
                    &&& final(buf)@ == old(buf)@
                } else {
                    let p = q.packets[0];
                    let rest = QueueView { packets: q.packets.skip(1), ..q };
                    match p.err {
                        Some(e) => {
                            &&& r matches Err(HopError::Socket(text)) && text@ == e
                            &&& final(self)@ == rest
                            &&& final(buf)@ == old(buf)@
                        },
                        None => if old(buf)@.len() < p.n {
                            &&& r == Err::<(usize, SocketAddress), HopError>(HopError::ShortBuffer)
                            &&& final(self)@ == rest
                            &&& final(buf)@ == old(buf)@
                        } else {
                            &&& r == Ok::<(usize, SocketAddress), HopError>(
                                (
                                    p.n as usize,
                                    match p.addr {
                                        Some(a) => a,
                                        None => SocketAddress::V4 { ip: 0, port: 0 },
                                    },
                                ),
                            )
                            &&& final(self)@ == (QueueView { pool: kept(q.pool, p.buf), ..rest })
                            &&& final(buf)@ == p.buf.take(p.n as int) + old(buf)@.skip(p.n as int)
                        },
                    }
                }
            }),
    {
        let ghost q = self@;
        match self.packets.pop_front() {
            None => Err(HopError::Wait),
            Some(packet) => {
                proof {
                    assert(self@.packets =~= q.packets.skip(1));
                    assert(packet@ == q.packets[0]);
                    assert forall|i: int| 0 <= i < self@.packets.len() implies (
                    #[trigger] self@.packets[i]).n <= self@.packets[i].buf.len() by {
                        assert(self@.packets[i] == q.packets[i + 1]);
                    }
                }
                match packet.err {
                    Some(e) => Err(HopError::Socket(e)),
                    None => {
                        if buf.len() < packet.n {
                            return Err(HopError::ShortBuffer);
                        }
                        let data: Vec<u8> = wire::copy_range(packet.buf.as_slice(), 0, packet.n);
                        wire::set_bytes(buf, 0, data.as_slice());
                        assert(buf@ =~= q.packets[0].buf.take(q.packets[0].n as int) + old(
                            buf,
                        )@.skip(q.packets[0].n as int));
                        let addr = match packet.addr {
                            Some(a) => a,
                            None => SocketAddress::V4 { ip: 0, port: 0 },
                        };
                        let n: usize = packet.n;
                        self.pool.put(packet.buf);
                        Ok((n, addr))
                    },
                }
            },
        }
    }
}

/// A time, or the default one where it is zero.
pub open spec fn interval_or_default(ns: u64) -> u64 {
    if ns == 0 {
        DEFAULT_HOP_INTERVAL_NS
    } else {
        ns
    }
}

/// The connection whose other side's port changes. Its sockets are known by
/// numbers.
pub struct UdpHopPacketConn {
    pub addrs: Vec<SocketAddress>,
    pub hop_interval_min_ns: u64,
    pub hop_interval_max_ns: u64,
    /// The socket before the current one, which still receives.
    pub prev_conn: Option<u64>,
    pub current_conn: Option<u64>,
    pub addr_index: usize,
    pub closed: bool,
}

/// The contents of a [`UdpHopPacketConn`].
pub struct HopView {
    pub addrs: Seq<SocketAddress>,
    pub min_ns: u64,
    pub max_ns: u64,
    pub prev: Option<u64>,
    pub current: Option<u64>,
    pub index: usize,
    pub closed: bool,
}

impl View for UdpHopPacketConn {
    type V = HopView;

    open spec fn view(&self) -> HopView {
        HopView {
            addrs: self.addrs@,
            min_ns: self.hop_interval_min_ns,
            max_ns: self.hop_interval_max_ns,
            prev: self.prev_conn,
            current: self.current_conn,
            index: self.addr_index,
            closed: self.closed,
        }
    }
}

/// Why a connection cannot be made, nothing where it can.
pub open spec fn hop_fault(addrs: Seq<SocketAddress>, min_ns: u64, max_ns: u64) -> Option<
    Seq<char>,
> {
    let low = interval_or_default(min_ns);
    let high = interval_or_default(max_ns);
    let least = duration_text(MIN_HOP_INTERVAL_NS);
    if addrs.len() == 0 {
        Some("len(addrs) == 0"@)
    } else if low < MIN_HOP_INTERVAL_NS {
        Some("hopIntervalMin "@ + duration_text(low) + " < "@ + least)
    } else if high < MIN_HOP_INTERVAL_NS {
        Some("hopIntervalMax "@ + duration_text(high) + " < "@ + least)
    } else if high < low {
        Some("hopIntervalMax "@ + duration_text(high) + " < hopIntervalMin "@ + duration_text(low))
    } else {
        None
    }
}

fn describe(name: &str, a: u64, between: &str, b: u64) -> (s: String)
    ensures
        s@ == name@ + duration_text(a) + between@ + duration_text(b),
{
    let mut s: String = join(name, duration_debug(a).as_str());
    s.append(between);
    s.append(duration_debug(b).as_str());
    s
}

impl UdpHopPacketConn {
    /// There are addresses as long as the connection is open, and the times are
    /// in order.
    pub open spec fn wf(&self) -> bool {
        &&& !self@.closed ==> self@.addrs.len() > 0
        &&& MIN_HOP_INTERVAL_NS <= self@.min_ns <= self@.max_ns
    }

    /// A connection with that socket, to the address of that index. Zero stands
    /// for the default time.
    pub fn new(
        addrs: Vec<SocketAddress>,
        hop_interval_min_ns: u64,
        hop_interval_max_ns: u64,
        current_conn: u64,
        addr_index: usize,
    ) -> (r: Result<Self>)
        ensures
            match r {
                Ok(c) => {
                    &&& hop_fault(addrs@, hop_interval_min_ns, hop_interval_max_ns) is None
                    &&& c.wf()
                    &&& c@ == (HopView {
                        addrs: addrs@,
                        min_ns: interval_or_default(hop_interval_min_ns),
                        max_ns: interval_or_default(hop_interval_max_ns),
                        prev: None,
                        current: Some(current_conn),
                        index: addr_index,
                        closed: false,
                    })
                },
                Err(HysteriaError::InvalidUdpHop(text)) => hop_fault(
                    addrs@,
                    hop_interval_min_ns,
                    hop_interval_max_ns,
                ) == Some(text@),
                Err(_) => false,
            },
    {
        if addrs.len() == 0 {
            return Err(HysteriaError::InvalidUdpHop("len(addrs) == 0".to_owned()));
        }
        let low: u64 = if hop_interval_min_ns == 0 {
            DEFAULT_HOP_INTERVAL_NS
        } else {
            hop_interval_min_ns
        };
        let high: u64 = if hop_interval_max_ns == 0 {
            DEFAULT_HOP_INTERVAL_NS
        } else {
            hop_interval_max_ns
        };
        if low < MIN_HOP_INTERVAL_NS {
            return Err(
                HysteriaError::InvalidUdpHop(
                    describe("hopIntervalMin ", low, " < ", MIN_HOP_INTERVAL_NS),
                ),
            );
        }
        if high < MIN_HOP_INTERVAL_NS {
            return Err(
                HysteriaError::InvalidUdpHop(
                    describe("hopIntervalMax ", high, " < ", MIN_HOP_INTERVAL_NS),
                ),
            );
        }
        if high < low {
            return Err(
                HysteriaError::InvalidUdpHop(
                    describe("hopIntervalMax ", high, " < hopIntervalMin ", low),
                ),
            );
        }
        Ok(
            UdpHopPacketConn {
                addrs,
                hop_interval_min_ns: low,
                hop_interval_max_ns: high,
                prev_conn: None,
                current_conn: Some(current_conn),
                addr_index,
                closed: false,
            },
        )
    }

    /// The socket and the address that are written to.
    pub fn write_to(&self) -> (r: core::result::Result<(u64, SocketAddress), HopError>)
        requires
            !self@.closed && self@.current is Some ==> self@.index < self@.addrs.len(),
        ensures
            match r {
                Ok((conn, addr)) => {
                    &&& !self@.closed
                    &&& self@.current == Some(conn)
                    &&& addr == self@.addrs[self@.index as int]
                },
                Err(HopError::Closed) => self@.closed,
                Err(HopError::NoConn) => !self@.closed && self@.current is None,
                Err(_) => false,
            },
    {
        if self.closed {
            return Err(HopError::Closed);
        }
        match self.current_conn {
            Some(conn) => Ok((conn, self.addrs[self.addr_index])),
            None => Err(HopError::NoConn),
        }
    }

    /// Closes the connection: the sockets that are to be closed.
    pub fn close(&mut self) -> (conns: (Option<u64>, Option<u64>))
        requires
            old(self).wf(),
        ensures
            final(self).wf(),
            if old(self)@.closed {
                conns == (None::<u64>, None::<u64>) && final(self)@ == old(self)@
            } else {
                &&& conns == (old(self)@.prev, old(self)@.current)
                &&& final(self)@ == (HopView {
                    addrs: Seq::empty(),
                    prev: None,
                    current: None,
                    closed: true,
                    ..old(self)@
                })
            },
    {
        if self.closed {
            return (None, None);
        }
        self.closed = true;
        let conns = (self.prev_conn, self.current_conn);
        self.prev_conn = None;
        self.current_conn = None;
        self.addrs = Vec::new();
        assert(self@.addrs =~= Seq::empty());
        conns
    }

    /// The current socket, whose address is this side's.
    pub fn local_conn(&self) -> (r: core::result::Result<u64, HopError>)
        ensures
            match r {
                Ok(conn) => self@.current == Some(conn),
                Err(e) => self@.current is None && e is NoConn,
            },
    {
        match self.current_conn {
            Some(conn) => Ok(conn),
            None => Err(HopError::NoConn),
        }
    }

    /// The addresses.
    pub fn addrs(&self) -> (a: Vec<SocketAddress>)
        ensures
            a@ == self@.addrs,
    {
        let mut a: Vec<SocketAddress> = Vec::new();
        let mut i: usize = 0;
        while i < self.addrs.len()
            invariant
                i <= self.addrs@.len(),
                a@ == self.addrs@.take(i as int),
            decreases self.addrs@.len() - i,
        {
            a.push(self.addrs[i]);
            i += 1;
            assert(a@ =~= self.addrs@.take(i as int));
        }
        assert(self.addrs@.take(i as int) =~= self.addrs@);
        a
    }

    /// The index of the address that is written to.
    pub fn addr_index(&self) -> (i: usize)
        ensures
            i == self@.index,
    {
        self.addr_index
    }

    /// How many whole milliseconds the time to the next change may vary.
    pub open spec fn spread_ms(v: HopView) -> u64 {
        ((v.max_ns - v.min_ns) / 1_000_000) as u64
    }

    /// The time to the next change, by the milliseconds that chance adds.
    pub fn interval_with(&self, extra_ms: u64) -> (ns: u64)
        requires
            self.wf(),
            extra_ms <= Self::spread_ms(self@),
        ensures
            ns == self@.min_ns + extra_ms * 1_000_000,
            self@.min_ns <= ns <= self@.max_ns,
    {
        self.hop_interval_min_ns + extra_ms * 1_000_000
    }

    /// The time to the next change, by chance between the two times.
    pub fn next_hop_interval(&self) -> (ns: u64)
        requires
            self.wf(),
        ensures
            self@.min_ns <= ns <= self@.max_ns,
            (ns - self@.min_ns) % 1_000_000 == 0,
    {
        if self.hop_interval_min_ns == self.hop_interval_max_ns {
            return self.hop_interval_min_ns;
        }
        let spread: u64 = (self.hop_interval_max_ns - self.hop_interval_min_ns) / 1_000_000;
        let extra: u64 = random_upto(spread);
        self.interval_with(extra)
    }

    /// Writes to the address of that index from now on: the address, which a
    /// socket is to be opened for. Nothing once the connection is closed.
    pub fn hop_to(&mut self, index: usize) -> (r: Option<SocketAddress>)
        requires
            old(self).wf(),
            !old(self)@.closed ==> index < old(self)@.addrs.len(),
        ensures
            final(self).wf(),
            r == if old(self)@.closed {
                None
            } else {
                Some(old(self)@.addrs[index as int])
            },
            final(self)@ == if old(self)@.closed {
                old(self)@
            } else {
                HopView { index, ..old(self)@ }
            },
    {
        if self.closed {
            return None;
        }
        self.addr_index = index;
        Some(self.addrs[index])
    }

    /// Writes to an address that chance picks from now on.
    pub fn hop_begin(&mut self) -> (r: Option<SocketAddress>)
        requires
            old(self).wf(),
        ensures
            final(self).wf(),
            r is None <==> old(self)@.closed,
            old(self)@.closed ==> final(self)@ == old(self)@,
            r matches Some(addr) ==> {
                &&& final(self)@.index < old(self)@.addrs.len()
                &&& addr == old(self)@.addrs[final(self)@.index as int]
                &&& final(self)@ == (HopView { index: final(self)@.index, ..old(self)@ })
            },
    {
        if self.closed {
            return None;
        }
        let index: usize = random_upto((self.addrs.len() - 1) as u64) as usize;
        self.hop_to(index)
    }

    /// A socket was opened: it is the current one from now on, and the one
    /// before the last is to be closed. Nothing changes once the connection is
    /// closed.
    pub fn hop_done(&mut self, conn: u64) -> (r: Option<Option<u64>>)
        requires
            old(self).wf(),
        ensures
            final(self).wf(),
            r == if old(self)@.closed {
                None
            } else {
                Some(old(self)@.prev)
            },
            final(self)@ == if old(self)@.closed {
                old(self)@
            } else {
                HopView { prev: old(self)@.current, current: Some(conn), ..old(self)@ }
            },
    {
        if self.closed {
            return None;
        }
        let before = self.prev_conn;
        self.prev_conn = self.current_conn;
        self.current_conn = Some(conn);
        Some(before)
    }
}

/// The addresses of an IP address and ports, each port by its low sixteen bits.
pub fn to_addrs(ip: IpAddress, ports: &[u32]) -> (addrs: Vec<SocketAddress>)
    ensures
        addrs@ == ports@.map_values(
            |p: u32| port_of(ip, (p as int % 0x1_0000) as u16),
        ),
{
    let mut addrs: Vec<SocketAddress> = Vec::new();
    let ghost address = |p: u32| port_of(ip, (p as int % 0x1_0000) as u16);
    let mut i: usize = 0;
    while i < ports.len()
        invariant
            i <= ports@.len(),
            address == (|p: u32| port_of(ip, (p as int % 0x1_0000) as u16)),
            addrs@ == ports@.take(i as int).map_values(address),
        decreases ports@.len() - i,
    {
        addrs.push(SocketAddress::new(ip, (ports[i] % 0x1_0000) as u16));
        i += 1;
        assert(addrs@ =~= ports@.take(i as int).map_values(address));
    }
    assert(ports@.take(i as int) =~= ports@);
    addrs
}

/// Ports that are at most sixteen bits long stay what they are, and two that
/// differ give addresses that differ.
pub proof fn law_addresses_keep_ports(ip: IpAddress, a: u32, b: u32)
    requires
        a <= 65_535,
        b <= 65_535,
    ensures
        port_of(ip, (a as int % 0x1_0000) as u16).spec_port() == a,
        a != b ==> port_of(ip, (a as int % 0x1_0000) as u16) != port_of(
            ip,
            (b as int % 0x1_0000) as u16,
        ),
{
}

/// A connection can be made where there are addresses, neither time is below
/// five seconds, and they are in order; a time that is not given is thirty
/// seconds.
pub proof fn law_hopping_needs_addresses_and_times(
    addrs: Seq<SocketAddress>,
    min_ns: u64,
    max_ns: u64,
)
    ensures
        ({
            let low = if min_ns == 0 {
                30_000_000_000
            } else {
                min_ns as int
            };
            let high = if max_ns == 0 {
                30_000_000_000
            } else {
                max_ns as int
            };
            &&& hop_fault(addrs, min_ns, max_ns) is None <==> addrs.len() > 0 && 5_000_000_000
                <= low <= high
            &&& interval_or_default(min_ns) == low
            &&& interval_or_default(max_ns) == high
        }),
{
}

/// The time to the next change may vary by all the whole milliseconds between
/// the two times.
pub proof fn law_spread_reaches_the_longest_time(v: HopView)
    requires
        v.min_ns <= v.max_ns,
    ensures
        ({
            let spread = UdpHopPacketConn::spread_ms(v);
            v.min_ns + spread * 1_000_000 <= v.max_ns < v.min_ns + (spread + 1) * 1_000_000
        }),
{
}

/// A packet that came waits behind those that wait already, which stay as they
/// are, where fewer than a thousand and twenty-four do. Where as many wait it is
/// dropped and its buffer is kept, unless as many are kept.
pub proof fn law_packets_wait_in_order(q: QueueView, packet: PacketView)
    ensures
        ({
            let new = queued(q, packet);
            &&& q.packets.len() < 1024 ==> {
                &&& new.packets.len() == q.packets.len() + 1
                &&& new.packets.drop_last() == q.packets
                &&& new.packets.last() == packet
                &&& new.pool == q.pool
            }
            &&& q.packets.len() >= 1024 ==> {
                &&& new.packets == q.packets
                &&& new.pool.allocs == q.pool.allocs
                &&& q.pool.bufs.len() < 1024 ==> new.pool.bufs == q.pool.bufs.push(packet.buf)
                &&& q.pool.bufs.len() >= 1024 ==> new.pool.bufs == q.pool.bufs
            }
        }),
{
    let new = queued(q, packet);
    if q.packets.len() < 1024 {
        assert(new.packets.drop_last() =~= q.packets);
    }
}

/// A reason why nothing came waits like a packet, and the buffer that was to
/// receive one is kept in any case, unless a thousand and twenty-four are.
pub proof fn law_reasons_wait_like_packets(q: QueueView, buf: Seq<u8>, reason: Seq<char>)
    ensures
        ({
            let new = nothing_came(q, buf, reason);
            &&& new.pool.allocs == q.pool.allocs
            &&& q.pool.bufs.len() < 1024 ==> new.pool.bufs == q.pool.bufs.push(buf)
            &&& q.pool.bufs.len() >= 1024 ==> new.pool.bufs == q.pool.bufs
            &&& q.packets.len() < 1024 ==> {
                &&& new.packets.len() == q.packets.len() + 1
                &&& new.packets.drop_last() == q.packets
                &&& new.packets.last().err == Some(reason)
                &&& new.packets.last().n == 0
            }
            &&& q.packets.len() >= 1024 ==> new.packets == q.packets
        }),
{
    let new = nothing_came(q, buf, reason);
    if q.packets.len() < 1024 {
        assert(new.packets.drop_last() =~= q.packets);
    }
}

} // verus!
