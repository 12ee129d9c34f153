//! Streams and UDP sessions over a connection.

use std::collections::VecDeque;

use vstd::prelude::*;

use crate::hysteria::config::FrameTypeTCPRequest;
use crate::net::SocketAddress;
use crate::wire;

verus! {

/// The `i`-th byte of a number, the lowest one first.
pub open spec fn byte_of(v: u64, i: nat) -> u8
    decreases i,
{
    if i == 0 {
        (v % 0x100) as u8
    } else {
        byte_of(v / 0x100, (i - 1) as nat)
    }
}

/// A number in the form that QUIC gives it: the two highest bits of the first
/// byte tell the length, and the other bits are the number, the highest first.
/// What does not fit the longest form loses its two highest bits.
pub open spec fn varint(v: u64) -> Seq<u8> {
    if v < 0x40 {
        seq![v as u8]
    } else if v < 0x4000 {
        seq![(0x40 + v / 0x100) as u8, byte_of(v, 0)]
    } else if v < 0x4000_0000 {
        seq![(0x80 + v / 0x100_0000) as u8, byte_of(v, 2), byte_of(v, 1), byte_of(v, 0)]
    } else {
        seq![
            (0xC0 + byte_of(v, 7) % 0x40) as u8,
            byte_of(v, 6),
            byte_of(v, 5),
            byte_of(v, 4),
            byte_of(v, 3),
            byte_of(v, 2),
            byte_of(v, 1),
            byte_of(v, 0),
        ]
    }
}

/// How many bytes a number takes, by its first byte.
pub open spec fn varint_len(first: u8) -> nat {
    if first < 0x40 {
        1
    } else if first < 0x80 {
        2
    } else if first < 0xC0 {
        4
    } else {
        8
    }
}

/// The number that bytes make, the highest first.
pub open spec fn big_endian(b: Seq<u8>) -> nat
    decreases b.len(),
{
    if b.len() == 0 {
        0
    } else {
        big_endian(b.drop_last()) * 0x100 + b.last() as nat
    }
}

/// The number at the start of `b` and how many bytes it takes.
pub open spec fn varint_at(b: Seq<u8>) -> Option<(nat, nat)> {
    if b.len() == 0 || b.len() < varint_len(b[0]) {
        None
    } else {
        let n = varint_len(b[0]);
        Some((big_endian(seq![b[0] % 0x40] + b.subrange(1, n as int)), n))
    }
}

/// Writes a number in the form that QUIC gives it.
pub fn encode_varint(v: u64) -> (out: Vec<u8>)
    ensures
        out@ == varint(v),
{
    proof {
        reveal_with_fuel(byte_of, 9);
        lemma_bytes(v);
    }
    let out: Vec<u8> = if v < 0x40 {
        vec![v as u8]
    } else if v < 0x4000 {
        vec![(0x40 + v / 0x100) as u8, (v % 0x100) as u8]
    } else if v < 0x4000_0000 {
        vec![
            (0x80 + v / 0x100_0000) as u8,
            (v / 0x1_0000 % 0x100) as u8,
            (v / 0x100 % 0x100) as u8,
            (v % 0x100) as u8,
        ]
    } else {
        vec![
            (0xC0 + v / 0x100_0000_0000_0000 % 0x40) as u8,
            (v / 0x1_0000_0000_0000 % 0x100) as u8,
            (v / 0x100_0000_0000 % 0x100) as u8,
            (v / 0x1_0000_0000 % 0x100) as u8,
            (v / 0x100_0000 % 0x100) as u8,
            (v / 0x1_0000 % 0x100) as u8,
            (v / 0x100 % 0x100) as u8,
            (v % 0x100) as u8,
        ]
    };
    assert(out@ =~= varint(v));
    out
}

proof fn lemma_bytes(v: u64)
    ensures
        byte_of(v, 0) == v % 0x100,
        byte_of(v, 1) == v / 0x100 % 0x100,
        byte_of(v, 2) == v / 0x1_0000 % 0x100,
        byte_of(v, 3) == v / 0x100_0000 % 0x100,
        byte_of(v, 4) == v / 0x1_0000_0000 % 0x100,
        byte_of(v, 5) == v / 0x100_0000_0000 % 0x100,
        byte_of(v, 6) == v / 0x1_0000_0000_0000 % 0x100,
        byte_of(v, 7) == v / 0x100_0000_0000_0000,
        byte_of(v, 7) % 0x40 == v / 0x100_0000_0000_0000 % 0x40,
{
    reveal_with_fuel(byte_of, 9);
}

/// Reads the number at the start of `b`, and how many bytes it takes.
pub fn decode_varint(b: &[u8]) -> (r: Option<(u64, usize)>)
    ensures
        match r {
            Some((v, n)) => varint_at(b@) == Some((v as nat, n as nat)),
            None => varint_at(b@) is None,
        },
{
    if b.len() == 0 {
        return None;
    }
    let first: u8 = b[0];
    let n: usize = if first < 0x40 {
        1
    } else if first < 0x80 {
        2
    } else if first < 0xC0 {
        4
    } else {
        8
    };
    if b.len() < n {
        return None;
    }
    let mut v: u64 = (first % 0x40) as u64;
    let mut i: usize = 1;
    let ghost all = seq![b@[0] % 0x40] + b@.subrange(1, n as int);
    proof {
        reveal_with_fuel(big_endian, 2);
        assert(all.take(1) =~= seq![b@[0] % 0x40]);
        assert(all.take(1).drop_last() =~= Seq::<u8>::empty());
        lemma_power_bound(0);
    }
    while i < n
        invariant
            1 <= i <= n <= 8,
            n <= b@.len(),
            all == seq![b@[0] % 0x40] + b@.subrange(1, n as int),
            v == big_endian(all.take(i as int)),
            v < bound((i - 1) as nat),
        decreases n - i,
    {
        proof {
            assert(all.take(i + 1).drop_last() =~= all.take(i as int));
            assert(all.take(i + 1).last() == b@[i as int]);
            lemma_power_bound((i - 1) as nat);
        }
        v = v * 0x100 + b[i] as u64;
        i += 1;
    }
    assert(all.take(n as int) =~= all);
    Some((v, n))
}

spec fn bound(i: nat) -> nat
    decreases i,
{
    if i == 0 {
        0x40
    } else {
        bound((i - 1) as nat) * 0x100
    }
}

proof fn lemma_power_bound(i: nat)
    requires
        i <= 6,
    ensures
        bound(i) * 0x100 <= 0x1_0000_0000_0000_0000,
        bound(i + 1) == bound(i) * 0x100,
{
    reveal_with_fuel(bound, 9);
}

/// Reading a number that was written gives it back, whatever follows it, where
/// it fits the longest form.
pub proof fn law_varint_round_trip(v: u64, rest: Seq<u8>)
    requires
        v < 0x4000_0000_0000_0000,
    ensures
        varint_at(varint(v) + rest) == Some((v as nat, varint(v).len())),
{
    lemma_bytes(v);
    let x = varint(v);
    if v < 0x40 {
        lemma_varint_at(x, rest);
        assert(seq![x[0] % 0x40] + x.skip(1) =~= seq![v as u8]);
        lemma_big_endian_1(seq![v as u8]);
    } else if v < 0x4000 {
        lemma_varint_at(x, rest);
        let all = seq![(v / 0x100) as u8, byte_of(v, 0)];
        assert(seq![x[0] % 0x40] + x.skip(1) =~= all);
        lemma_big_endian_2(all);
    } else if v < 0x4000_0000 {
        lemma_varint_round_trip_4(v, rest);
    } else {
        lemma_varint_round_trip_8(v, rest);
    }
}

proof fn lemma_varint_at(x: Seq<u8>, rest: Seq<u8>)
    requires
        x.len() > 0,
        x.len() == varint_len(x[0]),
    ensures
        varint_at(x + rest) == Some((big_endian(seq![x[0] % 0x40] + x.skip(1)), x.len())),
{
    assert((x + rest).subrange(1, x.len() as int) =~= x.skip(1));
}

proof fn lemma_varint_round_trip_4(v: u64, rest: Seq<u8>)
    requires
        0x4000 <= v < 0x4000_0000,
    ensures
        varint_at(varint(v) + rest) == Some((v as nat, varint(v).len())),
{
    lemma_bytes(v);
    let x = varint(v);
    lemma_varint_at(x, rest);
    let all = seq![(v / 0x100_0000) as u8, byte_of(v, 2), byte_of(v, 1), byte_of(v, 0)];
    assert(seq![x[0] % 0x40] + x.skip(1) =~= all);
    lemma_big_endian_4(all);
}

proof fn lemma_varint_round_trip_8(v: u64, rest: Seq<u8>)
    requires
        0x4000_0000 <= v < 0x4000_0000_0000_0000,
    ensures
        varint_at(varint(v) + rest) == Some((v as nat, varint(v).len())),
{
    lemma_bytes(v);
    let x = varint(v);
    lemma_varint_at(x, rest);
    let high = seq![byte_of(v, 7), byte_of(v, 6), byte_of(v, 5), byte_of(v, 4)];
    let low = seq![byte_of(v, 3), byte_of(v, 2), byte_of(v, 1), byte_of(v, 0)];
    let all = high + low;
    assert(byte_of(v, 7) < 0x40);
    assert(seq![x[0] % 0x40] + x.skip(1) =~= all);
    assert(all.take(4) =~= high);
    lemma_big_endian_4(high);
    lemma_big_endian_8(all);
    lemma_sum_of_bytes(v);
}

proof fn lemma_sum_of_bytes(v: u64)
    ensures
        v == ((v / 0x100_0000_0000_0000) * 0x100_0000 + (v / 0x1_0000_0000_0000 % 0x100) * 0x1_0000
            + (v / 0x100_0000_0000 % 0x100) * 0x100 + v / 0x1_0000_0000 % 0x100) * 0x1_0000_0000
            + (v / 0x100_0000 % 0x100) * 0x100_0000 + (v / 0x1_0000 % 0x100) * 0x1_0000
            + (v / 0x100 % 0x100) * 0x100 + v % 0x100,
{
    let a = v / 0x100;
    let b = a / 0x100;
    let c = b / 0x100;
    let d = c / 0x100;
    let e = d / 0x100;
    let f = e / 0x100;
    let g = f / 0x100;
    assert(b == v / 0x1_0000);
    assert(c == v / 0x100_0000);
    assert(d == v / 0x1_0000_0000);
    assert(e == v / 0x100_0000_0000);
    assert(f == v / 0x1_0000_0000_0000);
    assert(g == v / 0x100_0000_0000_0000);
}

proof fn lemma_big_endian_1(b: Seq<u8>)
    requires
        b.len() == 1,
    ensures
        big_endian(b) == b[0],
{
    reveal_with_fuel(big_endian, 2);
}

proof fn lemma_big_endian_2(b: Seq<u8>)
    requires
        b.len() == 2,
    ensures
        big_endian(b) == b[0] * 0x100 + b[1],
{
    lemma_big_endian_1(b.drop_last());
}

proof fn lemma_big_endian_4(b: Seq<u8>)
    requires
        b.len() == 4,
    ensures
        big_endian(b) == b[0] * 0x100_0000 + b[1] * 0x1_0000 + b[2] * 0x100 + b[3],
{
    let c = b.drop_last();
    assert(c.drop_last().len() == 2);
    lemma_big_endian_2(c.drop_last());
    assert(big_endian(c) == big_endian(c.drop_last()) * 0x100 + c.last());
}

proof fn lemma_big_endian_8(b: Seq<u8>)
    requires
        b.len() == 8,
    ensures
        big_endian(b) == big_endian(b.take(4)) * 0x1_0000_0000 + b[4] * 0x100_0000 + b[5] * 0x1_0000
            + b[6] * 0x100 + b[7],
{
    let c = b.drop_last();
    let d = c.drop_last();
    let e = d.drop_last();
    let f = e.drop_last();
    assert(f =~= b.take(4));
    assert(big_endian(e) == big_endian(f) * 0x100 + b[4]);
    assert(big_endian(d) == big_endian(e) * 0x100 + b[5]);
    assert(big_endian(c) == big_endian(d) * 0x100 + b[6]);
    assert(big_endian(b) == big_endian(c) * 0x100 + b[7]);
}

/// A TCP connection over a stream. What a client writes first starts with the
/// sort of the stream.
#[derive(Debug, Clone, Copy, PartialEq, Eq, Structural)]
pub struct InterStreamConn {
    pub local: SocketAddress,
    pub remote: SocketAddress,
    /// The sort of the stream is still to be written.
    pub client_first: bool,
}

impl InterStreamConn {
    /// A connection, of a client or of a server.
    pub fn new(local: SocketAddress, remote: SocketAddress, client: bool) -> (c: Self)
        ensures
            c == (InterStreamConn { local, remote, client_first: client }),
    {
        InterStreamConn { local, remote, client_first: client }
    }

    /// What is to be written to the stream for `buf`.
    pub fn write(&mut self, buf: &[u8]) -> (payload: Vec<u8>)
        ensures
            *final(self) == (InterStreamConn { client_first: false, ..*old(self) }),
            payload@ == if old(self).client_first {
                varint(FrameTypeTCPRequest) + buf@
            } else {
                buf@
            },
    {
        let mut payload: Vec<u8> = if self.client_first {
            encode_varint(FrameTypeTCPRequest)
        } else {
            Vec::new()
        };
        self.client_first = false;
        let ghost start = payload@;
        wire::push_bytes(&mut payload, buf);
        assert(payload@ =~= start + buf@);
        assert(Seq::<u8>::empty() + buf@ =~= buf@);
        payload
    }

    /// This side's address.
    pub fn local_addr(&self) -> (a: SocketAddress)
        ensures
            a == self.local,
    {
        self.local
    }

    /// The other side's address.
    pub fn remote_addr(&self) -> (a: SocketAddress)
        ensures
            a == self.remote,
    {
        self.remote
    }
}

/// What a server does with a stream of that sort, or of none that can be read:
/// it serves it, or it stops reading it for that reason.
pub fn stream_refusal(frame_type: Option<u64>) -> (r: Option<u64>)
    ensures
        r == if frame_type == Some(0x401u64) {
            None
        } else {
            Some(0x101u64)
        },
{
    match frame_type {
        Some(kind) => if kind == FrameTypeTCPRequest {
            None
        } else {
            Some(0x101)
        },
        None => Some(0x101),
    }
}

/// A client's first write starts with the sort that a server serves, and the
/// bytes follow.
pub proof fn law_first_write_is_served(buf: Seq<u8>)
    ensures
        varint(FrameTypeTCPRequest) =~= seq![0x44u8, 0x01],
        varint_at(varint(FrameTypeTCPRequest) + buf) == Some((0x401nat, 2nat)),
        (varint(FrameTypeTCPRequest) + buf).skip(2) =~= buf,
{
    lemma_bytes(FrameTypeTCPRequest);
    law_varint_round_trip(FrameTypeTCPRequest, buf);
}

/// Why nothing is read or written.
#[derive(Debug, Clone, Copy, PartialEq, Eq, Structural)]
pub enum ConnError {
    /// The session is closed and everything is read.
    UnexpectedEof,
    /// The datagram is longer than the buffer; it is dropped.
    WriteZero,
    /// The session is closed.
    BrokenPipe,
}

/// What comes of a read.
#[derive(Debug, Clone, Copy, PartialEq, Eq, Structural)]
pub enum ReadStep {
    /// Nothing has come yet.
    Wait,
    /// A datagram of that length stands at the start of the buffer.
    Ready(usize),
    Failed(ConnError),
}

/// The contents of an [`InterConn`].
pub struct InterView {
    pub local: SocketAddress,
    pub remote: SocketAddress,
    pub id: u32,
    /// The datagrams that wait to be read, the oldest first.
    pub queue: Seq<Seq<u8>>,
    pub capacity: nat,
    pub closed: bool,
    /// When something was read or written last, in milliseconds.
    pub last_active: u64,
    /// Whether the session is forgotten as soon as it is closed.
    pub forget: bool,
}

/// A new session.
pub open spec fn fresh_session(
    local: SocketAddress,
    remote: SocketAddress,
    id: u32,
    capacity: nat,
    now: u64,
    forget: bool,
) -> InterView {
    InterView {
        local,
        remote,
        id,
        queue: Seq::empty(),
        capacity,
        closed: false,
        last_active: now,
        forget,
    }
}

/// The session after a datagram came: it waits, unless the session is closed or
/// too many wait.
pub open spec fn fed(c: InterView, data: Seq<u8>) -> InterView {
    if c.closed || c.queue.len() >= c.capacity {
        c
    } else {
        InterView { queue: c.queue.push(data), ..c }
    }
}

/// What is sent for bytes of a session: its number and the bytes.
pub open spec fn framed(id: u32, data: Seq<u8>) -> Seq<u8> {
    wire::u32_be(id) + data
}

/// A UDP session.
#[derive(Debug)]
pub struct InterConn {
    pub local: SocketAddress,
    pub remote: SocketAddress,
    pub id: u32,
    pub queue: VecDeque<Vec<u8>>,
    pub capacity: usize,
    pub closed: bool,
    pub last_active: u64,
    pub forget: bool,
}

/// The contents of byte strings.
pub open spec fn byte_views(data: Seq<Vec<u8>>) -> Seq<Seq<u8>> {
    Seq::new(data.len(), |i: int| data[i]@)
}

impl View for InterConn {
    type V = InterView;

    open spec fn view(&self) -> InterView {
        InterView {
            local: self.local,
            remote: self.remote,
            id: self.id,
            queue: byte_views(self.queue@),
            capacity: self.capacity as nat,
            closed: self.closed,
            last_active: self.last_active,
            forget: self.forget,
        }
    }
}

impl InterConn {
    /// A session with room for that many datagrams that wait.
    pub fn new(
        local: SocketAddress,
        remote: SocketAddress,
        id: u32,
        chan_size: usize,
        now: u64,
    ) -> (c: Self)
        requires
            chan_size > 0,
        ensures
            c@ == fresh_session(local, remote, id, chan_size as nat, now, false),
    {
        let c = InterConn {
            local,
            remote,
            id,
            queue: VecDeque::new(),
            capacity: chan_size,
            closed: false,
            last_active: now,
            forget: false,
        };
        assert(c@.queue =~= Seq::empty());
        c
    }

    /// When something was read or written last.
    pub fn last_active(&self) -> (t: u64)
        ensures
            t == self@.last_active,
    {
        self.last_active
    }

    /// Something is read or written.
    pub fn touch(&mut self, now: u64)
        ensures
            final(self)@ == (InterView { last_active: now, ..old(self)@ }),
    {
        self.last_active = now;
    }

    /// Reads the oldest datagram that waits to the start of `buf`.
    pub fn read(&mut self, buf: &mut [u8], now: u64) -> (r: ReadStep)
        ensures
            final(buf)@.len() == old(buf)@.len(),
            ({
                let c = old(self)@;
                if c.queue.len() == 0 {
                    &&& final(self)@ == c
                    &&& final(buf)@ == old(buf)@
                    &&& r == if c.closed {
                        ReadStep::Failed(ConnError::UnexpectedEof)
                    } else {
                        ReadStep::Wait
                    }
                } else if old(buf)@.len() < c.queue[0].len() {
                    &&& final(self)@ == (InterView { queue: c.queue.skip(1), ..c })
                    &&& final(buf)@ == old(buf)@
                    &&& r == ReadStep::Failed(ConnError::WriteZero)
                } else {
                    &&& final(self)@ == (InterView {
                        queue: c.queue.skip(1),
                        last_active: now,
                        ..c
                    })
                    &&& r == ReadStep::Ready(c.queue[0].len() as usize)
                    &&& final(buf)@ == c.queue[0] + old(buf)@.skip(c.queue[0].len() as int)
                }
            }),
    {
        let ghost c = self@;
        match self.queue.pop_front() {
            None => if self.closed {
                ReadStep::Failed(ConnError::UnexpectedEof)
            } else {
                ReadStep::Wait
            },
            Some(data) => {
                assert(self@.queue =~= c.queue.skip(1));
                assert(data@ == c.queue[0]);
                if buf.len() < data.len() {
                    return ReadStep::Failed(ConnError::WriteZero);
                }
                let n: usize = data.len();
                wire::set_bytes(buf, 0, data.as_slice());
                assert(buf@ =~= c.queue[0] + old(buf)@.skip(c.queue[0].len() as int));
                self.last_active = now;
                ReadStep::Ready(n)
            },
        }
    }

    /// What is to be sent for `buf`, and how many bytes count as written then.
    /// When it was sent, the session is to be touched.
    pub fn write(&self, buf: &[u8]) -> (r: core::result::Result<(Vec<u8>, usize), ConnError>)
        ensures
            match r {
                Ok((payload, n)) => {
                    &&& !self@.closed
                    &&& payload@ == framed(self@.id, buf@)
                    &&& n == buf@.len()
                },
                Err(e) => self@.closed && e == ConnError::BrokenPipe,
            },
    {
        if self.closed {
            return Err(ConnError::BrokenPipe);
        }
        let mut payload: Vec<u8> = vec![0u8; 4];
        wire::set_u32(payload.as_mut_slice(), 0, self.id);
        assert(payload@ =~= wire::u32_be(self.id));
        wire::push_bytes(&mut payload, buf);
        Ok((payload, buf.len()))
    }

    /// Closes the session: whether it was open.
    pub fn close(&mut self) -> (was_open: bool)
        ensures
            was_open == !old(self)@.closed,
            final(self)@ == (InterView { closed: true, ..old(self)@ }),
    {
        let was_open: bool = !self.closed;
        self.closed = true;
        was_open
    }

    /// The session is forgotten as soon as it is closed.
    pub fn set_close_fn(&mut self)
        ensures
            final(self)@ == (InterView { forget: true, ..old(self)@ }),
    {
        self.forget = true;
    }

    /// A datagram came.
    pub fn feed(&mut self, data: Vec<u8>)
        ensures
            final(self)@ == fed(old(self)@, data@),
    {
        if !self.closed && self.queue.len() < self.capacity {
            let ghost bytes = data@;
            self.queue.push_back(data);
            assert(self@.queue =~= old(self)@.queue.push(bytes));
        }
    }

    /// Whether the session is closed.
    pub fn is_closed(&self) -> (b: bool)
        ensures
            b == self@.closed,
    {
        self.closed
    }

    /// This side's address.
    pub fn local_addr(&self) -> (a: SocketAddress)
        ensures
            a == self@.local,
    {
        self.local
    }

    /// The other side's address.
    pub fn remote_addr(&self) -> (a: SocketAddress)
        ensures
            a == self@.remote,
    {
        self.remote
    }

    /// The number of the session.
    pub fn id(&self) -> (id: u32)
        ensures
            id == self@.id,
    {
        self.id
    }
}

/// Where a number stands in the bytes that it is written as: below sixty-four in
/// one; below sixteen thousand three hundred and eighty-four in two, below two
/// to the thirtieth in four and below two to the sixty-second in eight, with a
/// one, a two and a three in the two highest bits.
pub proof fn law_varint_layout(v: u64)
    requires
        v < 0x4000_0000_0000_0000,
    ensures
        ({
            let b = varint(v);
            &&& v < 64 ==> b.len() == 1 && b[0] == v
            &&& 64 <= v < 0x4000 ==> b.len() == 2 && b[0] * 256 + b[1] == 0x4000 + v
            &&& 0x4000 <= v < 0x4000_0000 ==> b.len() == 4 && b[0] * 0x100_0000 + b[1] * 0x1_0000
                + b[2] * 0x100 + b[3] == 0x8000_0000 + v
            &&& v >= 0x4000_0000 ==> b.len() == 8 && b[0] * 0x100_0000_0000_0000 + b[1]
                * 0x1_0000_0000_0000 + b[2] * 0x100_0000_0000 + b[3] * 0x1_0000_0000 + b[4]
                * 0x100_0000 + b[5] * 0x1_0000 + b[6] * 0x100 + b[7] == 0xC000_0000_0000_0000 + v
        }),
{
    reveal_with_fuel(byte_of, 9);
    lemma_bytes(v);
    let x1 = v / 0x100;
    let x2 = x1 / 0x100;
    let x3 = x2 / 0x100;
    let x4 = x3 / 0x100;
    let x5 = x4 / 0x100;
    let x6 = x5 / 0x100;
    let x7 = x6 / 0x100;
    assert(v == x1 * 0x100 + v % 0x100);
    assert(x1 == x2 * 0x100 + x1 % 0x100);
    assert(x2 == x3 * 0x100 + x2 % 0x100);
    assert(x3 == x4 * 0x100 + x3 % 0x100);
    assert(x4 == x5 * 0x100 + x4 % 0x100);
    assert(x5 == x6 * 0x100 + x5 % 0x100);
    assert(x6 == x7 * 0x100 + x6 % 0x100);
    assert(v / 0x100_0000 == x3);
    assert(v < 0x4000_0000_0000_0000 ==> x7 < 0x40);
}

/// A number is read from as many bytes as the two highest bits of the first one
/// say, and is what the other bits are, whatever follows. Where there are fewer
/// bytes there is no number.
pub proof fn law_varint_reading(b: Seq<u8>)
    ensures
        b.len() == 0 ==> varint_at(b) is None,
        b.len() >= 1 && b[0] < 0x40 ==> varint_at(b) == Some((b[0] as nat, 1nat)),
        0x40 <= b[0] < 0x80 ==> if b.len() >= 2 {
            varint_at(b) == Some((((b[0] - 0x40) * 0x100 + b[1]) as nat, 2nat))
        } else {
            varint_at(b) is None
        },
        0x80 <= b[0] < 0xC0 ==> if b.len() >= 4 {
            varint_at(b) == Some(
                (
                    ((b[0] - 0x80) * 0x100_0000 + b[1] * 0x1_0000 + b[2] * 0x100 + b[3]) as nat,
                    4nat,
                ),
            )
        } else {
            varint_at(b) is None
        },
        0xC0 <= b[0] ==> if b.len() >= 8 {
            varint_at(b) == Some(
                (
                    ((b[0] - 0xC0) * 0x100_0000_0000_0000 + b[1] * 0x1_0000_0000_0000 + b[2]
                        * 0x100_0000_0000 + b[3] * 0x1_0000_0000 + b[4] * 0x100_0000 + b[5]
                        * 0x1_0000 + b[6] * 0x100 + b[7]) as nat,
                    8nat,
                ),
            )
        } else {
            varint_at(b) is None
        },
{
    if b.len() > 0 && b.len() >= varint_len(b[0]) {
        let n = varint_len(b[0]);
        let s = seq![b[0] % 0x40] + b.subrange(1, n as int);
        lemma_big_endian_steps(s);
        assert(s[0] == b[0] % 0x40);
        assert forall|i: int| 1 <= i < n implies #[trigger] s[i] == b[i] by {}
    }
}

proof fn lemma_big_endian_steps(s: Seq<u8>)
    requires
        1 <= s.len() <= 8,
    ensures
        s.len() == 1 ==> big_endian(s) == s[0],
        s.len() == 2 ==> big_endian(s) == s[0] * 0x100 + s[1],
        s.len() == 4 ==> big_endian(s) == s[0] * 0x100_0000 + s[1] * 0x1_0000 + s[2] * 0x100
            + s[3],
        s.len() == 8 ==> big_endian(s) == s[0] * 0x100_0000_0000_0000 + s[1] * 0x1_0000_0000_0000
            + s[2] * 0x100_0000_0000 + s[3] * 0x1_0000_0000 + s[4] * 0x100_0000 + s[5] * 0x1_0000
            + s[6] * 0x100 + s[7],
{
    lemma_big_endian_next(s, 0);
    assert(big_endian(s.take(0)) == 0);
    if s.len() >= 2 {
        lemma_big_endian_next(s, 1);
    }
    if s.len() >= 4 {
        lemma_big_endian_next(s, 2);
        lemma_big_endian_next(s, 3);
    }
    if s.len() == 8 {
        lemma_big_endian_next(s, 4);
        lemma_big_endian_next(s, 5);
        lemma_big_endian_next(s, 6);
        lemma_big_endian_next(s, 7);
    }
    assert(s.take(s.len() as int) =~= s);
}

proof fn lemma_big_endian_next(s: Seq<u8>, j: int)
    requires
        0 <= j < s.len(),
    ensures
        big_endian(s.take(j + 1)) == big_endian(s.take(j)) * 0x100 + s[j],
{
    assert(s.take(j + 1).drop_last() =~= s.take(j));
}

/// What is sent for bytes of a session: its number in four bytes, the greatest
/// first, and the bytes.
pub proof fn law_frame_layout(id: u32, data: Seq<u8>)
    ensures
        ({
            let b = framed(id, data);
            &&& b.len() == 4 + data.len()
            &&& b[0] * 0x100_0000 + b[1] * 0x1_0000 + b[2] * 0x100 + b[3] == id
            &&& b.skip(4) == data
        }),
{
    let b = framed(id, data);
    assert(b.skip(4) =~= data);
    assert(id as int / 0x1_0000 / 0x100 == id as int / 0x100_0000);
    assert(id as int / 0x100 / 0x100 == id as int / 0x1_0000);
}

/// A datagram that comes to an open session waits behind those that wait
/// already, as long as there is room; to any other session it is lost, and
/// nothing else changes.
pub proof fn law_datagrams_wait_in_order(c: InterView, data: Seq<u8>)
    ensures
        ({
            let new = fed(c, data);
            &&& !c.closed && c.queue.len() < c.capacity ==> {
                &&& new.queue.len() == c.queue.len() + 1
                &&& new.queue.drop_last() == c.queue
                &&& new.queue.last() == data
            }
            &&& c.closed || c.queue.len() >= c.capacity ==> new.queue == c.queue
            &&& new == InterView { queue: new.queue, ..c }
        }),
{
    if !c.closed && c.queue.len() < c.capacity {
        assert(fed(c, data).queue.drop_last() =~= c.queue);
    }
}

} // verus!
