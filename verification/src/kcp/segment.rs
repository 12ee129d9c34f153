//! The segments that travel in datagrams, and their byte layout.
//!
//! Every segment starts with a header of four bytes: the conversation (two
//! bytes, big-endian), the command and the option byte. A body follows, whose
//! integers are big-endian too:
//!
//! ```text
//! data:      timestamp u32, number u32, sending_next u32, length u16, payload
//! ack:       receiving_window u32, receiving_next u32, timestamp u32,
//!            count u8, count numbers u32
//! terminate,
//! ping:      sending_next u32, receiving_next u32, peer_rto u32
//! ```

use vstd::prelude::*;

use crate::kcp::buffer::Buffer;
use crate::wire;

verus! {

/// What a segment asks of its receiver.
#[derive(Debug, Clone, Copy, PartialEq, Eq, Structural, Hash)]
pub enum Command {
    /// Acknowledges data.
    Ack,
    /// Carries data.
    Data,
    /// Ends the connection.
    Terminate,
    /// Keeps the connection alive.
    Ping,
}

impl Command {
    /// The command's byte in a segment header.
    pub open spec fn code(self) -> u8 {
        match self {
            Command::Ack => 0,
            Command::Data => 1,
            Command::Terminate => 2,
            Command::Ping => 3,
        }
    }

    /// The command whose header byte is `v`, if there is one.
    pub fn from_u8(v: u8) -> (cmd: Option<Self>)
        ensures
            cmd is Some <==> v <= 3,
            cmd matches Some(c) ==> c.code() == v,
    {
        if v == 0 {
            Some(Command::Ack)
        } else if v == 1 {
            Some(Command::Data)
        } else if v == 2 {
            Some(Command::Terminate)
        } else if v == 3 {
            Some(Command::Ping)
        } else {
            None
        }
    }

    /// The command's byte in a segment header.
    pub fn to_u8(self) -> (v: u8)
        ensures
            v == self.code(),
    {
        match self {
            Command::Ack => 0,
            Command::Data => 1,
            Command::Terminate => 2,
            Command::Ping => 3,
        }
    }
}

/// The option byte of a segment header.
pub type SegmentOption = u8;

/// The option with which a peer says that it has closed.
pub const SEGMENT_OPTION_CLOSE: SegmentOption = 1;

/// The bytes of a data segment besides its payload.
pub const DATA_SEGMENT_OVERHEAD: usize = 18;

/// The same number, under its other name.
#[allow(non_upper_case_globals)]
pub const DataSegmentOverhead: usize = 18;

/// The most numbers that one ack segment is filled with.
pub const ACK_NUMBER_LIMIT: usize = 128;

/// The first four bytes of every segment.
pub open spec fn header_bytes(conv: u16, cmd: Command, opt: SegmentOption) -> Seq<u8> {
    wire::u16_be(conv) + seq![cmd.code(), opt]
}

/// Writes a segment header at the start of `buf`.
fn set_header(buf: &mut [u8], conv: u16, cmd: Command, opt: SegmentOption)
    requires
        4 <= old(buf)@.len(),
    ensures
        final(buf)@ == header_bytes(conv, cmd, opt) + old(buf)@.skip(4),
{
    let ghost before = buf@;
    wire::set_u16(buf, 0, conv);
    wire::set_u8(buf, 2, cmd.to_u8());
    wire::set_u8(buf, 3, opt);
    assert(buf@ =~= header_bytes(conv, cmd, opt) + before.skip(4));
}

/// Numbers one after the other, four bytes each.
pub open spec fn numbers_bytes(numbers: Seq<u32>) -> Seq<u8> {
    Seq::new(numbers.len() * 4, |i: int| wire::u32_be(numbers[i / 4])[i % 4])
}

/// What every segment can do.
pub trait Segment: Sized {
    /// The bytes that the segment is written as.
    spec fn wire(&self) -> Seq<u8>;

    /// The conversation that the segment belongs to.
    spec fn conv_of(&self) -> u16;

    /// The segment's command.
    spec fn command_of(&self) -> Command;

    /// Drops what the segment carries; may be called again.
    fn release(&mut self)
        ensures
            final(self).conv_of() == old(self).conv_of(),
            final(self).command_of() == old(self).command_of(),
    ;

    /// The conversation that the segment belongs to.
    fn conversation(&self) -> (conv: u16)
        ensures
            conv == self.conv_of(),
    ;

    /// The segment's command.
    fn command(&self) -> (cmd: Command)
        ensures
            cmd == self.command_of(),
    ;

    /// The number of bytes that `serialize` writes.
    fn byte_size(&self) -> (n: usize)
        requires
            self.wire().len() <= usize::MAX,
        ensures
            n == self.wire().len(),
    ;

    /// Writes the segment at the start of `buf`.
    fn serialize(&self, buf: &mut [u8])
        requires
            self.wire().len() <= old(buf)@.len(),
        ensures
            final(buf)@ == self.wire() + old(buf)@.skip(self.wire().len() as int),
    ;

    /// Takes the segment from what follows its header. The result says
    /// whether `body` holds one, and how many bytes of `body` it covers.
    fn parse(&mut self, conv: u16, cmd: Command, opt: SegmentOption, body: &[u8]) -> (r: (
        bool,
        usize,
    ))
        ensures
            final(self).conv_of() == conv,
    ;
}

/// The contents of a data segment.
pub struct DataView {
    pub conv: u16,
    pub option: SegmentOption,
    pub timestamp: u32,
    pub number: u32,
    pub sending_next: u32,
    pub payload: Option<Seq<u8>>,
    pub timeout: u32,
    pub transmit: u32,
}

impl DataView {
    /// The payload's bytes, none where there is no payload.
    pub open spec fn bytes(self) -> Seq<u8> {
        match self.payload {
            Some(b) => b,
            None => Seq::empty(),
        }
    }

    /// What the segment is written as. The length field holds the low sixteen
    /// bits of the payload's length.
    pub open spec fn wire(self) -> Seq<u8> {
        header_bytes(self.conv, Command::Data, self.option) + wire::u32_be(self.timestamp)
            + wire::u32_be(self.number) + wire::u32_be(self.sending_next) + wire::u16_be(
            (self.bytes().len() % 0x1_0000) as u16,
        ) + self.bytes()
    }
}

/// The header and the fields of a data segment take eighteen bytes.
pub proof fn lemma_data_wire_len(s: DataView)
    ensures
        s.wire().len() == DATA_SEGMENT_OVERHEAD + s.bytes().len(),
{
}

/// A segment that carries data.
#[derive(Debug)]
pub struct DataSegment {
    pub conv: u16,
    pub option: SegmentOption,
    /// When the segment was sent last.
    pub timestamp: u32,
    /// The segment's place in the stream.
    pub number: u32,
    /// The first number that the sender has no acknowledgement for.
    pub sending_next: u32,
    pub payload: Option<Buffer>,
    /// When the sender sends the segment again.
    pub timeout: u32,
    /// How often the sender has sent the segment.
    pub transmit: u32,
}

impl View for DataSegment {
    type V = DataView;

    open spec fn view(&self) -> DataView {
        DataView {
            conv: self.conv,
            option: self.option,
            timestamp: self.timestamp,
            number: self.number,
            sending_next: self.sending_next,
            payload: match self.payload {
                Some(b) => Some(b@),
                None => None,
            },
            timeout: self.timeout,
            transmit: self.transmit,
        }
    }
}

/// Whether `body` holds the body of a data segment.
pub open spec fn data_body_valid(body: Seq<u8>) -> bool {
    body.len() >= 14 && body.len() >= 14 + wire::be_u16(body, 12)
}

/// The data segment `old` after parsing `body`: where `body` is too short the
/// fields that were not reached keep their values.
pub open spec fn data_parsed(
    old: DataView,
    conv: u16,
    opt: SegmentOption,
    body: Seq<u8>,
) -> DataView {
    if body.len() < 14 {
        DataView { conv, option: opt, ..old }
    } else {
        DataView {
            conv,
            option: opt,
            timestamp: wire::be_u32(body, 0),
            number: wire::be_u32(body, 4),
            sending_next: wire::be_u32(body, 8),
            payload: if data_body_valid(body) {
                Some(body.subrange(14, 14 + wire::be_u16(body, 12)))
            } else {
                old.payload
            },
            ..old
        }
    }
}

impl DataSegment {
    /// A segment without payload, every field zero.
    pub fn new() -> (s: Self)
        ensures
            s@ == (DataView {
                conv: 0,
                option: 0,
                timestamp: 0,
                number: 0,
                sending_next: 0,
                payload: None,
                timeout: 0,
                transmit: 0,
            }),
    {
        DataSegment {
            conv: 0,
            option: 0,
            timestamp: 0,
            number: 0,
            sending_next: 0,
            payload: None,
            timeout: 0,
            transmit: 0,
        }
    }

    /// Takes the payload out.
    pub fn detach(&mut self) -> (b: Option<Buffer>)
        ensures
            b == old(self).payload,
            final(self)@ == (DataView { payload: None, ..old(self)@ }),
    {
        self.payload.take()
    }

    /// The payload, which is made empty where there was none.
    pub fn data(&mut self) -> (b: &mut Buffer)
        ensures
            b@ == old(self)@.bytes(),
            final(self)@ == (DataView { payload: Some(final(b)@), ..old(self)@ }),
    {
        if self.payload.is_none() {
            self.payload = Some(Buffer::new());
        }
        match &mut self.payload {
            Some(b) => b,
            None => unreached(),
        }
    }

    /// A segment with the same contents.
    pub fn duplicate(&self) -> (s: Self)
        ensures
            s@ == self@,
    {
        DataSegment {
            conv: self.conv,
            option: self.option,
            timestamp: self.timestamp,
            number: self.number,
            sending_next: self.sending_next,
            payload: match &self.payload {
                Some(b) => Some(b.duplicate()),
                None => None,
            },
            timeout: self.timeout,
            transmit: self.transmit,
        }
    }
}

impl Default for DataSegment {
    fn default() -> (s: Self)
        ensures
            s@ == (DataView {
                conv: 0,
                option: 0,
                timestamp: 0,
                number: 0,
                sending_next: 0,
                payload: None,
                timeout: 0,
                transmit: 0,
            }),
    {
        DataSegment::new()
    }
}

impl Segment for DataSegment {
    open spec fn wire(&self) -> Seq<u8> {
        self@.wire()
    }

    open spec fn conv_of(&self) -> u16 {
        self.conv
    }

    open spec fn command_of(&self) -> Command {
        Command::Data
    }

    fn release(&mut self)
        ensures
            final(self)@ == (DataView { payload: None, ..old(self)@ }),
    {
        self.payload = None;
    }

    fn conversation(&self) -> (conv: u16) {
        self.conv
    }

    fn command(&self) -> (cmd: Command) {
        Command::Data
    }

    fn byte_size(&self) -> (n: usize) {
        match &self.payload {
            Some(b) => DATA_SEGMENT_OVERHEAD + b.len(),
            None => DATA_SEGMENT_OVERHEAD,
        }
    }

    fn serialize(&self, buf: &mut [u8]) {
        let ghost before = buf@;
        let ghost h0 = header_bytes(self.conv, Command::Data, self.option);
        let ghost h1 = h0 + wire::u32_be(self.timestamp);
        let ghost h2 = h1 + wire::u32_be(self.number);
        let ghost h3 = h2 + wire::u32_be(self.sending_next);
        set_header(buf, self.conv, Command::Data, self.option);
        wire::set_u32(buf, 4, self.timestamp);
        wire::set_u32(buf, 8, self.number);
        wire::set_u32(buf, 12, self.sending_next);
        let len: usize = match &self.payload {
            Some(b) => b.len(),
            None => 0,
        };
        let len_field: u16 = (len % 0x1_0000) as u16;
        wire::set_u16(buf, 16, len_field);
        let ghost h4 = h3 + wire::u16_be(len_field);
        proof {
            wire::lemma_splice_next(before, h0, wire::u32_be(self.timestamp));
            wire::lemma_splice_next(before, h1, wire::u32_be(self.number));
            wire::lemma_splice_next(before, h2, wire::u32_be(self.sending_next));
            wire::lemma_splice_next(before, h3, wire::u16_be(len_field));
            wire::lemma_splice_next(before, h4, self@.bytes());
        }
        match &self.payload {
            Some(b) => {
                wire::set_bytes(buf, 18, b.bytes());
            },
            None => {
                assert(h4 + Seq::<u8>::empty() =~= h4);
            },
        }
    }

    fn parse(&mut self, conv: u16, cmd: Command, opt: SegmentOption, body: &[u8]) -> (r: (
        bool,
        usize,
    ))
        ensures
            r.0 == data_body_valid(body@),
            r.1 == (if r.0 { 14 + wire::be_u16(body@, 12) } else { 0 }),
            final(self)@ == data_parsed(old(self)@, conv, opt, body@),
    {
        self.conv = conv;
        self.option = opt;
        if body.len() < 14 {
            return (false, 0);
        }
        self.timestamp = wire::get_u32(body, 0);
        self.number = wire::get_u32(body, 4);
        self.sending_next = wire::get_u32(body, 8);
        let len: usize = wire::get_u16(body, 12) as usize;
        if body.len() < 14 + len {
            return (false, 0);
        }
        let piece = wire::copy_range(body, 14, 14 + len);
        let payload = self.data();
        payload.clear();
        payload.write_from(piece.as_slice());
        assert(payload@ =~= body@.subrange(14, 14 + len));
        (true, 14 + len)
    }
}

/// The contents of an ack segment.
pub struct AckView {
    pub conv: u16,
    pub option: SegmentOption,
    pub receiving_window: u32,
    pub receiving_next: u32,
    pub timestamp: u32,
    pub numbers: Seq<u32>,
    pub limit: usize,
}

impl AckView {
    /// What the segment is written as. The count field holds the low eight
    /// bits of the number of numbers.
    pub open spec fn wire(self) -> Seq<u8> {
        header_bytes(self.conv, Command::Ack, self.option) + wire::u32_be(self.receiving_window)
            + wire::u32_be(self.receiving_next) + wire::u32_be(self.timestamp) + seq![
            (self.numbers.len() % 0x100) as u8,
        ] + numbers_bytes(self.numbers)
    }
}

/// A segment that acknowledges data segments by their numbers.
#[derive(Debug)]
pub struct AckSegment {
    pub conv: u16,
    pub option: SegmentOption,
    /// The first number that the receiver has no room for.
    pub receiving_window: u32,
    /// The first number that the receiver still waits for.
    pub receiving_next: u32,
    /// The latest timestamp among the acknowledged segments.
    pub timestamp: u32,
    pub number_list: Vec<u32>,
    /// How many numbers make the segment full.
    pub limit: usize,
}

impl View for AckSegment {
    type V = AckView;

    open spec fn view(&self) -> AckView {
        AckView {
            conv: self.conv,
            option: self.option,
            receiving_window: self.receiving_window,
            receiving_next: self.receiving_next,
            timestamp: self.timestamp,
            numbers: self.number_list@,
            limit: self.limit,
        }
    }
}

/// `limit`, brought into the range from one to [`ACK_NUMBER_LIMIT`].
pub open spec fn clamp_limit(limit: int) -> usize {
    if limit < 1 {
        1
    } else if limit > ACK_NUMBER_LIMIT {
        ACK_NUMBER_LIMIT
    } else {
        limit as usize
    }
}

/// An ack segment that acknowledges nothing yet.
pub open spec fn empty_ack(limit: int) -> AckView {
    AckView {
        conv: 0,
        option: 0,
        receiving_window: 0,
        receiving_next: 0,
        timestamp: 0,
        numbers: Seq::empty(),
        limit: clamp_limit(limit),
    }
}

/// `a - b` on 32-bit counters that start again after their last value.
pub open spec fn wrapping_distance(a: u32, b: u32) -> int {
    (a - b) % 0x1_0000_0000
}

/// The later of the two timestamps, `new` unless it lies before `old`.
pub open spec fn later_timestamp(old: u32, new: u32) -> u32 {
    if wrapping_distance(new, old) < 0x7FFF_FFFF {
        new
    } else {
        old
    }
}

/// Whether `body` holds the body of an ack segment.
pub open spec fn ack_body_valid(body: Seq<u8>) -> bool {
    body.len() >= 13 && body.len() >= 13 + body[12] * 4
}

/// The first `count` numbers of an ack segment's body.
pub open spec fn body_numbers(body: Seq<u8>, count: nat) -> Seq<u32> {
    Seq::new(count, |i: int| wire::be_u32(body, 13 + i * 4))
}

/// The ack segment `old` after parsing `body`: where `body` is too short the
/// fields that were not reached keep their values.
pub open spec fn ack_parsed(
    old: AckView,
    conv: u16,
    opt: SegmentOption,
    body: Seq<u8>,
) -> AckView {
    if body.len() < 13 {
        AckView { conv, option: opt, ..old }
    } else {
        AckView {
            conv,
            option: opt,
            receiving_window: wire::be_u32(body, 0),
            receiving_next: wire::be_u32(body, 4),
            timestamp: wire::be_u32(body, 8),
            numbers: if ack_body_valid(body) {
                body_numbers(body, body[12] as nat)
            } else {
                old.numbers
            },
            limit: old.limit,
        }
    }
}

impl AckSegment {
    /// An ack segment that is full with `limit` numbers, with one where
    /// `limit` is less and with [`ACK_NUMBER_LIMIT`] where it is more.
    pub fn new(limit: usize) -> (s: Self)
        ensures
            s@ == empty_ack(limit as int),
    {
        let clamped: usize = if limit < 1 {
            1
        } else if limit > ACK_NUMBER_LIMIT {
            ACK_NUMBER_LIMIT
        } else {
            limit
        };
        AckSegment {
            conv: 0,
            option: 0,
            receiving_window: 0,
            receiving_next: 0,
            timestamp: 0,
            number_list: Vec::new(),
            limit: clamped,
        }
    }

    /// Adds a number.
    pub fn put_number(&mut self, n: u32)
        ensures
            final(self)@ == (AckView { numbers: old(self)@.numbers.push(n), ..old(self)@ }),
    {
        self.number_list.push(n);
    }

    /// Moves the timestamp forward to `timestamp`, never back.
    pub fn put_timestamp(&mut self, timestamp: u32)
        ensures
            final(self)@ == (AckView {
                timestamp: later_timestamp(old(self)@.timestamp, timestamp),
                ..old(self)@
            }),
    {
        if timestamp.wrapping_sub(self.timestamp) < 0x7FFF_FFFF {
            self.timestamp = timestamp;
        }
    }

    /// Whether the segment holds exactly as many numbers as its limit says.
    pub fn is_full(&self) -> (b: bool)
        ensures
            b == (self@.numbers.len() == self@.limit),
    {
        self.number_list.len() == self.limit
    }

    /// Whether the segment holds no number.
    pub fn is_empty(&self) -> (b: bool)
        ensures
            b == (self@.numbers.len() == 0),
    {
        self.number_list.len() == 0
    }
}

impl Default for AckSegment {
    fn default() -> (s: Self)
        ensures
            s@ == (AckView { limit: 0, ..empty_ack(0) }),
    {
        AckSegment {
            conv: 0,
            option: 0,
            receiving_window: 0,
            receiving_next: 0,
            timestamp: 0,
            number_list: Vec::new(),
            limit: 0,
        }
    }
}

impl Segment for AckSegment {
    open spec fn wire(&self) -> Seq<u8> {
        self@.wire()
    }

    open spec fn conv_of(&self) -> u16 {
        self.conv
    }

    open spec fn command_of(&self) -> Command {
        Command::Ack
    }

    fn release(&mut self)
        ensures
            final(self)@ == (AckView { numbers: Seq::empty(), ..old(self)@ }),
    {
        self.number_list.clear();
    }

    fn conversation(&self) -> (conv: u16) {
        self.conv
    }

    fn command(&self) -> (cmd: Command) {
        Command::Ack
    }

    fn byte_size(&self) -> (n: usize) {
        17 + self.number_list.len() * 4
    }

    fn serialize(&self, buf: &mut [u8]) {
        let ghost before = buf@;
        let total: usize = buf.len();
        let count_field: u8 = (self.number_list.len() % 0x100) as u8;
        let ghost h0 = header_bytes(self.conv, Command::Ack, self.option);
        let ghost h1 = h0 + wire::u32_be(self.receiving_window);
        let ghost h2 = h1 + wire::u32_be(self.receiving_next);
        let ghost h3 = h2 + wire::u32_be(self.timestamp);
        let ghost head = h3 + seq![count_field];
        set_header(buf, self.conv, Command::Ack, self.option);
        wire::set_u32(buf, 4, self.receiving_window);
        wire::set_u32(buf, 8, self.receiving_next);
        wire::set_u32(buf, 12, self.timestamp);
        wire::set_u8(buf, 16, count_field);
        proof {
            wire::lemma_splice_next(before, h0, wire::u32_be(self.receiving_window));
            wire::lemma_splice_next(before, h1, wire::u32_be(self.receiving_next));
            wire::lemma_splice_next(before, h2, wire::u32_be(self.timestamp));
            wire::lemma_splice_next(before, h3, seq![count_field]);
            assert(head + numbers_bytes(self.number_list@.take(0)) =~= head);
        }
        let mut i: usize = 0;
        while i < self.number_list.len()
            invariant
                i <= self.number_list@.len(),
                total == before.len(),
                17 + self.number_list@.len() * 4 <= total,
                head.len() == 17,
                buf@ == head + numbers_bytes(self.number_list@.take(i as int)) + before.skip(
                    17 + i * 4,
                ),
            decreases self.number_list@.len() - i,
        {
            wire::set_u32(buf, 17 + i * 4, self.number_list[i]);
            proof {
                let done = self.number_list@.take(i as int);
                let next = self.number_list@.take(i + 1);
                assert(numbers_bytes(next) =~= numbers_bytes(done) + wire::u32_be(
                    self.number_list@[i as int],
                )) by {
                    assert forall|k: int| 0 <= k < numbers_bytes(next).len() implies numbers_bytes(
                        next,
                    )[k] == (numbers_bytes(done) + wire::u32_be(self.number_list@[i as int]))[k] by {
                        if k < i * 4 {
                            assert(next[k / 4] == done[k / 4]);
                        } else {
                            assert(k / 4 == i && k % 4 == k - i * 4);
                        }
                    }
                }
                wire::lemma_splice_next(
                    before,
                    head + numbers_bytes(done),
                    wire::u32_be(self.number_list@[i as int]),
                );
                assert((head + numbers_bytes(done)) + wire::u32_be(self.number_list@[i as int])
                    =~= head + numbers_bytes(next));
            }
            i += 1;
        }
        proof {
            assert(self.number_list@.take(i as int) =~= self.number_list@);
        }
    }

    fn parse(&mut self, conv: u16, cmd: Command, opt: SegmentOption, body: &[u8]) -> (r: (
        bool,
        usize,
    ))
        ensures
            r.0 == ack_body_valid(body@),
            r.1 == (if r.0 { 13 + body@[12] * 4 } else { 0 }),
            final(self)@ == ack_parsed(old(self)@, conv, opt, body@),
    {
        self.conv = conv;
        self.option = opt;
        if body.len() < 13 {
            return (false, 0);
        }
        self.receiving_window = wire::get_u32(body, 0);
        self.receiving_next = wire::get_u32(body, 4);
        self.timestamp = wire::get_u32(body, 8);
        let count: usize = body[12] as usize;
        if body.len() < 13 + count * 4 {
            return (false, 0);
        }
        let mut numbers: Vec<u32> = Vec::new();
        let mut i: usize = 0;
        while i < count
            invariant
                i <= count <= 255,
                13 + count * 4 <= body@.len(),
                numbers@ == body_numbers(body@, i as nat),
            decreases count - i,
        {
            numbers.push(wire::get_u32(body, 13 + i * 4));
            i += 1;
            assert(numbers@ =~= body_numbers(body@, i as nat));
        }
        self.number_list = numbers;
        (true, 13 + count * 4)
    }
}

/// A segment that is all command: a ping, or the end of a connection.
#[derive(Debug, Clone, Copy)]
pub struct CmdOnlySegment {
    pub conv: u16,
    pub cmd: Command,
    pub option: SegmentOption,
    /// The first number that the sender has no acknowledgement for.
    pub sending_next: u32,
    /// The first number that the sender still waits for.
    pub receiving_next: u32,
    /// The sender's retransmission timeout.
    pub peer_rto: u32,
}

impl CmdOnlySegment {
    /// A ping with every field zero.
    pub fn new() -> (s: Self)
        ensures
            s == (CmdOnlySegment {
                conv: 0,
                cmd: Command::Ping,
                option: 0,
                sending_next: 0,
                receiving_next: 0,
                peer_rto: 0,
            }),
    {
        CmdOnlySegment {
            conv: 0,
            cmd: Command::Ping,
            option: 0,
            sending_next: 0,
            receiving_next: 0,
            peer_rto: 0,
        }
    }
}

impl Default for CmdOnlySegment {
    fn default() -> (s: Self)
        ensures
            s == (CmdOnlySegment {
                conv: 0,
                cmd: Command::Ping,
                option: 0,
                sending_next: 0,
                receiving_next: 0,
                peer_rto: 0,
            }),
    {
        CmdOnlySegment::new()
    }
}

/// The command segment `old` after parsing `body`: where `body` is too short
/// the fields that were not reached keep their values.
pub open spec fn cmd_parsed(
    old: CmdOnlySegment,
    conv: u16,
    cmd: Command,
    opt: SegmentOption,
    body: Seq<u8>,
) -> CmdOnlySegment {
    if body.len() < 12 {
        CmdOnlySegment { conv, cmd, option: opt, ..old }
    } else {
        CmdOnlySegment {
            conv,
            cmd,
            option: opt,
            sending_next: wire::be_u32(body, 0),
            receiving_next: wire::be_u32(body, 4),
            peer_rto: wire::be_u32(body, 8),
        }
    }
}

impl Segment for CmdOnlySegment {
    open spec fn wire(&self) -> Seq<u8> {
        header_bytes(self.conv, self.cmd, self.option) + wire::u32_be(self.sending_next)
            + wire::u32_be(self.receiving_next) + wire::u32_be(self.peer_rto)
    }

    open spec fn conv_of(&self) -> u16 {
        self.conv
    }

    open spec fn command_of(&self) -> Command {
        self.cmd
    }

    fn release(&mut self)
        ensures
            *final(self) == *old(self),
    {
    }

    fn conversation(&self) -> (conv: u16) {
        self.conv
    }

    fn command(&self) -> (cmd: Command) {
        self.cmd
    }

    fn byte_size(&self) -> (n: usize) {
        16
    }

    fn serialize(&self, buf: &mut [u8]) {
        let ghost before = buf@;
        let ghost h0 = header_bytes(self.conv, self.cmd, self.option);
        let ghost h1 = h0 + wire::u32_be(self.sending_next);
        let ghost h2 = h1 + wire::u32_be(self.receiving_next);
        set_header(buf, self.conv, self.cmd, self.option);
        wire::set_u32(buf, 4, self.sending_next);
        wire::set_u32(buf, 8, self.receiving_next);
        wire::set_u32(buf, 12, self.peer_rto);
        proof {
            wire::lemma_splice_next(before, h0, wire::u32_be(self.sending_next));
            wire::lemma_splice_next(before, h1, wire::u32_be(self.receiving_next));
            wire::lemma_splice_next(before, h2, wire::u32_be(self.peer_rto));
        }
    }

    fn parse(&mut self, conv: u16, cmd: Command, opt: SegmentOption, body: &[u8]) -> (r: (
        bool,
        usize,
    ))
        ensures
            r.0 == (body@.len() >= 12),
            r.1 == (if r.0 { 12int } else { 0 }),
            *final(self) == cmd_parsed(*old(self), conv, cmd, opt, body@),
    {
        self.conv = conv;
        self.cmd = cmd;
        self.option = opt;
        if body.len() < 12 {
            return (false, 0);
        }
        self.sending_next = wire::get_u32(body, 0);
        self.receiving_next = wire::get_u32(body, 4);
        self.peer_rto = wire::get_u32(body, 8);
        (true, 12)
    }
}

/// A segment of any kind.
#[derive(Debug)]
pub enum SegmentKind {
    Data(DataSegment),
    Ack(AckSegment),
    /// A ping or the end of a connection.
    Cmd(CmdOnlySegment),
}

/// The contents of a segment of any kind.
pub enum SegmentView {
    Data(DataView),
    Ack(AckView),
    Cmd(CmdOnlySegment),
}

impl View for SegmentKind {
    type V = SegmentView;

    open spec fn view(&self) -> SegmentView {
        match self {
            SegmentKind::Data(s) => SegmentView::Data(s@),
            SegmentKind::Ack(s) => SegmentView::Ack(s@),
            SegmentKind::Cmd(s) => SegmentView::Cmd(*s),
        }
    }
}

impl SegmentView {
    /// The conversation that the segment belongs to.
    pub open spec fn conv(self) -> u16 {
        match self {
            SegmentView::Data(s) => s.conv,
            SegmentView::Ack(s) => s.conv,
            SegmentView::Cmd(s) => s.conv,
        }
    }

    /// The segment's command.
    pub open spec fn command(self) -> Command {
        match self {
            SegmentView::Data(_) => Command::Data,
            SegmentView::Ack(_) => Command::Ack,
            SegmentView::Cmd(s) => s.cmd,
        }
    }

    /// What the segment is written as.
    pub open spec fn wire(self) -> Seq<u8> {
        match self {
            SegmentView::Data(s) => s.wire(),
            SegmentView::Ack(s) => s.wire(),
            SegmentView::Cmd(s) => s.wire(),
        }
    }

    /// Whether the segment's length fields can hold its lengths, and its
    /// command byte tells its kind.
    pub open spec fn fits_wire(self) -> bool {
        match self {
            SegmentView::Data(s) => s.bytes().len() < 0x1_0000,
            SegmentView::Ack(s) => s.numbers.len() < 0x100,
            SegmentView::Cmd(s) => s.cmd == Command::Terminate || s.cmd == Command::Ping,
        }
    }

    /// The segment that a reader makes of the bytes: what does not travel is
    /// as in a new segment, and a missing payload is an empty one.
    pub open spec fn as_read(self) -> SegmentView {
        match self {
            SegmentView::Data(s) => SegmentView::Data(
                DataView { payload: Some(s.bytes()), timeout: 0, transmit: 0, ..s },
            ),
            SegmentView::Ack(s) => SegmentView::Ack(AckView { limit: ACK_NUMBER_LIMIT, ..s }),
            SegmentView::Cmd(s) => SegmentView::Cmd(s),
        }
    }
}

impl SegmentKind {
    /// The conversation that the segment belongs to.
    pub fn conversation(&self) -> (conv: u16)
        ensures
            conv == self@.conv(),
    {
        match self {
            SegmentKind::Data(s) => s.conv,
            SegmentKind::Ack(s) => s.conv,
            SegmentKind::Cmd(s) => s.conv,
        }
    }

    /// The segment's command.
    pub fn command(&self) -> (cmd: Command)
        ensures
            cmd == self@.command(),
    {
        match self {
            SegmentKind::Data(_) => Command::Data,
            SegmentKind::Ack(_) => Command::Ack,
            SegmentKind::Cmd(s) => s.cmd,
        }
    }

    /// The number of bytes that the segment is written as.
    pub fn byte_size(&self) -> (n: usize)
        requires
            self@.wire().len() <= usize::MAX,
        ensures
            n == self@.wire().len(),
    {
        match self {
            SegmentKind::Data(s) => s.byte_size(),
            SegmentKind::Ack(s) => s.byte_size(),
            SegmentKind::Cmd(s) => s.byte_size(),
        }
    }

    /// Writes the segment at the start of `buf`.
    pub fn serialize(&self, buf: &mut [u8])
        requires
            self@.wire().len() <= old(buf)@.len(),
        ensures
            final(buf)@ == self@.wire() + old(buf)@.skip(self@.wire().len() as int),
    {
        match self {
            SegmentKind::Data(s) => s.serialize(buf),
            SegmentKind::Ack(s) => s.serialize(buf),
            SegmentKind::Cmd(s) => s.serialize(buf),
        }
    }
}

/// The contents of segments.
pub open spec fn segment_views(segs: Seq<SegmentKind>) -> Seq<SegmentView> {
    Seq::new(segs.len(), |i: int| segs[i]@)
}

/// The segment at the start of `buf` and the number of bytes that it covers,
/// or nothing where `buf` does not start with a whole segment.
#[verifier::opaque]
pub open spec fn decode(buf: Seq<u8>) -> Option<(SegmentView, nat)> {
    if buf.len() < 4 || buf[2] > 3 {
        None
    } else {
        let conv = wire::be_u16(buf, 0);
        let body = buf.skip(4);
        if buf[2] == 1 {
            if data_body_valid(body) {
                Some(
                    (
                        SegmentView::Data(
                            DataView {
                                conv,
                                option: buf[3],
                                timestamp: wire::be_u32(body, 0),
                                number: wire::be_u32(body, 4),
                                sending_next: wire::be_u32(body, 8),
                                payload: Some(body.subrange(14, 14 + wire::be_u16(body, 12))),
                                timeout: 0,
                                transmit: 0,
                            },
                        ),
                        (18 + wire::be_u16(body, 12)) as nat,
                    ),
                )
            } else {
                None
            }
        } else if buf[2] == 0 {
            if ack_body_valid(body) {
                Some(
                    (
                        SegmentView::Ack(
                            AckView {
                                conv,
                                option: buf[3],
                                receiving_window: wire::be_u32(body, 0),
                                receiving_next: wire::be_u32(body, 4),
                                timestamp: wire::be_u32(body, 8),
                                numbers: body_numbers(body, body[12] as nat),
                                limit: ACK_NUMBER_LIMIT,
                            },
                        ),
                        (17 + body[12] * 4) as nat,
                    ),
                )
            } else {
                None
            }
        } else if body.len() >= 12 {
            Some(
                (
                    SegmentView::Cmd(
                        CmdOnlySegment {
                            conv,
                            cmd: if buf[2] == 2 {
                                Command::Terminate
                            } else {
                                Command::Ping
                            },
                            option: buf[3],
                            sending_next: wire::be_u32(body, 0),
                            receiving_next: wire::be_u32(body, 4),
                            peer_rto: wire::be_u32(body, 8),
                        },
                    ),
                    16,
                ),
            )
        } else {
            None
        }
    }
}

/// Reads the segment at the start of `buf`, and the number of bytes that it
/// covers.
pub fn read_segment(buf: &[u8]) -> (r: Option<(SegmentKind, usize)>)
    ensures
        match (r, decode(buf@)) {
            (Some(got), Some(want)) => got.0@ == want.0 && got.1 == want.1,
            (None, None) => true,
            _ => false,
        },
{
    reveal(decode);
    if buf.len() < 4 {
        return None;
    }
    let conv: u16 = wire::get_u16(buf, 0);
    let cmd = match Command::from_u8(buf[2]) {
        Some(cmd) => cmd,
        None => return None,
    };
    let opt: u8 = buf[3];
    let body = wire::copy_range(buf, 4, buf.len());
    assert(body@ =~= buf@.skip(4));
    match cmd {
        Command::Data => {
            let mut s = DataSegment::new();
            let (valid, n) = s.parse(conv, cmd, opt, body.as_slice());
            if valid {
                Some((SegmentKind::Data(s), 4 + n))
            } else {
                None
            }
        },
        Command::Ack => {
            let mut s = AckSegment::new(ACK_NUMBER_LIMIT);
            let (valid, n) = s.parse(conv, cmd, opt, body.as_slice());
            if valid {
                Some((SegmentKind::Ack(s), 4 + n))
            } else {
                None
            }
        },
        Command::Terminate | Command::Ping => {
            let mut s = CmdOnlySegment::new();
            let (valid, n) = s.parse(conv, cmd, opt, body.as_slice());
            if valid {
                Some((SegmentKind::Cmd(s), 4 + n))
            } else {
                None
            }
        },
    }
}

proof fn lemma_decode_data(s: DataView, rest: Seq<u8>)
    requires
        s.bytes().len() < 0x1_0000,
    ensures
        decode(s.wire() + rest) == Some((SegmentView::Data(s).as_read(), s.wire().len())),
{
    reveal(decode);
    let buf = s.wire() + rest;
    let body = buf.skip(4);
    let n = s.bytes().len() as int;
    assert(buf.subrange(0, 2) =~= wire::u16_be(s.conv));
    wire::lemma_u16_round_trip(buf, 0, s.conv);
    assert(body.subrange(0, 4) =~= wire::u32_be(s.timestamp));
    wire::lemma_u32_round_trip(body, 0, s.timestamp);
    assert(body.subrange(4, 8) =~= wire::u32_be(s.number));
    wire::lemma_u32_round_trip(body, 4, s.number);
    assert(body.subrange(8, 12) =~= wire::u32_be(s.sending_next));
    wire::lemma_u32_round_trip(body, 8, s.sending_next);
    assert(body.subrange(12, 14) =~= wire::u16_be(n as u16));
    wire::lemma_u16_round_trip(body, 12, n as u16);
    assert(body.subrange(14, 14 + n) =~= s.bytes());
}

proof fn lemma_decode_ack(s: AckView, rest: Seq<u8>)
    requires
        s.numbers.len() < 0x100,
    ensures
        decode(s.wire() + rest) == Some((SegmentView::Ack(s).as_read(), s.wire().len())),
{
    reveal(decode);
    let buf = s.wire() + rest;
    let body = buf.skip(4);
    let n = s.numbers.len();
    assert(buf.subrange(0, 2) =~= wire::u16_be(s.conv));
    wire::lemma_u16_round_trip(buf, 0, s.conv);
    assert(body.subrange(0, 4) =~= wire::u32_be(s.receiving_window));
    wire::lemma_u32_round_trip(body, 0, s.receiving_window);
    assert(body.subrange(4, 8) =~= wire::u32_be(s.receiving_next));
    wire::lemma_u32_round_trip(body, 4, s.receiving_next);
    assert(body.subrange(8, 12) =~= wire::u32_be(s.timestamp));
    wire::lemma_u32_round_trip(body, 8, s.timestamp);
    assert(body[12] == n);
    assert forall|i: int| 0 <= i < n implies wire::be_u32(body, 13 + i * 4) == s.numbers[i] by {
        assert forall|k: int| 0 <= k < 4 implies body[13 + i * 4 + k] == wire::u32_be(
            s.numbers[i],
        )[k] by {
            assert(body[13 + i * 4 + k] == numbers_bytes(s.numbers)[i * 4 + k]);
            assert((i * 4 + k) / 4 == i && (i * 4 + k) % 4 == k);
        }
        assert(body.subrange(13 + i * 4, 13 + i * 4 + 4) =~= wire::u32_be(s.numbers[i]));
        wire::lemma_u32_round_trip(body, 13 + i * 4, s.numbers[i]);
    }
    assert(body_numbers(body, n) =~= s.numbers);
}

proof fn lemma_decode_cmd(s: CmdOnlySegment, rest: Seq<u8>)
    requires
        s.cmd == Command::Terminate || s.cmd == Command::Ping,
    ensures
        decode(s.wire() + rest) == Some((SegmentView::Cmd(s), s.wire().len())),
{
    reveal(decode);
    let buf = s.wire() + rest;
    let body = buf.skip(4);
    assert(buf.subrange(0, 2) =~= wire::u16_be(s.conv));
    wire::lemma_u16_round_trip(buf, 0, s.conv);
    assert(body.subrange(0, 4) =~= wire::u32_be(s.sending_next));
    wire::lemma_u32_round_trip(body, 0, s.sending_next);
    assert(body.subrange(4, 8) =~= wire::u32_be(s.receiving_next));
    wire::lemma_u32_round_trip(body, 4, s.receiving_next);
    assert(body.subrange(8, 12) =~= wire::u32_be(s.peer_rto));
    wire::lemma_u32_round_trip(body, 8, s.peer_rto);
}

/// A reader that meets a written segment, whatever follows it, gets back what
/// was written and knows where it ends.
pub proof fn law_decode_inverts_wire(seg: SegmentView, rest: Seq<u8>)
    requires
        seg.fits_wire(),
    ensures
        decode(seg.wire() + rest) == Some((seg.as_read(), seg.wire().len())),
{
    match seg {
        SegmentView::Data(s) => lemma_decode_data(s, rest),
        SegmentView::Ack(s) => lemma_decode_ack(s, rest),
        SegmentView::Cmd(s) => lemma_decode_cmd(s, rest),
    }
}

/// A data segment takes eighteen bytes and its payload, an acknowledgement
/// seventeen and four for each number, and a command sixteen.
pub proof fn law_wire_sizes(data: DataView, ack: AckView, cmd: CmdOnlySegment)
    ensures
        data.wire().len() == 18 + data.bytes().len(),
        ack.wire().len() == 17 + 4 * ack.numbers.len(),
        cmd.wire().len() == 16,
{
    lemma_data_wire_len(data);
}

/// A segment that was read covers at least sixteen of the bytes that it was
/// read from, and never more bytes than there are.
pub proof fn law_decode_stays_inside(buf: Seq<u8>)
    ensures
        decode(buf) matches Some(got) ==> 16 <= got.1 <= buf.len(),
{
    reveal(decode);
}

} // verus!
