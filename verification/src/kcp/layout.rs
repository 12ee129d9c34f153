//! Where each field of a segment stands in its bytes.

use vstd::prelude::*;

use crate::kcp::segment::{
    ack_body_valid, ack_parsed, cmd_parsed, data_body_valid, data_parsed, decode, later_timestamp,
    AckView, CmdOnlySegment, Command, DataView, Segment, SegmentView,
};
use crate::wire;

verus! {

/// The number in the two bytes from `at` on, the greater one first.
pub open spec fn short_at(b: Seq<u8>, at: int) -> int {
    b[at] * 256 + b[at + 1]
}

/// The number in the four bytes from `at` on, the greatest first.
pub open spec fn word_at(b: Seq<u8>, at: int) -> int {
    b[at] * 16_777_216 + b[at + 1] * 65_536 + b[at + 2] * 256 + b[at + 3]
}

proof fn lemma_word(b: Seq<u8>, at: int, x: u32)
    requires
        0 <= at,
        at + 4 <= b.len(),
        b.subrange(at, at + 4) == wire::u32_be(x),
    ensures
        word_at(b, at) == x,
{
    let four = b.subrange(at, at + 4);
    assert(four[0] == b[at] && four[1] == b[at + 1] && four[2] == b[at + 2] && four[3] == b[at
        + 3]);
    let hi = x as int / 0x100_0000;
    assert(x as int / 0x1_0000 / 0x100 == hi);
    assert(x as int / 0x100 / 0x100 == x as int / 0x1_0000);
}

proof fn lemma_short(b: Seq<u8>, at: int, x: u16)
    requires
        0 <= at,
        at + 2 <= b.len(),
        b.subrange(at, at + 2) == wire::u16_be(x),
    ensures
        short_at(b, at) == x,
{
    let two = b.subrange(at, at + 2);
    assert(two[0] == b[at] && two[1] == b[at + 1]);
}

/// A data segment: the conversation, a one, the option, when it was sent, its
/// number, the first number without acknowledgement, the length of the payload
/// and the payload.
pub proof fn law_data_layout(s: DataView)
    ensures
        ({
            let b = s.wire();
            &&& b.len() == 18 + s.bytes().len()
            &&& short_at(b, 0) == s.conv
            &&& b[2] == 1
            &&& b[3] == s.option
            &&& word_at(b, 4) == s.timestamp
            &&& word_at(b, 8) == s.number
            &&& word_at(b, 12) == s.sending_next
            &&& short_at(b, 16) == s.bytes().len() % 65_536
            &&& b.skip(18) == s.bytes()
        }),
{
    let b = s.wire();
    assert(b.subrange(0, 2) =~= wire::u16_be(s.conv));
    lemma_short(b, 0, s.conv);
    assert(b.subrange(4, 8) =~= wire::u32_be(s.timestamp));
    lemma_word(b, 4, s.timestamp);
    assert(b.subrange(8, 12) =~= wire::u32_be(s.number));
    lemma_word(b, 8, s.number);
    assert(b.subrange(12, 16) =~= wire::u32_be(s.sending_next));
    lemma_word(b, 12, s.sending_next);
    let len = (s.bytes().len() % 0x1_0000) as u16;
    assert(b.subrange(16, 18) =~= wire::u16_be(len));
    lemma_short(b, 16, len);
    assert(b.skip(18) =~= s.bytes());
}

/// An ack segment: the conversation, a zero, the option, how far the window
/// reaches, the first number that is waited for, the time that is given back,
/// how many numbers follow, and the numbers.
pub proof fn law_ack_layout(s: AckView, i: int)
    requires
        0 <= i < s.numbers.len(),
    ensures
        ({
            let b = s.wire();
            &&& b.len() == 17 + 4 * s.numbers.len()
            &&& short_at(b, 0) == s.conv
            &&& b[2] == 0
            &&& b[3] == s.option
            &&& word_at(b, 4) == s.receiving_window
            &&& word_at(b, 8) == s.receiving_next
            &&& word_at(b, 12) == s.timestamp
            &&& b[16] == s.numbers.len() % 256
            &&& word_at(b, 17 + 4 * i) == s.numbers[i]
        }),
{
    let b = s.wire();
    assert(b.subrange(0, 2) =~= wire::u16_be(s.conv));
    lemma_short(b, 0, s.conv);
    assert(b.subrange(4, 8) =~= wire::u32_be(s.receiving_window));
    lemma_word(b, 4, s.receiving_window);
    assert(b.subrange(8, 12) =~= wire::u32_be(s.receiving_next));
    lemma_word(b, 8, s.receiving_next);
    assert(b.subrange(12, 16) =~= wire::u32_be(s.timestamp));
    lemma_word(b, 12, s.timestamp);
    assert(b.subrange(17 + 4 * i, 17 + 4 * i + 4) =~= wire::u32_be(s.numbers[i]));
    lemma_word(b, 17 + 4 * i, s.numbers[i]);
}

/// A command: the conversation, a two for the end or a three for a ping, the
/// option, the first number without acknowledgement, the first number that is
/// waited for, and the timeout.
pub proof fn law_command_layout(s: CmdOnlySegment)
    ensures
        ({
            let b = s.wire();
            &&& b.len() == 16
            &&& short_at(b, 0) == s.conv
            &&& s.cmd == Command::Terminate ==> b[2] == 2
            &&& s.cmd == Command::Ping ==> b[2] == 3
            &&& b[3] == s.option
            &&& word_at(b, 4) == s.sending_next
            &&& word_at(b, 8) == s.receiving_next
            &&& word_at(b, 12) == s.peer_rto
        }),
{
    let b = s.wire();
    assert(b.subrange(0, 2) =~= wire::u16_be(s.conv));
    lemma_short(b, 0, s.conv);
    assert(b.subrange(4, 8) =~= wire::u32_be(s.sending_next));
    lemma_word(b, 4, s.sending_next);
    assert(b.subrange(8, 12) =~= wire::u32_be(s.receiving_next));
    lemma_word(b, 8, s.receiving_next);
    assert(b.subrange(12, 16) =~= wire::u32_be(s.peer_rto));
    lemma_word(b, 12, s.peer_rto);
}

/// Which bytes hold a segment: the third one tells its kind, and the others are
/// enough for that kind and for what it says that follows.
pub proof fn law_readable_bytes(b: Seq<u8>)
    ensures
        decode(b) is Some <==> b.len() >= 16 && {
            ||| b[2] == 0 && b.len() >= 17 && b.len() >= 17 + 4 * b[16]
            ||| b[2] == 1 && b.len() >= 18 && b.len() >= 18 + short_at(b, 16)
            ||| b[2] == 2
            ||| b[2] == 3
        },
{
    reveal(decode);
}

/// What is read from bytes is what stands in them.
pub proof fn law_read_from_bytes(b: Seq<u8>)
    requires
        decode(b) is Some,
    ensures
        ({
            let (seg, n) = decode(b)->Some_0;
            &&& b[2] == 0 ==> n == 17 + 4 * b[16] && (seg matches SegmentView::Ack(s) && {
                &&& s.conv == short_at(b, 0)
                &&& s.option == b[3]
                &&& s.receiving_window == word_at(b, 4)
                &&& s.receiving_next == word_at(b, 8)
                &&& s.timestamp == word_at(b, 12)
                &&& s.numbers.len() == b[16]
                &&& forall|i: int|
                    0 <= i < b[16] ==> #[trigger] s.numbers[i] == word_at(b, 17 + 4 * i)
            })
            &&& b[2] == 1 ==> n == 18 + short_at(b, 16) && (seg matches SegmentView::Data(s) && {
                &&& s.conv == short_at(b, 0)
                &&& s.option == b[3]
                &&& s.timestamp == word_at(b, 4)
                &&& s.number == word_at(b, 8)
                &&& s.sending_next == word_at(b, 12)
                &&& s.payload == Some(b.subrange(18, 18 + short_at(b, 16)))
            })
            &&& b[2] == 2 || b[2] == 3 ==> n == 16 && (seg matches SegmentView::Cmd(s) && {
                &&& s.conv == short_at(b, 0)
                &&& s.cmd == if b[2] == 2 {
                    Command::Terminate
                } else {
                    Command::Ping
                }
                &&& s.option == b[3]
                &&& s.sending_next == word_at(b, 4)
                &&& s.receiving_next == word_at(b, 8)
                &&& s.peer_rto == word_at(b, 12)
            })
        }),
{
    reveal(decode);
    let body = b.skip(4);
    assert forall|at: int| 0 <= at < body.len() implies #[trigger] body[at] == b[at + 4] by {}
    assert(wire::be_u32(body, 0) == word_at(b, 4));
    assert(wire::be_u32(body, 4) == word_at(b, 8));
    assert(wire::be_u32(body, 8) == word_at(b, 12));
    if b[2] == 1 {
        assert(wire::be_u16(body, 12) == short_at(b, 16));
        assert(body.subrange(14, 14 + short_at(b, 16)) =~= b.subrange(18, 18 + short_at(b, 16)));
    }
    if b[2] == 0 {
        assert forall|i: int| 0 <= i < b[16] implies wire::be_u32(body, 13 + 4 * i) == #[trigger] word_at(
            b,
            17 + 4 * i,
        ) by {}
    }
}

/// The body of a data segment behind its header: when it was sent, its number,
/// the first number without acknowledgement, the length of the payload and the
/// payload. A body that is too short for its fields leaves them as they were.
pub proof fn law_data_body(old: DataView, conv: u16, opt: u8, body: Seq<u8>)
    ensures
        ({
            let new = data_parsed(old, conv, opt, body);
            &&& new.conv == conv && new.option == opt
            &&& new.timeout == old.timeout && new.transmit == old.transmit
            &&& body.len() >= 14 ==> {
                &&& new.timestamp == word_at(body, 0)
                &&& new.number == word_at(body, 4)
                &&& new.sending_next == word_at(body, 8)
                &&& data_body_valid(body) <==> body.len() >= 14 + short_at(body, 12)
                &&& body.len() >= 14 + short_at(body, 12) ==> new.payload == Some(
                    body.subrange(14, 14 + short_at(body, 12)),
                )
                &&& body.len() < 14 + short_at(body, 12) ==> new.payload == old.payload
            }
            &&& body.len() < 14 ==> !data_body_valid(body) && new == (DataView {
                conv,
                option: opt,
                ..old
            })
        }),
{
}

/// The body of an ack segment behind its header: how far the window reaches, the
/// first number that is waited for, the time that is given back, how many numbers
/// follow, and the numbers.
pub proof fn law_ack_body(old: AckView, conv: u16, opt: u8, body: Seq<u8>)
    ensures
        ({
            let new = ack_parsed(old, conv, opt, body);
            &&& new.conv == conv && new.option == opt && new.limit == old.limit
            &&& body.len() >= 13 ==> {
                &&& new.receiving_window == word_at(body, 0)
                &&& new.receiving_next == word_at(body, 4)
                &&& new.timestamp == word_at(body, 8)
                &&& ack_body_valid(body) <==> body.len() >= 13 + 4 * body[12]
                &&& body.len() >= 13 + 4 * body[12] ==> new.numbers.len() == body[12] && forall|
                    i: int,
                |
                    0 <= i < body[12] ==> #[trigger] new.numbers[i] == word_at(body, 13 + 4 * i)
                &&& body.len() < 13 + 4 * body[12] ==> new.numbers == old.numbers
            }
            &&& body.len() < 13 ==> !ack_body_valid(body) && new == (AckView {
                conv,
                option: opt,
                ..old
            })
        }),
{
}

/// The body of a command behind its header: the first number without
/// acknowledgement, the first number that is waited for, and the timeout.
pub proof fn law_command_body(old: CmdOnlySegment, conv: u16, cmd: Command, opt: u8, body: Seq<u8>)
    ensures
        ({
            let new = cmd_parsed(old, conv, cmd, opt, body);
            &&& new.conv == conv && new.cmd == cmd && new.option == opt
            &&& body.len() >= 12 ==> {
                &&& new.sending_next == word_at(body, 0)
                &&& new.receiving_next == word_at(body, 4)
                &&& new.peer_rto == word_at(body, 8)
            }
            &&& body.len() < 12 ==> new == (CmdOnlySegment { conv, cmd, option: opt, ..old })
        }),
{
}

/// Of two times the one that is less than half the range of times ahead of the
/// other is the later one.
pub proof fn law_later_of_two_times(old: u32, new: u32)
    ensures
        (new - old) % 0x1_0000_0000 < 0x7FFF_FFFF ==> later_timestamp(old, new) == new,
        (new - old) % 0x1_0000_0000 >= 0x7FFF_FFFF ==> later_timestamp(old, new) == old,
{
}

} // verus!
