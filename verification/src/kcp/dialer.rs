//! Opening connections.

use vstd::prelude::*;

use crate::kcp::connection::{action_views, input_outcome, Action, Connection};
use crate::kcp::error::{KcpError, Result};
use crate::kcp::io::PacketReader;
use crate::kcp::segment::segment_views;

verus! {

/// Counts conversations.
#[derive(Debug, Clone, Copy, PartialEq, Eq, Structural)]
pub struct ConvCounter {
    pub last: u32,
}

/// A counter whose next conversation is the one after `seed`.
pub fn init_global_conv(seed: u16) -> (counter: ConvCounter)
    ensures
        counter.last == seed,
{
    ConvCounter { last: seed as u32 }
}

/// The next conversation, as a number of sixteen bits.
pub fn next_conv(counter: &mut ConvCounter) -> (conv: u16)
    ensures
        final(counter).last == (old(counter).last + 1) % 0x1_0000_0000,
        conv == (old(counter).last + 1) % 0x1_0000,
{
    counter.last = counter.last.wrapping_add(1);
    (counter.last % 0x1_0000) as u16
}

/// The conversation that a counter gives out when it has been asked `n` times
/// before.
pub open spec fn nth_conv(start: ConvCounter, n: nat) -> int {
    (start.last + n + 1) % 0x1_0000
}

/// Conversations are given out again only after all others were.
pub proof fn law_conversations_differ(start: ConvCounter, i: nat, j: nat)
    requires
        i < j < i + 0x1_0000,
    ensures
        nth_conv(start, i) != nth_conv(start, j),
{
}

/// Asking once more gives out the next conversation of the sequence.
pub proof fn law_counter_follows_sequence(start: ConvCounter, counter: ConvCounter, n: nat)
    requires
        counter.last == (start.last + n) % 0x1_0000_0000,
    ensures
        (counter.last + 1) % 0x1_0000 == nth_conv(start, n),
{
}

/// Hands what the socket gave to the connection: the segments of a datagram
/// and the time it came at. Nothing is returned where the socket has ended.
pub fn fetch_input<R: PacketReader>(
    payload: Option<&[u8]>,
    reader: &R,
    conn: &mut Connection,
    now: u32,
) -> (r: Option<Vec<Action>>)
    requires
        old(conn).wf(),
    ensures
        final(conn).wf(),
        r is Some <==> payload is Some,
        match (payload, r) {
            (Some(b), Some(out)) => if reader.segments_of(b@).len() == 0 {
                final(conn)@ == old(conn)@ && out@.len() == 0
            } else {
                &&& final(conn)@ == input_outcome(old(conn)@, reader.segments_of(b@), now).0
                &&& action_views(out@) == input_outcome(
                    old(conn)@,
                    reader.segments_of(b@),
                    now,
                ).1
            },
            _ => final(conn)@ == old(conn)@,
        },
{
    match payload {
        None => None,
        Some(b) => {
            let segments = reader.read(b);
            assert(segment_views(segments@).len() == segments@.len());
            if segments.len() == 0 {
                Some(Vec::new())
            } else {
                Some(conn.input(segments, now))
            }
        },
    }
}

/// Opening a connection without a socket is refused.
pub fn dial_kcp(_dest: &str) -> (r: Result<Connection>)
    ensures
        r matches Err(KcpError::Io(detail))
            && detail@ == "DialKCP requires injected UDP transport; not yet wired"@,
{
    Err(KcpError::Io("DialKCP requires injected UDP transport; not yet wired".to_owned()))
}

} // verus!
