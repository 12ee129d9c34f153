use udp_transports::kcp::buffer::{Buffer, MultiBuffer};
use udp_transports::kcp::error::{KcpError, Result};
use udp_transports::kcp::io::{KCPPacketReader, PacketReader};
use udp_transports::kcp::output::{
    Attempt, Datagrams, Outcomes, RetryableWriter, SimpleSegmentWriter, UnderlyingWriter, SegmentWriter,
};
use udp_transports::kcp::segment::{
    read_segment, AckSegment, CmdOnlySegment, Command, DataSegment, Segment, SegmentKind,
    ACK_NUMBER_LIMIT, DATA_SEGMENT_OVERHEAD, SEGMENT_OPTION_CLOSE,
};

// Segments.

#[test]
fn read_segment_returns_none_for_short_input() {
    assert!(read_segment(&[]).is_none());
    assert!(read_segment(&[1u8]).is_none());
    assert!(read_segment(&[1u8, 2, 3]).is_none());
}

#[test]
fn read_segment_returns_none_for_invalid_cmd() {
    assert!(read_segment(&[0, 1, 99, 0]).is_none());
}

#[test]
fn data_segment_round_trip() {
    let mut seg = DataSegment::new();
    seg.conv = 1;
    seg.timestamp = 3;
    seg.number = 4;
    seg.sending_next = 5;
    seg.data().write_from(b"abcd");

    let n = seg.byte_size();
    assert_eq!(n, DATA_SEGMENT_OVERHEAD + 4);
    let mut buf = vec![0u8; n];
    seg.serialize(&mut buf);

    let (parsed, consumed) = read_segment(&buf).expect("parse ok");
    assert_eq!(consumed, n);
    match parsed {
        SegmentKind::Data(s) => {
            assert_eq!(s.conv, 1);
            assert_eq!(s.timestamp, 3);
            assert_eq!(s.number, 4);
            assert_eq!(s.sending_next, 5);
            assert_eq!(s.payload.as_ref().unwrap().bytes(), b"abcd");
        },
        other => panic!("expected Data, got {other:?}"),
    }
}

#[test]
fn one_byte_data_segment_round_trip() {
    let mut seg = DataSegment::new();
    seg.conv = 1;
    seg.timestamp = 3;
    seg.number = 4;
    seg.sending_next = 5;
    seg.data().write_byte(b'a');

    let n = seg.byte_size();
    let mut buf = vec![0u8; n];
    seg.serialize(&mut buf);

    let (parsed, consumed) = read_segment(&buf).expect("parse ok");
    assert_eq!(consumed, n);
    match parsed {
        SegmentKind::Data(s) => {
            assert_eq!(s.payload.as_ref().unwrap().bytes(), b"a");
        },
        other => panic!("expected Data, got {other:?}"),
    }
}

#[test]
fn data_segment_bytes_on_the_wire() {
    let mut seg = DataSegment::new();
    seg.conv = 0x0102;
    seg.option = SEGMENT_OPTION_CLOSE;
    seg.timestamp = 0x03040506;
    seg.number = 0x0708090A;
    seg.sending_next = 0x0B0C0D0E;
    seg.data().write_from(&[0xFE, 0xFF]);
    let mut buf = vec![0u8; seg.byte_size()];
    seg.serialize(&mut buf);
    assert_eq!(
        buf,
        vec![1, 2, 1, 1, 3, 4, 5, 6, 7, 8, 9, 10, 11, 12, 13, 14, 0, 2, 0xFE, 0xFF]
    );
}

#[test]
fn ack_segment_round_trip() {
    let mut seg = AckSegment::new(128);
    seg.conv = 1;
    seg.receiving_window = 2;
    seg.receiving_next = 3;
    seg.timestamp = 10;
    seg.number_list = vec![1, 3, 5, 7, 9];

    let n = seg.byte_size();
    let mut buf = vec![0u8; n];
    seg.serialize(&mut buf);

    let (parsed, consumed) = read_segment(&buf).expect("parse ok");
    assert_eq!(consumed, n);
    match parsed {
        SegmentKind::Ack(s) => {
            assert_eq!(s.conv, 1);
            assert_eq!(s.receiving_window, 2);
            assert_eq!(s.receiving_next, 3);
            assert_eq!(s.timestamp, 10);
            assert_eq!(s.number_list, vec![1, 3, 5, 7, 9]);
        },
        other => panic!("expected Ack, got {other:?}"),
    }
}

#[test]
fn cmd_only_segment_round_trip_ping() {
    let mut seg = CmdOnlySegment::new();
    seg.conv = 1;
    seg.cmd = Command::Ping;
    seg.option = SEGMENT_OPTION_CLOSE;
    seg.sending_next = 11;
    seg.receiving_next = 13;
    seg.peer_rto = 15;

    let n = seg.byte_size();
    assert_eq!(n, 16);
    let mut buf = vec![0u8; n];
    seg.serialize(&mut buf);

    let (parsed, consumed) = read_segment(&buf).expect("parse ok");
    assert_eq!(consumed, 16);
    match parsed {
        SegmentKind::Cmd(s) => {
            assert_eq!(s.conv, 1);
            assert_eq!(s.cmd, Command::Ping);
            assert_eq!(s.option, SEGMENT_OPTION_CLOSE);
            assert_eq!(s.sending_next, 11);
            assert_eq!(s.receiving_next, 13);
            assert_eq!(s.peer_rto, 15);
        },
        other => panic!("expected Cmd, got {other:?}"),
    }
}

#[test]
fn cmd_only_segment_round_trip_terminate() {
    let mut seg = CmdOnlySegment::new();
    seg.conv = 42;
    seg.cmd = Command::Terminate;

    let n = seg.byte_size();
    let mut buf = vec![0u8; n];
    seg.serialize(&mut buf);

    let (parsed, _) = read_segment(&buf).expect("parse ok");
    match parsed {
        SegmentKind::Cmd(s) => {
            assert_eq!(s.conv, 42);
            assert_eq!(s.cmd, Command::Terminate);
        },
        other => panic!("expected Cmd, got {other:?}"),
    }
}

#[test]
fn ack_segment_limit_clamps() {
    assert_eq!(AckSegment::new(0).limit, 1);
    assert_eq!(AckSegment::new(1).limit, 1);
    assert_eq!(AckSegment::new(ACK_NUMBER_LIMIT).limit, ACK_NUMBER_LIMIT);
    assert_eq!(AckSegment::new(ACK_NUMBER_LIMIT + 100).limit, ACK_NUMBER_LIMIT);
}

#[test]
fn ack_segment_is_full_and_empty() {
    let mut seg = AckSegment::new(3);
    assert!(seg.is_empty());
    assert!(!seg.is_full());

    seg.put_number(1);
    seg.put_number(2);
    assert!(!seg.is_empty());
    assert!(!seg.is_full());

    seg.put_number(3);
    assert!(seg.is_full());
    assert!(!seg.is_empty());
}

#[test]
fn put_timestamp_only_grows_wrap_safe() {
    let mut seg = AckSegment::new(1);
    seg.timestamp = 100;
    seg.put_timestamp(50);
    assert_eq!(seg.timestamp, 100);
    seg.put_timestamp(200);
    assert_eq!(seg.timestamp, 200);
}

#[test]
fn data_segment_release_drops_payload() {
    let mut seg = DataSegment::new();
    seg.data().write_byte(b'x');
    assert!(seg.payload.is_some());
    seg.release();
    assert!(seg.payload.is_none());
    seg.release();
}

#[test]
fn data_segment_detach_takes_payload() {
    let mut seg = DataSegment::new();
    seg.data().write_byte(b'x');
    let taken = seg.detach();
    assert!(taken.is_some());
    assert_eq!(taken.unwrap().bytes(), b"x");
    assert!(seg.payload.is_none());

    let new_buf = seg.data();
    assert!(new_buf.is_empty());
}

#[test]
fn read_segment_invalid_data_len_returns_none() {
    let mut buf = vec![0u8; 18];
    buf[0..2].copy_from_slice(&1u16.to_be_bytes());
    buf[2] = Command::Data as u8;
    buf[16..18].copy_from_slice(&1000u16.to_be_bytes());
    assert!(read_segment(&buf).is_none());
}

#[test]
fn command_from_u8_exhaustive() {
    assert_eq!(Command::from_u8(0), Some(Command::Ack));
    assert_eq!(Command::from_u8(1), Some(Command::Data));
    assert_eq!(Command::from_u8(2), Some(Command::Terminate));
    assert_eq!(Command::from_u8(3), Some(Command::Ping));
    assert_eq!(Command::from_u8(4), None);
    assert_eq!(Command::from_u8(255), None);
}

#[test]
fn multiple_segments_in_one_packet() {
    let mut seg1 = DataSegment::new();
    seg1.conv = 1;
    seg1.number = 10;
    seg1.data().write_from(b"hello");

    let mut seg2 = CmdOnlySegment::new();
    seg2.conv = 1;
    seg2.cmd = Command::Ping;

    let mut packet = Vec::new();
    packet.resize(seg1.byte_size(), 0);
    seg1.serialize(&mut packet[0..seg1.byte_size()]);

    let off = seg1.byte_size();
    packet.resize(off + seg2.byte_size(), 0);
    seg2.serialize(&mut packet[off..off + seg2.byte_size()]);

    let (s1, c1) = read_segment(&packet).expect("first ok");
    assert_eq!(c1, seg1.byte_size());
    assert_eq!(s1.command(), Command::Data);

    let (s2, c2) = read_segment(&packet[c1..]).expect("second ok");
    assert_eq!(c2, seg2.byte_size());
    assert_eq!(s2.command(), Command::Ping);
    assert_eq!(s2.conversation(), 1);
}

#[test]
fn k3kh_data_segment_zero_payload_accepted_by_rust_parse() {
    let mut buf = vec![0u8; 18];
    buf[0..2].copy_from_slice(&1u16.to_be_bytes());
    buf[2] = Command::Data as u8;
    buf[12..14].copy_from_slice(&0u16.to_be_bytes());
    let (parsed, consumed) = read_segment(&buf).expect("ok");
    assert_eq!(consumed, 18);
    match parsed {
        SegmentKind::Data(s) => {
            assert!(s.payload.as_ref().unwrap().is_empty());
        },
        other => panic!("expected Data, got {other:?}"),
    }
}

// Buffers.

#[test]
fn buffers_split_and_copy_in_order() {
    let mut mb = MultiBuffer::new();
    for part in [&b"ab"[..], &b""[..], &b"cde"[..]] {
        let mut b = Buffer::new();
        b.write_from(part);
        mb.push(b);
    }
    assert_eq!(mb.buffer_count(), 3);
    let head = mb.split_bytes(3);
    let mut out = [0u8; 8];
    assert_eq!(head.copy_to(&mut out), 3);
    assert_eq!(&out[..3], b"abc");
    assert_eq!(mb.copy_to(&mut out), 2);
    assert_eq!(&out[..2], b"de");
}

// Reading datagrams.

#[test]
fn empty_input_returns_empty() {
    let reader = KCPPacketReader::new();
    assert!(reader.read(&[]).is_empty());
}

#[test]
fn one_byte_input_returns_empty() {
    let reader = KCPPacketReader::new();
    assert!(reader.read(&[1u8]).is_empty());
}

#[test]
fn invalid_cmd_returns_empty() {
    let reader = KCPPacketReader::new();
    assert!(reader.read(&[0, 1, 99, 0]).is_empty());
}

#[test]
fn reads_multiple_segments() {
    let mut seg1 = CmdOnlySegment::new();
    seg1.conv = 1;
    seg1.cmd = Command::Ping;

    let mut seg2 = CmdOnlySegment::new();
    seg2.conv = 2;
    seg2.cmd = Command::Terminate;

    let mut packet = Vec::new();
    packet.resize(seg1.byte_size(), 0);
    seg1.serialize(&mut packet);
    let off = seg1.byte_size();
    packet.resize(off + seg2.byte_size(), 0);
    seg2.serialize(&mut packet[off..]);

    let reader = KCPPacketReader::new();
    let segs = reader.read(&packet);
    assert_eq!(segs.len(), 2);
    assert_eq!(segs[0].conversation(), 1);
    assert_eq!(segs[0].command(), Command::Ping);
    assert_eq!(segs[1].conversation(), 2);
    assert_eq!(segs[1].command(), Command::Terminate);
}

#[test]
fn stops_at_corrupted_segment() {
    let mut seg1 = CmdOnlySegment::new();
    seg1.conv = 1;

    let mut packet = Vec::new();
    packet.resize(seg1.byte_size(), 0);
    seg1.serialize(&mut packet);
    packet.extend_from_slice(&[0, 1, 99, 0]);

    let reader = KCPPacketReader::new();
    let segs = reader.read(&packet);
    assert_eq!(segs.len(), 1);
}

// Writing.

#[derive(Debug, Default)]
struct CollectWriter {
    chunks: Vec<Vec<u8>>,
}

impl UnderlyingWriter for CollectWriter {
    fn handed(&self) -> Datagrams {
        unreachable!()
    }

    fn outcomes(&self) -> Outcomes {
        unreachable!()
    }

    fn write_all(&mut self, buf: &[u8]) -> Result<()> {
        self.chunks.push(buf.to_vec());
        Ok(())
    }
}

struct AlwaysFail;

impl UnderlyingWriter for AlwaysFail {
    fn handed(&self) -> Datagrams {
        unreachable!()
    }

    fn outcomes(&self) -> Outcomes {
        unreachable!()
    }

    fn write_all(&mut self, _buf: &[u8]) -> Result<()> {
        Err(KcpError::Io("always fail".to_string()))
    }
}

struct IntermittentWriter {
    fails_left: u32,
}

impl UnderlyingWriter for IntermittentWriter {
    fn handed(&self) -> Datagrams {
        unreachable!()
    }

    fn outcomes(&self) -> Outcomes {
        unreachable!()
    }

    fn write_all(&mut self, _buf: &[u8]) -> Result<()> {
        if self.fails_left > 0 {
            self.fails_left -= 1;
            return Err(KcpError::Io("transient fail".to_string()));
        }
        Ok(())
    }
}

fn make_seg() -> CmdOnlySegment {
    let mut s = CmdOnlySegment::new();
    s.conv = 42;
    s.cmd = Command::Ping;
    s.peer_rto = 1234;
    s
}

fn write_with_retries<W: SegmentWriter>(
    retry: &mut RetryableWriter<W>,
    seg: &CmdOnlySegment,
) -> (Result<()>, Vec<u64>) {
    let mut pauses = Vec::new();
    loop {
        match retry.attempt(seg) {
            Attempt::Written => return (Ok(()), pauses),
            Attempt::PauseThenRetry(ms) => pauses.push(ms),
            Attempt::PauseThenFail(ms, e) => {
                pauses.push(ms);
                return (Err(e), pauses);
            },
        }
    }
}

#[test]
fn simple_writer_serializes_segment_to_underlying() {
    let mut writer = SimpleSegmentWriter::new(CollectWriter::default());
    let seg = make_seg();
    writer.write_segment(&seg).expect("write ok");

    let bytes: Vec<u8> = writer.with_writer(|w: &CollectWriter| w.chunks.concat());
    assert_eq!(bytes.len(), seg.byte_size());
    assert_eq!(u16::from_be_bytes([bytes[0], bytes[1]]), 42);
    assert_eq!(bytes[2], Command::Ping as u8);
}

#[test]
fn retryable_writer_succeeds_first_try() {
    let mut retry = RetryableWriter::new(SimpleSegmentWriter::new(CollectWriter::default()));
    let seg = make_seg();
    let (result, pauses) = write_with_retries(&mut retry, &seg);
    result.expect("ok");
    assert!(pauses.is_empty());
    assert_eq!(retry.inner.writer.chunks.len(), 1);
    assert_eq!(retry.retries, 5);
    assert_eq!(retry.interval_ms, 100);
}

#[test]
fn retryable_writer_retries_on_failure() {
    let mut retry = RetryableWriter::with_retries(SimpleSegmentWriter::new(AlwaysFail), 2, 1);
    let seg = make_seg();
    let (result, pauses) = write_with_retries(&mut retry, &seg);
    assert!(result.is_err());
    assert_eq!(pauses, vec![1, 1, 1]);
}

#[test]
fn retryable_writer_recovers_after_failures() {
    let intermittent = IntermittentWriter { fails_left: 2 };
    let mut retry = RetryableWriter::with_retries(SimpleSegmentWriter::new(intermittent), 5, 1);
    let seg = make_seg();
    let (result, pauses) = write_with_retries(&mut retry, &seg);
    result.expect("the third attempt succeeds");
    assert_eq!(pauses, vec![1, 1]);
}

// Errors.

#[test]
fn display_messages_match_go() {
    assert_eq!(KcpError::IoTimeout.message(), "Read/Write timeout");
    assert_eq!(KcpError::ClosedListener.message(), "Listener closed");
    assert_eq!(KcpError::ClosedConnection.message(), "Connection closed");
    assert_eq!(KcpError::Io("eof".to_string()).message(), "io error: eof");
    assert_eq!(KcpError::InvalidSegment.message(), "invalid segment bytes");
}

#[test]
fn is_timeout_predicate() {
    assert!(KcpError::IoTimeout.is_timeout());
    assert!(!KcpError::ClosedConnection.is_timeout());

    let io_err = KcpError::Io("eof".to_string());
    assert!(!io_err.is_timeout());
}

#[test]
fn from_io_error_conversion() {
    let cause = std::io::Error::other("x");
    let err = KcpError::Io(cause.to_string());
    assert!(matches!(err, KcpError::Io(_)));
}
