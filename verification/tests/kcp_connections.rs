use udp_transports::kcp::config::default_config;
use udp_transports::kcp::connection::{Action, ConnMetadata, Connection};
use udp_transports::kcp::dialer::{dial_kcp, fetch_input, init_global_conv, next_conv};
use udp_transports::kcp::error::KcpError;
use udp_transports::kcp::io::KCPPacketReader;
use udp_transports::kcp::listener::{ConnectionId, Listener, ListenerWriter, Received};
use udp_transports::kcp::segment::{
    AckSegment, CmdOnlySegment, Command, DataSegment, Segment, SegmentKind, SEGMENT_OPTION_CLOSE,
};
use udp_transports::kcp::state::State;
use udp_transports::kcp::updater::{NoopUpdater, TaskStep, TaskUpdater, Updater, Wake};
use udp_transports::net::{IpAddress, SocketAddress};

const LOOPBACK: IpAddress = IpAddress::V4(0x7F00_0001);

fn make_connection(conv: u16) -> Connection {
    Connection::new_without_updater(ConnMetadata::new(conv), default_config())
}

fn make_data(conv: u16, number: u32, payload: &[u8]) -> DataSegment {
    let mut seg = DataSegment::new();
    seg.conv = conv;
    seg.number = number;
    seg.timestamp = 100;
    seg.data().write_from(payload);
    seg
}

fn make_ack(conv: u16, number: u32) -> AckSegment {
    let mut seg = AckSegment::new(128);
    seg.conv = conv;
    seg.receiving_next = 0;
    seg.receiving_window = 32;
    seg.timestamp = 100;
    seg.put_number(number);
    seg
}

fn make_cmd(conv: u16, cmd: Command) -> CmdOnlySegment {
    let mut seg = CmdOnlySegment::new();
    seg.conv = conv;
    seg.cmd = cmd;
    seg
}

fn written(actions: Vec<Action>) -> Vec<SegmentKind> {
    actions
        .into_iter()
        .filter_map(|a| match a {
            Action::Write(seg) => Some(seg),
            _ => None,
        })
        .collect()
}

fn closes(actions: &[Action]) -> usize {
    actions.iter().filter(|a| matches!(a, Action::CloseSocket)).count()
}

#[test]
fn new_connection_starts_active() {
    let conn = make_connection(42);
    assert_eq!(conn.state(), State::Active);
    assert_eq!(conn.conv(), 42);
    let (other, actions) = Connection::new(ConnMetadata::new(42), default_config());
    assert_eq!(other.state(), State::Active);
    assert!(matches!(actions[..], [Action::WakePing]));
}

#[test]
fn set_state_transitions_and_side_effects() {
    let mut conn = make_connection(1);
    conn.set_state(State::ReadyToClose, 0);
    assert_eq!(conn.state(), State::ReadyToClose);
    conn.set_state(State::PeerClosed, 0);
    assert_eq!(conn.state(), State::PeerClosed);
}

#[test]
fn close_from_active_to_ready_to_close() {
    let mut conn = make_connection(1);
    assert!(conn.close(0).0.is_ok());
    assert_eq!(conn.state(), State::ReadyToClose);
}

#[test]
fn close_from_ready_to_close_returns_error() {
    let mut conn = make_connection(1);
    conn.set_state(State::ReadyToClose, 0);
    assert!(matches!(conn.close(0).0, Err(KcpError::ClosedConnection)));
}

#[test]
fn close_from_peer_closed_to_terminating() {
    let mut conn = make_connection(1);
    conn.set_state(State::PeerClosed, 0);
    assert!(conn.close(0).0.is_ok());
    assert_eq!(conn.state(), State::Terminating);
}

#[test]
fn close_from_peer_terminating_to_terminated() {
    let mut conn = make_connection(1);
    conn.set_state(State::PeerTerminating, 0);
    assert!(conn.close(0).0.is_ok());
    assert_eq!(conn.state(), State::Terminated);
}

#[test]
fn input_data_segment_notifies_data_input() {
    let mut conn = make_connection(1);
    let seg = make_data(1, 0, b"hello");
    let actions = conn.input(vec![SegmentKind::Data(seg)], 0);
    assert!(actions.iter().any(|a| matches!(a, Action::NotifyInputOne)));
    assert!(conn.read(&mut [0u8; 32]).0.unwrap() > 0);
}

#[test]
fn input_ignores_wrong_conv() {
    let mut conn = make_connection(1);
    let seg = make_data(99, 0, b"hello");
    conn.input(vec![SegmentKind::Data(seg)], 0);
    let mut buf = [0u8; 32];
    assert_eq!(conn.read(&mut buf).0.unwrap(), 0);
}

#[test]
fn input_ack_segment_processes_sending() {
    let mut conn = make_connection(1);
    conn.write(b"test").0.unwrap();
    let ack = make_ack(1, 0);
    conn.input(vec![SegmentKind::Ack(ack)], 0);
    assert!(conn.sending_worker.is_empty());
}

#[test]
fn input_cmd_terminate_transitions_state() {
    let mut conn = make_connection(1);
    let cmd = make_cmd(1, Command::Terminate);
    conn.input(vec![SegmentKind::Cmd(cmd)], 0);
    assert_eq!(conn.state(), State::PeerTerminating);
}

#[test]
fn input_cmd_with_close_option_triggers_on_peer_closed() {
    let mut conn = make_connection(1);
    let mut cmd = make_cmd(1, Command::Ping);
    cmd.option = SEGMENT_OPTION_CLOSE;
    conn.input(vec![SegmentKind::Cmd(cmd)], 0);
    assert_eq!(conn.state(), State::PeerClosed);
}

#[test]
fn ping_writes_cmd_only_segment() {
    let mut conn = make_connection(7);
    let segs = written(conn.ping(1000, Command::Ping));
    assert_eq!(segs.len(), 1);
    match &segs[0] {
        SegmentKind::Cmd(c) => {
            assert_eq!(c.conv, 7);
            assert_eq!(c.cmd, Command::Ping);
        },
        other => panic!("expected Cmd, got {other:?}"),
    }
}

#[test]
fn ping_with_terminate_command() {
    let mut conn = make_connection(1);
    let segs = written(conn.ping(1000, Command::Terminate));
    match &segs[0] {
        SegmentKind::Cmd(c) => assert_eq!(c.cmd, Command::Terminate),
        other => panic!("expected Cmd, got {other:?}"),
    }
}

#[test]
fn write_returns_error_when_not_active() {
    let mut conn = make_connection(1);
    conn.set_state(State::ReadyToClose, 0);
    assert!(matches!(conn.write(b"x").0, Err(KcpError::ClosedConnection)));
}

#[test]
fn read_returns_error_when_terminating() {
    let mut conn = make_connection(1);
    conn.set_state(State::Terminating, 0);
    assert!(matches!(conn.read(&mut [0u8; 10]).0, Err(KcpError::ClosedConnection)));
}

#[test]
fn write_then_input_ack_round_trip() {
    let mut conn = make_connection(1);
    let n = conn.write(b"hello world").0.unwrap();
    assert_eq!(n, 11);
    let ack = make_ack(1, 0);
    conn.input(vec![SegmentKind::Ack(ack)], 0);
}

#[test]
fn flush_active_sends_nothing_when_no_data() {
    let mut conn = make_connection(1);
    assert!(written(conn.flush(0)).is_empty());
}

#[test]
fn flush_after_write_sends_data_segment() {
    let mut conn = make_connection(1);
    conn.write(b"hello").0.unwrap();
    let segs = written(conn.flush(0));
    assert!(
        segs.iter().any(|s| matches!(s, SegmentKind::Data(_))),
        "should send at least one DataSegment"
    );
}

#[test]
fn flush_terminating_sends_terminate_cmd() {
    let mut conn = make_connection(1);
    conn.set_state(State::Terminating, 0);
    let segs = written(conn.flush(0));
    assert!(
        segs.iter().any(|s| match s {
            SegmentKind::Cmd(c) => c.cmd == Command::Terminate,
            _ => false,
        }),
        "Terminating flush should send Terminate cmd"
    );
}

#[test]
fn flush_writes_ack_for_received_data() {
    let mut conn = make_connection(1);
    let data = make_data(1, 0, b"x");
    conn.input(vec![SegmentKind::Data(data)], 0);
    let segs = written(conn.flush(0));
    assert!(
        segs.iter().any(|s| matches!(s, SegmentKind::Ack(_))),
        "flush should send AckSegment for received data"
    );
}

#[test]
fn terminate_releases_resources() {
    let mut conn = make_connection(1);
    conn.write(b"x").0.unwrap();
    let actions = conn.terminate();
    assert_eq!(closes(&actions), 1);
    assert!(conn.sending_worker.closed);
    conn.terminate();
}

#[test]
fn set_state_terminated_calls_terminate() {
    let mut conn = make_connection(1);
    let actions = conn.set_state(State::Terminated, 0);
    assert_eq!(conn.state(), State::Terminated);
    assert_eq!(closes(&actions), 1, "terminate should close the socket");
}

#[test]
fn what_one_side_writes_the_other_reads() {
    let mut a = make_connection(5);
    let mut b = make_connection(5);
    let sent: Vec<u8> = (0..5000u32).map(|i| (i % 251) as u8).collect();
    assert_eq!(a.write(&sent).0.unwrap(), 5000);
    let mut got = Vec::new();
    for round in 1..100 {
        let now = round * 60;
        let down = written(a.flush(now));
        b.input(down, now);
        let up = written(b.flush(now));
        a.input(up, now);
        let mut buf = [0u8; 700];
        loop {
            let n = b.read(&mut buf).0.unwrap();
            if n == 0 {
                break;
            }
            got.extend_from_slice(&buf[..n]);
        }
    }
    assert_eq!(got, sent);
    assert!(a.sending_worker.is_empty());
}

#[test]
fn a_stale_connection_ends() {
    let mut conn = make_connection(1);
    let actions = conn.flush(30_000);
    assert_eq!(conn.state(), State::Terminating);
    assert!(matches!(actions[0], Action::NotifyInputAll));
    let actions = conn.flush(38_001);
    assert_eq!(conn.state(), State::Terminated);
    assert_eq!(closes(&actions), 1);
    assert!(conn.flush(50_000).is_empty());
}

// Conversations.

#[test]
fn next_conv_increments_atomically() {
    let mut counter = init_global_conv(100);
    assert_eq!(next_conv(&mut counter), 101);
    assert_eq!(next_conv(&mut counter), 102);
    assert_eq!(next_conv(&mut counter), 103);
}

#[test]
fn next_conv_wraps_at_u16_boundary() {
    let mut counter = init_global_conv(u16::MAX);
    assert_eq!(next_conv(&mut counter), 0);
}

#[test]
fn global_conv_seeds_randomly_on_first_access() {
    let mut counter = init_global_conv(0);
    assert_eq!(next_conv(&mut counter), 1);
    let mut counter = init_global_conv(0x1234);
    assert_eq!(next_conv(&mut counter), 0x1235);
}

#[test]
fn fetch_input_dispatches_segments_to_connection() {
    let mut conn = make_connection(42);

    let mut seg = CmdOnlySegment::new();
    seg.conv = 42;
    seg.cmd = Command::Ping;
    let mut packet = vec![0u8; seg.byte_size()];
    seg.serialize(&mut packet);

    let mut packets = vec![packet];
    let reader = KCPPacketReader::new();
    loop {
        let payload = packets.pop();
        if fetch_input(payload.as_deref(), &reader, &mut conn, 77).is_none() {
            break;
        }
    }
    assert_eq!(conn.state(), State::Active);
    assert_eq!(conn.last_incoming_time, 77);
    assert_eq!(packets.len(), 0);
}

#[test]
fn dialing_without_a_socket_is_refused() {
    match dial_kcp("127.0.0.1:1") {
        Err(KcpError::Io(text)) => {
            assert_eq!(text, "DialKCP requires injected UDP transport; not yet wired")
        },
        _ => panic!("expected an error"),
    }
}

// Listener.

fn make_listener() -> Listener<KCPPacketReader> {
    Listener::new(KCPPacketReader::new(), default_config(), None)
}

fn source() -> SocketAddress {
    SocketAddress::new(LOOPBACK, 8080)
}

fn make_data_packet(conv: u16, number: u32) -> Vec<u8> {
    let mut seg = DataSegment::new();
    seg.conv = conv;
    seg.number = number;
    let mut buf = vec![0u8; seg.byte_size()];
    seg.serialize(&mut buf);
    buf
}

fn make_cmd_packet(conv: u16, cmd: Command) -> Vec<u8> {
    let seg = make_cmd(conv, cmd);
    let mut buf = vec![0u8; seg.byte_size()];
    seg.serialize(&mut buf);
    buf
}

fn opened(r: &Received) -> bool {
    matches!(r, Received::Opened(_, _))
}

#[test]
fn connection_id_equality() {
    let addr = source();
    let a = ConnectionId::new(addr, 1);
    let b = ConnectionId::new(addr, 1);
    let c = ConnectionId::new(addr, 2);
    let d = ConnectionId::new(SocketAddress::new(LOOPBACK, 9090), 1);
    assert_eq!(a, b);
    assert_ne!(a, c);
    assert_ne!(a, d);
}

#[test]
fn peers_of_one_address_on_two_links_have_sessions_of_their_own() {
    let mut listener = make_listener();
    let packet = make_data_packet(1, 0);
    for (flowinfo, scope_id) in [(0, 1), (0, 2), (5, 1)] {
        let src = SocketAddress::V6 { ip: 0xFE80 << 112 | 1, port: 9, flowinfo, scope_id };
        assert!(opened(&listener.on_receive(&packet, src, 0)));
        assert!(!opened(&listener.on_receive(&packet, src, 0)));
    }
    assert_eq!(listener.active_connections(), 3);
}

#[test]
fn on_receive_empty_payload_returns_false() {
    let mut listener = make_listener();
    let r = listener.on_receive(&[], source(), 0);
    assert!(!r.accepted());
    assert_eq!(listener.active_connections(), 0);
}

#[test]
fn on_receive_new_conv_creates_connection() {
    let mut listener = make_listener();
    let r = listener.on_receive(&make_data_packet(42, 0), source(), 0);
    assert!(r.accepted());
    assert!(opened(&r));
    assert_eq!(listener.active_connections(), 1);
}

#[test]
fn on_receive_existing_conv_reuses_connection() {
    let mut listener = make_listener();
    let first = listener.on_receive(&make_data_packet(42, 0), source(), 0);
    let second = listener.on_receive(&make_data_packet(42, 1), source(), 0);
    assert!(opened(&first));
    assert!(!opened(&second) && second.accepted());
    assert_eq!(listener.active_connections(), 1);
}

#[test]
fn on_receive_different_conv_creates_separate_connections() {
    let mut listener = make_listener();
    assert!(opened(&listener.on_receive(&make_data_packet(1, 0), source(), 0)));
    assert!(opened(&listener.on_receive(&make_data_packet(2, 0), source(), 0)));
    assert_eq!(listener.active_connections(), 2);
}

#[test]
fn on_receive_terminate_for_new_session_discarded() {
    let mut listener = make_listener();
    let r = listener.on_receive(&make_cmd_packet(42, Command::Terminate), source(), 0);
    assert!(!r.accepted());
    assert_eq!(listener.active_connections(), 0);
}

#[test]
fn remove_drops_session() {
    let mut listener = make_listener();
    listener.on_receive(&make_data_packet(42, 0), source(), 0);
    assert_eq!(listener.active_connections(), 1);
    let id = ConnectionId::new(source(), 42);
    assert!(listener.remove(&id).is_some());
    assert_eq!(listener.active_connections(), 0);
    assert!(listener.remove(&id).is_none());
}

#[test]
fn close_terminates_all_sessions() {
    let mut listener = make_listener();
    listener.on_receive(&make_data_packet(1, 0), source(), 0);
    listener.on_receive(&make_data_packet(2, 0), source(), 0);
    assert_eq!(listener.active_connections(), 2);
    let ended = listener.close();
    assert_eq!(ended.len(), 2);
    assert_eq!(closes(&ended[0].actions), 1);
    assert!(listener.closed);
    assert_eq!(listener.active_connections(), 0);
}

#[test]
fn handle_one_packet_returns_false_when_hub_empty() {
    let mut listener = make_listener();
    assert!(listener.handle_one_packet(None, 0).is_none());
    let packet = make_data_packet(3, 0);
    assert!(listener.handle_one_packet(Some((&packet, source())), 0).is_some());
}

#[test]
fn a_datagram_leaves_other_sessions_alone() {
    let mut listener = make_listener();
    listener.on_receive(&make_data_packet(1, 0), source(), 5);
    listener.on_receive(&make_data_packet(2, 0), source(), 9);
    listener.on_receive(&make_cmd_packet(2, Command::Terminate), source(), 9);
    assert_eq!(listener.sessions[0].conn.state(), State::Active);
    assert_eq!(listener.sessions[0].conn.last_incoming_time, 5);
    assert_eq!(listener.sessions[1].conn.state(), State::PeerTerminating);
    assert_eq!(listener.local_addr(), None);
}

#[test]
fn a_session_writes_to_its_peer() {
    let writer = ListenerWriter::new(ConnectionId::new(source(), 7));
    let (bytes, to) = writer.write_segment(&make_cmd(7, Command::Ping));
    assert_eq!(bytes, make_cmd_packet(7, Command::Ping));
    assert_eq!(to, source());
}

// Updaters.

#[test]
fn noop_updater_records_wake_calls() {
    let mut u = NoopUpdater::new();
    assert_eq!(u.wake_count(), 0);
    u.wake_up();
    u.wake_up();
    u.wake_up();
    assert_eq!(u.wake_count(), 3);
}

#[test]
fn noop_updater_set_get_interval() {
    let mut u = NoopUpdater::new();
    let initial = u.interval();
    u.set_interval(5000);
    assert_ne!(u.interval(), initial);
    assert_eq!(u.interval(), 5000);
}

#[test]
fn tokio_updater_runs_update_func() {
    let mut u = TaskUpdater::new(5);
    let mut calls = 0;
    let mut asked = 0;
    assert_eq!(u.wake_up(), Wake::Start);
    assert_eq!(u.wake_up(), Wake::Notify);
    let mut step = u.begin(false, asked < 3);
    while step == TaskStep::Update {
        calls += 1;
        asked += 1;
        step = u.next(asked < 3);
    }
    assert_eq!(calls, 3);
    assert!(!u.running);
    assert_eq!(u.wake_up(), Wake::Start);
}

#[test]
fn tokio_updater_terminates_when_should_terminate() {
    let mut u = TaskUpdater::new(5);
    u.wake_up();
    assert_eq!(u.begin(true, true), TaskStep::Stop);
    assert!(!u.running);
}

#[test]
fn tokio_updater_set_interval_runtime() {
    let mut u = TaskUpdater::new(5);
    u.wake_up();
    assert_eq!(u.begin(false, true), TaskStep::Update);
    assert_eq!(u.changed_interval(), None);
    u.set_interval(20);
    assert_eq!(u.interval(), 20);
    assert_eq!(u.changed_interval(), Some(20));
    assert_eq!(u.changed_interval(), None);
}
