use udp_transports::kcp::buffer::Buffer;
use udp_transports::kcp::config::{default_config, Config, ConfigExt};
use udp_transports::kcp::error::Result;
use udp_transports::kcp::output::{Datagrams, Outcomes, SimpleSegmentWriter, UnderlyingWriter};
use udp_transports::kcp::receiving::{AckList, ReceivingWindow, ReceivingWorker};
use udp_transports::kcp::round_trip::RoundTripInfo;
use udp_transports::kcp::segment::{AckSegment, DataSegment, Segment, SEGMENT_OPTION_CLOSE};
use udp_transports::kcp::sending::{adjust_control_window, SendingWindow, SendingWorker};
use udp_transports::kcp::state::State;

// Settings.

fn test_config() -> Config {
    Config {
        mtu: 1350,
        tti: 50,
        uplink_capacity: 5,
        downlink_capacity: 20,
        cwnd_multiplier: 20,
        max_sending_window: 2 * 1024 * 1024,
    }
}

#[test]
fn default_config_matches_go_init() {
    let c = default_config();
    assert_eq!(c.mtu, 1350);
    assert_eq!(c.tti, 50);
    assert_eq!(c.uplink_capacity, 5);
    assert_eq!(c.downlink_capacity, 20);
    assert_eq!(c.cwnd_multiplier, 1);
    assert_eq!(c.max_sending_window, 2 * 1024 * 1024);
}

#[test]
fn sending_in_flight_size_default() {
    let c = test_config();
    assert_eq!(c.get_sending_in_flight_size(), 194);
}

#[test]
fn sending_in_flight_size_min_clamp_8() {
    let mut c = test_config();
    c.uplink_capacity = 0;
    assert_eq!(c.get_sending_in_flight_size(), 8);
}

#[test]
fn sending_buffer_size_default() {
    let c = test_config();
    assert_eq!(c.get_sending_buffer_size(), 2 * 1024 * 1024 / 1350);
}

#[test]
fn receiving_in_flight_size_default() {
    let c = test_config();
    assert_eq!(c.get_receiving_in_flight_size(), 776);
}

#[test]
fn receiving_in_flight_size_min_clamp_8() {
    let mut c = test_config();
    c.downlink_capacity = 0;
    assert_eq!(c.get_receiving_in_flight_size(), 8);
}

#[test]
fn helpers_safe_for_zero_mtu() {
    let mut c = test_config();
    c.mtu = 0;
    let _ = c.get_sending_in_flight_size();
    assert_eq!(c.get_sending_buffer_size(), 2 * 1024 * 1024);
    let _ = c.get_receiving_in_flight_size();
}

#[test]
fn helpers_safe_for_zero_tti() {
    let mut c = test_config();
    c.tti = 0;
    let _ = c.get_sending_in_flight_size();
    let _ = c.get_receiving_in_flight_size();
}

// States.

#[test]
fn from_i32_round_trip() {
    for v in 0..=5 {
        let s = State::from_i32(v).unwrap_or_else(|| panic!("v={v}"));
        assert_eq!(s as i32, v);
        assert_eq!(s.to_i32(), v);
    }
}

#[test]
fn from_i32_unknown_returns_none() {
    assert_eq!(State::from_i32(-1), None);
    assert_eq!(State::from_i32(6), None);
    assert_eq!(State::from_i32(100), None);
}

#[test]
fn is_predicate_matches() {
    assert!(State::Active.is(&[State::Active]));
    assert!(State::Active.is(&[State::ReadyToClose, State::Active]));
    assert!(!State::Active.is(&[State::Terminated]));
    assert!(!State::Active.is(&[]));
}

#[test]
fn is_locally_closed_covers_three_variants() {
    assert!(State::ReadyToClose.is_locally_closed());
    assert!(State::Terminating.is_locally_closed());
    assert!(State::Terminated.is_locally_closed());
    assert!(!State::Active.is_locally_closed());
    assert!(!State::PeerClosed.is_locally_closed());
    assert!(!State::PeerTerminating.is_locally_closed());
}

#[test]
fn display_matches_go_string() {
    assert_eq!(State::Active.as_str(), "Active");
    assert_eq!(State::PeerClosed.as_str(), "PeerClosed");
    assert_eq!(State::PeerTerminating.as_str(), "PeerTerminating");
}

// Round trips.

#[test]
fn initial_state_has_rto_100() {
    let rtt = RoundTripInfo::new(50);
    assert_eq!(rtt.timeout(), 100);
    assert_eq!(rtt.smoothed_time(), 0);
}

#[test]
fn first_sample_sets_srtt_and_half_variation() {
    let mut rtt = RoundTripInfo::new(50);
    rtt.update(200, 1000);
    assert_eq!(rtt.smoothed_time(), 200);
    assert_eq!(rtt.timeout(), 750);
}

#[test]
fn subsequent_samples_blend_via_rfc6298() {
    let mut rtt = RoundTripInfo::new(50);
    rtt.update(100, 1000);
    assert_eq!(rtt.smoothed_time(), 100);
    assert_eq!(rtt.timeout(), 375);

    rtt.update(120, 2000);
    assert_eq!(rtt.smoothed_time(), 102);
    assert_eq!(rtt.timeout(), 337);
}

#[test]
fn srtt_not_clamped_on_first_sample() {
    let mut rtt = RoundTripInfo::new(50);
    rtt.update(10, 1000);
    assert_eq!(rtt.smoothed_time(), 10);
    rtt.update(10, 2000);
    assert_eq!(rtt.smoothed_time(), 50);
}

#[test]
fn rto_capped_at_10000() {
    let mut rtt = RoundTripInfo::new(50);
    rtt.update(9000, 1000);
    assert_eq!(rtt.timeout(), 12500);
}

#[test]
fn rtt_over_int_max_ignored() {
    let mut rtt = RoundTripInfo::new(50);
    let before = rtt.timeout();
    rtt.update(0x8000_0000, 1000);
    assert_eq!(rtt.timeout(), before);
}

#[test]
fn update_peer_rto_first_call_throttled_within_3s_of_epoch() {
    let mut rtt = RoundTripInfo::new(50);
    rtt.update_peer_rto(500, 1000);
    assert_eq!(rtt.timeout(), 100);
}

#[test]
fn update_peer_rto_accepted_after_3s() {
    let mut rtt = RoundTripInfo::new(50);
    rtt.update_peer_rto(500, 5000);
    assert_eq!(rtt.timeout(), 500);

    rtt.update_peer_rto(800, 7000);
    assert_eq!(rtt.timeout(), 500);

    rtt.update_peer_rto(800, 8500);
    assert_eq!(rtt.timeout(), 800);
}

#[test]
fn update_peer_rto_wrap_safe() {
    let mut rtt = RoundTripInfo::new(50);
    rtt.update_peer_rto(700, 4_000_000_000);
    assert_eq!(rtt.timeout(), 700);

    rtt.update_peer_rto(900, 10);
    assert_eq!(rtt.timeout(), 900);
}

// Receiving.

fn make_receiver(next_number: u32, window_size: u32) -> ReceivingWorker {
    let mut worker = ReceivingWorker::new(&default_config(), 1, 1400);
    worker.next_number = next_number;
    worker.window_size = window_size;
    worker
}

fn make_data_segment(number: u32, payload: &[u8]) -> DataSegment {
    let mut seg = DataSegment::new();
    seg.number = number;
    seg.timestamp = 100;
    seg.sending_next = 0;
    seg.data().write_from(payload);
    seg
}

#[test]
fn window_set_new_returns_none() {
    let mut w = ReceivingWindow::new();
    let seg = make_data_segment(1, b"abc");
    assert!(w.set(1, seg).is_none());
    assert!(w.has(1));
}

#[test]
fn window_set_duplicate_returns_new_value() {
    let mut w = ReceivingWindow::new();
    let seg1 = make_data_segment(1, b"abc");
    assert!(w.set(1, seg1).is_none());
    let seg2 = make_data_segment(1, b"xyz");
    let returned = w.set(1, seg2).expect("should return new value");
    assert_eq!(returned.payload.as_ref().unwrap().bytes(), b"xyz");
    let mut d = returned;
    d.release();
    assert_eq!(w.remove(1).unwrap().payload.unwrap().bytes(), b"abc");
}

#[test]
fn window_has_remove() {
    let mut w = ReceivingWindow::new();
    assert!(!w.has(5));
    let seg = make_data_segment(5, b"x");
    assert!(w.set(5, seg).is_none());
    assert!(w.has(5));
    let removed = w.remove(5).expect("should remove");
    assert_eq!(removed.number, 5);
    assert!(!w.has(5));
    assert!(w.remove(5).is_none());
}

#[test]
fn acklist_add_increments() {
    let mut a = AckList::new(1400);
    assert_eq!(a.pending_len(), 0);
    assert!(!a.dirty);
    a.add(1, 100);
    a.add(2, 200);
    assert_eq!(a.pending_len(), 2);
    assert!(a.dirty);
}

#[test]
fn acklist_clear_removes_below_una() {
    let mut a = AckList::new(1400);
    a.add(1, 100);
    a.add(5, 200);
    a.add(10, 300);
    a.clear(5);
    assert_eq!(a.pending_len(), 2);
    assert_eq!(a.numbers, vec![5, 10]);
    assert_eq!(a.timestamps, vec![200, 300]);
}

#[test]
fn acklist_clear_all_below_una() {
    let mut a = AckList::new(1400);
    a.add(1, 100);
    a.add(2, 200);
    a.clear(10);
    assert_eq!(a.pending_len(), 0);
}

#[test]
fn acklist_clear_noop_when_all_above_una() {
    let mut a = AckList::new(1400);
    a.add(10, 100);
    a.add(20, 200);
    a.dirty = false;
    a.clear(5);
    assert_eq!(a.pending_len(), 2);
    assert!(!a.dirty);
}

#[test]
fn acklist_flush_returns_empty_when_no_pending() {
    let mut a = AckList::new(1400);
    let out = a.flush(1000, 200);
    assert!(out.is_empty());
}

#[test]
fn acklist_flush_returns_segment_for_pending() {
    let mut a = AckList::new(1400);
    a.add(1, 100);
    a.add(2, 200);
    let out = a.flush(1000, 200);
    assert_eq!(out.len(), 1);
    assert_eq!(out[0].number_list, vec![1, 2]);
    assert_eq!(out[0].timestamp, 200);
}

#[test]
fn acklist_flush_respects_next_flush_throttle() {
    let mut a = AckList::new(1400);
    a.add(1, 100);
    let out1 = a.flush(1000, 200);
    assert_eq!(out1.len(), 1);

    let out2 = a.flush(1050, 200);
    assert_eq!(out2.len(), 0);

    let out3 = a.flush(1100, 200);
    assert_eq!(out3.len(), 1);
    assert_eq!(out3[0].number_list, vec![1]);
}

#[test]
fn acklist_flush_splits_multiple_segments_when_full() {
    let mut a = AckList::new(100);
    for i in 0..45 {
        a.add(i, 100 + i);
    }
    let out = a.flush(1000, 200);
    assert_eq!(out.len(), 3);
    assert_eq!(out[0].number_list.len(), 20);
    assert_eq!(out[1].number_list.len(), 20);
    assert_eq!(out[2].number_list.len(), 5);
}

#[test]
fn acklist_flush_candidates_collected_for_throttled_numbers() {
    let mut a = AckList::new(1400);
    a.add(1, 100);
    let out1 = a.flush(1000, 200);
    assert_eq!(out1.len(), 1);
    assert_eq!(out1[0].number_list, vec![1]);

    for i in 2..=201u32 {
        a.add(i, 100);
    }
    let out2 = a.flush(1050, 200);
    assert_eq!(out2.len(), 2);
    assert_eq!(out2[0].number_list.len(), 128);
    assert_eq!(out2[1].number_list.len(), 73);
    assert!(out2[1].number_list.contains(&1));
}

#[test]
fn acklist_flush_candidates_has_capacity_128() {
    let a = AckList::new(1400);
    assert_eq!(a.flush_candidates_capacity(), 128);
}

#[test]
fn worker_process_segment_in_window() {
    let mut worker = make_receiver(0, 32);
    let seg = make_data_segment(0, b"hello");
    worker.process_segment(seg);
    assert!(worker.is_data_available());
    assert_eq!(worker.next_number(), 0);
}

#[test]
fn worker_process_segment_out_of_window_dropped() {
    let mut worker = make_receiver(0, 4);
    let seg = make_data_segment(100, b"far");
    worker.process_segment(seg);
    assert!(!worker.is_data_available());
    assert_eq!(worker.next_number(), 0);
}

#[test]
fn worker_process_segment_duplicate_released() {
    let mut worker = make_receiver(0, 32);
    worker.process_segment(make_data_segment(0, b"first"));
    worker.process_segment(make_data_segment(0, b"dup"));
    let mb = worker.read_multi_buffer();
    assert_eq!(mb.buffer_count(), 1);
    assert_eq!(mb.get(0), b"first");
    assert_eq!(worker.next_number(), 1);
}

#[test]
fn worker_read_multi_buffer_sequential() {
    let mut worker = make_receiver(0, 32);
    worker.process_segment(make_data_segment(2, b"cc"));
    worker.process_segment(make_data_segment(0, b"aa"));
    worker.process_segment(make_data_segment(1, b"bb"));

    let mb = worker.read_multi_buffer();
    assert_eq!(mb.buffer_count(), 3);
    assert_eq!(worker.next_number(), 3);
}

#[test]
fn worker_read_multi_buffer_stops_at_gap() {
    let mut worker = make_receiver(0, 32);
    worker.process_segment(make_data_segment(0, b"aa"));
    worker.process_segment(make_data_segment(2, b"cc"));
    let mb = worker.read_multi_buffer();
    assert_eq!(mb.buffer_count(), 1);
    assert_eq!(worker.next_number(), 1);
    drop(mb);
    worker.process_segment(make_data_segment(1, b"bb"));
    let mb2 = worker.read_multi_buffer();
    assert_eq!(mb2.buffer_count(), 2);
}

#[test]
fn worker_read_into_slice() {
    let mut worker = make_receiver(0, 32);
    worker.process_segment(make_data_segment(0, b"hello"));
    worker.process_segment(make_data_segment(1, b"world"));

    let mut buf = [0u8; 32];
    let n = worker.read(&mut buf);
    assert_eq!(n, 10);
    assert_eq!(&buf[..10], b"helloworld");
}

#[test]
fn worker_read_partial_keeps_leftover() {
    let mut worker = make_receiver(0, 32);
    worker.process_segment(make_data_segment(0, b"hello"));
    worker.process_segment(make_data_segment(1, b"world"));

    let mut buf = [0u8; 7];
    let n = worker.read(&mut buf);
    assert_eq!(n, 7);
    assert_eq!(&buf, b"hellowo");

    let mut buf2 = [0u8; 10];
    let n2 = worker.read(&mut buf2);
    assert_eq!(n2, 3);
    assert_eq!(&buf2[..3], b"rld");
}

#[test]
fn the_first_segment_of_a_number_is_the_one_that_is_read() {
    let mut worker = make_receiver(u32::MAX, 4);
    let mut all = Vec::new();
    let mut read = |worker: &mut ReceivingWorker, room: usize| {
        let mut buf = vec![0u8; room];
        let n = worker.read(&mut buf);
        all.extend_from_slice(&buf[..n]);
        n
    };
    worker.process_segment(make_data_segment(1, b"third"));
    worker.process_segment(make_data_segment(3, b"too far"));
    worker.process_segment(make_data_segment(u32::MAX, b"first"));
    worker.process_segment(make_data_segment(1, b"other"));
    assert_eq!(read(&mut worker, 2), 2);
    worker.process_segment(make_data_segment(0, b"second"));
    worker.process_segment(make_data_segment(u32::MAX, b"late"));
    worker.process_segment(make_data_segment(0, b"other"));
    assert_eq!(read(&mut worker, 9), 3);
    assert_eq!(read(&mut worker, 9), 9);
    assert_eq!(read(&mut worker, 9), 2);
    assert_eq!(read(&mut worker, 9), 0);
    assert_eq!(all, b"firstsecondthird");
    assert_eq!(worker.next_number(), 2);
}

#[test]
fn worker_read_returns_zero_when_empty() {
    let mut worker = make_receiver(0, 32);
    let mut buf = [0u8; 10];
    assert_eq!(worker.read(&mut buf), 0);
}

#[test]
fn worker_process_sending_next_clears_acklist() {
    let mut worker = make_receiver(0, 32);
    worker.process_segment(make_data_segment(0, b"x"));
    assert!(worker.update_necessary());
    worker.process_sending_next(1);
    assert!(!worker.update_necessary());
}

#[test]
fn worker_flush_returns_empty_when_no_pending() {
    let mut worker = make_receiver(0, 32);
    let out = worker.flush(&RoundTripInfo::new(50), 1000, State::Active);
    assert!(out.is_empty());
}

#[test]
fn worker_flush_returns_filled_ack_segments() {
    let mut worker = make_receiver(5, 32);
    worker.process_segment(make_data_segment(5, b"x"));
    worker.process_segment(make_data_segment(6, b"y"));

    let out = worker.flush(&RoundTripInfo::new(50), 1000, State::Active);
    assert_eq!(out.len(), 1);
    let seg = &out[0];
    assert_eq!(seg.conv, 1);
    assert_eq!(seg.option, 0);
    assert_eq!(seg.receiving_next, 5);
    assert_eq!(seg.receiving_window, 5 + 32);
    assert!(seg.number_list.contains(&5));
    assert!(seg.number_list.contains(&6));
}

#[test]
fn worker_flush_sets_close_option_when_ready_to_close() {
    let mut worker = make_receiver(0, 32);
    worker.process_segment(make_data_segment(0, b"x"));
    let out = worker.flush(&RoundTripInfo::new(50), 1000, State::ReadyToClose);
    assert_eq!(out.len(), 1);
    assert_eq!(out[0].option, SEGMENT_OPTION_CLOSE);
}

#[test]
fn worker_window_size_reflects_config() {
    let worker = make_receiver(0, 42);
    assert_eq!(worker.window_size(), 42);
}

#[test]
fn worker_release_clears_left_over() {
    let mut worker = make_receiver(0, 32);
    worker.process_segment(make_data_segment(0, b"hello"));
    worker.process_segment(make_data_segment(1, b"world"));
    let mut small = [0u8; 3];
    let _ = worker.read(&mut small);
    assert!(worker.left_over.is_some());
    worker.release();
    assert!(worker.left_over.is_none());
}

#[test]
fn worker_close_read_is_noop() {
    let worker = make_receiver(0, 32);
    worker.close_read();
}

#[test]
fn worker_default_config_window_size_nonzero() {
    let worker = ReceivingWorker::new(&default_config(), 0, 1400);
    assert!(worker.window_size() > 0);
}

#[test]
fn receiver_goes_on_past_the_largest_number() {
    let mut worker = make_receiver(u32::MAX, 32);
    worker.process_segment(make_data_segment(0, b"b"));
    worker.process_segment(make_data_segment(u32::MAX, b"a"));
    let mut buf = [0u8; 4];
    assert_eq!(worker.read(&mut buf), 2);
    assert_eq!(&buf[..2], b"ab");
    assert_eq!(worker.next_number(), 1);
}

// Sending.

fn make_buf(data: &[u8]) -> Buffer {
    let mut b = Buffer::new();
    b.write_from(data);
    b
}

#[test]
fn window_starts_empty() {
    let w = SendingWindow::new();
    assert!(w.is_empty());
    assert_eq!(w.len(), 0);
    assert!(w.first_number().is_none());
}

#[test]
fn window_push_increments_len() {
    let mut w = SendingWindow::new();
    w.push(1, make_buf(b"hello"));
    w.push(2, make_buf(b"world"));
    assert_eq!(w.len(), 2);
    assert_eq!(w.first_number(), Some(1));
}

#[test]
fn window_clear_before_removes_strict_less_than() {
    let mut w = SendingWindow::new();
    w.push(1, make_buf(b"a"));
    w.push(2, make_buf(b"b"));
    w.push(3, make_buf(b"c"));
    w.clear_before(2);
    assert_eq!(w.len(), 2);
    assert_eq!(w.first_number(), Some(2));
}

#[test]
fn window_clear_before_max_clears_all() {
    let mut w = SendingWindow::new();
    w.push(1, make_buf(b"a"));
    w.push(2, make_buf(b"b"));
    w.clear_before(0xFFFF_FFFF);
    assert!(w.is_empty());
}

#[test]
fn window_remove_finds_target() {
    let mut w = SendingWindow::new();
    w.push(10, make_buf(b"a"));
    w.push(20, make_buf(b"b"));
    assert!(w.remove(10));
    assert_eq!(w.len(), 1);
    assert_eq!(w.first_number(), Some(20));
}

#[test]
fn window_remove_missing_returns_false() {
    let mut w = SendingWindow::new();
    w.push(10, make_buf(b"a"));
    assert!(!w.remove(99));
}

#[test]
fn window_release_drops_all() {
    let mut w = SendingWindow::new();
    w.push(1, make_buf(b"a"));
    w.push(2, make_buf(b"b"));
    w.release();
    assert!(w.is_empty());
}

#[test]
fn adjust_window_grows_on_low_loss() {
    let cfg = default_config();
    assert_eq!(adjust_control_window(100, 5, &cfg), 125);
}

#[test]
fn adjust_window_shrinks_on_high_loss() {
    let cfg = default_config();
    assert_eq!(adjust_control_window(100, 15, &cfg), 75);
}

#[test]
fn adjust_window_clamped_to_16() {
    let cfg = default_config();
    assert_eq!(adjust_control_window(4, 15, &cfg), 16);
}

#[test]
fn adjust_window_capped_at_max() {
    let cfg = default_config();
    let max_cwnd = cfg.get_sending_in_flight_size();
    assert_eq!(adjust_control_window(max_cwnd * 2, 5, &cfg), max_cwnd);
}

fn make_sender() -> SendingWorker {
    SendingWorker::new(1, &default_config())
}

#[test]
fn worker_starts_empty() {
    let w = make_sender();
    assert!(w.is_empty());
    assert!(!w.update_necessary());
    assert_eq!(w.first_unacknowledged(), 0);
    assert_eq!(w.conv(), 1);
}

#[test]
fn worker_push_increments_next_number() {
    let mut w = make_sender();
    assert!(w.push(make_buf(b"a")));
    assert!(w.push(make_buf(b"b")));
    assert!(!w.is_empty());
    assert!(w.update_necessary());
    assert_eq!(w.next_number, 2);
}

#[test]
fn worker_push_after_release_fails() {
    let mut w = make_sender();
    w.release();
    assert!(!w.push(make_buf(b"x")));
}

#[test]
fn worker_process_receiving_next_clears() {
    let mut w = make_sender();
    w.push(make_buf(b"a"));
    w.push(make_buf(b"b"));
    w.process_receiving_next(2);
    assert!(w.is_empty());
}

#[test]
fn worker_close_write_clears() {
    let mut w = make_sender();
    w.push(make_buf(b"a"));
    w.push(make_buf(b"b"));
    w.close_write();
    assert!(w.is_empty());
}

#[derive(Default)]
struct CountingWriter {
    chunks: Vec<Vec<u8>>,
}

impl UnderlyingWriter for CountingWriter {
    fn handed(&self) -> Datagrams {
        unreachable!()
    }

    fn outcomes(&self) -> Outcomes {
        unreachable!()
    }

    fn write_all(&mut self, buf: &[u8]) -> Result<()> {
        self.chunks.push(buf.to_vec());
        Ok(())
    }
}

#[test]
fn worker_flush_empty_returns_default() {
    let mut w = make_sender();
    let mut writer = SimpleSegmentWriter::new(CountingWriter::default());
    let outcome = w.flush_with_writer(
        &RoundTripInfo::new(50),
        &default_config(),
        1000,
        &mut writer,
        State::Active,
    );
    assert!(!outcome.needs_ping);
    assert!(writer.writer.chunks.is_empty());
}

#[test]
fn worker_flush_with_data_calls_writer() {
    let mut writer = SimpleSegmentWriter::new(CountingWriter::default());
    let mut w = make_sender();
    w.push(make_buf(b"hello"));
    w.push(make_buf(b"world"));

    w.flush_with_writer(
        &RoundTripInfo::new(50),
        &default_config(),
        1000,
        &mut writer,
        State::Active,
    );

    assert!(writer.writer.chunks.len() >= 1);
    assert_eq!(&writer.writer.chunks[0][18..], b"hello");
}

#[test]
fn an_acknowledged_segment_is_not_sent_again() {
    let mut w = make_sender();
    let mut rtt = RoundTripInfo::new(50);
    let config = default_config();
    w.push(make_buf(b"a"));
    w.push(make_buf(b"b"));
    let (sent, _) = w.flush(&rtt, &config, 1000, State::Active);
    assert_eq!(sent.len(), 2);
    let mut ack = AckSegment::new(128);
    ack.receiving_window = 100;
    ack.timestamp = 1000;
    ack.put_number(0);
    w.process_ack_segment(&mut rtt, 1100, &ack, 100);
    assert_eq!(w.first_unacknowledged(), 1);
    let (again, _) = w.flush(&rtt, &config, 9000, State::Active);
    assert_eq!(again.len(), 1);
    assert_eq!(again[0].number, 1);
}
