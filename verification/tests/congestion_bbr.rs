use udp_transports::hysteria::congestion::bbr::bandwidth::{inf_bandwidth, Bandwidth};
use udp_transports::hysteria::congestion::bbr::bandwidth_sampler::{
    BandwidthSample, BandwidthSampler, SendTimeState, INF_RTT,
};
use udp_transports::hysteria::congestion::bbr::bbr_sender::{
    config_for_profile, min_congestion_window_for_max_datagram_size, scale_byte_window, BbrMode,
    BbrRecoveryState, BbrSender, BANDWIDTH_WINDOW_SIZE, DEFAULT_HIGH_GAIN,
    DEFAULT_STARTUP_FULL_LOSS_COUNT, DERIVED_HIGH_CWND_GAIN, INITIAL_CONGESTION_WINDOW_PACKETS,
    MIN_BPS, MIN_CONGESTION_WINDOW_PACKETS, MIN_RTT_EXPIRY_MS, PROBE_RTT_TIME_MS,
    QUIC_BBR2_DEFAULT_LOSS_THRESHOLD, ROUND_TRIPS_WITHOUT_GROWTH_BEFORE_EXITING_STARTUP,
    STARTUP_GROWTH_TARGET,
};
use udp_transports::hysteria::congestion::bbr::clock::{Clock, DefaultClock};
use udp_transports::hysteria::congestion::bbr::packet_queue::PacketNumberIndexedQueue;
use udp_transports::hysteria::congestion::bbr::profile::{Profile, PROFILE_STANDARD};
use udp_transports::hysteria::congestion::bbr::ringbuffer::RingBuffer;
use udp_transports::hysteria::congestion::types::{
    AckedPacketInfo, CongestionControl, Link, LostPacketInfo, INITIAL_PACKET_SIZE,
    INVALID_PACKET_NUMBER,
};
use udp_transports::hysteria::error::HysteriaError;

const NO_LINK: Link = Link { rtt_ns: 0, bandwidth: 0, window: 0 };

fn thousandths(gain: u32) -> f64 {
    f64::from(gain) / 1000.0
}

// Bandwidth.

#[test]
fn inf_bandwidth_is_max() {
    assert_eq!(inf_bandwidth().0, u64::MAX);
}

#[test]
fn units_match_go() {
    assert_eq!(Bandwidth::BITS_PER_SECOND, 1);
    assert_eq!(Bandwidth::BYTES_PER_SECOND, 8);
}

#[test]
fn from_delta_basic() {
    let bw = Bandwidth::from_delta(1000, 1_000_000_000);
    assert_eq!(bw.0, 8000);
}

#[test]
fn from_delta_zero_returns_inf() {
    let bw = Bandwidth::from_delta(1000, 0);
    assert_eq!(bw, inf_bandwidth());
}

#[test]
fn from_delta_high_precision() {
    let bw = Bandwidth::from_delta(1500, 100_000_000);
    assert_eq!(bw.0, 120_000);
}

#[test]
fn from_delta_of_negative_bytes_is_none_and_of_too_many_is_infinite() {
    assert_eq!(Bandwidth::from_delta(-5, 1).0, 0);
    assert_eq!(Bandwidth::from_delta(i64::MAX, 1), inf_bandwidth());
    assert_eq!(Bandwidth::from_delta(1, 1_000_000_001).0, 0);
}

#[test]
fn bytes_per_second_conversion() {
    let bw = Bandwidth(16_000);
    assert_eq!(bw.bytes_per_second(), 2000);
    assert_eq!(bw.bits_per_second(), 16_000);
}

#[test]
fn mul_saturates() {
    let big = Bandwidth(u64::MAX - 1);
    let prod = big * 10;
    assert_eq!(prod.0, u64::MAX);
    assert_eq!((Bandwidth(7) * 6).0, 42);
}

#[test]
fn div_by_zero_returns_inf() {
    let bw = Bandwidth(1000);
    assert_eq!(bw / 0, inf_bandwidth());
    assert_eq!((bw / 3).0, 333);
}

#[test]
fn ordering() {
    assert!(Bandwidth(100) < Bandwidth(200));
    assert!(Bandwidth(200) > Bandwidth(100));
    assert_eq!(Bandwidth(100).cmp(&Bandwidth(100)), std::cmp::Ordering::Equal);
}

#[test]
fn more_bytes_are_more_bandwidth() {
    let mut last = 0;
    for bytes in 0..50 {
        let bw = Bandwidth::from_delta(bytes * 1000, 7_000_000).0;
        assert!(bw >= last);
        last = bw;
    }
}

// Sampler.

#[test]
fn new_sampler_initial_state() {
    let s = BandwidthSampler::new(10);
    assert_eq!(s.round_trip_count(), 0);
    assert_eq!(s.total_bytes_sent(), 0);
    assert_eq!(s.total_bytes_acked(), 0);
    assert_eq!(s.total_bytes_lost(), 0);
}

#[test]
fn on_packet_sent_increments_bytes_sent() {
    let mut s = BandwidthSampler::new(10);
    s.on_packet_sent(100, 1, 500, 500, true);
    assert_eq!(s.total_bytes_sent(), 500);
    s.on_packet_sent(200, 2, 300, 800, false);
    assert_eq!(s.total_bytes_sent(), 800);
}

#[test]
fn on_congestion_event_accumulates_acked_and_lost() {
    let mut s = BandwidthSampler::new(10);
    s.on_packet_sent(100, 1, 1000, 1000, true);
    s.on_packet_sent(200, 2, 2000, 3000, true);

    let acked = vec![AckedPacketInfo { packet_number: 1, bytes_acked: 1000, receive_time_ns: 500 }];
    let lost = vec![LostPacketInfo { packet_number: 2, bytes_lost: 2000 }];

    let sample = s.on_congestion_event(500, &acked, &lost, Bandwidth(0), inf_bandwidth(), 0);
    assert_eq!(s.total_bytes_acked(), 1000);
    assert_eq!(s.total_bytes_lost(), 2000);
    assert_eq!(sample.sample_rtt, INF_RTT);
    assert!(sample.last_packet_send_state.is_valid);
    assert_eq!(sample.last_packet_send_state.total_bytes_sent, 1000);
}

#[test]
fn on_app_limited_sets_flag_for_subsequent_packets() {
    let mut s = BandwidthSampler::new(10);
    s.on_app_limited(42);
    s.on_packet_sent(100, 50, 500, 500, true);
    let state = s.sent_packets.get(&50).expect("packet 50 should be tracked");
    assert!(state.is_app_limited);
    s.remove_obsolete_packets(1000);
    assert!(s.sent_packets.contains_key(&50));
}

#[test]
fn advance_round_increments_counter() {
    let mut s = BandwidthSampler::new(10);
    s.advance_round();
    s.advance_round();
    assert_eq!(s.round_trip_count(), 2);
}

#[test]
fn enable_overestimate_avoidance_sets_flag() {
    let mut s = BandwidthSampler::new(10);
    s.enable_overestimate_avoidance();
    assert!(s.overestimate_avoidance_enabled);
}

#[test]
fn set_reduce_extra_acked_sets_flag() {
    let mut s = BandwidthSampler::new(10);
    s.set_reduce_extra_acked_on_bandwidth_increase(true);
    assert!(s.reduce_extra_acked_on_bandwidth_increase);
}

#[test]
fn send_time_state_new_marks_valid() {
    let st = SendTimeState::new(false, 100, 50, 5, 45);
    assert!(st.is_valid);
    assert!(!st.is_app_limited);
    assert_eq!(st.total_bytes_sent, 100);
    assert!(!SendTimeState::default().is_valid);
    assert_eq!(BandwidthSample::new().send_rate, inf_bandwidth());
}

#[test]
fn real_packet_numbers_drain_sent_packets_but_synthetic_pn0_never_matches() {
    let mut s = BandwidthSampler::new(10);
    s.on_packet_sent(100, 1, 1200, 1200, true);
    s.on_packet_sent(110, 2, 1200, 2400, true);
    s.on_packet_sent(120, 3, 1200, 3600, true);
    assert_eq!(s.sent_packets.len(), 3);

    let synthetic =
        [AckedPacketInfo { packet_number: 0, bytes_acked: 2400, receive_time_ns: 200 }];
    s.on_congestion_event(200, &synthetic, &[], Bandwidth(0), inf_bandwidth(), 0);
    assert_eq!(s.sent_packets.len(), 3, "a number that was never sent does not match");

    let acked = [
        AckedPacketInfo { packet_number: 1, bytes_acked: 1200, receive_time_ns: 300 },
        AckedPacketInfo { packet_number: 2, bytes_acked: 1200, receive_time_ns: 300 },
    ];
    let lost = [LostPacketInfo { packet_number: 3, bytes_lost: 1200 }];
    s.on_congestion_event(300, &acked, &lost, Bandwidth(0), inf_bandwidth(), 0);
    assert!(s.sent_packets.is_empty(), "numbers that were sent drain the sampler");
    assert_eq!(s.total_bytes_acked(), 2400);
    assert_eq!(s.total_bytes_lost(), 1200);
}

#[test]
fn a_packet_counts_once_however_often_it_is_named() {
    let mut s = BandwidthSampler::new(10);
    s.on_packet_sent(100, 7, 10, 10, true);
    let twice = AckedPacketInfo { packet_number: 7, bytes_acked: 10, receive_time_ns: 0 };
    let lost = [LostPacketInfo { packet_number: 7, bytes_lost: 10 }];
    s.on_congestion_event(1, &[twice, twice], &lost, Bandwidth(0), inf_bandwidth(), 0);
    assert_eq!(s.total_bytes_acked(), 10);
    assert_eq!(s.total_bytes_lost(), 0);
}

// Sender.

fn make_sender() -> BbrSender {
    BbrSender::new(INITIAL_PACKET_SIZE, Profile::Standard)
}

#[test]
fn new_sender_starts_in_startup_mode() {
    let s = make_sender();
    assert_eq!(s.mode(), BbrMode::Startup);
    assert_eq!(s.profile(), Profile::Standard);
    assert!(s.in_slow_start());
    assert!(!s.in_recovery());
}

#[test]
fn congestion_window_initial_value() {
    let s = make_sender();
    assert_eq!(s.congestion_window(NO_LINK), 38400);
}

#[test]
fn congestion_window_while_probing_and_recovering() {
    let mut s = make_sender();
    s.state.recovery_state = BbrRecoveryState::Growth;
    s.state.recovery_window = 9_000;
    assert_eq!(s.congestion_window(NO_LINK), 9_000);
    assert!(s.in_recovery());
    s.state.recovery_window = 90_000;
    assert_eq!(s.congestion_window(NO_LINK), 38_400);
    s.state.mode = BbrMode::ProbeRtt;
    assert_eq!(s.congestion_window(NO_LINK), 4_800);
}

#[test]
fn can_send_below_window() {
    let s = make_sender();
    assert!(s.can_send(10000, NO_LINK));
    assert!(!s.can_send(100_000, NO_LINK));
    assert!(!s.can_send(38_400, NO_LINK));
}

#[test]
fn set_max_datagram_size_scales_windows() {
    let mut s = make_sender();
    s.set_max_datagram_size(1400);
    assert_eq!(s.state.min_congestion_window, 5600);
    assert_eq!(s.state.initial_congestion_window, 32 * 1400);
    assert_eq!(s.state.max_datagram_size, 1400);
    assert_eq!(s.state.max_congestion_window, 100 * 1400);
    assert_eq!(s.congestion_window(NO_LINK), 32 * 1400);
    assert_eq!(s.pacer().max_datagram_size, 1400);
}

#[test]
#[should_panic(expected = "BBR cannot decrease")]
fn set_max_datagram_size_decreasing_panics() {
    let mut s = make_sender();
    s.set_max_datagram_size(500);
}

#[test]
fn config_for_profile_consistent_with_go() {
    let std_cfg = config_for_profile(Profile::Standard);
    assert!((thousandths(std_cfg.high_gain) - thousandths(DEFAULT_HIGH_GAIN)).abs() < 1e-9);
    assert_eq!(std_cfg.num_startup_rtts, 3);
    assert_eq!(std_cfg.bytes_lost_multiplier, 2);

    let cons_cfg = config_for_profile(Profile::Conservative);
    assert!((thousandths(cons_cfg.high_gain) - 2.25).abs() < 1e-9);
    assert_eq!(cons_cfg.num_startup_rtts, 2);
    assert!(cons_cfg.enable_overestimate_avoidance);
    assert!(cons_cfg.reduce_extra_acked_on_bandwidth_increase);

    let agg_cfg = config_for_profile(Profile::Aggressive);
    assert!((thousandths(agg_cfg.high_gain) - 3.0).abs() < 1e-9);
    assert_eq!(agg_cfg.num_startup_rtts, 4);
    assert!(agg_cfg.enable_ack_aggregation_startup);
}

#[test]
fn a_cautious_sender_is_cautious_from_the_start() {
    let s = BbrSender::new(INITIAL_PACKET_SIZE, Profile::Conservative);
    assert_eq!(s.profile(), Profile::Conservative);
    assert_eq!(s.state.settings.high_gain, 2250);
    assert!(s.sampler.overestimate_avoidance_enabled);
    assert!(s.sampler.reduce_extra_acked_on_bandwidth_increase);
    assert_eq!(s.congestion_window(NO_LINK), 32 * INITIAL_PACKET_SIZE);
}

#[test]
fn a_profile_can_be_taken_up() {
    let mut s = BbrSender::new(INITIAL_PACKET_SIZE, Profile::Aggressive);
    assert_eq!(s.profile(), Profile::Aggressive);
    assert_eq!(s.state.settings, config_for_profile(Profile::Aggressive));
    assert!(!s.sampler.overestimate_avoidance_enabled);
    s.apply_profile(Profile::Conservative);
    assert_eq!(s.profile(), Profile::Conservative);
    assert!(s.sampler.overestimate_avoidance_enabled);
    assert!(s.sampler.reduce_extra_acked_on_bandwidth_increase);
    s.apply_profile(Profile::Aggressive);
    assert!(s.sampler.overestimate_avoidance_enabled);
    assert!(!s.sampler.reduce_extra_acked_on_bandwidth_increase);
    assert_eq!(s.state.settings.num_startup_rtts, 4);
}

#[test]
fn on_packet_sent_records_state() {
    let mut s = make_sender();
    s.on_packet_sent(100, 1200, 1, 1200, true, NO_LINK);
    assert_eq!(s.state.last_sent_packet, 1);
    assert_eq!(s.state.bytes_in_flight, 1200);
    assert!(!s.state.exiting_quiescence);
    s.on_packet_sent(200, 0, 2, 1200, true, NO_LINK);
    assert!(s.state.exiting_quiescence);
    assert_eq!(s.sampler.total_bytes_sent(), 2400);
}

#[test]
fn on_congestion_event_ex_updates_bytes_in_flight() {
    let mut s = make_sender();
    s.on_packet_sent(100, 1200, 1, 1200, true, NO_LINK);
    let acked =
        vec![AckedPacketInfo { packet_number: 1, bytes_acked: 1200, receive_time_ns: 200 }];
    s.on_congestion_event_ex(1200, 200, &acked, &[]);
    assert_eq!(s.state.bytes_in_flight, 0);
    let lost = vec![LostPacketInfo { packet_number: 9, bytes_lost: 50 }];
    s.on_congestion_event_ex(200, 300, &[], &lost);
    assert_eq!(s.state.bytes_in_flight, 150);
    assert_eq!(s.sampler.total_bytes_acked(), 1200);
}

#[test]
fn single_events_and_hints_change_nothing() {
    let mut s = make_sender();
    let before = s.state;
    s.on_packet_acked(1, 1200, 1200, 5);
    s.on_congestion_event(1, 1200, 1200);
    s.maybe_exit_slow_start();
    s.on_retransmission_timeout(true);
    assert_eq!(s.state, before);
}

#[test]
fn pacing_rate_initial_is_zero() {
    let s = make_sender();
    assert_eq!(s.pacing_rate(), Bandwidth(0));
}

#[test]
fn time_until_send_uses_pacer() {
    let s = make_sender();
    assert_eq!(s.time_until_send(0, NO_LINK), 0);
}

#[test]
fn has_pacing_budget_initially_true() {
    let s = make_sender();
    assert!(s.has_pacing_budget(0, NO_LINK));
}

#[test]
fn rtt_provider_can_be_set() {
    let s = make_sender();
    let link = Link { rtt_ns: 50_000_000, bandwidth: 1, window: 1 };
    assert_eq!(s.congestion_window(link), s.congestion_window(NO_LINK));
}

#[test]
fn scale_byte_window_identity() {
    assert_eq!(scale_byte_window(1000, 1200, 1200), 1000);
}

#[test]
fn scale_byte_window_grow() {
    assert_eq!(scale_byte_window(1200, 1200, 2400), 2400);
}

#[test]
fn min_congestion_window_for_size() {
    assert_eq!(min_congestion_window_for_max_datagram_size(1200), 4800);
    assert_eq!(min_congestion_window_for_max_datagram_size(1400), 5600);
}

#[test]
fn modes_have_distinct_values() {
    assert_ne!(BbrMode::Startup, BbrMode::Drain);
    assert_ne!(BbrMode::ProbeBw, BbrMode::ProbeRtt);
    assert_eq!(BbrMode::default(), BbrMode::Startup);
}

#[test]
fn recovery_states_distinct() {
    assert_ne!(BbrRecoveryState::NotInRecovery, BbrRecoveryState::Conservation);
    assert_ne!(BbrRecoveryState::Conservation, BbrRecoveryState::Growth);
    assert_eq!(BbrRecoveryState::default(), BbrRecoveryState::NotInRecovery);
}

#[test]
fn bbr_sender_constants_match_go() {
    assert_eq!(MIN_BPS, 65_536);
    assert_eq!(INITIAL_CONGESTION_WINDOW_PACKETS, 32);
    assert_eq!(MIN_CONGESTION_WINDOW_PACKETS, 4);
    assert!((thousandths(DEFAULT_HIGH_GAIN) - 2.885).abs() < 1e-3);
    assert_eq!(thousandths(DERIVED_HIGH_CWND_GAIN), 2.0);
    assert_eq!(BANDWIDTH_WINDOW_SIZE, 10);
    assert_eq!(MIN_RTT_EXPIRY_MS, 10_000);
    assert_eq!(PROBE_RTT_TIME_MS, 200);
    assert!((thousandths(STARTUP_GROWTH_TARGET) - 1.25).abs() < 1e-9);
    assert_eq!(ROUND_TRIPS_WITHOUT_GROWTH_BEFORE_EXITING_STARTUP, 3);
    assert_eq!(DEFAULT_STARTUP_FULL_LOSS_COUNT, 8);
    assert!((thousandths(QUIC_BBR2_DEFAULT_LOSS_THRESHOLD) - 0.02).abs() < 1e-9);
}

// Profile.

#[test]
fn profile_parse_round_trip() {
    for (input, expected) in [
        ("", Profile::Standard),
        ("standard", Profile::Standard),
        ("STANDARD", Profile::Standard),
        ("Standard", Profile::Standard),
        ("conservative", Profile::Conservative),
        ("Conservative", Profile::Conservative),
        ("aggressive", Profile::Aggressive),
        ("AGGRESSIVE", Profile::Aggressive),
    ] {
        assert_eq!(Profile::parse(input).unwrap(), expected, "input={input}");
    }
    for p in [Profile::Conservative, Profile::Standard, Profile::Aggressive] {
        assert_eq!(Profile::parse(p.as_str()).unwrap(), p);
    }
}

#[test]
fn profile_parse_invalid_errors() {
    assert!(Profile::parse("weird").is_err());
    assert!(Profile::parse("unknown").is_err());
    assert!(Profile::parse("vivid").is_err());
    assert_eq!(
        Profile::parse("Vivid"),
        Err(HysteriaError::UnsupportedBbrProfile("vivid".to_string()))
    );
}

#[test]
fn profile_as_str_and_display() {
    assert_eq!(Profile::Conservative.as_str(), "conservative");
    assert_eq!(Profile::Standard.as_str(), "standard");
    assert_eq!(Profile::Aggressive.as_str(), "aggressive");
}

#[test]
fn profile_standard_constant() {
    assert_eq!(PROFILE_STANDARD, Profile::Standard);
}

// Queue by packet number.

#[test]
fn new_queue_is_empty() {
    let q: PacketNumberIndexedQueue<i32> = PacketNumberIndexedQueue::new(16);
    assert!(q.is_empty());
    assert_eq!(q.first_packet(), INVALID_PACKET_NUMBER);
    assert_eq!(q.last_packet(), INVALID_PACKET_NUMBER);
}

#[test]
fn emplace_first_sets_first_packet() {
    let mut q: PacketNumberIndexedQueue<i32> = PacketNumberIndexedQueue::new(16);
    assert!(q.emplace(100, 42));
    assert_eq!(q.first_packet(), 100);
    assert_eq!(q.last_packet(), 100);
    assert_eq!(q.get_entry(100), Some(&42));
}

#[test]
fn a_queue_without_a_first_number_is_empty() {
    let mut q = PacketNumberIndexedQueue::new(4);
    assert!(q.emplace(-3, 1));
    assert!(q.emplace(2, 2));
    assert_eq!(q.remove(-3), Some(1));
    assert_eq!(q.first_packet(), 2);
    assert!(q.emplace(4, 3));
    q.remove_up_to(4);
    assert_eq!(q.first_packet(), 4);
    assert_eq!(q.remove(4), Some(3));
    assert!(q.is_empty());
    assert_eq!(q.first_packet(), INVALID_PACKET_NUMBER);
}

#[test]
fn emplace_invalid_returns_false() {
    let mut q: PacketNumberIndexedQueue<i32> = PacketNumberIndexedQueue::new(16);
    assert!(!q.emplace(INVALID_PACKET_NUMBER, 1));
}

#[test]
fn emplace_out_of_order_returns_false() {
    let mut q: PacketNumberIndexedQueue<i32> = PacketNumberIndexedQueue::new(16);
    assert!(q.emplace(10, 1));
    assert!(!q.emplace(10, 2));
    assert!(!q.emplace(5, 3));
}

#[test]
fn emplace_with_gap_fills() {
    let mut q: PacketNumberIndexedQueue<i32> = PacketNumberIndexedQueue::new(16);
    assert!(q.emplace(10, 100));
    assert!(q.emplace(15, 200));
    assert_eq!(q.entry_slots_used(), 6);
    assert_eq!(q.number_of_present_entries(), 2);
    assert_eq!(q.get_entry(11), None);
    assert_eq!(q.get_entry(15), Some(&200));
}

#[test]
fn remove_first_triggers_cleanup() {
    let mut q: PacketNumberIndexedQueue<i32> = PacketNumberIndexedQueue::new(16);
    q.emplace(10, 100);
    q.emplace(11, 200);
    q.emplace(12, 300);
    assert!(q.remove(10).is_some());
    assert_eq!(q.first_packet(), 11);
}

#[test]
fn remove_non_existent_returns_false() {
    let mut q: PacketNumberIndexedQueue<i32> = PacketNumberIndexedQueue::new(16);
    q.emplace(10, 100);
    assert!(q.remove(99).is_none());
    assert!(q.remove(5).is_none());
}

#[test]
fn remove_with_callback() {
    let mut q: PacketNumberIndexedQueue<i32> = PacketNumberIndexedQueue::new(16);
    q.emplace(10, 42);
    assert_eq!(q.remove(10), Some(42));
}

#[test]
fn remove_up_to_clears_prefix() {
    let mut q: PacketNumberIndexedQueue<i32> = PacketNumberIndexedQueue::new(16);
    for i in 10..20 {
        q.emplace(i, i as i32 * 10);
    }
    q.remove_up_to(15);
    assert_eq!(q.first_packet(), 15);
    assert_eq!(q.number_of_present_entries(), 5);
}

#[test]
fn get_entry_mut_allows_modification() {
    let mut q: PacketNumberIndexedQueue<i32> = PacketNumberIndexedQueue::new(16);
    q.emplace(10, 100);
    if let Some(v) = q.get_entry_mut(10) {
        *v = 999;
    }
    assert_eq!(q.get_entry(10), Some(&999));
    assert!(q.get_entry_mut(11).is_none());
}

#[test]
fn last_packet_after_gap() {
    let mut q: PacketNumberIndexedQueue<i32> = PacketNumberIndexedQueue::new(16);
    q.emplace(10, 1);
    q.emplace(20, 2);
    assert_eq!(q.last_packet(), 20);
}

#[test]
fn remove_middle_keeps_first() {
    let mut q: PacketNumberIndexedQueue<i32> = PacketNumberIndexedQueue::new(16);
    q.emplace(10, 100);
    q.emplace(11, 200);
    q.emplace(12, 300);
    assert!(q.remove(11).is_some());
    assert_eq!(q.first_packet(), 10);
    assert_eq!(q.number_of_present_entries(), 2);
}

#[test]
fn remove_all_resets_to_invalid_first() {
    let mut q: PacketNumberIndexedQueue<i32> = PacketNumberIndexedQueue::new(16);
    q.emplace(10, 100);
    q.remove(10);
    assert_eq!(q.first_packet(), INVALID_PACKET_NUMBER);
    assert!(q.is_empty());
}

#[test]
fn entries_stay_where_they_are_as_others_come_and_go() {
    let mut q: PacketNumberIndexedQueue<i64> = PacketNumberIndexedQueue::new(4);
    for n in [3, 5, 6, 9] {
        assert!(q.emplace(n, n * 2));
    }
    assert_eq!(q.remove(5), Some(10));
    assert_eq!(q.remove(3), Some(6));
    assert_eq!(q.first_packet(), 6);
    assert_eq!(q.get_entry(9), Some(&18));
    q.remove_up_to(7);
    assert_eq!(q.first_packet(), 9);
    assert_eq!(q.get_entry(6), None);
}

// Ring buffer.

#[test]
fn new_is_empty() {
    let rb: RingBuffer<i32> = RingBuffer::new();
    assert!(rb.is_empty());
    assert_eq!(rb.len(), 0);
}

#[test]
fn push_pop_fifo_order() {
    let mut rb: RingBuffer<i32> = RingBuffer::new();
    rb.push_back(1);
    rb.push_back(2);
    rb.push_back(3);
    assert_eq!(rb.len(), 3);
    assert_eq!(rb.pop_front(), 1);
    assert_eq!(rb.pop_front(), 2);
    assert_eq!(rb.pop_front(), 3);
    assert!(rb.is_empty());
}

#[test]
fn front_and_back() {
    let mut rb = RingBuffer::new();
    rb.push_back(10);
    rb.push_back(20);
    rb.push_back(30);
    assert_eq!(*rb.front(), 10);
    assert_eq!(*rb.back(), 30);
}

#[test]
fn offset_access() {
    let mut rb = RingBuffer::new();
    rb.push_back(100);
    rb.push_back(200);
    rb.push_back(300);
    assert_eq!(*rb.offset(0), 100);
    assert_eq!(*rb.offset(1), 200);
    assert_eq!(*rb.offset(2), 300);
}

#[test]
fn offset_mut_modifies() {
    let mut rb = RingBuffer::new();
    rb.push_back(1);
    rb.push_back(2);
    *rb.offset_mut(1) = 999;
    assert_eq!(*rb.offset(1), 999);
}

#[test]
#[should_panic(expected = "pop_front on empty")]
fn pop_front_empty_panics() {
    let mut rb: RingBuffer<i32> = RingBuffer::new();
    let _ = rb.pop_front();
}

#[test]
#[should_panic(expected = "front on empty")]
fn front_empty_panics() {
    let rb: RingBuffer<i32> = RingBuffer::new();
    let _ = rb.front();
}

#[test]
#[should_panic(expected = "back on empty")]
fn back_empty_panics() {
    let rb: RingBuffer<i32> = RingBuffer::new();
    let _ = rb.back();
}

#[test]
#[should_panic(expected = "offset index out of range")]
fn offset_oob_panics() {
    let mut rb = RingBuffer::new();
    rb.push_back(1);
    let _ = rb.offset(5);
}

#[test]
fn clear_empties() {
    let mut rb = RingBuffer::new();
    rb.push_back(1);
    rb.push_back(2);
    rb.clear();
    assert!(rb.is_empty());
}

#[test]
fn front_mut_modifies_head() {
    let mut rb = RingBuffer::new();
    rb.push_back(5);
    rb.push_back(6);
    *rb.front_mut() = 100;
    assert_eq!(*rb.front(), 100);
}

#[test]
fn with_capacity_does_not_allocate_more_than_needed() {
    let rb: RingBuffer<i32> = RingBuffer::with_capacity(100);
    assert!(rb.is_empty());
}

#[test]
fn many_pushes_pop_correctly() {
    let mut rb = RingBuffer::new();
    for i in 0..1000 {
        rb.push_back(i);
    }
    for i in 0..500 {
        assert_eq!(rb.pop_front(), i);
    }
    assert_eq!(rb.len(), 500);
    assert_eq!(*rb.front(), 500);
    assert_eq!(*rb.back(), 999);
}

// Clock.

#[test]
fn default_clock_returns_monotonic_increasing() {
    let clock = DefaultClock::new();
    let t1 = clock.now(1_000, 400);
    let t2 = clock.now(5_001_000, 400);
    assert!(t2 > t1, "t2={} should be > t1={}", t2, t1);
    assert_eq!(t1, 600);
}

#[test]
fn default_clock_with_explicit_base() {
    let clock = DefaultClock::with_base(77);
    let t = clock.now(10_000_077, 0);
    assert!(t >= 10_000_000, "got {t}");
    assert_eq!(clock.now(5, 0), 0);
}

#[test]
fn default_clock_monotonic_within_same_call() {
    let clock = DefaultClock::new();
    let t1 = clock.now(12, 3);
    let t2 = clock.now(12, 3);
    assert!(t2 >= t1);
}
