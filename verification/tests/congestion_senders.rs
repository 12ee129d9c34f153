use udp_transports::hysteria::congestion::bbr::profile::Profile;
use udp_transports::hysteria::congestion::brutal::{AckRate, BrutalSender};
use udp_transports::hysteria::congestion::pacer::{Pacer, MAX_BURST_PACKETS};
use udp_transports::hysteria::congestion::types::{
    AckedPacketInfo, ByteCount, CongestionControl, Link, LostPacketInfo, INITIAL_PACKET_SIZE,
    MIN_PACING_DELAY_NS,
};
use udp_transports::hysteria::congestion::utils::{
    apply_negotiated, negotiated, normalize_bbr_profile, normalize_type, use_bbr, use_brutal,
    use_configured, Choice, CongestionSetter, Installs, Sender,
};
use udp_transports::hysteria::error::HysteriaError;

// Pacer.

#[test]
fn new_pacer_initial_budget_is_burst_packets() {
    let p = Pacer::new();
    assert_eq!(p.budget(1, 1_000_000), MAX_BURST_PACKETS * INITIAL_PACKET_SIZE);
}

#[test]
fn sent_packet_reduces_budget() {
    let mut p = Pacer::new();
    let initial = p.budget(100, 1_000_000);
    p.sent_packet(100, 100, 1_000_000);
    let after = p.budget(100, 1_000_000);
    assert_eq!(after, initial - 100);
}

#[test]
fn sent_packet_exceeding_budget_zeroes_out() {
    let mut p = Pacer::new();
    let huge = (MAX_BURST_PACKETS * INITIAL_PACKET_SIZE) + 1;
    p.sent_packet(100, huge, 1_000);
    assert_eq!(p.budget(100, 1_000), 0);
}

#[test]
fn budget_replenishes_over_time() {
    let mut p = Pacer::new();
    let bandwidth: ByteCount = 1_000_000_000;
    let cap: ByteCount = 4_000_000;
    let burst = MAX_BURST_PACKETS * INITIAL_PACKET_SIZE;
    p.sent_packet(1_000_000_000, burst, bandwidth);
    assert_eq!(p.budget(1_000_000_000, bandwidth), cap - burst);
    assert_eq!(p.budget(2_000_000_000, bandwidth), cap);
}

#[test]
fn time_until_send_zero_when_budget_enough() {
    let p = Pacer::new();
    assert_eq!(p.time_until_send(1_000_000), 0);
}

#[test]
fn time_until_send_positive_when_budget_low() {
    let mut p = Pacer::new();
    p.sent_packet(100, MAX_BURST_PACKETS * INITIAL_PACKET_SIZE, 1_000_000);
    let t = p.time_until_send(1_000_000);
    assert!(t >= 100 + MIN_PACING_DELAY_NS, "got {t}");
    assert_eq!(t, 100 + 1_200_000);
}

#[test]
fn pacer_set_max_datagram_size_takes_effect() {
    let mut p = Pacer::new();
    p.set_max_datagram_size(1400);
    assert_eq!(p.time_until_send(1_000_000), 0);
}

#[test]
fn whoever_waits_finds_enough() {
    for bandwidth in [1, 999, 1_000_003, 77_000_000] {
        let mut p = Pacer::new();
        p.sent_packet(5, 1_000_000_000, bandwidth);
        let t = p.time_until_send(bandwidth);
        assert!(p.budget(t, bandwidth) >= 1200, "bandwidth={bandwidth}");
        assert!(p.budget(t, bandwidth) >= p.budget(t / 2, bandwidth));
    }
}

#[test]
fn pacing_without_bandwidth_counts_on_one_byte_per_second() {
    let mut p = Pacer::new();
    p.sent_packet(7, 12_000, 0);
    assert_eq!(p.time_until_send(0), 7 + 1_200_000_000_000);
    assert_eq!(p.budget(u64::MAX, -5), 0);
}

// Fixed rate.

fn link_for(bs: &BrutalSender, rtt_secs: f64) -> Link {
    let rate = ack_rate(bs);
    Link {
        rtt_ns: (rtt_secs * 1e9) as u64,
        bandwidth: (bs.bps() as f64 / rate) as ByteCount,
        window: (bs.bps() as f64 * rtt_secs * 2.0 / rate) as ByteCount,
    }
}

fn ack_rate(bs: &BrutalSender) -> f64 {
    bs.ack_rate().acked as f64 / bs.ack_rate().total as f64
}

fn acked(count: i64, from: i64) -> Vec<AckedPacketInfo> {
    (0..count)
        .map(|i| AckedPacketInfo { packet_number: from + i, bytes_acked: 100, receive_time_ns: 0 })
        .collect()
}

fn lost(count: i64, from: i64) -> Vec<LostPacketInfo> {
    (0..count).map(|i| LostPacketInfo { packet_number: from + i, bytes_lost: 100 }).collect()
}

#[test]
fn new_brutal_initial_state() {
    let bs = BrutalSender::new(1_000_000);
    assert_eq!(bs.bps(), 1_000_000);
    assert_eq!(ack_rate(&bs), 1.0);
    assert!(!bs.in_slow_start());
    assert!(!bs.in_recovery());
    assert_eq!(BrutalSender::new(u64::MAX).bps(), -1);
}

#[test]
fn congestion_window_zero_rtt_returns_floor() {
    let bs = BrutalSender::new(1_000_000);
    assert_eq!(bs.congestion_window(link_for(&bs, 0.0)), 10_240);
}

#[test]
fn congestion_window_with_rtt_scales() {
    let bs = BrutalSender::new(1_000_000);
    assert_eq!(bs.congestion_window(link_for(&bs, 0.1)), 200_000);
}

#[test]
fn congestion_window_clamped_to_max_datagram_size() {
    let bs = BrutalSender::new(1);
    assert_eq!(bs.congestion_window(link_for(&bs, 1e-6)), INITIAL_PACKET_SIZE);
}

#[test]
fn on_congestion_event_ex_records_into_slot() {
    let mut bs = BrutalSender::new(1_000_000);
    bs.on_congestion_event_ex(0, 1_000_000_000, &acked(1, 1), &[]);
    assert_eq!(ack_rate(&bs), 1.0);
    assert_eq!(bs.pkt_info_slots[1].ack_count, 1);
    bs.on_congestion_event_ex(0, 1_500_000_000, &acked(2, 5), &lost(1, 9));
    assert_eq!(bs.pkt_info_slots[1].ack_count, 3);
    assert_eq!(bs.pkt_info_slots[1].loss_count, 1);
}

#[test]
fn ack_rate_drops_below_min_clamped() {
    let mut bs = BrutalSender::new(1_000_000);
    bs.on_congestion_event_ex(0, 1_000_000_000, &acked(60, 0), &lost(60, 200));
    assert_eq!(ack_rate(&bs), 0.8);
}

#[test]
fn ack_rate_high_stays_high() {
    let mut bs = BrutalSender::new(1_000_000);
    bs.on_congestion_event_ex(0, 1_000_000_000, &acked(95, 0), &lost(5, 200));
    assert!((ack_rate(&bs) - 0.95).abs() < 1e-9);
    assert_eq!(bs.ack_rate(), AckRate { acked: 95, total: 100 });
}

#[test]
fn can_send_when_in_flight_below_window() {
    let bs = BrutalSender::new(1_000_000);
    let link = link_for(&bs, 0.1);
    assert!(bs.can_send(100_000, link));
    assert!(!bs.can_send(300_000, link));
    assert!(bs.can_send(200_000, link));
}

#[test]
fn brutal_set_max_datagram_size_takes_effect() {
    let mut bs = BrutalSender::new(1);
    bs.set_max_datagram_size(1400);
    assert_eq!(bs.congestion_window(link_for(&bs, 1e-6)), 1400);
}

#[test]
fn on_packet_sent_records_to_pacer() {
    let mut bs = BrutalSender::new(1_000_000);
    let link = link_for(&bs, 0.0);
    bs.on_packet_sent(100, 0, 1, 500, true, link);
    assert_eq!(bs.pacer().budget(100, link.bandwidth), 11_500);
}

#[test]
fn slot_overwrite_when_timestamp_differs() {
    let mut bs = BrutalSender::new(1_000_000);
    bs.on_congestion_event_ex(0, 1_000_000_000, &acked(1, 1), &[]);
    assert_eq!(ack_rate(&bs), 1.0);
    bs.on_congestion_event_ex(0, 12_000_000_000, &acked(80, 100), &lost(20, 500));
    assert!((ack_rate(&bs) - 0.8).abs() < 1e-9);
}

#[test]
fn ack_rate_synced_to_pacer_closure() {
    let mut bs = BrutalSender::new(1_000_000);
    assert_eq!(link_for(&bs, 0.0).bandwidth, 1_000_000);
    bs.on_congestion_event_ex(0, 1_000_000_000, &acked(60, 0), &lost(60, 200));
    assert_eq!(link_for(&bs, 0.0).bandwidth, 1_250_000);
}

#[test]
fn old_seconds_do_not_count() {
    let mut bs = BrutalSender::new(1_000_000);
    bs.on_congestion_event_ex(0, 2_000_000_000, &acked(60, 0), &lost(60, 200));
    assert_eq!(bs.ack_rate(), AckRate { acked: 4, total: 5 });
    bs.on_congestion_event_ex(0, 9_000_000_000, &acked(1, 0), &[]);
    assert_eq!(bs.ack_rate(), AckRate { acked: 1, total: 1 });
}

// Choosing.

struct TestSetter {
    last_set: Option<Sender>,
    times: usize,
}

impl TestSetter {
    fn new() -> Self {
        Self { last_set: None, times: 0 }
    }

    fn was_set(&self) -> bool {
        self.last_set.is_some()
    }
}

impl CongestionSetter for TestSetter {
    fn installs(&self) -> Installs {
        unreachable!()
    }

    fn set_congestion_control(&mut self, cc: Sender) {
        self.last_set = Some(cc);
        self.times += 1;
    }
}

#[test]
fn normalize_type_valid() {
    assert_eq!(normalize_type("").unwrap(), "bbr");
    assert_eq!(normalize_type("bbr").unwrap(), "bbr");
    assert_eq!(normalize_type("BBR").unwrap(), "bbr");
    assert_eq!(normalize_type("reno").unwrap(), "reno");
    assert_eq!(normalize_type("RENO").unwrap(), "reno");
}

#[test]
fn normalize_type_invalid_errors() {
    assert!(normalize_type("cubic").is_err());
    assert!(normalize_type("bbr2").is_err());
    assert!(normalize_type("foo").is_err());
    assert_eq!(
        normalize_type("Cubic"),
        Err(HysteriaError::UnsupportedCongestionType("cubic".to_string()))
    );
}

#[test]
fn normalize_bbr_profile_valid() {
    assert_eq!(normalize_bbr_profile("").unwrap(), "standard");
    assert_eq!(normalize_bbr_profile("standard").unwrap(), "standard");
    assert_eq!(normalize_bbr_profile("Conservative").unwrap(), "conservative");
    assert_eq!(normalize_bbr_profile("AGGRESSIVE").unwrap(), "aggressive");
}

#[test]
fn normalize_bbr_profile_invalid() {
    assert!(normalize_bbr_profile("weird").is_err());
}

#[test]
fn use_bbr_applies_cc_to_setter() {
    let mut setter = TestSetter::new();
    use_bbr(&mut setter, INITIAL_PACKET_SIZE, Profile::Standard);
    assert!(setter.was_set());
    assert_eq!(setter.times, 1);
    match setter.last_set {
        Some(Sender::Bbr(s)) => {
            let link = Link { rtt_ns: 0, bandwidth: 0, window: 0 };
            assert_eq!(s.congestion_window(link), 32 * INITIAL_PACKET_SIZE);
            assert!(s.in_slow_start());
            assert!(!s.in_recovery());
        },
        _ => panic!("expected the path to decide"),
    }
}

#[test]
fn use_brutal_applies_cc_to_setter() {
    let mut setter = TestSetter::new();
    use_brutal(&mut setter, 1_000_000, false);
    assert!(setter.was_set());
    match setter.last_set {
        Some(Sender::Brutal(s)) => assert_eq!(s.bps(), 1_000_000),
        _ => panic!("expected a fixed rate"),
    }
}

#[test]
fn use_configured_reno_no_op() {
    let mut setter = TestSetter::new();
    use_configured(&mut setter, "reno", "standard", 1200).unwrap();
    use_configured(&mut setter, "RENO", "weird", i64::MAX).unwrap();
    assert!(!setter.was_set());
    assert_eq!(setter.times, 0);
}

#[test]
fn use_configured_default_applies_bbr() {
    let mut setter = TestSetter::new();
    use_configured(&mut setter, "", "standard", 1200).unwrap();
    assert!(setter.was_set());
    assert_eq!(setter.times, 1);
}

#[test]
fn the_profile_that_is_asked_for_is_used() {
    let mut setter = TestSetter::new();
    use_configured(&mut setter, "bbr", "Aggressive", 1200).unwrap();
    match setter.last_set {
        Some(Sender::Bbr(s)) => assert_eq!(s.profile(), Profile::Aggressive),
        _ => panic!("expected the path to decide"),
    }
}

#[test]
fn losses_are_made_up_for_unless_told_otherwise() {
    for (disable, rate) in [(false, AckRate { acked: 4, total: 5 }), (true, AckRate { acked: 1, total: 1 })] {
        let mut setter = TestSetter::new();
        use_brutal(&mut setter, 1_000_000, disable);
        match setter.last_set {
            Some(Sender::Brutal(mut s)) => {
                s.on_congestion_event_ex(0, 1_000_000_000, &acked(60, 0), &lost(60, 200));
                assert_eq!(s.ack_rate(), rate, "disable={disable}");
            },
            _ => panic!("expected a fixed rate"),
        }
    }
}

#[test]
fn both_ends_come_to_the_smaller_rate() {
    for name in ["", "brutal", "force-brutal", "BRUTAL"] {
        assert_eq!(negotiated(name, "", 500, 300), Ok(Choice::Brutal(300)), "{name}");
        assert_eq!(negotiated(name, "weird", 200, 300), Ok(Choice::Brutal(200)), "{name}");
        for (up, down) in [(0, 300), (500, 0), (0, 0)] {
            assert_eq!(
                negotiated(name, "conservative", up, down),
                Ok(Choice::Bbr(Profile::Conservative)),
                "{name}"
            );
        }
    }
    assert_eq!(negotiated("bbr", "", 500, 300), Ok(Choice::Bbr(Profile::Standard)));
    assert_eq!(negotiated("Reno", "weird", 500, 300), Ok(Choice::Keep));
    assert_eq!(
        negotiated("bbr", "Weird", 500, 300),
        Err(HysteriaError::UnsupportedBbrProfile("weird".to_string()))
    );
    assert_eq!(
        negotiated("brutal", "Weird", 0, 300),
        Err(HysteriaError::UnsupportedBbrProfile("weird".to_string()))
    );
    assert_eq!(
        negotiated("Cubic", "", 500, 300),
        Err(HysteriaError::UnsupportedCongestionType("cubic".to_string()))
    );
}

#[test]
fn what_both_ends_come_to_is_set_once() {
    let mut setter = TestSetter::new();
    apply_negotiated(&mut setter, "brutal", "", 500, 300, true, 1200).unwrap();
    assert_eq!(setter.times, 1);
    match &setter.last_set {
        Some(Sender::Brutal(s)) => {
            assert_eq!(s.bps(), 300);
            assert!(!s.compensates);
        },
        _ => panic!("expected a fixed rate"),
    }
    apply_negotiated(&mut setter, "bbr", "", 500, 300, true, 1200).unwrap();
    assert_eq!(setter.times, 2);
    assert!(matches!(setter.last_set, Some(Sender::Bbr(_))));
    apply_negotiated(&mut setter, "reno", "", 500, 300, true, 1200).unwrap();
    assert!(apply_negotiated(&mut setter, "cubic", "", 500, 300, true, 1200).is_err());
    assert_eq!(setter.times, 2);
}

#[test]
fn use_configured_invalid_profile_errors() {
    let mut setter = TestSetter::new();
    assert!(use_configured(&mut setter, "bbr", "weird", 1200).is_err());
    assert!(use_configured(&mut setter, "bbr", "weird", i64::MAX).is_err());
    assert!(!setter.was_set());
}
