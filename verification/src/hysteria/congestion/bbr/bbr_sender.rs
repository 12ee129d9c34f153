//! A sender that starts boldly and keeps its windows in step with the size of
//! packets.

use vstd::prelude::*;

use crate::hysteria::congestion::bbr::bandwidth::{inf_bandwidth, Bandwidth};
use crate::hysteria::congestion::bbr::bandwidth_sampler::{
    after_acks, after_losses, after_sent, fresh_sampler, totals_fit, BandwidthSampler,
    SamplerView,
};
use crate::hysteria::congestion::bbr::profile::Profile;
use crate::hysteria::congestion::pacer::{fits64, fresh_pacer, Pacer};
use crate::hysteria::congestion::types::{
    AckedPacketInfo, ByteCount, CongestionControl, Link, LostPacketInfo, MonoTime, PacketNumber,
    INVALID_PACKET_NUMBER,
};

verus! {

/// The least bandwidth that is counted on, in bytes per second.
pub const MIN_BPS: u64 = 65_536;

/// The first window, in packets.
pub const INITIAL_CONGESTION_WINDOW_PACKETS: ByteCount = 32;

/// The smallest window, in packets.
pub const MIN_CONGESTION_WINDOW_PACKETS: ByteCount = 4;

/// The largest window, in packets.
pub const MAX_CONGESTION_WINDOW_PACKETS: ByteCount = 100;

/// How much faster than it is known to carry the path is tried at the start,
/// in thousandths.
pub const DEFAULT_HIGH_GAIN: u32 = 2885;

/// How much more than the path holds is sent at the start, in thousandths.
pub const DERIVED_HIGH_CWND_GAIN: u32 = 2000;

/// For how many rounds a bandwidth counts.
pub const BANDWIDTH_WINDOW_SIZE: u64 = 10;

/// For how long the shortest round trip counts, in milliseconds.
pub const MIN_RTT_EXPIRY_MS: u64 = 10_000;

/// How long a shorter round trip is looked for, in milliseconds.
pub const PROBE_RTT_TIME_MS: u64 = 200;

/// How much more bandwidth than in the last round is growth, in thousandths.
pub const STARTUP_GROWTH_TARGET: u32 = 1250;

/// After how many rounds without growth the start is over.
pub const ROUND_TRIPS_WITHOUT_GROWTH_BEFORE_EXITING_STARTUP: i64 = 3;

/// How many losses in a round end the start.
pub const DEFAULT_STARTUP_FULL_LOSS_COUNT: u64 = 8;

/// Which part of the packets may get lost, in thousandths.
pub const QUIC_BBR2_DEFAULT_LOSS_THRESHOLD: u32 = 20;

/// What the sender is up to.
#[derive(Debug, Clone, Copy, PartialEq, Eq, Structural)]
pub enum BbrMode {
    /// Finding out what the path carries.
    Startup,
    /// Letting the path run empty again.
    Drain,
    /// Trying more and less bandwidth in turn.
    ProbeBw,
    /// Looking for a shorter round trip.
    ProbeRtt,
}

impl Default for BbrMode {
    fn default() -> (m: Self)
        ensures
            m == BbrMode::Startup,
    {
        BbrMode::Startup
    }
}

/// How the sender makes up for losses.
#[derive(Debug, Clone, Copy, PartialEq, Eq, Structural)]
pub enum BbrRecoveryState {
    /// It does not have to.
    NotInRecovery,
    /// It sends as much as arrives.
    Conservation,
    /// It sends more than arrives.
    Growth,
}

impl Default for BbrRecoveryState {
    fn default() -> (s: Self)
        ensures
            s == BbrRecoveryState::NotInRecovery,
    {
        BbrRecoveryState::NotInRecovery
    }
}

/// What a profile comes to. Gains are in thousandths.
#[derive(Debug, Clone, Copy, PartialEq, Eq, Structural)]
pub struct ProfileConfig {
    pub high_gain: u32,
    pub high_cwnd_gain: u32,
    pub congestion_window_gain_constant: u32,
    pub num_startup_rtts: i64,
    pub drain_to_target: bool,
    pub detect_overshooting: bool,
    pub bytes_lost_multiplier: u8,
    pub enable_ack_aggregation_startup: bool,
    pub expire_ack_aggregation_startup: bool,
    pub enable_overestimate_avoidance: bool,
    pub reduce_extra_acked_on_bandwidth_increase: bool,
}

/// What a profile comes to.
pub open spec fn profile_config(profile: Profile) -> ProfileConfig {
    match profile {
        Profile::Conservative => ProfileConfig {
            high_gain: 2250,
            high_cwnd_gain: 1750,
            congestion_window_gain_constant: 1750,
            num_startup_rtts: 2,
            drain_to_target: true,
            detect_overshooting: true,
            bytes_lost_multiplier: 1,
            enable_ack_aggregation_startup: false,
            expire_ack_aggregation_startup: false,
            enable_overestimate_avoidance: true,
            reduce_extra_acked_on_bandwidth_increase: true,
        },
        Profile::Aggressive => ProfileConfig {
            high_gain: 3000,
            high_cwnd_gain: 2250,
            congestion_window_gain_constant: 2500,
            num_startup_rtts: 4,
            drain_to_target: false,
            detect_overshooting: false,
            bytes_lost_multiplier: 2,
            enable_ack_aggregation_startup: true,
            expire_ack_aggregation_startup: true,
            enable_overestimate_avoidance: false,
            reduce_extra_acked_on_bandwidth_increase: false,
        },
        Profile::Standard => ProfileConfig {
            high_gain: 2885,
            high_cwnd_gain: 2000,
            congestion_window_gain_constant: 2000,
            num_startup_rtts: 3,
            drain_to_target: false,
            detect_overshooting: false,
            bytes_lost_multiplier: 2,
            enable_ack_aggregation_startup: false,
            expire_ack_aggregation_startup: false,
            enable_overestimate_avoidance: false,
            reduce_extra_acked_on_bandwidth_increase: false,
        },
    }
}

/// What a profile comes to.
pub fn config_for_profile(profile: Profile) -> (c: ProfileConfig)
    ensures
        c == profile_config(profile),
{
    match profile {
        Profile::Conservative => ProfileConfig {
            high_gain: 2250,
            high_cwnd_gain: 1750,
            congestion_window_gain_constant: 1750,
            num_startup_rtts: 2,
            drain_to_target: true,
            detect_overshooting: true,
            bytes_lost_multiplier: 1,
            enable_ack_aggregation_startup: false,
            expire_ack_aggregation_startup: false,
            enable_overestimate_avoidance: true,
            reduce_extra_acked_on_bandwidth_increase: true,
        },
        Profile::Aggressive => ProfileConfig {
            high_gain: 3000,
            high_cwnd_gain: 2250,
            congestion_window_gain_constant: 2500,
            num_startup_rtts: 4,
            drain_to_target: false,
            detect_overshooting: false,
            bytes_lost_multiplier: 2,
            enable_ack_aggregation_startup: true,
            expire_ack_aggregation_startup: true,
            enable_overestimate_avoidance: false,
            reduce_extra_acked_on_bandwidth_increase: false,
        },
        Profile::Standard => ProfileConfig {
            high_gain: DEFAULT_HIGH_GAIN,
            high_cwnd_gain: DERIVED_HIGH_CWND_GAIN,
            congestion_window_gain_constant: 2000,
            num_startup_rtts: ROUND_TRIPS_WITHOUT_GROWTH_BEFORE_EXITING_STARTUP,
            drain_to_target: false,
            detect_overshooting: false,
            bytes_lost_multiplier: 2,
            enable_ack_aggregation_startup: false,
            expire_ack_aggregation_startup: false,
            enable_overestimate_avoidance: false,
            reduce_extra_acked_on_bandwidth_increase: false,
        },
    }
}

/// The smallest window for packets of that size.
pub fn min_congestion_window_for_max_datagram_size(max_datagram_size: ByteCount) -> (n: ByteCount)
    requires
        fits64(4 * max_datagram_size),
    ensures
        n == 4 * max_datagram_size,
{
    MIN_CONGESTION_WINDOW_PACKETS * max_datagram_size
}

/// A window that holds as many packets of the new size as it held of the old.
pub open spec fn scaled(window: int, old_size: int, new_size: int) -> int {
    if old_size == new_size {
        window
    } else {
        window * new_size / old_size
    }
}

/// Whether a window can be scaled.
pub open spec fn can_scale(window: int, old_size: int, new_size: int) -> bool {
    old_size == new_size || {
        &&& window >= 0
        &&& old_size > 0
        &&& new_size >= 0
        &&& window * new_size <= u64::MAX
        &&& window * new_size / old_size <= i64::MAX
    }
}

/// A window that holds as many packets of the new size as it held of the old.
pub fn scale_byte_window(window: ByteCount, old_size: ByteCount, new_size: ByteCount) -> (n:
    ByteCount)
    requires
        can_scale(window as int, old_size as int, new_size as int),
    ensures
        n == scaled(window as int, old_size as int, new_size as int),
{
    if old_size == new_size {
        window
    } else {
        ((window as u64) * (new_size as u64) / (old_size as u64)) as ByteCount
    }
}

/// Numbers of a sender.
#[derive(Debug, Clone, Copy, PartialEq, Eq, Structural)]
pub struct BbrState {
    pub mode: BbrMode,
    pub profile: Profile,
    pub settings: ProfileConfig,
    pub round_trip_count: u64,
    pub last_sent_packet: PacketNumber,
    pub bytes_in_flight: ByteCount,
    /// A packet was sent while none was on its way.
    pub exiting_quiescence: bool,
    pub pacing_rate: Bandwidth,
    pub max_datagram_size: ByteCount,
    pub congestion_window: ByteCount,
    pub initial_congestion_window: ByteCount,
    pub max_congestion_window: ByteCount,
    pub min_congestion_window: ByteCount,
    pub recovery_state: BbrRecoveryState,
    pub recovery_window: ByteCount,
    pub cwnd_to_calculate_min_pacing_rate: ByteCount,
    pub max_congestion_window_with_network_parameters_adjusted: ByteCount,
}

/// The contents of a sender.
pub struct BbrView {
    pub state: BbrState,
    pub sampler: SamplerView,
    pub pacer: Pacer,
}

/// A new sender of that profile.
pub open spec fn fresh_bbr(size: ByteCount, profile: Profile) -> BbrView {
    BbrView {
        state: BbrState {
            mode: BbrMode::Startup,
            profile,
            settings: profile_config(profile),
            round_trip_count: 0,
            last_sent_packet: INVALID_PACKET_NUMBER,
            bytes_in_flight: 0,
            exiting_quiescence: false,
            pacing_rate: Bandwidth(0),
            max_datagram_size: size,
            congestion_window: (32 * size) as i64,
            initial_congestion_window: (32 * size) as i64,
            max_congestion_window: (100 * size) as i64,
            min_congestion_window: (4 * size) as i64,
            recovery_state: BbrRecoveryState::NotInRecovery,
            recovery_window: (100 * size) as i64,
            cwnd_to_calculate_min_pacing_rate: (32 * size) as i64,
            max_congestion_window_with_network_parameters_adjusted: (100 * size) as i64,
        },
        sampler: SamplerView {
            overestimate_avoidance: profile_config(profile).enable_overestimate_avoidance,
            reduce_extra_acked: profile_config(profile).reduce_extra_acked_on_bandwidth_increase,
            ..fresh_sampler()
        },
        pacer: fresh_pacer(),
    }
}

/// `n`, or the nearer of the bounds.
pub open spec fn clamped(n: ByteCount, low: ByteCount, high: ByteCount) -> ByteCount {
    if n < low {
        low
    } else if n > high {
        high
    } else {
        n
    }
}

/// The windows for packets of another size. The current window stays at the
/// smallest or the first one where it was there.
pub open spec fn resized_state(s: BbrState, size: ByteCount) -> BbrState {
    let scale = |w: ByteCount| scaled(w as int, s.max_datagram_size as int, size as int) as i64;
    let low = (4 * size) as i64;
    let high = scale(s.max_congestion_window);
    let initial = scale(s.initial_congestion_window);
    BbrState {
        max_datagram_size: size,
        initial_congestion_window: initial,
        max_congestion_window: high,
        min_congestion_window: low,
        cwnd_to_calculate_min_pacing_rate: scale(s.cwnd_to_calculate_min_pacing_rate),
        max_congestion_window_with_network_parameters_adjusted: scale(
            s.max_congestion_window_with_network_parameters_adjusted,
        ),
        congestion_window: if s.congestion_window == s.min_congestion_window {
            low
        } else if s.congestion_window == s.initial_congestion_window {
            initial
        } else {
            clamped(s.congestion_window, low, high)
        },
        recovery_window: clamped(s.recovery_window, low, high),
        ..s
    }
}

/// Whether packets can have that size: it is not smaller than before, and the
/// windows fit.
pub open spec fn can_resize_state(s: BbrState, size: ByteCount) -> bool {
    let old_size = s.max_datagram_size as int;
    &&& size >= s.max_datagram_size
    &&& fits64(4 * size)
    &&& can_scale(s.initial_congestion_window as int, old_size, size as int)
    &&& can_scale(s.max_congestion_window as int, old_size, size as int)
    &&& can_scale(s.cwnd_to_calculate_min_pacing_rate as int, old_size, size as int)
    &&& can_scale(
        s.max_congestion_window_with_network_parameters_adjusted as int,
        old_size,
        size as int,
    )
    &&& 4 * size <= scaled(s.max_congestion_window as int, old_size, size as int)
}

/// What is on its way after packets have arrived.
pub open spec fn left_after_acks(in_flight: int, acked: Seq<AckedPacketInfo>) -> int
    decreases acked.len(),
{
    if acked.len() == 0 {
        in_flight
    } else {
        left_after_acks(in_flight, acked.drop_last()) - acked.last().bytes_acked
    }
}

/// What is on its way after packets got lost.
pub open spec fn left_after_losses(in_flight: int, lost: Seq<LostPacketInfo>) -> int
    decreases lost.len(),
{
    if lost.len() == 0 {
        in_flight
    } else {
        left_after_losses(in_flight, lost.drop_last()) - lost.last().bytes_lost
    }
}

/// Whether what is on its way fits, whatever part of the packets is counted.
pub open spec fn flight_fits(
    in_flight: int,
    acked: Seq<AckedPacketInfo>,
    lost: Seq<LostPacketInfo>,
) -> bool {
    &&& forall|k: int|
        0 <= k <= acked.len() ==> fits64(#[trigger] left_after_acks(in_flight, acked.take(k)))
    &&& forall|k: int|
        0 <= k <= lost.len() ==> fits64(
            #[trigger] left_after_losses(left_after_acks(in_flight, acked), lost.take(k)),
        )
}

/// A sender that starts boldly.
pub struct BbrSender {
    pub state: BbrState,
    pub sampler: BandwidthSampler,
    pub pacer: Pacer,
}

impl View for BbrSender {
    type V = BbrView;

    open spec fn view(&self) -> BbrView {
        BbrView { state: self.state, sampler: self.sampler@, pacer: self.pacer }
    }
}

fn clamp_window(n: ByteCount, low: ByteCount, high: ByteCount) -> (m: ByteCount)
    ensures
        m == clamped(n, low, high),
{
    if n < low {
        low
    } else if n > high {
        high
    } else {
        n
    }
}

impl BbrSender {
    /// A new sender for packets of that size, with the gains of the profile.
    pub fn new(initial_max_datagram_size: ByteCount, profile: Profile) -> (s: Self)
        requires
            fits64(100 * initial_max_datagram_size),
        ensures
            s.wf(),
            s@ == fresh_bbr(initial_max_datagram_size, profile),
    {
        let initial: i64 = INITIAL_CONGESTION_WINDOW_PACKETS * initial_max_datagram_size;
        let high: i64 = MAX_CONGESTION_WINDOW_PACKETS * initial_max_datagram_size;
        let low: i64 = min_congestion_window_for_max_datagram_size(initial_max_datagram_size);
        let mut sender = BbrSender {
            state: BbrState {
                mode: BbrMode::Startup,
                profile: Profile::Standard,
                settings: config_for_profile(Profile::Standard),
                round_trip_count: 0,
                last_sent_packet: INVALID_PACKET_NUMBER,
                bytes_in_flight: 0,
                exiting_quiescence: false,
                pacing_rate: Bandwidth(0),
                max_datagram_size: initial_max_datagram_size,
                congestion_window: initial,
                initial_congestion_window: initial,
                max_congestion_window: high,
                min_congestion_window: low,
                recovery_state: BbrRecoveryState::NotInRecovery,
                recovery_window: high,
                cwnd_to_calculate_min_pacing_rate: initial,
                max_congestion_window_with_network_parameters_adjusted: high,
            },
            sampler: BandwidthSampler::new(BANDWIDTH_WINDOW_SIZE),
            pacer: Pacer::new(),
        };
        sender.apply_profile(profile);
        sender
    }

    /// Takes up a profile. Avoiding too high estimates is never taken back.
    pub fn apply_profile(&mut self, profile: Profile)
        ensures
            final(self)@ == (BbrView {
                state: BbrState {
                    profile,
                    settings: profile_config(profile),
                    ..old(self)@.state
                },
                sampler: SamplerView {
                    overestimate_avoidance: old(self)@.sampler.overestimate_avoidance
                        || profile_config(profile).enable_overestimate_avoidance,
                    reduce_extra_acked: profile_config(
                        profile,
                    ).reduce_extra_acked_on_bandwidth_increase,
                    ..old(self)@.sampler
                },
                pacer: old(self)@.pacer,
            }),
    {
        let settings = config_for_profile(profile);
        self.state.profile = profile;
        self.state.settings = settings;
        if settings.enable_overestimate_avoidance {
            self.sampler.enable_overestimate_avoidance();
        }
        self.sampler.set_reduce_extra_acked_on_bandwidth_increase(
            settings.reduce_extra_acked_on_bandwidth_increase,
        );
    }

    /// What the sender is up to.
    pub fn mode(&self) -> (m: BbrMode)
        ensures
            m == self@.state.mode,
    {
        self.state.mode
    }

    /// The profile.
    pub fn profile(&self) -> (p: Profile)
        ensures
            p == self@.state.profile,
    {
        self.state.profile
    }

    /// The rate that packets are to be spread at.
    pub fn pacing_rate(&self) -> (b: Bandwidth)
        ensures
            b == self@.state.pacing_rate,
    {
        self.state.pacing_rate
    }
}

impl CongestionControl for BbrSender {
    open spec fn wf(&self) -> bool {
        true
    }

    open spec fn pacer_of(v: BbrView) -> Pacer {
        v.pacer
    }

    /// The pacer counts on no bandwidth.
    open spec fn rate_of(v: BbrView, link: Link) -> ByteCount {
        0
    }

    open spec fn datagram_size_of(v: BbrView) -> ByteCount {
        v.state.max_datagram_size
    }

    open spec fn window_of(v: BbrView, link: Link) -> ByteCount {
        let s = v.state;
        if s.mode == BbrMode::ProbeRtt {
            s.min_congestion_window
        } else if s.recovery_state != BbrRecoveryState::NotInRecovery && s.recovery_window
            < s.congestion_window {
            s.recovery_window
        } else {
            s.congestion_window
        }
    }

    open spec fn admits(v: BbrView, bytes_in_flight: ByteCount, link: Link) -> bool {
        bytes_in_flight < Self::window_of(v, link)
    }

    open spec fn starting(v: BbrView) -> bool {
        v.state.mode == BbrMode::Startup
    }

    open spec fn recovering(v: BbrView) -> bool {
        v.state.recovery_state != BbrRecoveryState::NotInRecovery
    }

    open spec fn sent(
        v: BbrView,
        at: MonoTime,
        bytes_in_flight: ByteCount,
        number: PacketNumber,
        bytes: ByteCount,
        retransmittable: bool,
        link: Link,
    ) -> BbrView {
        BbrView {
            state: BbrState {
                last_sent_packet: number,
                bytes_in_flight,
                exiting_quiescence: v.state.exiting_quiescence || bytes_in_flight == 0,
                ..v.state
            },
            sampler: after_sent(v.sampler, number, bytes, bytes_in_flight, retransmittable),
            pacer: v.pacer.after_packet(at, bytes, 0),
        }
    }

    open spec fn can_count_sent(v: BbrView, bytes: ByteCount) -> bool {
        fits64(v.sampler.bytes_sent + bytes)
    }

    open spec fn informed(
        v: BbrView,
        prior_in_flight: ByteCount,
        at: MonoTime,
        acked: Seq<AckedPacketInfo>,
        lost: Seq<LostPacketInfo>,
    ) -> BbrView {
        BbrView {
            state: BbrState {
                bytes_in_flight: left_after_losses(
                    left_after_acks(prior_in_flight as int, acked),
                    lost,
                ) as i64,
                ..v.state
            },
            sampler: after_losses(after_acks(v.sampler, acked).0, lost),
            pacer: v.pacer,
        }
    }

    open spec fn can_count_event(
        v: BbrView,
        prior_in_flight: ByteCount,
        at: MonoTime,
        acked: Seq<AckedPacketInfo>,
        lost: Seq<LostPacketInfo>,
    ) -> bool {
        totals_fit(v.sampler, acked, lost) && flight_fits(prior_in_flight as int, acked, lost)
    }

    open spec fn resized(v: BbrView, size: ByteCount) -> BbrView {
        BbrView {
            state: resized_state(v.state, size),
            pacer: Pacer { max_datagram_size: size, ..v.pacer },
            ..v
        }
    }

    open spec fn can_resize(v: BbrView, size: ByteCount) -> bool {
        can_resize_state(v.state, size)
    }

    fn time_until_send(&self, _bytes_in_flight: ByteCount, _link: Link) -> (t: MonoTime) {
        self.pacer.time_until_send(0)
    }

    fn has_pacing_budget(&self, now: MonoTime, _link: Link) -> (b: bool) {
        self.pacer.budget(now, 0) >= self.state.max_datagram_size
    }

    fn can_send(&self, bytes_in_flight: ByteCount, link: Link) -> (b: bool) {
        bytes_in_flight < self.congestion_window(link)
    }

    fn congestion_window(&self, _link: Link) -> (n: ByteCount) {
        if self.state.mode == BbrMode::ProbeRtt {
            return self.state.min_congestion_window;
        }
        if self.state.recovery_state != BbrRecoveryState::NotInRecovery
            && self.state.recovery_window < self.state.congestion_window {
            return self.state.recovery_window;
        }
        self.state.congestion_window
    }

    fn on_packet_sent(
        &mut self,
        sent_time: MonoTime,
        bytes_in_flight: ByteCount,
        packet_number: PacketNumber,
        bytes: ByteCount,
        is_retransmittable: bool,
        _link: Link,
    ) {
        self.pacer.sent_packet(sent_time, bytes, 0);
        self.state.last_sent_packet = packet_number;
        self.state.bytes_in_flight = bytes_in_flight;
        if bytes_in_flight == 0 {
            self.state.exiting_quiescence = true;
        }
        self.sampler.on_packet_sent(
            sent_time,
            packet_number,
            bytes,
            bytes_in_flight,
            is_retransmittable,
        );
    }

    fn on_packet_acked(
        &mut self,
        _number: PacketNumber,
        _acked_bytes: ByteCount,
        _prior_in_flight: ByteCount,
        _event_time: MonoTime,
    ) {
    }

    fn on_congestion_event(
        &mut self,
        _number: PacketNumber,
        _lost_bytes: ByteCount,
        _prior_in_flight: ByteCount,
    ) {
    }

    fn on_congestion_event_ex(
        &mut self,
        prior_in_flight: ByteCount,
        event_time: MonoTime,
        acked_packets: &[AckedPacketInfo],
        lost_packets: &[LostPacketInfo],
    ) {
        let mut in_flight: i64 = prior_in_flight;
        let mut i: usize = 0;
        assert(acked_packets@.take(0) =~= Seq::empty());
        while i < acked_packets.len()
            invariant
                i <= acked_packets@.len(),
                flight_fits(prior_in_flight as int, acked_packets@, lost_packets@),
                in_flight == left_after_acks(
                    prior_in_flight as int,
                    acked_packets@.take(i as int),
                ),
            decreases acked_packets@.len() - i,
        {
            proof {
                let next = acked_packets@.take(i + 1);
                assert(next.drop_last() =~= acked_packets@.take(i as int));
                assert(fits64(left_after_acks(prior_in_flight as int, next)));
            }
            in_flight = in_flight - acked_packets[i].bytes_acked;
            i += 1;
        }
        assert(acked_packets@.take(i as int) =~= acked_packets@);
        let ghost middle = in_flight as int;
        let mut j: usize = 0;
        assert(lost_packets@.take(0) =~= Seq::empty());
        while j < lost_packets.len()
            invariant
                j <= lost_packets@.len(),
                middle == left_after_acks(prior_in_flight as int, acked_packets@),
                flight_fits(prior_in_flight as int, acked_packets@, lost_packets@),
                in_flight == left_after_losses(middle, lost_packets@.take(j as int)),
            decreases lost_packets@.len() - j,
        {
            proof {
                let next = lost_packets@.take(j + 1);
                assert(next.drop_last() =~= lost_packets@.take(j as int));
                assert(fits64(left_after_losses(middle, next)));
            }
            in_flight = in_flight - lost_packets[j].bytes_lost;
            j += 1;
        }
        assert(lost_packets@.take(j as int) =~= lost_packets@);
        self.state.bytes_in_flight = in_flight;
        let _ = self.sampler.on_congestion_event(
            event_time,
            acked_packets,
            lost_packets,
            self.state.pacing_rate,
            inf_bandwidth(),
            self.state.round_trip_count,
        );
    }

    fn set_max_datagram_size(&mut self, size: ByteCount) {
        let s = self.state;
        let size: i64 = if size >= s.max_datagram_size {
            Some(size)
        } else {
            None
        }.expect("BBR cannot decrease max datagram size");
        let was: i64 = s.max_datagram_size;
        let low: i64 = min_congestion_window_for_max_datagram_size(size);
        let initial: i64 = scale_byte_window(s.initial_congestion_window, was, size);
        let high: i64 = scale_byte_window(s.max_congestion_window, was, size);
        self.state.max_datagram_size = size;
        self.state.initial_congestion_window = initial;
        self.state.max_congestion_window = high;
        self.state.min_congestion_window = low;
        self.state.cwnd_to_calculate_min_pacing_rate = scale_byte_window(
            s.cwnd_to_calculate_min_pacing_rate,
            was,
            size,
        );
        self.state.max_congestion_window_with_network_parameters_adjusted = scale_byte_window(
            s.max_congestion_window_with_network_parameters_adjusted,
            was,
            size,
        );
        self.state.congestion_window = if s.congestion_window == s.min_congestion_window {
            low
        } else if s.congestion_window == s.initial_congestion_window {
            initial
        } else {
            clamp_window(s.congestion_window, low, high)
        };
        self.state.recovery_window = clamp_window(s.recovery_window, low, high);
        self.pacer.set_max_datagram_size(size);
    }

    fn in_slow_start(&self) -> (b: bool) {
        self.state.mode == BbrMode::Startup
    }

    fn in_recovery(&self) -> (b: bool) {
        self.state.recovery_state != BbrRecoveryState::NotInRecovery
    }

    fn maybe_exit_slow_start(&mut self) {
    }

    fn on_retransmission_timeout(&mut self, _packets_retransmitted: bool) {
    }

    fn pacer(&self) -> (p: &Pacer) {
        &self.pacer
    }
}

/// A new sender takes packets of any larger size that its windows can count,
/// and keeps its windows at as many packets as before.
pub proof fn law_resizing_keeps_packets(size: ByteCount, larger: ByteCount, profile: Profile)
    requires
        0 < size <= larger,
        100 * size * larger <= u64::MAX,
        100 * larger <= i64::MAX,
    ensures
        ({
            let s = fresh_bbr(size, profile).state;
            let t = resized_state(s, larger);
            &&& can_resize_state(s, larger)
            &&& t.congestion_window == 32 * larger
            &&& t.initial_congestion_window == 32 * larger
            &&& t.max_congestion_window == 100 * larger
            &&& t.min_congestion_window == 4 * larger
            &&& t.min_congestion_window <= t.congestion_window <= t.max_congestion_window
        }),
{
    lemma_scaled(32, size as int, larger as int);
    lemma_scaled(100, size as int, larger as int);
}

proof fn lemma_scaled(n: int, size: int, larger: int)
    requires
        0 <= n <= 100,
        0 < size <= larger,
        100 * size * larger <= u64::MAX,
    ensures
        (n * size) * larger / size == n * larger,
        0 <= (n * size) * larger <= u64::MAX,
{
    assert((n * size) * larger == (n * larger) * size) by (nonlinear_arith);
    assert((n * larger) * size / size == n * larger) by (nonlinear_arith)
        requires
            size > 0,
    ;
    assert(0 <= (n * size) * larger <= 100 * size * larger) by (nonlinear_arith)
        requires
            0 <= n <= 100,
            0 < size <= larger,
    ;
}

/// How much may be on its way: the smallest window while a shorter round trip is
/// looked for; otherwise the window, and no more than the recovery window while
/// losses are made up for. More is let out while less than that is on its way.
pub proof fn law_bbr_window(v: BbrView, link: Link, in_flight: ByteCount)
    ensures
        v.state.mode == BbrMode::ProbeRtt ==> BbrSender::window_of(v, link)
            == v.state.min_congestion_window,
        v.state.mode != BbrMode::ProbeRtt && v.state.recovery_state
            == BbrRecoveryState::NotInRecovery ==> BbrSender::window_of(v, link)
            == v.state.congestion_window,
        v.state.mode != BbrMode::ProbeRtt && v.state.recovery_state
            != BbrRecoveryState::NotInRecovery ==> BbrSender::window_of(v, link) == vstd::math::min(
            v.state.congestion_window as int,
            v.state.recovery_window as int,
        ),
        BbrSender::admits(v, in_flight, link) <==> in_flight < BbrSender::window_of(v, link),
        BbrSender::recovering(v) <==> v.state.recovery_state != BbrRecoveryState::NotInRecovery,
        BbrSender::starting(v) <==> v.state.mode == BbrMode::Startup,
{
}

proof fn lemma_left(in_flight: int, acked: Seq<AckedPacketInfo>, lost: Seq<LostPacketInfo>)
    ensures
        left_after_acks(in_flight, acked) == in_flight - acked.fold_left(
            0int,
            |sum: int, p: AckedPacketInfo| sum + p.bytes_acked,
        ),
        left_after_losses(in_flight, lost) == in_flight - lost.fold_left(
            0int,
            |sum: int, p: LostPacketInfo| sum + p.bytes_lost,
        ),
    decreases acked.len() + lost.len(),
{
    if acked.len() > 0 {
        lemma_left(in_flight, acked.drop_last(), lost);
    } else if lost.len() > 0 {
        lemma_left(in_flight, acked, lost.drop_last());
    }
}

/// Packets that have arrived and packets that got lost are no longer on their
/// way, by their bytes; the windows stay as they are.
pub proof fn law_arrivals_and_losses_leave_the_path(
    v: BbrView,
    prior_in_flight: ByteCount,
    at: MonoTime,
    acked: Seq<AckedPacketInfo>,
    lost: Seq<LostPacketInfo>,
)
    requires
        BbrSender::can_count_event(v, prior_in_flight, at, acked, lost),
    ensures
        ({
            let w = BbrSender::informed(v, prior_in_flight, at, acked, lost);
            &&& w.state.bytes_in_flight == prior_in_flight - acked.fold_left(
                0int,
                |sum: int, p: AckedPacketInfo| sum + p.bytes_acked,
            ) - lost.fold_left(0int, |sum: int, p: LostPacketInfo| sum + p.bytes_lost)
            &&& w.state == (BbrState { bytes_in_flight: w.state.bytes_in_flight, ..v.state })
            &&& w.pacer == v.pacer
        }),
{
    lemma_left(prior_in_flight as int, acked, lost);
    lemma_left(left_after_acks(prior_in_flight as int, acked), acked, lost);
    assert(lost.take(lost.len() as int) =~= lost);
    assert(fits64(
        left_after_losses(
            left_after_acks(prior_in_flight as int, acked),
            lost.take(lost.len() as int),
        ),
    ));
}

/// Packets of another size change the smallest window to four of them, and leave
/// the windows between the smallest and the largest: one that was at the
/// smallest or at the first stays there.
pub proof fn law_resizing_keeps_within_bounds(s: BbrState, size: ByteCount)
    requires
        can_resize_state(s, size),
    ensures
        ({
            let t = resized_state(s, size);
            &&& t.max_datagram_size == size
            &&& t.min_congestion_window == 4 * size
            &&& t.min_congestion_window <= t.max_congestion_window
            &&& t.min_congestion_window <= t.recovery_window <= t.max_congestion_window
            &&& s.congestion_window == s.min_congestion_window ==> t.congestion_window == 4 * size
            &&& s.congestion_window != s.min_congestion_window && s.congestion_window
                == s.initial_congestion_window ==> t.congestion_window
                == t.initial_congestion_window
            &&& s.congestion_window != s.min_congestion_window && s.congestion_window
                != s.initial_congestion_window ==> t.congestion_window == vstd::math::max(
                4 * size,
                vstd::math::min(s.congestion_window as int, t.max_congestion_window as int),
            )
            &&& 4 * size <= s.recovery_window <= t.max_congestion_window ==> t.recovery_window
                == s.recovery_window
            &&& t.mode == s.mode && t.recovery_state == s.recovery_state && t.bytes_in_flight
                == s.bytes_in_flight && t.settings == s.settings
        }),
{
    if size == s.max_datagram_size {
        assert(scaled(s.max_congestion_window as int, size as int, size as int)
            == s.max_congestion_window);
    }
}

/// A new sender may have thirty-two packets on their way, four at the least and a
/// hundred at the most.
pub proof fn law_bbr_starts_with_packets(size: ByteCount, profile: Profile, link: Link)
    requires
        0 <= size,
        100 * size <= i64::MAX,
    ensures
        ({
            let v = fresh_bbr(size, profile);
            &&& BbrSender::window_of(v, link) == 32 * size
            &&& v.state.min_congestion_window == 4 * size
            &&& v.state.max_congestion_window == 100 * size
            &&& v.state.recovery_window == 100 * size
            &&& BbrSender::starting(v)
            &&& !BbrSender::recovering(v)
            &&& v.state.bytes_in_flight == 0
            &&& v.state.profile == profile
        }),
{
}

/// A packet is the last one that was sent and is counted; a sender that had
/// nothing on its way leaves its rest with it. The windows stay as they are.
pub proof fn law_bbr_packets_are_counted(
    v: BbrView,
    at: MonoTime,
    in_flight: ByteCount,
    number: PacketNumber,
    bytes: ByteCount,
    retransmittable: bool,
    link: Link,
)
    ensures
        ({
            let w = BbrSender::sent(v, at, in_flight, number, bytes, retransmittable, link);
            &&& w.state.last_sent_packet == number
            &&& w.state.bytes_in_flight == in_flight
            &&& w.state.exiting_quiescence <==> v.state.exiting_quiescence || in_flight == 0
            &&& w.sampler.bytes_sent == v.sampler.bytes_sent + bytes
            &&& retransmittable ==> w.sampler.sent.contains_key(number)
            &&& !retransmittable ==> w.sampler.sent == v.sampler.sent
            &&& w.state.congestion_window == v.state.congestion_window && w.state.recovery_window
                == v.state.recovery_window && w.state.mode == v.state.mode
            &&& w.pacer.last_sent_time == at
        }),
{
}

} // verus!
