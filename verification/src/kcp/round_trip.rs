//! The estimate of the round trip time and of the retransmission timeout.

use vstd::prelude::*;

verus! {

/// What is known of the round trip time, in milliseconds.
#[derive(Debug, Clone, Copy, PartialEq, Eq, Structural)]
pub struct RoundTripInfo {
    /// How far samples lie from the smoothed time.
    pub variation: u32,
    /// The smoothed round trip time, zero until the first sample.
    pub srtt: u32,
    /// The retransmission timeout.
    pub rto: u32,
    /// The least smoothed time that later samples lead to.
    pub min_rtt: u32,
    /// When the timeout was set last.
    pub updated_timestamp: u32,
}

/// `x` modulo two to the thirty-second.
pub open spec fn wrap32(x: int) -> u32 {
    (x % 0x1_0000_0000) as u32
}

/// The distance between two times.
pub open spec fn gap(a: u32, b: u32) -> int {
    if a > b {
        a - b
    } else {
        b - a
    }
}

/// The variation after a sample.
pub open spec fn next_variation(old: RoundTripInfo, rtt: u32) -> u32 {
    if old.srtt == 0 {
        rtt / 2
    } else {
        wrap32(3 * old.variation + gap(old.srtt, rtt)) / 4
    }
}

/// The smoothed time after a sample.
pub open spec fn next_srtt(old: RoundTripInfo, rtt: u32) -> u32 {
    if old.srtt == 0 {
        rtt
    } else {
        let blend = wrap32(7 * old.srtt + rtt) / 8;
        if blend < old.min_rtt {
            old.min_rtt
        } else {
            blend
        }
    }
}

/// The timeout that a smoothed time and a variation lead to: four variations
/// above the smoothed time where they exceed the least round trip time, else
/// one; no more than ten seconds, and a quarter on top.
pub open spec fn timeout_of(srtt: u32, variation: u32, min_rtt: u32) -> u32 {
    let spread = wrap32(4 * variation);
    let rto = if min_rtt < spread {
        wrap32(srtt + spread)
    } else {
        wrap32(srtt + variation)
    };
    let capped: u32 = if rto > 10000 {
        10000
    } else {
        rto
    };
    (capped * 5 / 4) as u32
}

/// The estimate after the sample `rtt`, taken at `current`. Samples above
/// `0x7FFF_FFFF` come from clocks that disagree and change nothing.
#[verifier::opaque]
pub open spec fn after_sample(old: RoundTripInfo, rtt: u32, current: u32) -> RoundTripInfo {
    if rtt > 0x7FFF_FFFF {
        old
    } else {
        RoundTripInfo {
            variation: next_variation(old, rtt),
            srtt: next_srtt(old, rtt),
            rto: timeout_of(next_srtt(old, rtt), next_variation(old, rtt), old.min_rtt),
            min_rtt: old.min_rtt,
            updated_timestamp: current,
        }
    }
}

/// The estimate after the peer has told its timeout. It is taken only three
/// seconds or more after the last change.
pub open spec fn after_peer_rto(old: RoundTripInfo, rto: u32, current: u32) -> RoundTripInfo {
    if wrap32(current - old.updated_timestamp) < 3000 {
        old
    } else {
        RoundTripInfo { rto, updated_timestamp: current, ..old }
    }
}

impl RoundTripInfo {
    /// No sample yet; the timeout is 100 milliseconds.
    pub fn new(min_rtt: u32) -> (r: Self)
        ensures
            r == (RoundTripInfo { variation: 0, srtt: 0, rto: 100, min_rtt, updated_timestamp: 0 }),
    {
        RoundTripInfo { variation: 0, srtt: 0, rto: 100, min_rtt, updated_timestamp: 0 }
    }

    /// Takes the timeout of the peer.
    pub fn update_peer_rto(&mut self, rto: u32, current: u32)
        ensures
            *final(self) == after_peer_rto(*old(self), rto, current),
    {
        if current.wrapping_sub(self.updated_timestamp) < 3000 {
            return;
        }
        self.updated_timestamp = current;
        self.rto = rto;
    }

    /// Takes a sample of the round trip time.
    pub fn update(&mut self, rtt: u32, current: u32)
        ensures
            *final(self) == after_sample(*old(self), rtt, current),
    {
        reveal(after_sample);
        if rtt > 0x7FFF_FFFF {
            return;
        }
        if self.srtt == 0 {
            self.srtt = rtt;
            self.variation = rtt / 2;
        } else {
            let delta: u32 = if self.srtt > rtt {
                self.srtt - rtt
            } else {
                rtt - self.srtt
            };
            let spread: u64 = 3 * self.variation as u64 + delta as u64;
            self.variation = (spread % 0x1_0000_0000) as u32 / 4;
            let blend: u64 = 7 * self.srtt as u64 + rtt as u64;
            self.srtt = (blend % 0x1_0000_0000) as u32 / 8;
            if self.srtt < self.min_rtt {
                self.srtt = self.min_rtt;
            }
        }
        let spread: u32 = ((4 * self.variation as u64) % 0x1_0000_0000) as u32;
        let sum: u64 = if self.min_rtt < spread {
            self.srtt as u64 + spread as u64
        } else {
            self.srtt as u64 + self.variation as u64
        };
        let rto: u32 = (sum % 0x1_0000_0000) as u32;
        let capped: u32 = if rto > 10000 {
            10000
        } else {
            rto
        };
        self.rto = capped * 5 / 4;
        self.updated_timestamp = current;
    }

    /// The retransmission timeout.
    pub fn timeout(&self) -> (rto: u32)
        ensures
            rto == self.rto,
    {
        self.rto
    }

    /// The smoothed round trip time.
    pub fn smoothed_time(&self) -> (srtt: u32)
        ensures
            srtt == self.srtt,
    {
        self.srtt
    }
}

impl Default for RoundTripInfo {
    fn default() -> (r: Self)
        ensures
            r == (RoundTripInfo {
                variation: 0,
                srtt: 0,
                rto: 100,
                min_rtt: 50,
                updated_timestamp: 0,
            }),
    {
        RoundTripInfo::new(50)
    }
}

/// A sample that counts leaves a timeout of at most twelve and a half seconds.
pub proof fn law_timeout_bounded(old: RoundTripInfo, rtt: u32, current: u32)
    requires
        rtt <= 0x7FFF_FFFF,
    ensures
        after_sample(old, rtt, current).rto <= 12500,
{
    reveal(after_sample);
}

/// After the first sample the smoothed time is never below the least round
/// trip time again.
pub proof fn law_srtt_not_below_minimum(old: RoundTripInfo, rtt: u32, current: u32)
    requires
        old.srtt != 0,
        rtt <= 0x7FFF_FFFF,
    ensures
        after_sample(old, rtt, current).srtt >= old.min_rtt,
{
    reveal(after_sample);
}

/// While times stay below two to the twenty-eighth milliseconds, three days,
/// a sample moves the variation by a quarter and the smoothed time by an eighth
/// of the way, with nothing cut off, and both stay below that bound.
pub proof fn law_small_times_do_not_wrap(old: RoundTripInfo, rtt: u32, current: u32)
    requires
        old.srtt != 0,
        old.srtt < 0x1000_0000,
        old.variation < 0x1000_0000,
        old.min_rtt < 0x1000_0000,
        rtt < 0x1000_0000,
    ensures
        ({
            let new = after_sample(old, rtt, current);
            let blend = (7 * old.srtt + rtt) / 8;
            &&& new.variation == (3 * old.variation + gap(old.srtt, rtt)) / 4
            &&& new.srtt == (if blend < old.min_rtt {
                old.min_rtt as int
            } else {
                blend
            })
            &&& new.srtt < 0x1000_0000
            &&& new.variation < 0x1000_0000
        }),
{
    reveal(after_sample);
}

/// What one sample makes of the timeout. The smoothed time and four variations,
/// where four variations exceed the least round trip time, or the smoothed time
/// and one variation; ten seconds at most; and a quarter more than that.
pub proof fn law_timeout_covers_the_spread(old: RoundTripInfo, rtt: u32, current: u32)
    requires
        rtt <= 0x7FFF_FFFF,
        after_sample(old, rtt, current).srtt + 4 * after_sample(old, rtt, current).variation
            <= u32::MAX,
    ensures
        ({
            let new = after_sample(old, rtt, current);
            let wide = vstd::math::min(10_000, new.srtt + 4 * new.variation);
            let narrow = vstd::math::min(10_000, new.srtt + new.variation);
            &&& old.min_rtt < 4 * new.variation ==> new.rto == 5 * wide / 4
            &&& old.min_rtt >= 4 * new.variation ==> new.rto == 5 * narrow / 4
        }),
{
    reveal(after_sample);
}

/// The timeout is never below the smoothed time, as long as that is ten seconds
/// at most: an acknowledgement that takes the smoothed time arrives before its
/// segment is sent again.
pub proof fn law_timeout_not_below_smoothed_time(old: RoundTripInfo, rtt: u32, current: u32)
    requires
        rtt <= 0x7FFF_FFFF,
        after_sample(old, rtt, current).srtt + 4 * after_sample(old, rtt, current).variation
            <= u32::MAX,
        after_sample(old, rtt, current).srtt <= 10_000,
    ensures
        ({
            let new = after_sample(old, rtt, current);
            &&& new.rto >= new.srtt
            &&& 4 * new.rto + 3 >= 5 * new.srtt
        }),
{
    law_timeout_covers_the_spread(old, rtt, current);
}

/// The first sample is taken as it is, with half of it as the variation.
pub proof fn law_first_sample_is_taken(old: RoundTripInfo, rtt: u32, current: u32)
    requires
        old.srtt == 0,
        rtt <= 0x7FFF_FFFF,
    ensures
        ({
            let new = after_sample(old, rtt, current);
            &&& new.srtt == rtt
            &&& new.variation == rtt as int / 2
            &&& new.updated_timestamp == current
            &&& new.min_rtt == old.min_rtt
        }),
{
    reveal(after_sample);
}

/// Each later sample moves the smoothed time an eighth of the way towards it,
/// not below the least round trip time, and the variation a quarter of the way
/// towards the distance of the sample from the smoothed time.
pub proof fn law_sample_moves_the_estimate(old: RoundTripInfo, rtt: u32, current: u32)
    requires
        old.srtt != 0,
        rtt <= 0x7FFF_FFFF,
        7 * old.srtt + rtt <= u32::MAX,
        3 * old.variation + old.srtt + rtt <= u32::MAX,
    ensures
        ({
            let new = after_sample(old, rtt, current);
            let away = if rtt >= old.srtt {
                rtt - old.srtt
            } else {
                old.srtt - rtt
            };
            &&& new.srtt == vstd::math::max(old.min_rtt as int, (7 * old.srtt + rtt) / 8)
            &&& new.variation == (3 * old.variation + away) / 4
            &&& new.updated_timestamp == current
            &&& new.min_rtt == old.min_rtt
            &&& rtt >= old.srtt ==> new.srtt >= old.srtt && (new.srtt <= rtt || new.srtt
                == old.min_rtt)
            &&& rtt <= old.srtt && old.srtt >= old.min_rtt ==> old.srtt >= new.srtt >= rtt
                || new.srtt == old.min_rtt
        }),
{
    reveal(after_sample);
}

/// A sample from clocks that disagree changes nothing.
pub proof fn law_absurd_sample_is_ignored(old: RoundTripInfo, rtt: u32, current: u32)
    requires
        rtt > 0x7FFF_FFFF,
    ensures
        after_sample(old, rtt, current) == old,
{
    reveal(after_sample);
}

/// The timeout of the peer is taken three seconds or more after the last change
/// and not before; the time itself counts as a change.
pub proof fn law_peer_timeout_is_taken_at_rest(
    old: RoundTripInfo,
    rto: u32,
    current: u32,
    again: u32,
    later: u32,
)
    ensures
        ({
            let new = after_peer_rto(old, rto, current);
            &&& (current - old.updated_timestamp) % 0x1_0000_0000 >= 3000 ==> new == (
            RoundTripInfo { rto, updated_timestamp: current, ..old })
            &&& (current - old.updated_timestamp) % 0x1_0000_0000 < 3000 ==> new == old
            &&& (current - old.updated_timestamp) % 0x1_0000_0000 >= 3000 && (later - current)
                % 0x1_0000_0000 < 3000 ==> after_peer_rto(new, again, later).rto == rto
        }),
{
}

} // verus!
