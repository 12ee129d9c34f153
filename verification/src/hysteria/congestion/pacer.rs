//! Spreading packets over time.

use vstd::prelude::*;

use crate::hysteria::congestion::types::{
    ByteCount, MonoTime, INITIAL_PACKET_SIZE, MIN_PACING_DELAY_NS,
};

verus! {

/// How many packets may go out at once.
pub const MAX_BURST_PACKETS: ByteCount = 10;

/// How many of the shortest pauses may be made up for at once.
pub const MAX_BURST_PACING_DELAY_MULTIPLIER: u64 = 4;

/// `n`, or the nearest number that fits.
pub open spec fn clamp64(n: int) -> int {
    if n > i64::MAX {
        i64::MAX as int
    } else if n < i64::MIN {
        i64::MIN as int
    } else {
        n
    }
}

/// Whether `n` fits.
pub open spec fn fits64(n: int) -> bool {
    i64::MIN <= n <= i64::MAX
}

/// `n` seconds' worth of something that was counted by nanoseconds, rounded
/// toward zero.
pub open spec fn per_second(n: int) -> int {
    if n >= 0 {
        n / 1_000_000_000
    } else {
        -((-n) / 1_000_000_000)
    }
}

/// A number of 64 bits, its highest bit taken as the sign.
pub open spec fn as_signed(n: u64) -> int {
    if n > i64::MAX {
        n - 0x1_0000_0000_0000_0000
    } else {
        n as int
    }
}

/// A bucket that fills at a rate and is emptied by packets.
#[derive(Debug, Clone, Copy, PartialEq, Eq, Structural)]
pub struct Pacer {
    /// What was left in the bucket after the last packet.
    pub budget_at_last_sent: ByteCount,
    pub max_datagram_size: ByteCount,
    /// When the last packet was sent, zero where none was.
    pub last_sent_time: MonoTime,
}

/// A pacer that no packet has passed.
pub open spec fn fresh_pacer() -> Pacer {
    Pacer { budget_at_last_sent: 12_000, max_datagram_size: 1200, last_sent_time: 0 }
}

impl Pacer {
    /// The size of the bucket at that bandwidth.
    pub open spec fn burst(self, bandwidth: ByteCount) -> int {
        let from_delay = per_second(4_000_000 * bandwidth);
        let from_packets = 10 * self.max_datagram_size;
        if from_delay > from_packets {
            from_delay
        } else {
            from_packets
        }
    }

    /// Whether the size of the bucket can be computed.
    pub open spec fn burst_fits(self, bandwidth: ByteCount) -> bool {
        fits64(4_000_000 * bandwidth) && fits64(10 * self.max_datagram_size)
    }

    /// What has flowed in since the last packet.
    pub open spec fn inflow(self, now: MonoTime, bandwidth: ByteCount) -> int {
        let passed = if now < self.last_sent_time {
            0
        } else {
            (now - self.last_sent_time) as u64
        };
        per_second(clamp64(bandwidth * as_signed(passed)))
    }

    /// What is in the bucket.
    pub open spec fn budget_at(self, now: MonoTime, bandwidth: ByteCount) -> int {
        if self.last_sent_time == 0 {
            self.burst(bandwidth)
        } else {
            let filled = clamp64(self.budget_at_last_sent + self.inflow(now, bandwidth));
            if filled > self.burst(bandwidth) {
                self.burst(bandwidth)
            } else {
                filled
            }
        }
    }

    /// The pacer after a packet.
    pub open spec fn after_packet(
        self,
        at: MonoTime,
        size: ByteCount,
        bandwidth: ByteCount,
    ) -> Pacer {
        let budget = self.budget_at(at, bandwidth);
        Pacer {
            budget_at_last_sent: if size > budget {
                0
            } else {
                (budget - size) as i64
            },
            last_sent_time: at,
            ..self
        }
    }

    /// How long it takes until the bucket holds a packet, but not less than
    /// the shortest pause.
    pub open spec fn pause(self, bandwidth: ByteCount) -> int {
        let product = 1_000_000_000 * (self.max_datagram_size - self.budget_at_last_sent);
        let missing = if product > u64::MAX {
            u64::MAX as int
        } else {
            product
        };
        let rate = if bandwidth < 1 {
            1
        } else {
            bandwidth as int
        };
        let exact = (missing + rate - 1) / rate;
        if exact < 1_000_000 {
            1_000_000
        } else {
            exact
        }
    }

    /// When the next packet may be sent, zero for at once.
    pub open spec fn next_send(self, bandwidth: ByteCount) -> int {
        if self.budget_at_last_sent >= self.max_datagram_size {
            0
        } else if self.last_sent_time + self.pause(bandwidth) > u64::MAX {
            u64::MAX as int
        } else {
            self.last_sent_time + self.pause(bandwidth)
        }
    }

    /// A pacer that no packet has passed.
    pub fn new() -> (p: Self)
        ensures
            p == fresh_pacer(),
    {
        Pacer {
            budget_at_last_sent: MAX_BURST_PACKETS * INITIAL_PACKET_SIZE,
            max_datagram_size: INITIAL_PACKET_SIZE,
            last_sent_time: 0,
        }
    }

    fn max_burst_size(&self, bandwidth: ByteCount) -> (n: ByteCount)
        requires
            self.burst_fits(bandwidth),
        ensures
            n == self.burst(bandwidth),
    {
        let scale: i64 = (MAX_BURST_PACING_DELAY_MULTIPLIER * MIN_PACING_DELAY_NS) as i64;
        let from_delay: i64 = toward_zero(scale as i128 * bandwidth as i128);
        let from_packets: i64 = MAX_BURST_PACKETS * self.max_datagram_size;
        if from_delay > from_packets {
            from_delay
        } else {
            from_packets
        }
    }

    /// What is in the bucket.
    pub fn budget(&self, now_ns: MonoTime, bandwidth: ByteCount) -> (n: ByteCount)
        requires
            self.burst_fits(bandwidth),
        ensures
            n == self.budget_at(now_ns, bandwidth),
    {
        if self.last_sent_time == 0 {
            return self.max_burst_size(bandwidth);
        }
        let passed: u64 = now_ns.saturating_sub(self.last_sent_time);
        let signed: i128 = if passed > 0x7FFF_FFFF_FFFF_FFFF {
            passed as i128 - 0x1_0000_0000_0000_0000
        } else {
            passed as i128
        };
        assert(signed == as_signed(passed));
        assert(-0x4000_0000_0000_0000_0000_0000_0000_0000 <= bandwidth * signed
            <= 0x4000_0000_0000_0000_0000_0000_0000_0000) by (nonlinear_arith)
            requires
                i64::MIN <= bandwidth <= i64::MAX,
                i64::MIN <= signed <= i64::MAX,
        ;
        let delta: i64 = toward_zero(clamp(bandwidth as i128 * signed) as i128);
        let filled: i64 = clamp(self.budget_at_last_sent as i128 + delta as i128);
        let cap: i64 = self.max_burst_size(bandwidth);
        if filled > cap {
            cap
        } else {
            filled
        }
    }

    /// A packet was sent.
    pub fn sent_packet(&mut self, send_time_ns: MonoTime, size: ByteCount, bandwidth: ByteCount)
        requires
            old(self).burst_fits(bandwidth),
            old(self).budget_at(send_time_ns, bandwidth) - size <= i64::MAX,
        ensures
            *final(self) == old(self).after_packet(send_time_ns, size, bandwidth),
    {
        let budget: i64 = self.budget(send_time_ns, bandwidth);
        if size > budget {
            self.budget_at_last_sent = 0;
        } else {
            self.budget_at_last_sent = budget - size;
        }
        self.last_sent_time = send_time_ns;
    }

    /// When the next packet may be sent, zero for at once.
    pub fn time_until_send(&self, bandwidth: ByteCount) -> (t: MonoTime)
        requires
            self.max_datagram_size - self.budget_at_last_sent <= i64::MAX,
        ensures
            t == self.next_send(bandwidth),
    {
        if self.budget_at_last_sent >= self.max_datagram_size {
            return 0;
        }
        let missing: u64 = (self.max_datagram_size - self.budget_at_last_sent) as u64;
        let product: u128 = 1_000_000_000u128 * missing as u128;
        let diff: u64 = if product > 0xFFFF_FFFF_FFFF_FFFF {
            0xFFFF_FFFF_FFFF_FFFF
        } else {
            product as u64
        };
        let rate: u64 = if bandwidth < 1 {
            1
        } else {
            bandwidth as u64
        };
        let whole: u64 = diff / rate;
        let exact: u64 = if diff % rate != 0 {
            assert(rate >= 2);
            assert(whole <= diff / 2) by (nonlinear_arith)
                requires
                    rate >= 2,
                    whole == diff / rate,
            ;
            whole + 1
        } else {
            whole
        };
        assert(exact == (diff + rate - 1) / rate as int) by (nonlinear_arith)
            requires
                rate >= 1,
                whole == diff / rate,
                exact == if diff % rate != 0 {
                    whole + 1
                } else {
                    whole as int
                },
        ;
        let pause: u64 = if exact < MIN_PACING_DELAY_NS {
            MIN_PACING_DELAY_NS
        } else {
            exact
        };
        assert(pause == self.pause(bandwidth));
        self.last_sent_time.saturating_add(pause)
    }

    /// Changes the size of a packet.
    pub fn set_max_datagram_size(&mut self, size: ByteCount)
        ensures
            *final(self) == (Pacer { max_datagram_size: size, ..*old(self) }),
    {
        self.max_datagram_size = size;
    }
}

fn clamp(n: i128) -> (m: i64)
    ensures
        m == clamp64(n as int),
{
    if n > 0x7FFF_FFFF_FFFF_FFFF {
        0x7FFF_FFFF_FFFF_FFFF
    } else if n < -0x8000_0000_0000_0000 {
        -0x8000_0000_0000_0000
    } else {
        n as i64
    }
}

fn toward_zero(n: i128) -> (m: i64)
    requires
        fits64(n as int),
    ensures
        m == per_second(n as int),
{
    if n >= 0 {
        (n / 1_000_000_000) as i64
    } else {
        -(((-n) / 1_000_000_000) as i64)
    }
}

/// The bucket never holds more than its size.
pub proof fn law_budget_is_capped(p: Pacer, now: MonoTime, bandwidth: ByteCount)
    ensures
        p.budget_at(now, bandwidth) <= p.burst(bandwidth),
{
}

/// A bucket that is not overdrawn stays so, whatever packets pass.
pub proof fn law_budget_stays_non_negative(
    p: Pacer,
    at: MonoTime,
    size: ByteCount,
    bandwidth: ByteCount,
)
    requires
        p.budget_at_last_sent >= 0,
        p.budget_at(at, bandwidth) - size <= i64::MAX,
    ensures
        p.after_packet(at, size, bandwidth).budget_at_last_sent >= 0,
{
}

/// As time passes the bucket does not get emptier.
pub proof fn law_budget_only_grows(p: Pacer, s: MonoTime, t: MonoTime, bandwidth: ByteCount)
    requires
        bandwidth >= 0,
        s <= t,
        t < p.last_sent_time + 0x8000_0000_0000_0000,
    ensures
        p.budget_at(s, bandwidth) <= p.budget_at(t, bandwidth),
{
    if p.last_sent_time != 0 {
        let x = if s < p.last_sent_time {
            0
        } else {
            s - p.last_sent_time
        };
        let y = if t < p.last_sent_time {
            0
        } else {
            t - p.last_sent_time
        };
        assert(bandwidth * x <= bandwidth * y) by (nonlinear_arith)
            requires
                bandwidth >= 0,
                x <= y,
        ;
        assert(0 <= bandwidth * x) by (nonlinear_arith)
            requires
                bandwidth >= 0,
                0 <= x,
        ;
    }
}

/// Whoever waits until the pacer says so finds enough in the bucket for a
/// packet.
pub proof fn law_waiting_is_enough(p: Pacer, now: MonoTime, bandwidth: ByteCount)
    requires
        bandwidth >= 1,
        p.last_sent_time > 0,
        p.max_datagram_size >= 0,
        p.budget_at_last_sent < p.max_datagram_size,
        p.max_datagram_size - p.budget_at_last_sent <= 9_000_000_000,
        p.next_send(bandwidth) < u64::MAX,
        p.next_send(bandwidth) <= now < p.last_sent_time + 0x8000_0000_0000_0000,
    ensures
        p.budget_at(now, bandwidth) >= p.max_datagram_size,
{
    let need = p.max_datagram_size - p.budget_at_last_sent;
    let missing = 1_000_000_000 * need;
    let rate = bandwidth as int;
    let exact = (missing + rate - 1) / rate;
    let passed = now - p.last_sent_time;
    assert(exact * rate >= missing) by (nonlinear_arith)
        requires
            exact == (missing + rate - 1) / rate,
            rate >= 1,
    ;
    assert(passed >= exact);
    assert(rate * passed >= exact * rate) by (nonlinear_arith)
        requires
            passed >= exact,
            rate >= 1,
    ;
    let flowed = clamp64(rate * passed);
    assert(flowed >= missing);
    assert(flowed / 1_000_000_000 >= need);
    assert(p.inflow(now, bandwidth) >= need);
}

/// The bucket holds ten packets, or what flows in within four milliseconds where
/// that is more.
pub proof fn law_bucket_size(p: Pacer, bandwidth: ByteCount)
    requires
        bandwidth >= 0,
        p.max_datagram_size >= 0,
    ensures
        p.burst(bandwidth) == vstd::math::max(
            10 * p.max_datagram_size,
            4 * bandwidth as int / 1000,
        ),
{
    assert(4_000_000 * bandwidth / 1_000_000_000 == 4 * bandwidth as int / 1000);
}

/// A bucket that a packet has passed fills at the rate: what was left, and the
/// rate times the time since, up to the size of the bucket. One that no packet
/// has passed is full.
pub proof fn law_bucket_fills_at_the_rate(p: Pacer, now: MonoTime, bandwidth: ByteCount)
    requires
        bandwidth >= 0,
        p.budget_at_last_sent >= 0,
        p.last_sent_time <= now,
        bandwidth * (now - p.last_sent_time) <= i64::MAX,
        p.budget_at_last_sent + bandwidth * (now - p.last_sent_time) / 1_000_000_000 <= i64::MAX,
        bandwidth > 0 || now - p.last_sent_time <= i64::MAX,
    ensures
        p.last_sent_time > 0 ==> p.budget_at(now, bandwidth) == vstd::math::min(
            p.burst(bandwidth),
            p.budget_at_last_sent + bandwidth * (now - p.last_sent_time) / 1_000_000_000,
        ),
        p.last_sent_time == 0 ==> p.budget_at(now, bandwidth) == p.burst(bandwidth),
{
    let passed = now - p.last_sent_time;
    let rate = bandwidth as int;
    assert(rate * passed >= 0) by (nonlinear_arith)
        requires
            rate >= 0,
            passed >= 0,
    ;
    if rate > 0 {
        assert(passed <= rate * passed) by (nonlinear_arith)
            requires
                rate >= 1,
                passed >= 0,
        ;
    }
}

/// A packet takes its size out of the bucket, and empties it where it is larger
/// than what the bucket holds. The time of the packet is what the bucket fills
/// from next.
pub proof fn law_packet_takes_its_size(
    p: Pacer,
    at: MonoTime,
    size: ByteCount,
    bandwidth: ByteCount,
)
    requires
        p.burst_fits(bandwidth),
        p.budget_at(at, bandwidth) - size <= i64::MAX,
        p.budget_at(at, bandwidth) >= 0,
        size >= 0,
    ensures
        ({
            let q = p.after_packet(at, size, bandwidth);
            &&& q.budget_at_last_sent == vstd::math::max(0, p.budget_at(at, bandwidth) - size)
            &&& q.last_sent_time == at
            &&& q.max_datagram_size == p.max_datagram_size
        }),
{
}

/// Two packets in a row never take more out of the bucket than it held at the
/// first one and what flowed in until the second.
pub proof fn law_packets_keep_to_the_rate(
    p: Pacer,
    first: MonoTime,
    second: MonoTime,
    a: ByteCount,
    b: ByteCount,
    bandwidth: ByteCount,
)
    requires
        p.burst_fits(bandwidth),
        bandwidth >= 0,
        0 < first <= second,
        0 <= a <= p.budget_at(first, bandwidth),
        0 <= b <= p.after_packet(first, a, bandwidth).budget_at(second, bandwidth),
        bandwidth * (second - first) <= i64::MAX,
        p.burst(bandwidth) + bandwidth * (second - first) / 1_000_000_000 <= i64::MAX,
        bandwidth > 0 || second - first <= i64::MAX,
    ensures
        a + b <= p.burst(bandwidth) + bandwidth * (second - first) / 1_000_000_000,
{
    let q = p.after_packet(first, a, bandwidth);
    law_budget_is_capped(p, first, bandwidth);
    law_bucket_fills_at_the_rate(q, second, bandwidth);
}

/// The pacer does not let a packet wait for longer than it has to: a nanosecond
/// before it says so the bucket does not hold a packet, unless the shortest
/// pause of a millisecond is what it waits for. It asks for no pause where the
/// bucket held a packet after the last one.
pub proof fn law_waiting_is_not_too_long(p: Pacer, bandwidth: ByteCount)
    requires
        bandwidth >= 1,
        p.last_sent_time > 0,
        0 <= p.budget_at_last_sent,
        p.max_datagram_size - p.budget_at_last_sent <= 9_000_000_000,
        p.next_send(bandwidth) < u64::MAX,
    ensures
        p.budget_at_last_sent >= p.max_datagram_size ==> p.next_send(bandwidth) == 0,
        p.budget_at_last_sent < p.max_datagram_size ==> {
            let t = p.next_send(bandwidth);
            &&& t >= p.last_sent_time + 1_000_000
            &&& t > p.last_sent_time + 1_000_000 ==> p.budget_at((t - 1) as u64, bandwidth)
                < p.max_datagram_size
        },
{
    if p.budget_at_last_sent < p.max_datagram_size {
        let t = p.next_send(bandwidth);
        if t > p.last_sent_time + 1_000_000 {
            let need = p.max_datagram_size - p.budget_at_last_sent;
            let missing = 1_000_000_000 * need;
            let rate = bandwidth as int;
            let exact = (missing + rate - 1) / rate;
            let passed = t - 1 - p.last_sent_time;
            assert(passed == exact - 1);
            assert(exact * rate <= missing + rate - 1) by (nonlinear_arith)
                requires
                    exact == (missing + rate - 1) / rate,
                    rate >= 1,
            ;
            assert(rate * passed == exact * rate - rate) by (nonlinear_arith)
                requires
                    passed == exact - 1,
            ;
            assert(rate * passed >= 0) by (nonlinear_arith)
                requires
                    rate >= 1,
                    passed >= 0,
            ;
            assert(passed <= rate * passed) by (nonlinear_arith)
                requires
                    rate >= 1,
                    passed >= 0,
            ;
            assert(rate * passed < missing);
            assert((rate * passed) / 1_000_000_000 < need);
            assert(p.inflow((t - 1) as u64, bandwidth) < need);
        }
    }
}

} // verus!
