//! Bandwidth.

use vstd::prelude::*;

use crate::hysteria::congestion::types::ByteCount;

verus! {

/// Bits per second.
#[derive(Debug, Clone, Copy, PartialEq, Eq, Structural, PartialOrd, Ord, Hash)]
pub struct Bandwidth(pub u64);

/// More than any bandwidth.
pub fn inf_bandwidth() -> (b: Bandwidth)
    ensures
        b.0 == u64::MAX,
{
    Bandwidth(0xFFFF_FFFF_FFFF_FFFF)
}

/// `n`, but at most what fits.
pub open spec fn at_most_inf(n: int) -> Bandwidth {
    if n > u64::MAX {
        Bandwidth(u64::MAX)
    } else {
        Bandwidth(n as u64)
    }
}

/// The bandwidth that moves so many bytes in so many nanoseconds, in whole
/// bytes per second. A negative number of bytes counts as none.
pub open spec fn bandwidth_from(bytes: int, delta_ns: nat) -> Bandwidth {
    if delta_ns == 0 {
        Bandwidth(u64::MAX)
    } else {
        let moved = if bytes < 0 {
            0
        } else {
            bytes
        };
        at_most_inf(moved * 1_000_000_000 / (delta_ns as int) * 8)
    }
}

impl Bandwidth {
    /// One bit per second.
    pub const BITS_PER_SECOND: u64 = 1;

    /// One byte per second.
    pub const BYTES_PER_SECOND: u64 = 8;

    /// The bandwidth that moves `bytes` in `delta_ns` nanoseconds.
    pub fn from_delta(bytes: ByteCount, delta_ns: u128) -> (b: Self)
        ensures
            b == bandwidth_from(bytes as int, delta_ns as nat),
    {
        if delta_ns == 0 {
            return inf_bandwidth();
        }
        let moved: u64 = if bytes < 0 {
            0
        } else {
            bytes as u64
        };
        let product: u128 = moved as u128 * 1_000_000_000;
        let per_second: u128 = product / delta_ns;
        assert(per_second <= product) by (nonlinear_arith)
            requires
                delta_ns >= 1,
                per_second == product / delta_ns,
        ;
        let bits: u128 = per_second * 8;
        if bits > 0xFFFF_FFFF_FFFF_FFFF {
            inf_bandwidth()
        } else {
            Bandwidth(bits as u64)
        }
    }

    /// Bits per second.
    pub fn bits_per_second(&self) -> (n: u64)
        ensures
            n == self.0,
    {
        self.0
    }

    /// Whole bytes per second.
    pub fn bytes_per_second(&self) -> (n: u64)
        ensures
            n == self.0 / 8,
    {
        self.0 / 8
    }
}

impl core::ops::Mul<u64> for Bandwidth {
    type Output = Bandwidth;

    fn mul(self, rhs: u64) -> (b: Bandwidth) {
        assert(0 <= self.0 * rhs <= u64::MAX * u64::MAX) by (nonlinear_arith)
            requires
                0 <= self.0 <= u64::MAX,
                0 <= rhs <= u64::MAX,
        ;
        let product: u128 = self.0 as u128 * rhs as u128;
        if product > 0xFFFF_FFFF_FFFF_FFFF {
            inf_bandwidth()
        } else {
            Bandwidth(product as u64)
        }
    }
}

/// A multiple of a bandwidth, as far as it fits.
impl vstd::std_specs::ops::MulSpecImpl<u64> for Bandwidth {
    open spec fn obeys_mul_spec() -> bool {
        true
    }

    open spec fn mul_req(self, rhs: u64) -> bool {
        true
    }

    open spec fn mul_spec(self, rhs: u64) -> Bandwidth {
        at_most_inf(self.0 * rhs)
    }
}

impl core::ops::Div<u64> for Bandwidth {
    type Output = Bandwidth;

    fn div(self, rhs: u64) -> (b: Bandwidth) {
        if rhs == 0 {
            inf_bandwidth()
        } else {
            Bandwidth(self.0 / rhs)
        }
    }
}

/// A part of a bandwidth; shared by none it is infinite.
impl vstd::std_specs::ops::DivSpecImpl<u64> for Bandwidth {
    open spec fn obeys_div_spec() -> bool {
        true
    }

    open spec fn div_req(self, rhs: u64) -> bool {
        true
    }

    open spec fn div_spec(self, rhs: u64) -> Bandwidth {
        if rhs == 0 {
            Bandwidth(u64::MAX)
        } else {
            Bandwidth(self.0 / rhs)
        }
    }
}

impl Default for Bandwidth {
    fn default() -> (b: Self)
        ensures
            b.0 == 0,
    {
        Bandwidth(0)
    }
}

/// More bytes in the same time are at least as much bandwidth, and the same
/// bytes in more time at most as much.
pub proof fn law_bandwidth_monotonic(a: int, b: int, s: nat, t: nat)
    requires
        a <= b,
        s >= t,
    ensures
        bandwidth_from(a, s).0 <= bandwidth_from(b, t).0,
{
    if t > 0 {
        let x = if a < 0 {
            0
        } else {
            a
        };
        let y = if b < 0 {
            0
        } else {
            b
        };
        assert(x * 1_000_000_000 / (s as int) <= y * 1_000_000_000 / (t as int))
            by (nonlinear_arith)
            requires
                0 <= x <= y,
                s >= t > 0,
        ;
    }
}

/// A bandwidth is eight times the whole bytes that move in a second, at the pace
/// at which these moved, as far as that can be counted.
pub proof fn law_bandwidth_counts_whole_bytes(bytes: int, delta_ns: nat)
    requires
        bytes >= 0,
        delta_ns > 0,
    ensures
        ({
            let b = bandwidth_from(bytes, delta_ns).0 as int;
            &&& b < u64::MAX ==> b % 8 == 0 && (b / 8) * delta_ns <= bytes * 1_000_000_000 < (b / 8
                + 1) * delta_ns
            &&& b == u64::MAX ==> bytes * 1_000_000_000 * 8 >= u64::MAX * delta_ns
        }),
{
    let moved = bytes * 1_000_000_000;
    let d = delta_ns as int;
    let rate = moved / d;
    assert(rate * d <= moved < (rate + 1) * d && rate >= 0) by (nonlinear_arith)
        requires
            rate == moved / d,
            d >= 1,
            moved >= 0,
    ;
    if rate * 8 >= u64::MAX {
        assert(moved * 8 >= u64::MAX * d) by (nonlinear_arith)
            requires
                rate * d <= moved,
                rate * 8 >= u64::MAX,
                d >= 1,
        ;
    } else {
        assert((rate * 8) / 8 == rate);
    }
}

/// A bandwidth is counted as far as it fits.
pub proof fn law_bandwidth_is_capped(n: int)
    requires
        n >= 0,
    ensures
        at_most_inf(n).0 == vstd::math::min(n, 0xFFFF_FFFF_FFFF_FFFF),
{
}

} // verus!
