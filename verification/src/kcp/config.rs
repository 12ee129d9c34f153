//! Settings, and the window sizes that follow from them.

use vstd::prelude::*;

verus! {

/// The settings of a connection.
#[derive(Debug, Clone, Copy, PartialEq, Eq, Structural)]
pub struct Config {
    /// The largest datagram, in bytes.
    pub mtu: u32,
    /// The time between two rounds of sending, in milliseconds.
    pub tti: u32,
    /// What this side may send, in megabytes per second.
    pub uplink_capacity: u32,
    /// What this side may receive, in megabytes per second.
    pub downlink_capacity: u32,
    /// How many in-flight sizes the sending window may grow to.
    pub cwnd_multiplier: u32,
    /// The most bytes that wait for their acknowledgement.
    pub max_sending_window: u32,
}

/// The settings that hold where none are given.
pub open spec fn default_settings() -> Config {
    Config {
        mtu: 1350,
        tti: 50,
        uplink_capacity: 5,
        downlink_capacity: 20,
        cwnd_multiplier: 1,
        max_sending_window: 2097152,
    }
}

/// The settings that hold where none are given.
pub fn default_config() -> (c: Config)
    ensures
        c == default_settings(),
{
    Config {
        mtu: 1350,
        tti: 50,
        uplink_capacity: 5,
        downlink_capacity: 20,
        cwnd_multiplier: 1,
        max_sending_window: 2097152,
    }
}

/// `x`, but at least one.
pub open spec fn at_least_one(x: u32) -> u32 {
    if x < 1 {
        1
    } else {
        x
    }
}

/// The number of whole datagrams that a link of `capacity` megabytes per
/// second passes between two rounds of sending, and at least eight. The number
/// of bytes is taken modulo two to the thirty-second.
#[verifier::opaque]
pub open spec fn in_flight_size(capacity: u32, mtu: u32, tti: u32) -> u32 {
    let pause = if tti < 1 {
        1
    } else if tti > 1000 {
        1000
    } else {
        tti
    };
    let bytes = ((capacity * 0x10_0000) % 0x1_0000_0000) as u32;
    let size = bytes / at_least_one(mtu) / (1000u32 / pause);
    if size < 8 {
        8
    } else {
        size
    }
}

fn compute_in_flight_size(capacity: u32, mtu: u32, tti: u32) -> (size: u32)
    ensures
        size == in_flight_size(capacity, mtu, tti),
{
    reveal(in_flight_size);
    let packet: u32 = if mtu < 1 {
        1
    } else {
        mtu
    };
    let pause: u32 = if tti < 1 {
        1
    } else if tti > 1000 {
        1000
    } else {
        tti
    };
    let bytes: u32 = ((capacity as u64 * 0x10_0000) % 0x1_0000_0000) as u32;
    assert(1000u32 / pause >= 1) by (nonlinear_arith)
        requires
            1 <= pause <= 1000,
    ;
    let size: u32 = bytes / packet / (1000 / pause);
    if size < 8 {
        8
    } else {
        size
    }
}

/// What follows from the settings.
pub trait ConfigExt {
    /// The settings.
    spec fn settings(&self) -> Config;

    /// How many segments may be on their way at once.
    fn get_sending_in_flight_size(&self) -> (size: u32)
        ensures
            size == in_flight_size(
                self.settings().uplink_capacity,
                self.settings().mtu,
                self.settings().tti,
            ),
    ;

    /// How many segments wait for their acknowledgement at most.
    fn get_sending_buffer_size(&self) -> (size: u32)
        ensures
            size == self.settings().max_sending_window / at_least_one(self.settings().mtu),
    ;

    /// How many segments the receiver takes ahead of the one it waits for.
    fn get_receiving_in_flight_size(&self) -> (size: u32)
        ensures
            size == in_flight_size(
                self.settings().downlink_capacity,
                self.settings().mtu,
                self.settings().tti,
            ),
    ;
}

impl ConfigExt for Config {
    open spec fn settings(&self) -> Config {
        *self
    }

    fn get_sending_in_flight_size(&self) -> (size: u32) {
        compute_in_flight_size(self.uplink_capacity, self.mtu, self.tti)
    }

    fn get_sending_buffer_size(&self) -> (size: u32) {
        if self.mtu < 1 {
            self.max_sending_window
        } else {
            self.max_sending_window / self.mtu
        }
    }

    fn get_receiving_in_flight_size(&self) -> (size: u32) {
        compute_in_flight_size(self.downlink_capacity, self.mtu, self.tti)
    }
}

/// Whatever the settings, at least eight segments may be on their way.
pub proof fn law_in_flight_size_at_least_eight(capacity: u32, mtu: u32, tti: u32)
    ensures
        in_flight_size(capacity, mtu, tti) >= 8,
{
    reveal(in_flight_size);
}

/// What may be on its way is what the link carries between two rounds: so many
/// segments in every round stay within the capacity, in mebibytes to the second,
/// and one more does not, unless eight are too many already.
pub proof fn law_in_flight_size_fills_the_link(capacity: u32, mtu: u32, tti: u32)
    requires
        capacity < 4096,
        mtu >= 1,
        1 <= tti <= 1000,
    ensures
        ({
            let size = in_flight_size(capacity, mtu, tti) as int;
            let rounds = 1000int / (tti as int);
            &&& size >= 8
            &&& size > 8 ==> size * (rounds * mtu) <= capacity * 0x10_0000
            &&& (size + 1) * (rounds * mtu) > capacity * 0x10_0000
        }),
{
    reveal(in_flight_size);
    let rounds = 1000int / (tti as int);
    assert(1 <= rounds <= 1000) by (nonlinear_arith)
        requires
            rounds == 1000int / (tti as int),
            1 <= tti <= 1000,
    ;
    let bytes = capacity * 0x10_0000;
    let packets = bytes / (mtu as int);
    let share = packets / rounds;
    let m = mtu as int;
    assert(packets * m <= bytes < (packets + 1) * m) by (nonlinear_arith)
        requires
            packets == bytes / m,
            m >= 1,
            bytes >= 0,
    ;
    assert(share * rounds <= packets < (share + 1) * rounds && share >= 0) by (nonlinear_arith)
        requires
            share == packets / rounds,
            rounds >= 1,
            packets >= 0,
    ;
    assert(share * (rounds * m) <= bytes) by (nonlinear_arith)
        requires
            share * rounds <= packets,
            packets * m <= bytes,
            m >= 1,
    ;
    let size = in_flight_size(capacity, mtu, tti) as int;
    assert((size + 1) * (rounds * m) > bytes) by (nonlinear_arith)
        requires
            packets + 1 <= (share + 1) * rounds,
            bytes < (packets + 1) * m,
            m >= 1,
            rounds >= 1,
            size >= share >= 0,
    ;
}

/// A faster link takes no fewer segments.
pub proof fn law_in_flight_size_grows_with_capacity(less: u32, more: u32, mtu: u32, tti: u32)
    requires
        less <= more < 4096,
    ensures
        in_flight_size(less, mtu, tti) <= in_flight_size(more, mtu, tti),
{
    reveal(in_flight_size);
    let packet = at_least_one(mtu) as int;
    let pause: int = if tti < 1 {
        1
    } else if tti > 1000 {
        1000
    } else {
        tti as int
    };
    let rounds = 1000int / pause;
    assert(1 <= rounds <= 1000) by (nonlinear_arith)
        requires
            rounds == 1000int / pause,
            1 <= pause <= 1000,
    ;
    let a = less * 0x10_0000;
    let b = more * 0x10_0000;
    assert(a / packet <= b / packet) by (nonlinear_arith)
        requires
            a <= b,
            packet >= 1,
    ;
    let x = a / packet;
    let y = b / packet;
    assert(x / rounds <= y / rounds) by (nonlinear_arith)
        requires
            x <= y,
            rounds >= 1,
    ;
}

/// A number, and one for none.
pub proof fn law_at_least_one(n: u32)
    ensures
        at_least_one(n) == vstd::math::max(1, n as int),
{
}

} // verus!
