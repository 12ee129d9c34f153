//! The settings of QUIC in a JSON document.

use vstd::prelude::*;

use crate::decimal::{
    bits, capped, double_floor, fraction_of, law_fraction_is_read, law_whole_numbers_are_exact,
    read_scaled, ten_to, two_to,
};
use crate::json::{bad_input, Json, Refusal, SettingsError};
use crate::text::{
    char_views, chars_of, debug_text, decimal, find_char, is_digit, join, law_nothing_to_trim,
    law_one_part_without_separator, law_position_is_first, law_separator_parts,
    lemma_decimal_digits, lower, parse_signed, parse_unsigned, position, quoted, same_text,
    signed_value, slice_chars, split, split_chars,
    string_of, to_lower, trim, trimmed, unsigned_value,
};

verus! {

/// Changing ports: which ones, and after how many seconds.
#[derive(Debug, PartialEq, Eq)]
pub struct UdpHop {
    pub ports: Vec<u32>,
    pub interval_min: i64,
    pub interval_max: i64,
}

/// The contents of a [`UdpHop`].
pub ghost struct UdpHopView {
    pub ports: Seq<u32>,
    pub interval_min: i64,
    pub interval_max: i64,
}

impl View for UdpHop {
    type V = UdpHopView;

    open spec fn view(&self) -> UdpHopView {
        UdpHopView {
            ports: self.ports@,
            interval_min: self.interval_min,
            interval_max: self.interval_max,
        }
    }
}

/// Ports are not changed.
pub open spec fn no_hop() -> UdpHopView {
    UdpHopView { ports: Seq::empty(), interval_min: 0, interval_max: 0 }
}

impl Default for UdpHop {
    fn default() -> (h: Self)
        ensures
            h@ == no_hop(),
    {
        let h = UdpHop { ports: Vec::new(), interval_min: 0, interval_max: 0 };
        assert(h@.ports =~= Seq::empty());
        h
    }
}

/// The settings of QUIC. Zero stands for a default.
#[derive(Debug, PartialEq, Eq)]
pub struct QuicParams {
    pub congestion: String,
    pub bbr_profile: String,
    /// What this side may send, in bytes per second.
    pub brutal_up: u64,
    /// What this side may receive, in bytes per second.
    pub brutal_down: u64,
    pub udp_hop: Option<UdpHop>,
    pub init_stream_receive_window: u64,
    pub max_stream_receive_window: u64,
    pub init_conn_receive_window: u64,
    pub max_conn_receive_window: u64,
    /// In seconds.
    pub max_idle_timeout: i64,
    /// In seconds.
    pub keep_alive_period: i64,
    pub disable_path_mtu_discovery: bool,
    pub max_incoming_streams: i64,
    pub brutal_disable_loss_compensation: bool,
}

/// The contents of [`QuicParams`].
pub ghost struct QuicView {
    pub congestion: Seq<char>,
    pub bbr_profile: Seq<char>,
    pub brutal_up: u64,
    pub brutal_down: u64,
    pub udp_hop: Option<UdpHopView>,
    pub init_stream_receive_window: u64,
    pub max_stream_receive_window: u64,
    pub init_conn_receive_window: u64,
    pub max_conn_receive_window: u64,
    pub max_idle_timeout: i64,
    pub keep_alive_period: i64,
    pub disable_path_mtu_discovery: bool,
    pub max_incoming_streams: i64,
    pub brutal_disable_loss_compensation: bool,
}

impl View for QuicParams {
    type V = QuicView;

    open spec fn view(&self) -> QuicView {
        QuicView {
            congestion: self.congestion@,
            bbr_profile: self.bbr_profile@,
            brutal_up: self.brutal_up,
            brutal_down: self.brutal_down,
            udp_hop: match self.udp_hop {
                Some(h) => Some(h@),
                None => None,
            },
            init_stream_receive_window: self.init_stream_receive_window,
            max_stream_receive_window: self.max_stream_receive_window,
            init_conn_receive_window: self.init_conn_receive_window,
            max_conn_receive_window: self.max_conn_receive_window,
            max_idle_timeout: self.max_idle_timeout,
            keep_alive_period: self.keep_alive_period,
            disable_path_mtu_discovery: self.disable_path_mtu_discovery,
            max_incoming_streams: self.max_incoming_streams,
            brutal_disable_loss_compensation: self.brutal_disable_loss_compensation,
        }
    }
}

/// Settings in which nothing is set.
pub open spec fn empty_params() -> QuicView {
    QuicView {
        congestion: Seq::empty(),
        bbr_profile: Seq::empty(),
        brutal_up: 0,
        brutal_down: 0,
        udp_hop: None,
        init_stream_receive_window: 0,
        max_stream_receive_window: 0,
        init_conn_receive_window: 0,
        max_conn_receive_window: 0,
        max_idle_timeout: 0,
        keep_alive_period: 0,
        disable_path_mtu_discovery: false,
        max_incoming_streams: 0,
        brutal_disable_loss_compensation: false,
    }
}

impl Default for QuicParams {
    fn default() -> (p: Self)
        ensures
            p@ == empty_params(),
    {
        QuicParams {
            congestion: String::new(),
            bbr_profile: String::new(),
            brutal_up: 0,
            brutal_down: 0,
            udp_hop: None,
            init_stream_receive_window: 0,
            max_stream_receive_window: 0,
            init_conn_receive_window: 0,
            max_conn_receive_window: 0,
            max_idle_timeout: 0,
            keep_alive_period: 0,
            disable_path_mtu_discovery: false,
            max_incoming_streams: 0,
            brutal_disable_loss_compensation: false,
        }
    }
}

/// The settings that hold where none are given: the standard profile, and
/// ports are not changed.
pub fn default_hysteria_quic_params() -> (p: QuicParams)
    ensures
        p@ == (QuicView {
            bbr_profile: "standard"@,
            udp_hop: Some(no_hop()),
            ..empty_params()
        }),
{
    let mut p = QuicParams::default();
    p.bbr_profile = "standard".to_owned();
    p.udp_hop = Some(UdpHop::default());
    p
}

/// How many characters in front are digits or points.
pub open spec fn number_len(s: Seq<char>) -> nat
    decreases s.len(),
{
    if s.len() > 0 && (is_digit(s[0]) || s[0] == '.') {
        1 + number_len(s.skip(1))
    } else {
        0
    }
}

/// The power of two that a unit of bits stands for.
pub open spec fn unit_power(unit: Seq<char>) -> Option<nat> {
    if unit == ""@ || unit == "b"@ || unit == "bps"@ {
        Some(0)
    } else if unit == "k"@ || unit == "kb"@ || unit == "kbps"@ {
        Some(10)
    } else if unit == "m"@ || unit == "mb"@ || unit == "mbps"@ {
        Some(20)
    } else if unit == "g"@ || unit == "gb"@ || unit == "gbps"@ {
        Some(30)
    } else if unit == "t"@ || unit == "tb"@ || unit == "tbps"@ {
        Some(40)
    } else {
        None
    }
}

/// The bandwidth that a text gives, in whole bytes per second: a number of
/// bits per second, a unit behind it, the case of its letters and white space
/// around both without meaning. The number of bits is computed in double
/// precision, and its fraction is dropped before it is divided by eight.
pub open spec fn bandwidth_of(s: Seq<char>) -> core::result::Result<u64, Refusal> {
    let t = lower(trimmed(s));
    if t.len() == 0 {
        Ok(0)
    } else {
        let at = number_len(t) as int;
        let unit = trimmed(t.skip(at));
        match fraction_of(t.take(at)) {
            None => Err(bad_input("quicParams: invalid bandwidth value "@ + debug_text(t))),
            Some((n, after)) => match unit_power(unit) {
                None => Err(bad_input("quicParams: unsupported unit "@ + debug_text(unit))),
                Some(power) => Ok(
                    capped(double_floor(n * two_to(power), ten_to(after))) / 8,
                ),
            },
        }
    }
}

fn number_end(chars: &[char]) -> (at: usize)
    ensures
        at == number_len(chars@),
        at <= chars@.len(),
{
    let mut i: usize = 0;
    assert(chars@.skip(0) =~= chars@);
    while i < chars.len() && (('0' <= chars[i] && chars[i] <= '9') || chars[i] == '.')
        invariant
            i <= chars@.len(),
            i + number_len(chars@.skip(i as int)) == number_len(chars@),
        decreases chars@.len() - i,
    {
        assert(chars@.skip(i as int).skip(1) =~= chars@.skip(i + 1));
        i += 1;
    }
    i
}

fn power_of_unit(unit: &str) -> (p: Option<u32>)
    ensures
        match p {
            Some(n) => n <= 40 && unit_power(unit@) == Some(n as nat),
            None => unit_power(unit@) is None,
        },
{
    if same_text(unit, "") || same_text(unit, "b") || same_text(unit, "bps") {
        Some(0)
    } else if same_text(unit, "k") || same_text(unit, "kb") || same_text(unit, "kbps") {
        Some(10)
    } else if same_text(unit, "m") || same_text(unit, "mb") || same_text(unit, "mbps") {
        Some(20)
    } else if same_text(unit, "g") || same_text(unit, "gb") || same_text(unit, "gbps") {
        Some(30)
    } else if same_text(unit, "t") || same_text(unit, "tb") || same_text(unit, "tbps") {
        Some(40)
    } else {
        None
    }
}

/// Reads a bandwidth.
pub fn parse_bandwidth_bps(s: &str) -> (r: core::result::Result<u64, SettingsError>)
    ensures
        match r {
            Ok(n) => bandwidth_of(s@) == Ok::<u64, Refusal>(n),
            Err(e) => bandwidth_of(s@) == Err::<u64, Refusal>(e@),
        },
{
    let stripped: String = string_of(trim(chars_of(s).as_slice()).as_slice());
    let t: String = to_lower(stripped.as_str());
    let chars: Vec<char> = chars_of(t.as_str());
    if chars.len() == 0 {
        return Ok(0);
    }
    let at: usize = number_end(chars.as_slice());
    let number: Vec<char> = slice_chars(chars.as_slice(), 0, at);
    let behind: Vec<char> = slice_chars(chars.as_slice(), at, chars.len());
    let ghost view = t@;
    assert(number@ =~= view.take(at as int));
    assert(behind@ =~= view.skip(at as int));
    if read_scaled(number.as_slice(), 0).is_none() {
        let message: String = join(
            "quicParams: invalid bandwidth value ",
            quoted(t.as_str()).as_str(),
        );
        return Err(SettingsError::input(message.as_str()));
    }
    let unit: String = string_of(trim(behind.as_slice()).as_slice());
    match power_of_unit(unit.as_str()) {
        None => {
            let message: String = join(
                "quicParams: unsupported unit ",
                quoted(unit.as_str()).as_str(),
            );
            Err(SettingsError::input(message.as_str()))
        },
        Some(power) => match read_scaled(number.as_slice(), power) {
            Some(bits) => Ok(bits / 8),
            None => Ok(0),
        },
    }
}

/// The ports from `from` to `to`.
pub open spec fn port_range(from: u32, to: u32) -> core::result::Result<Seq<u32>, Refusal> {
    if from < 1 || from > 65_535 || to < 1 || to > 65_535 {
        Err(bad_input("invalid port"@))
    } else {
        Ok(
            Seq::new(
                if from <= to {
                    (to - from + 1) as nat
                } else {
                    0
                },
                |i: int| (from + i) as u32,
            ),
        )
    }
}

/// An unsigned number of 32 bits.
pub open spec fn number_u32(s: Seq<char>) -> Option<u32> {
    match unsigned_value(s) {
        Some(n) => if n <= u32::MAX {
            Some(n as u32)
        } else {
            None
        },
        None => None,
    }
}

/// A signed number of 64 bits.
pub open spec fn number_i64(s: Seq<char>) -> Option<i64> {
    match signed_value(s) {
        Some(n) => if i64::MIN <= n <= i64::MAX {
            Some(n as i64)
        } else {
            None
        },
        None => None,
    }
}

/// The ports that a part of a list gives: none, one, or all between two.
pub open spec fn part_ports(part: Seq<char>) -> core::result::Result<Seq<u32>, Refusal> {
    let p = trimmed(part);
    let at = position(p, '-') as int;
    if p.len() == 0 {
        Ok(Seq::empty())
    } else if at < p.len() {
        match (number_u32(trimmed(p.take(at))), number_u32(trimmed(p.skip(at + 1)))) {
            (Some(a), Some(b)) => if a <= b {
                port_range(a, b)
            } else {
                port_range(b, a)
            },
            _ => Err(bad_input("invalid port range"@)),
        }
    } else {
        match number_u32(p) {
            Some(n) => port_range(n, n),
            None => Err(bad_input("invalid port"@)),
        }
    }
}

/// The ports that the parts of a list give, or why the first bad part is
/// refused.
pub open spec fn list_ports(parts: Seq<Seq<char>>) -> core::result::Result<Seq<u32>, Refusal>
    decreases parts.len(),
{
    if parts.len() == 0 {
        Ok(Seq::empty())
    } else {
        match list_ports(parts.drop_last()) {
            Err(e) => Err(e),
            Ok(before) => match part_ports(parts.last()) {
                Err(e) => Err(e),
                Ok(more) => Ok(before + more),
            },
        }
    }
}

/// The ports that a value gives: a number, or a list of ports and ranges.
pub open spec fn ports_of(v: Json) -> core::result::Result<Seq<u32>, Refusal> {
    match v {
        Json::Number(n) => match n.unsigned() {
            Some(p) => port_range((p % 0x1_0000_0000) as u32, (p % 0x1_0000_0000) as u32),
            None => Err(bad_input("invalid port"@)),
        },
        Json::Text(s) => list_ports(split(s@, ',')),
        _ => Err(bad_input("invalid port"@)),
    }
}

fn push_range(out: &mut Vec<u32>, from: u32, to: u32) -> (r: core::result::Result<(), SettingsError>)
    ensures
        match port_range(from, to) {
            Ok(ports) => r is Ok && final(out)@ == old(out)@ + ports,
            Err(e) => r is Err && r->Err_0@ == e,
        },
{
    if from < 1 || from > 65_535 || to < 1 || to > 65_535 {
        return Err(SettingsError::input("invalid port"));
    }
    let ghost ports = port_range(from, to)->Ok_0;
    let mut p: u32 = from;
    assert(out@ =~= old(out)@ + ports.take(0));
    while p <= to
        invariant
            1 <= from <= 65_535,
            1 <= to <= 65_535,
            from <= p,
            p <= to + 1 || p == from,
            port_range(from, to) == Ok::<Seq<u32>, Refusal>(ports),
            out@ == old(out)@ + ports.take(p - from),
        decreases to + 1 - p,
    {
        out.push(p);
        assert(out@ =~= old(out)@ + ports.take(p + 1 - from));
        p += 1;
    }
    assert(ports.take(p - from) =~= ports);
    Ok(())
}

fn read_u32(chars: &[char]) -> (n: Option<u32>)
    ensures
        n == number_u32(chars@),
{
    match parse_unsigned(chars, 0xFFFF_FFFF) {
        Some(n) => Some(n as u32),
        None => None,
    }
}

fn read_i64(chars: &[char]) -> (n: Option<i64>)
    ensures
        n == number_i64(chars@),
{
    parse_signed(chars)
}

fn push_part(out: &mut Vec<u32>, part: &[char]) -> (r: core::result::Result<(), SettingsError>)
    ensures
        match part_ports(part@) {
            Ok(ports) => r is Ok && final(out)@ == old(out)@ + ports,
            Err(e) => r is Err && r->Err_0@ == e,
        },
{
    let p: Vec<char> = trim(part);
    if p.len() == 0 {
        assert(out@ =~= old(out)@ + Seq::<u32>::empty());
        return Ok(());
    }
    let at: usize = find_char(p.as_slice(), '-');
    if at < p.len() {
        let left: Vec<char> = slice_chars(p.as_slice(), 0, at);
        let right: Vec<char> = slice_chars(p.as_slice(), at + 1, p.len());
        assert(left@ =~= p@.take(at as int));
        assert(right@ =~= p@.skip(at + 1));
        let a = read_u32(trim(left.as_slice()).as_slice());
        let b = read_u32(trim(right.as_slice()).as_slice());
        match (a, b) {
            (Some(a), Some(b)) => if a <= b {
                push_range(out, a, b)
            } else {
                push_range(out, b, a)
            },
            _ => Err(SettingsError::input("invalid port range")),
        }
    } else {
        match read_u32(p.as_slice()) {
            Some(n) => push_range(out, n, n),
            None => Err(SettingsError::input("invalid port")),
        }
    }
}

/// Reads ports.
pub fn parse_port_list(v: &Json) -> (r: core::result::Result<Vec<u32>, SettingsError>)
    ensures
        match r {
            Ok(ports) => ports_of(*v) == Ok::<Seq<u32>, Refusal>(ports@),
            Err(e) => ports_of(*v) == Err::<Seq<u32>, Refusal>(e@),
        },
{
    let mut out: Vec<u32> = Vec::new();
    match v {
        Json::Number(n) => match n.as_u64() {
            Some(p) => {
                let port: u32 = (p % 0x1_0000_0000) as u32;
                match push_range(&mut out, port, port) {
                    Ok(()) => {
                        assert(out@ =~= port_range(port, port)->Ok_0);
                        Ok(out)
                    },
                    Err(e) => Err(e),
                }
            },
            None => Err(SettingsError::input("invalid port")),
        },
        Json::Text(s) => {
            let parts = split_chars(chars_of(s.as_str()).as_slice(), ',');
            let ghost views = char_views(parts@);
            let mut i: usize = 0;
            assert(views.take(0) =~= Seq::empty());
            while i < parts.len()
                invariant
                    i <= parts@.len(),
                    views == char_views(parts@),
                    views == split(s@, ','),
                    *v == Json::Text(*s),
                    list_ports(views.take(i as int)) == Ok::<Seq<u32>, Refusal>(out@),
                decreases parts@.len() - i,
            {
                proof {
                    assert(views.take(i + 1).drop_last() =~= views.take(i as int));
                    assert(views.take(i + 1).last() == parts@[i as int]@);
                }
                match push_part(&mut out, parts[i].as_slice()) {
                    Ok(()) => {},
                    Err(e) => {
                        proof {
                            lemma_list_refused(views, i + 1, e@);
                        }
                        return Err(e);
                    },
                }
                i += 1;
            }
            assert(views.take(i as int) =~= views);
            Ok(out)
        },
        _ => Err(SettingsError::input("invalid port")),
    }
}

proof fn lemma_list_refused(parts: Seq<Seq<char>>, k: int, e: Refusal)
    requires
        0 <= k <= parts.len(),
        list_ports(parts.take(k)) == Err::<Seq<u32>, Refusal>(e),
    ensures
        list_ports(parts) == Err::<Seq<u32>, Refusal>(e),
    decreases parts.len() - k,
{
    if k == parts.len() {
        assert(parts.take(k) =~= parts);
    } else {
        assert(parts.take(k + 1).drop_last() =~= parts.take(k));
        lemma_list_refused(parts, k + 1, e);
    }
}

/// The lower and the higher of two numbers.
pub open spec fn ordered(a: i64, b: i64) -> (i64, i64) {
    if a <= b {
        (a, b)
    } else {
        (b, a)
    }
}

/// The range that a value gives: a number, or two with a minus sign between
/// them, in either order.
pub open spec fn range_of(v: Json) -> core::result::Result<(i64, i64), Refusal> {
    match v {
        Json::Number(n) => match n.signed() {
            Some(x) => Ok((x, x)),
            None => Err(bad_input("invalid interval"@)),
        },
        Json::Text(s) => {
            let at = position(s@, '-') as int;
            if at == s@.len() {
                Err(bad_input("invalid interval"@))
            } else {
                match (number_i64(trimmed(s@.take(at))), number_i64(trimmed(s@.skip(at + 1)))) {
                    (Some(a), Some(b)) => Ok(ordered(a, b)),
                    _ => Err(bad_input("invalid interval"@)),
                }
            }
        },
        _ => Err(bad_input("invalid interval"@)),
    }
}

/// Reads a range.
pub fn parse_int32_range(v: &Json) -> (r: core::result::Result<(i64, i64), SettingsError>)
    ensures
        match r {
            Ok(x) => range_of(*v) == Ok::<(i64, i64), Refusal>(x),
            Err(e) => range_of(*v) == Err::<(i64, i64), Refusal>(e@),
        },
{
    match v {
        Json::Number(n) => match n.as_i64() {
            Some(x) => Ok((x, x)),
            None => Err(SettingsError::input("invalid interval")),
        },
        Json::Text(s) => {
            let chars: Vec<char> = chars_of(s.as_str());
            let at: usize = find_char(chars.as_slice(), '-');
            if at == chars.len() {
                return Err(SettingsError::input("invalid interval"));
            }
            let left: Vec<char> = slice_chars(chars.as_slice(), 0, at);
            let right: Vec<char> = slice_chars(chars.as_slice(), at + 1, chars.len());
            assert(left@ =~= s@.take(at as int));
            assert(right@ =~= s@.skip(at + 1));
            let a = read_i64(trim(left.as_slice()).as_slice());
            let b = read_i64(trim(right.as_slice()).as_slice());
            match (a, b) {
                (Some(a), Some(b)) => if a <= b {
                    Ok((a, b))
                } else {
                    Ok((b, a))
                },
                _ => Err(SettingsError::input("invalid interval")),
            }
        },
        _ => Err(SettingsError::input("invalid interval")),
    }
}

/// The profile's name in lower case, the standard one where there is none.
pub open spec fn profile_of(obj: Json) -> core::result::Result<Seq<char>, Refusal> {
    let name = lower(obj.field_text("bbrProfile"@));
    if name == ""@ {
        Ok("standard"@)
    } else if name == "conservative"@ || name == "standard"@ || name == "aggressive"@ {
        Ok(name)
    } else {
        Err(bad_input("unknown bbr profile"@))
    }
}

fn read_profile(obj: &Json) -> (r: core::result::Result<String, SettingsError>)
    ensures
        match r {
            Ok(s) => profile_of(*obj) == Ok::<Seq<char>, Refusal>(s@),
            Err(e) => profile_of(*obj) == Err::<Seq<char>, Refusal>(e@),
        },
{
    let name: String = to_lower(obj.get_text("bbrProfile"));
    if same_text(name.as_str(), "") {
        Ok("standard".to_owned())
    } else if same_text(name.as_str(), "conservative") || same_text(name.as_str(), "standard")
        || same_text(name.as_str(), "aggressive") {
        Ok(name)
    } else {
        Err(SettingsError::input("unknown bbr profile"))
    }
}

/// The bandwidth of a field, zero where there is none.
pub open spec fn bandwidth_field(obj: Json, key: Seq<char>) -> core::result::Result<u64, Refusal> {
    match obj.field(key) {
        None => Ok(0),
        Some(v) => match v {
            Json::Null => Ok(0),
            Json::Text(s) => bandwidth_of(s@),
            _ => Err(
                bad_input("quicParams: "@ + key + " must be a bandwidth string like \"100 mbps\""@),
            ),
        },
    }
}

fn read_bandwidth(obj: &Json, key: &str) -> (r: core::result::Result<u64, SettingsError>)
    ensures
        match r {
            Ok(n) => bandwidth_field(*obj, key@) == Ok::<u64, Refusal>(n),
            Err(e) => bandwidth_field(*obj, key@) == Err::<u64, Refusal>(e@),
        },
{
    match obj.get(key) {
        None => Ok(0),
        Some(v) => match v {
            Json::Null => Ok(0),
            Json::Text(s) => parse_bandwidth_bps(s.as_str()),
            _ => {
                let mut message: String = join("quicParams: ", key);
                message.append(" must be a bandwidth string like \"100 mbps\"");
                Err(SettingsError::input(message.as_str()))
            },
        },
    }
}

/// What may be sent and received, each at least 64 KiB per second where it is
/// given.
pub open spec fn bandwidths_of(obj: Json) -> core::result::Result<(u64, u64), Refusal> {
    match bandwidth_field(obj, "brutalUp"@) {
        Err(e) => Err(e),
        Ok(up) => match bandwidth_field(obj, "brutalDown"@) {
            Err(e) => Err(e),
            Ok(down) => if 0 < up < 65_536 {
                Err(bad_input("BrutalUp must be at least 65536 bytes per second"@))
            } else if 0 < down < 65_536 {
                Err(bad_input("BrutalDown must be at least 65536 bytes per second"@))
            } else {
                Ok((up, down))
            },
        },
    }
}

fn read_bandwidths(obj: &Json) -> (r: core::result::Result<(u64, u64), SettingsError>)
    ensures
        match r {
            Ok(x) => bandwidths_of(*obj) == Ok::<(u64, u64), Refusal>(x),
            Err(e) => bandwidths_of(*obj) == Err::<(u64, u64), Refusal>(e@),
        },
{
    let up: u64 = match read_bandwidth(obj, "brutalUp") {
        Ok(n) => n,
        Err(e) => return Err(e),
    };
    let down: u64 = match read_bandwidth(obj, "brutalDown") {
        Ok(n) => n,
        Err(e) => return Err(e),
    };
    if up > 0 && up < 65_536 {
        return Err(SettingsError::input("BrutalUp must be at least 65536 bytes per second"));
    }
    if down > 0 && down < 65_536 {
        return Err(SettingsError::input("BrutalDown must be at least 65536 bytes per second"));
    }
    Ok((up, down))
}

/// The congestion control's name in lower case.
pub open spec fn congestion_of(obj: Json, up: u64) -> core::result::Result<Seq<char>, Refusal> {
    let name = lower(obj.field_text("congestion"@));
    if name == ""@ || name == "brutal"@ || name == "reno"@ || name == "bbr"@ {
        Ok(name)
    } else if name == "force-brutal"@ {
        if up > 0 {
            Ok(name)
        } else {
            Err(bad_input("force-brutal requires up"@))
        }
    } else {
        Err(
            bad_input(
                "unknown congestion control: "@ + name
                    + ", valid values: reno, bbr, brutal, force-brutal"@,
            ),
        )
    }
}

fn read_congestion(obj: &Json, up: u64) -> (r: core::result::Result<String, SettingsError>)
    ensures
        match r {
            Ok(s) => congestion_of(*obj, up) == Ok::<Seq<char>, Refusal>(s@),
            Err(e) => congestion_of(*obj, up) == Err::<Seq<char>, Refusal>(e@),
        },
{
    let name: String = to_lower(obj.get_text("congestion"));
    let n: &str = name.as_str();
    if same_text(n, "") || same_text(n, "brutal") || same_text(n, "reno") || same_text(n, "bbr") {
        Ok(name)
    } else if same_text(n, "force-brutal") {
        if up > 0 {
            Ok(name)
        } else {
            Err(SettingsError::input("force-brutal requires up"))
        }
    } else {
        let mut message: String = join("unknown congestion control: ", n);
        message.append(", valid values: reno, bbr, brutal, force-brutal");
        Err(SettingsError::input(message.as_str()))
    }
}

/// How ports are changed, after at least five seconds where the time is given.
pub open spec fn hop_of(obj: Json) -> core::result::Result<UdpHopView, Refusal> {
    match obj.field("udpHop"@) {
        None => Ok(no_hop()),
        Some(h) => if !(h is Object) {
            Err(bad_input("udpHop: expected an object"@))
        } else {
            match hop_ports(h) {
                Err(e) => Err(e),
                Ok(ports) => match h.field("interval"@) {
                    None => Ok(UdpHopView { ports, ..no_hop() }),
                    Some(interval) => match range_of(interval) {
                        Err(e) => Err(e),
                        Ok((from, to)) => if (from != 0 && from < 5) || (to != 0 && to < 5) {
                            Err(bad_input("Interval must be at least 5"@))
                        } else {
                            Ok(UdpHopView { ports, interval_min: from, interval_max: to })
                        },
                    },
                },
            }
        },
    }
}

/// The ports of a change of ports.
pub open spec fn hop_ports(h: Json) -> core::result::Result<Seq<u32>, Refusal> {
    match h.field("ports"@) {
        None => Ok(Seq::empty()),
        Some(ports) => ports_of(ports),
    }
}

fn read_hop(obj: &Json) -> (r: core::result::Result<UdpHop, SettingsError>)
    ensures
        match r {
            Ok(h) => hop_of(*obj) == Ok::<UdpHopView, Refusal>(h@),
            Err(e) => hop_of(*obj) == Err::<UdpHopView, Refusal>(e@),
        },
{
    let mut hop = UdpHop::default();
    let h = match obj.get("udpHop") {
        None => return Ok(hop),
        Some(h) => h,
    };
    if !h.is_object() {
        return Err(SettingsError::input("udpHop: expected an object"));
    }
    match h.get("ports") {
        None => {},
        Some(ports) => match parse_port_list(ports) {
            Ok(list) => {
                hop.ports = list;
            },
            Err(e) => return Err(e),
        },
    }
    match h.get("interval") {
        None => {},
        Some(interval) => match parse_int32_range(interval) {
            Err(e) => return Err(e),
            Ok((from, to)) => {
                if (from != 0 && from < 5) || (to != 0 && to < 5) {
                    return Err(SettingsError::input("Interval must be at least 5"));
                }
                hop.interval_min = from;
                hop.interval_max = to;
            },
        },
    }
    Ok(hop)
}

/// Whether a window is given and too small.
pub open spec fn window_too_small(obj: Json, key: Seq<char>) -> bool {
    0 < obj.field_unsigned(key) < 16_384
}

/// Why the numbers of an object are refused, nothing where they are not.
pub open spec fn number_fault(obj: Json) -> Option<Refusal> {
    let idle = obj.field_signed("maxIdleTimeout"@, 0);
    let keep = obj.field_signed("keepAlivePeriod"@, 0);
    let streams = obj.field_signed("maxIncomingStreams"@, 0);
    if window_too_small(obj, "initStreamReceiveWindow"@) {
        Some(bad_input("InitStreamReceiveWindow must be at least 16384"@))
    } else if window_too_small(obj, "maxStreamReceiveWindow"@) {
        Some(bad_input("MaxStreamReceiveWindow must be at least 16384"@))
    } else if window_too_small(obj, "initConnectionReceiveWindow"@) {
        Some(bad_input("InitConnectionReceiveWindow must be at least 16384"@))
    } else if window_too_small(obj, "maxConnectionReceiveWindow"@) {
        Some(bad_input("MaxConnectionReceiveWindow must be at least 16384"@))
    } else if idle != 0 && !(4 <= idle <= 120) {
        Some(bad_input("MaxIdleTimeout must be between 4 and 120"@))
    } else if keep != 0 && !(2 <= keep <= 60) {
        Some(bad_input("KeepAlivePeriod must be between 2 and 60"@))
    } else if streams != 0 && streams < 8 {
        Some(bad_input("MaxIncomingStreams must be at least 8"@))
    } else {
        None
    }
}

fn is_small(obj: &Json, key: &str) -> (b: bool)
    ensures
        b == window_too_small(*obj, key@),
{
    let n: u64 = obj.get_u64(key);
    n > 0 && n < 16_384
}

fn check_numbers(obj: &Json) -> (r: core::result::Result<(), SettingsError>)
    ensures
        match r {
            Ok(()) => number_fault(*obj) is None,
            Err(e) => number_fault(*obj) == Some(e@),
        },
{
    if is_small(obj, "initStreamReceiveWindow") {
        return Err(SettingsError::input("InitStreamReceiveWindow must be at least 16384"));
    }
    if is_small(obj, "maxStreamReceiveWindow") {
        return Err(SettingsError::input("MaxStreamReceiveWindow must be at least 16384"));
    }
    if is_small(obj, "initConnectionReceiveWindow") {
        return Err(SettingsError::input("InitConnectionReceiveWindow must be at least 16384"));
    }
    if is_small(obj, "maxConnectionReceiveWindow") {
        return Err(SettingsError::input("MaxConnectionReceiveWindow must be at least 16384"));
    }
    let idle: i64 = obj.get_i64("maxIdleTimeout", 0);
    if idle != 0 && !(4 <= idle && idle <= 120) {
        return Err(SettingsError::input("MaxIdleTimeout must be between 4 and 120"));
    }
    let keep: i64 = obj.get_i64("keepAlivePeriod", 0);
    if keep != 0 && !(2 <= keep && keep <= 60) {
        return Err(SettingsError::input("KeepAlivePeriod must be between 2 and 60"));
    }
    let streams: i64 = obj.get_i64("maxIncomingStreams", 0);
    if streams != 0 && streams < 8 {
        return Err(SettingsError::input("MaxIncomingStreams must be at least 8"));
    }
    Ok(())
}

/// The settings that an object gives, or why it is refused. The first fault
/// decides: profile, bandwidths, congestion control, change of ports, numbers.
pub open spec fn params_of(obj: Json) -> core::result::Result<QuicView, Refusal> {
    match profile_of(obj) {
        Err(e) => Err(e),
        Ok(bbr_profile) => match bandwidths_of(obj) {
            Err(e) => Err(e),
            Ok((brutal_up, brutal_down)) => match congestion_of(obj, brutal_up) {
                Err(e) => Err(e),
                Ok(congestion) => match hop_of(obj) {
                    Err(e) => Err(e),
                    Ok(hop) => match number_fault(obj) {
                        Some(e) => Err(e),
                        None => Ok(
                            QuicView {
                                congestion,
                                bbr_profile,
                                brutal_up,
                                brutal_down,
                                udp_hop: Some(hop),
                                init_stream_receive_window: obj.field_unsigned(
                                    "initStreamReceiveWindow"@,
                                ),
                                max_stream_receive_window: obj.field_unsigned(
                                    "maxStreamReceiveWindow"@,
                                ),
                                init_conn_receive_window: obj.field_unsigned(
                                    "initConnectionReceiveWindow"@,
                                ),
                                max_conn_receive_window: obj.field_unsigned(
                                    "maxConnectionReceiveWindow"@,
                                ),
                                max_idle_timeout: obj.field_signed("maxIdleTimeout"@, 0),
                                keep_alive_period: obj.field_signed("keepAlivePeriod"@, 0),
                                disable_path_mtu_discovery: obj.field_truth(
                                    "disablePathMTUDiscovery"@,
                                ),
                                max_incoming_streams: obj.field_signed("maxIncomingStreams"@, 0),
                                brutal_disable_loss_compensation: false,
                            },
                        ),
                    },
                },
            },
        },
    }
}

/// The settings of QUIC in a document that may hold them, or why they are
/// refused.
pub open spec fn settings_of(json: Option<Json>) -> core::result::Result<Option<QuicView>, Refusal> {
    match json {
        None => Ok(None),
        Some(v) => match v.field("quicParams"@) {
            None => Ok(None),
            Some(qp) => if !(qp is Object) {
                Err(bad_input("quicParams: expected an object"@))
            } else {
                match params_of(qp) {
                    Ok(p) => Ok(Some(p)),
                    Err(e) => Err(e),
                }
            },
        },
    }
}

fn read_params(obj: &Json) -> (r: core::result::Result<QuicParams, SettingsError>)
    ensures
        match r {
            Ok(p) => params_of(*obj) == Ok::<QuicView, Refusal>(p@),
            Err(e) => params_of(*obj) == Err::<QuicView, Refusal>(e@),
        },
{
    let bbr_profile = match read_profile(obj) {
        Ok(s) => s,
        Err(e) => return Err(e),
    };
    let (brutal_up, brutal_down) = match read_bandwidths(obj) {
        Ok(x) => x,
        Err(e) => return Err(e),
    };
    let congestion = match read_congestion(obj, brutal_up) {
        Ok(s) => s,
        Err(e) => return Err(e),
    };
    let hop = match read_hop(obj) {
        Ok(h) => h,
        Err(e) => return Err(e),
    };
    match check_numbers(obj) {
        Ok(()) => {},
        Err(e) => return Err(e),
    }
    Ok(
        QuicParams {
            congestion,
            bbr_profile,
            brutal_up,
            brutal_down,
            udp_hop: Some(hop),
            init_stream_receive_window: obj.get_u64("initStreamReceiveWindow"),
            max_stream_receive_window: obj.get_u64("maxStreamReceiveWindow"),
            init_conn_receive_window: obj.get_u64("initConnectionReceiveWindow"),
            max_conn_receive_window: obj.get_u64("maxConnectionReceiveWindow"),
            max_idle_timeout: obj.get_i64("maxIdleTimeout", 0),
            keep_alive_period: obj.get_i64("keepAlivePeriod", 0),
            disable_path_mtu_discovery: obj.get_bool("disablePathMTUDiscovery"),
            max_incoming_streams: obj.get_i64("maxIncomingStreams", 0),
            brutal_disable_loss_compensation: false,
        },
    )
}

/// Reads the settings of QUIC from a document that may hold them.
pub fn parse_quic_params(finalmask_json: Option<&Json>) -> (r: core::result::Result<
    Option<QuicParams>,
    SettingsError,
>)
    ensures
        ({
            let given = match finalmask_json {
                Some(v) => Some(*v),
                None => None,
            };
            match r {
                Ok(Some(p)) => settings_of(given) == Ok::<Option<QuicView>, Refusal>(Some(p@)),
                Ok(None) => settings_of(given) == Ok::<Option<QuicView>, Refusal>(None),
                Err(e) => settings_of(given) == Err::<Option<QuicView>, Refusal>(e@),
            }
        }),
{
    let v = match finalmask_json {
        None => return Ok(None),
        Some(v) => v,
    };
    let qp = match v.get("quicParams") {
        None => return Ok(None),
        Some(qp) => qp,
    };
    if !qp.is_object() {
        return Err(SettingsError::input("quicParams: expected an object"));
    }
    match read_params(qp) {
        Ok(p) => Ok(Some(p)),
        Err(e) => Err(e),
    }
}

/// Whatever the document, settings that are accepted keep to their bounds.
pub proof fn law_accepted_params_are_bounded(obj: Json)
    ensures
        params_of(obj) matches Ok(p) ==> {
            &&& p.brutal_up == 0 || p.brutal_up >= 65_536
            &&& p.brutal_down == 0 || p.brutal_down >= 65_536
            &&& p.congestion == "force-brutal"@ ==> p.brutal_up > 0
            &&& p.init_stream_receive_window == 0 || p.init_stream_receive_window >= 16_384
            &&& p.max_stream_receive_window == 0 || p.max_stream_receive_window >= 16_384
            &&& p.init_conn_receive_window == 0 || p.init_conn_receive_window >= 16_384
            &&& p.max_conn_receive_window == 0 || p.max_conn_receive_window >= 16_384
            &&& p.max_idle_timeout == 0 || 4 <= p.max_idle_timeout <= 120
            &&& p.keep_alive_period == 0 || 2 <= p.keep_alive_period <= 60
            &&& p.max_incoming_streams == 0 || p.max_incoming_streams >= 8
            &&& p.udp_hop is Some
            &&& p.udp_hop->0.interval_min <= p.udp_hop->0.interval_max
            &&& p.udp_hop->0.interval_min == 0 || p.udp_hop->0.interval_min >= 5
            &&& p.udp_hop->0.interval_max == 0 || p.udp_hop->0.interval_max >= 5
        },
{
    reveal_strlit("");
    reveal_strlit("brutal");
    reveal_strlit("reno");
    reveal_strlit("bbr");
    reveal_strlit("force-brutal");
    assert("force-brutal"@.len() == 12);
    assert(""@.len() == 0);
    assert("brutal"@.len() == 6);
    assert("reno"@.len() == 4);
    assert("bbr"@.len() == 3);
}

/// Every port that a list gives is one that there is.
pub proof fn law_listed_ports_exist(v: Json, i: int)
    requires
        ports_of(v) is Ok,
        0 <= i < ports_of(v)->Ok_0.len(),
    ensures
        1 <= ports_of(v)->Ok_0[i] <= 65_535,
{
    if let Json::Text(s) = v {
        lemma_listed_ports(split(s@, ','), i);
    }
}

proof fn lemma_listed_ports(parts: Seq<Seq<char>>, i: int)
    requires
        list_ports(parts) is Ok,
        0 <= i < list_ports(parts)->Ok_0.len(),
    ensures
        1 <= list_ports(parts)->Ok_0[i] <= 65_535,
    decreases parts.len(),
{
    if parts.len() > 0 {
        let before = list_ports(parts.drop_last())->Ok_0;
        if i < before.len() {
            lemma_listed_ports(parts.drop_last(), i);
        }
    }
}

/// The power of two of each unit.
pub proof fn law_units(unit: Seq<char>)
    ensures
        unit == ""@ || unit == "b"@ || unit == "bps"@ ==> unit_power(unit) == Some(0nat),
        unit == "k"@ || unit == "kb"@ || unit == "kbps"@ ==> unit_power(unit) == Some(10nat),
        unit == "m"@ || unit == "mb"@ || unit == "mbps"@ ==> unit_power(unit) == Some(20nat),
        unit == "g"@ || unit == "gb"@ || unit == "gbps"@ ==> unit_power(unit) == Some(30nat),
        unit == "t"@ || unit == "tb"@ || unit == "tbps"@ ==> unit_power(unit) == Some(40nat),
        unit_power(unit) is Some ==> unit.len() <= 4 && forall|i: int|
            0 <= i < unit.len() ==> 'a' <= (#[trigger] unit[i]) && unit[i] <= 'z',
{
    reveal_strlit("");
    reveal_strlit("b");
    reveal_strlit("bps");
    reveal_strlit("k");
    reveal_strlit("kb");
    reveal_strlit("kbps");
    reveal_strlit("m");
    reveal_strlit("mb");
    reveal_strlit("mbps");
    reveal_strlit("g");
    reveal_strlit("gb");
    reveal_strlit("gbps");
    reveal_strlit("t");
    reveal_strlit("tb");
    reveal_strlit("tbps");
    if unit.len() > 0 {
        assert("b"@[0] == 'b' && "bps"@[0] == 'b' && "k"@[0] == 'k' && "kb"@[0] == 'k' && "kbps"@[0]
            == 'k' && "m"@[0] == 'm' && "mb"@[0] == 'm' && "mbps"@[0] == 'm' && "g"@[0] == 'g'
            && "gb"@[0] == 'g' && "gbps"@[0] == 'g' && "t"@[0] == 't' && "tb"@[0] == 't'
            && "tbps"@[0] == 't');
    }
}

/// A whole number and a unit behind it are that number times the power of two of
/// the unit, in bits, and an eighth of it in bytes, where it has at most
/// fifty-three binary digits.
pub proof fn law_bandwidth_by_unit(n: nat, unit: Seq<char>, power: nat)
    requires
        unit_power(unit) == Some(power),
        bits(n * two_to(power)) <= 53,
        n * two_to(power) <= u64::MAX,
    ensures
        bandwidth_of(decimal(n) + unit) == Ok::<u64, Refusal>((n * two_to(power) / 8) as u64),
{
    law_units(unit);
    lemma_decimal_digits(n);
    let d = decimal(n);
    let t = d + unit;
    assert(is_digit(d[0]));
    assert forall|i: int| 0 <= i < t.len() implies crate::text::lower_char(#[trigger] t[i]) == t[i]
        && !crate::text::is_space(t[i]) by {
        if i < d.len() {
            assert(is_digit(d[i]));
        } else {
            assert('a' <= unit[i - d.len()] && unit[i - d.len()] <= 'z');
        }
    }
    assert(t.last() == t[t.len() - 1]);
    law_nothing_to_trim(t);
    assert(lower(t) =~= t);
    lemma_number_len(d, unit);
    assert(t.take(d.len() as int) =~= d);
    assert(t.skip(d.len() as int) =~= unit);
    if unit.len() > 0 {
        assert(unit[0] == t[d.len() as int]);
        assert(unit.last() == t[t.len() - 1]);
    }
    law_nothing_to_trim(unit);
    law_fraction_is_read(d, Seq::empty());
    assert(d + Seq::<char>::empty() =~= d);
    law_whole_numbers_are_exact(n * two_to(power), 1);
    assert(ten_to(0) == 1);
    let m = n * two_to(power);
    assert(m * 1 == m);
}

proof fn lemma_number_len(d: Seq<char>, unit: Seq<char>)
    requires
        crate::text::all_digits(d),
        unit.len() > 0 ==> !is_digit(unit[0]) && unit[0] != '.',
    ensures
        number_len(d + unit) == d.len(),
    decreases d.len(),
{
    let t = d + unit;
    if d.len() > 0 {
        assert(is_digit(d[0]));
        assert(t[0] == d[0]);
        assert(t.skip(1) =~= d.skip(1) + unit);
        let rest = d.skip(1);
        assert forall|i: int| 0 <= i < rest.len() implies is_digit(#[trigger] rest[i]) by {
            assert(is_digit(d[i + 1]));
        }
        lemma_number_len(rest, unit);
    } else if unit.len() > 0 {
        assert(t[0] == unit[0]);
    }
}

proof fn lemma_plain_number(n: nat)
    ensures
        !decimal(n).contains('-'),
        !decimal(n).contains(','),
        trimmed(decimal(n)) == decimal(n),
        decimal(n).len() > 0,
{
    lemma_decimal_digits(n);
    let d = decimal(n);
    assert(is_digit(d[0]));
    assert(d.last() == d[d.len() - 1]);
    assert(is_digit(d[d.len() - 1]));
    law_nothing_to_trim(d);
    if d.contains('-') {
        let i = choose|i: int| 0 <= i < d.len() && d[i] == '-';
        assert(is_digit(d[i]));
    }
    if d.contains(',') {
        let i = choose|i: int| 0 <= i < d.len() && d[i] == ',';
        assert(is_digit(d[i]));
    }
}

/// A part of a list that is a number is that port, and one that is two numbers
/// with a minus sign between them is every port from the smaller one to the
/// larger one, each once and in order. Ports that there are not are refused.
pub proof fn law_port_ranges(a: u32, b: u32)
    ensures
        ({
            let one = part_ports(decimal(a as nat));
            let range = part_ports(decimal(a as nat) + seq!['-'] + decimal(b as nat));
            let low = vstd::math::min(a as int, b as int);
            let high = vstd::math::max(a as int, b as int);
            &&& 1 <= a <= 65_535 ==> one == Ok::<Seq<u32>, Refusal>(seq![a])
            &&& a == 0 || a > 65_535 ==> one is Err
            &&& 1 <= low && high <= 65_535 ==> (range matches Ok(ports) && ports.len() == high - low
                + 1 && forall|i: int| 0 <= i < ports.len() ==> #[trigger] ports[i] == low + i)
            &&& low == 0 || high > 65_535 ==> range is Err
            &&& part_ports(Seq::empty()) == Ok::<Seq<u32>, Refusal>(Seq::empty())
        }),
{
    lemma_plain_number(a as nat);
    lemma_plain_number(b as nat);
    crate::text::law_decimal_round_trip(a as nat);
    crate::text::law_decimal_round_trip(b as nat);
    let x = decimal(a as nat);
    let y = decimal(b as nat);
    law_one_part_without_separator(x, '-');
    if 1 <= a <= 65_535 {
        assert(port_range(a, a)->Ok_0 =~= seq![a]);
    }
    let s = x + seq!['-'] + y;
    let at = x.len() as int;
    lemma_decimal_digits(a as nat);
    lemma_decimal_digits(b as nat);
    assert(is_digit(x[0]) && s[0] == x[0]);
    assert(is_digit(y[y.len() - 1]) && s.last() == y[y.len() - 1]);
    law_nothing_to_trim(s);
    assert(s[at] == '-');
    assert forall|j: int| 0 <= j < at implies #[trigger] s[j] != '-' by {
        assert(s[j] == x[j]);
        assert(x.contains(x[j]));
    }
    law_position_is_first(s, '-', at);
    assert(s.take(at) =~= x);
    assert(s.skip(at + 1) =~= y);
    law_nothing_to_trim(Seq::<char>::empty());
}

/// A list of parts with commas between them gives the ports of its parts, one
/// after the other; one bad part is enough to refuse it.
pub proof fn law_port_lists_join(a: Seq<char>, b: Seq<char>)
    ensures
        match (list_ports(split(a, ',')), list_ports(split(b, ','))) {
            (Ok(x), Ok(y)) => list_ports(split(a + seq![','] + b, ',')) == Ok::<Seq<u32>, Refusal>(
                x + y,
            ),
            _ => list_ports(split(a + seq![','] + b, ',')) is Err,
        },
        !a.contains(',') ==> list_ports(split(a, ',')) is Ok == part_ports(a) is Ok,
        !a.contains(',') && part_ports(a) is Ok ==> list_ports(split(a, ',')) == part_ports(a),
{
    law_separator_parts(a, b, ',');
    lemma_list_ports_add(split(a, ','), split(b, ','));
    if !a.contains(',') {
        law_one_part_without_separator(a, ',');
        let parts = split(a, ',');
        assert(parts.drop_last() =~= Seq::<Seq<char>>::empty());
        assert(list_ports(parts.drop_last()) == Ok::<Seq<u32>, Refusal>(Seq::empty()));
        assert(parts.last() == a);
        if part_ports(a) is Ok {
            assert(Seq::<u32>::empty() + part_ports(a)->Ok_0 =~= part_ports(a)->Ok_0);
        }
    }
}

proof fn lemma_list_ports_add(a: Seq<Seq<char>>, b: Seq<Seq<char>>)
    ensures
        match (list_ports(a), list_ports(b)) {
            (Ok(x), Ok(y)) => list_ports(a + b) == Ok::<Seq<u32>, Refusal>(x + y),
            _ => list_ports(a + b) is Err,
        },
    decreases b.len(),
{
    if b.len() == 0 {
        assert(a + b =~= a);
        if list_ports(a) is Ok {
            let x = list_ports(a)->Ok_0;
            assert(x + Seq::<u32>::empty() =~= x);
        }
    } else {
        let less = b.drop_last();
        lemma_list_ports_add(a, less);
        assert((a + b).drop_last() =~= a + less);
        assert((a + b).last() == b.last());
        if list_ports(a) is Ok && list_ports(b) is Ok {
            let x = list_ports(a)->Ok_0;
            let y = list_ports(less)->Ok_0;
            let z = part_ports(b.last())->Ok_0;
            assert((x + y) + z =~= x + (y + z));
        }
    }
}

/// A number is a range of its own, and two numbers with a minus sign between
/// them are the range from the smaller one to the larger one.
pub proof fn law_ranges_are_in_order(v: Json, a: u32, b: u32)
    ensures
        v matches Json::Number(n) ==> (n.signed() matches Some(x) ==> range_of(v) == Ok::<
            (i64, i64),
            Refusal,
        >((x, x))),
        v matches Json::Text(s) ==> (s@ == decimal(a as nat) + seq!['-'] + decimal(b as nat) ==> (
        range_of(v) matches Ok((low, high)) && low == vstd::math::min(a as int, b as int) && high
            == vstd::math::max(a as int, b as int))),
        v is Null || v is Bool || v is List || v is Object ==> range_of(v) is Err,
{
    if let Json::Text(s) = v {
        if s@ == decimal(a as nat) + seq!['-'] + decimal(b as nat) {
            lemma_plain_number(a as nat);
            lemma_plain_number(b as nat);
            crate::text::law_signed_decimal_round_trip(a as int);
            crate::text::law_signed_decimal_round_trip(b as int);
            let x = decimal(a as nat);
            let y = decimal(b as nat);
            let at = x.len() as int;
            assert(s@[at] == '-');
            assert forall|j: int| 0 <= j < at implies #[trigger] s@[j] != '-' by {
                assert(s@[j] == x[j]);
                assert(x.contains(x[j]));
            }
            law_position_is_first(s@, '-', at);
            assert(s@.take(at) =~= x);
            assert(s@.skip(at + 1) =~= y);
        }
    }
}

/// Rates that are given have to be sixty-four kibibytes per second at least; one
/// that is not given, or is nothing, is zero. Both are taken as they are given.
pub proof fn law_rates_are_taken(obj: Json)
    ensures
        ({
            let up = bandwidth_field(obj, "brutalUp"@);
            let down = bandwidth_field(obj, "brutalDown"@);
            &&& bandwidths_of(obj) is Ok <==> up is Ok && down is Ok && (up->Ok_0 == 0 || up->Ok_0
                >= 65_536) && (down->Ok_0 == 0 || down->Ok_0 >= 65_536)
            &&& bandwidths_of(obj) matches Ok((u, d)) ==> up == Ok::<u64, Refusal>(u) && down
                == Ok::<u64, Refusal>(d)
            &&& obj.field("brutalUp"@) is None ==> up == Ok::<u64, Refusal>(0)
            &&& obj.field("brutalUp"@) matches Some(Json::Text(s)) ==> up == bandwidth_of(s@)
            &&& obj.field("brutalUp"@) matches Some(Json::Number(n)) ==> up is Err
        }),
{
}

/// Which names of congestion controls are taken, in lower case: a fixed rate that
/// is forced needs a rate.
pub proof fn law_congestion_names(obj: Json, up: u64)
    ensures
        ({
            let name = lower(obj.field_text("congestion"@));
            &&& congestion_of(obj, up) is Ok <==> name == ""@ || name == "brutal"@ || name
                == "reno"@ || name == "bbr"@ || (name == "force-brutal"@ && up > 0)
            &&& congestion_of(obj, up) matches Ok(taken) ==> taken == name
        }),
{
    reveal_strlit("");
    reveal_strlit("brutal");
    reveal_strlit("reno");
    reveal_strlit("bbr");
    reveal_strlit("force-brutal");
    assert("force-brutal"@.len() == 12 && ""@.len() == 0 && "brutal"@.len() == 6 && "reno"@.len()
        == 4 && "bbr"@.len() == 3);
}

/// The names of profiles that are taken, in lower case; no name stands for the
/// standard one.
pub proof fn law_profile_names(obj: Json)
    ensures
        ({
            let name = lower(obj.field_text("bbrProfile"@));
            &&& name == ""@ ==> profile_of(obj) == Ok::<Seq<char>, Refusal>("standard"@)
            &&& name == "conservative"@ || name == "standard"@ || name == "aggressive"@
                ==> profile_of(obj) == Ok::<Seq<char>, Refusal>(name)
            &&& name != ""@ && name != "conservative"@ && name != "standard"@ && name
                != "aggressive"@ ==> profile_of(obj) is Err
        }),
{
    reveal_strlit("");
    reveal_strlit("conservative");
    reveal_strlit("standard");
    reveal_strlit("aggressive");
    assert(""@.len() == 0 && "conservative"@.len() == 12 && "standard"@.len() == 8
        && "aggressive"@.len() == 10);
}

/// How ports are changed: which ones and when, as given. A time below five
/// seconds that is not zero is refused.
pub proof fn law_hops_are_taken(obj: Json)
    ensures
        ({
            let given = obj.field("udpHop"@);
            &&& given is None ==> (hop_of(obj) matches Ok(h) && h.ports.len() == 0 && h.interval_min
                == 0 && h.interval_max == 0)
            &&& given matches Some(h) ==> (!(h is Object) ==> hop_of(obj) is Err)
            &&& given matches Some(h) ==> (h is Object ==> {
                let ports = h.field("ports"@);
                let listed = ports is None || ports_of(ports->0) is Ok;
                let time = h.field("interval"@);
                let range = range_of(time->0);
                let timed = time is None || (range is Ok && (range->Ok_0.0 == 0 || range->Ok_0.0
                    >= 5) && (range->Ok_0.1 == 0 || range->Ok_0.1 >= 5));
                &&& hop_of(obj) is Ok <==> listed && timed
                &&& hop_of(obj) matches Ok(got) ==> {
                    &&& got.ports == if ports is None {
                        Seq::empty()
                    } else {
                        ports_of(ports->0)->Ok_0
                    }
                    &&& time is Some ==> got.interval_min == range->Ok_0.0 && got.interval_max
                        == range->Ok_0.1
                    &&& time is None ==> got.interval_min == 0 && got.interval_max == 0
                }
            })
        }),
{
}

/// Settings are accepted where each of them is, and are then taken as given.
pub proof fn law_params_are_taken(obj: Json)
    ensures
        ({
            let idle = obj.field_signed("maxIdleTimeout"@, 0);
            let keep = obj.field_signed("keepAlivePeriod"@, 0);
            let streams = obj.field_signed("maxIncomingStreams"@, 0);
            let w1 = obj.field_unsigned("initStreamReceiveWindow"@);
            let w2 = obj.field_unsigned("maxStreamReceiveWindow"@);
            let w3 = obj.field_unsigned("initConnectionReceiveWindow"@);
            let w4 = obj.field_unsigned("maxConnectionReceiveWindow"@);
            &&& params_of(obj) is Ok <==> {
                &&& profile_of(obj) is Ok
                &&& bandwidths_of(obj) is Ok
                &&& congestion_of(obj, bandwidths_of(obj)->Ok_0.0) is Ok
                &&& hop_of(obj) is Ok
                &&& w1 == 0 || w1 >= 16_384
                &&& w2 == 0 || w2 >= 16_384
                &&& w3 == 0 || w3 >= 16_384
                &&& w4 == 0 || w4 >= 16_384
                &&& idle == 0 || 4 <= idle <= 120
                &&& keep == 0 || 2 <= keep <= 60
                &&& streams == 0 || streams >= 8
            }
            &&& params_of(obj) matches Ok(p) ==> {
                &&& p.bbr_profile == profile_of(obj)->Ok_0
                &&& p.brutal_up == bandwidths_of(obj)->Ok_0.0
                &&& p.brutal_down == bandwidths_of(obj)->Ok_0.1
                &&& p.congestion == lower(obj.field_text("congestion"@))
                &&& p.udp_hop == Some(hop_of(obj)->Ok_0)
                &&& p.init_stream_receive_window == w1
                &&& p.max_stream_receive_window == w2
                &&& p.init_conn_receive_window == w3
                &&& p.max_conn_receive_window == w4
                &&& p.max_idle_timeout == idle
                &&& p.keep_alive_period == keep
                &&& p.max_incoming_streams == streams
                &&& p.disable_path_mtu_discovery == obj.field_truth("disablePathMTUDiscovery"@)
            }
        }),
{
    if bandwidths_of(obj) is Ok {
        law_congestion_names(obj, bandwidths_of(obj)->Ok_0.0);
    }
}

} // verus!
