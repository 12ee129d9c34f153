//! Names and numbers of the protocol, and padding.

use vstd::prelude::*;

use crate::hysteria::random::{random_bytes, random_upto};

verus! {

/// Why a connection is closed: nothing is wrong.
pub const CLOSE_ERR_CODE_OK: u64 = 0x100;

/// Why a connection is closed: the peer does not keep to the protocol.
pub const CLOSE_ERR_CODE_PROTOCOL_ERROR: u64 = 0x101;

/// The host of the request that a client introduces itself with.
#[allow(non_upper_case_globals)]
pub const URLHost: &'static str = "hysteria";

/// The path of that request.
#[allow(non_upper_case_globals)]
pub const URLPath: &'static str = "/auth";

/// The header that carries the client's secret.
#[allow(non_upper_case_globals)]
pub const RequestHeaderAuth: &'static str = "Hysteria-Auth";

/// The header that says whether the server passes UDP on.
#[allow(non_upper_case_globals)]
pub const ResponseHeaderUDPEnabled: &'static str = "Hysteria-UDP";

/// The header that carries what a side can receive.
#[allow(non_upper_case_globals)]
pub const CommonHeaderCCRX: &'static str = "Hysteria-CC-RX";

/// The header that carries padding.
#[allow(non_upper_case_globals)]
pub const CommonHeaderPadding: &'static str = "Hysteria-Padding";

/// The status that accepts a client.
#[allow(non_upper_case_globals)]
pub const StatusAuthOK: u16 = 233;

/// What a TCP stream starts with.
#[allow(non_upper_case_globals)]
pub const FrameTypeTCPRequest: u64 = 0x401;

/// The largest datagram, in bytes.
#[allow(non_upper_case_globals)]
pub const MaxDatagramFrameSize: usize = 1200;

/// How many datagrams of a session wait to be read.
pub const UDP_MESSAGE_CHAN_SIZE: usize = 1024;

/// How often idle sessions are looked for, in milliseconds.
pub const IDLE_CLEANUP_INTERVAL_MS: u64 = 1000;

/// The character that a byte stands for in padding.
pub open spec fn padding_char(b: u8) -> char {
    if b % 62 < 26 {
        ('a' as u32 + b % 62) as char
    } else if b % 62 < 52 {
        ('A' as u32 + b % 62 - 26) as char
    } else {
        ('0' as u32 + b % 62 - 52) as char
    }
}

/// Whether the character is an ASCII letter or digit.
pub open spec fn is_padding_char(c: char) -> bool {
    ('a' <= c && c <= 'z') || ('A' <= c && c <= 'Z') || ('0' <= c && c <= '9')
}

fn to_padding_char(b: u8) -> (c: char)
    ensures
        c == padding_char(b),
        is_padding_char(c),
{
    let i: u8 = b % 62;
    if i < 26 {
        (97u8 + i) as char
    } else if i < 52 {
        (65u8 + (i - 26)) as char
    } else {
        (48u8 + (i - 52)) as char
    }
}

/// The padding that bytes stand for, one character for each.
pub fn padding_text(bytes: &[u8]) -> (s: String)
    ensures
        s@ == bytes@.map_values(|b: u8| padding_char(b)),
        forall|i: int| 0 <= i < s@.len() ==> is_padding_char(#[trigger] s@[i]),
{
    let mut s: String = String::new();
    let mut i: usize = 0;
    while i < bytes.len()
        invariant
            i <= bytes@.len(),
            s@ == bytes@.take(i as int).map_values(|b: u8| padding_char(b)),
            forall|k: int| 0 <= k < s@.len() ==> is_padding_char(#[trigger] s@[k]),
        decreases bytes@.len() - i,
    {
        s.push(to_padding_char(bytes[i]));
        i += 1;
        assert(s@ =~= bytes@.take(i as int).map_values(|b: u8| padding_char(b)));
    }
    assert(bytes@.take(i as int) =~= bytes@);
    s
}

/// How long padding is: at least `min` and at most `max` characters.
#[derive(Debug, Clone, Copy, PartialEq, Eq, Structural)]
pub struct Padding {
    pub min: usize,
    pub max: usize,
}

impl Padding {
    /// Padding between those lengths.
    pub fn new(min: usize, max: usize) -> (p: Self)
        ensures
            p == (Padding { min, max }),
    {
        Padding { min, max }
    }

    /// Random padding.
    pub fn generate(&self) -> (s: String)
        requires
            self.min <= self.max,
        ensures
            self.min <= s@.len() <= self.max,
            forall|i: int| 0 <= i < s@.len() ==> is_padding_char(#[trigger] s@[i]),
    {
        let n: usize = self.min + random_upto((self.max - self.min) as u64) as usize;
        let bytes = random_bytes(n);
        padding_text(bytes.as_slice())
    }
}

/// A range of lengths that is kept for later.
#[derive(Debug, Clone, Copy, PartialEq, Eq, Structural)]
pub struct LazyPadding {
    pub value: Padding,
}

impl LazyPadding {
    /// Keeps the range.
    pub fn new(value: Padding) -> (p: Self)
        ensures
            p.value == value,
    {
        LazyPadding { value }
    }

    /// The range.
    pub fn get(&self) -> (p: Padding)
        ensures
            p == self.value,
    {
        self.value
    }
}

/// The padding of the request that a client introduces itself with.
pub fn auth_request_padding() -> (p: LazyPadding)
    ensures
        p.value == (Padding { min: 256, max: 2048 }),
{
    LazyPadding::new(Padding::new(256, 2048))
}

/// The padding of the answer to it.
pub fn auth_response_padding() -> (p: LazyPadding)
    ensures
        p.value == (Padding { min: 256, max: 2048 }),
{
    LazyPadding::new(Padding::new(256, 2048))
}

/// The padding of the request that opens a TCP stream.
pub fn tcp_request_padding() -> (p: LazyPadding)
    ensures
        p.value == (Padding { min: 64, max: 512 }),
{
    LazyPadding::new(Padding::new(64, 512))
}

/// The padding of the answer to it.
pub fn tcp_response_padding() -> (p: LazyPadding)
    ensures
        p.value == (Padding { min: 128, max: 1024 }),
{
    LazyPadding::new(Padding::new(128, 1024))
}

/// Where a client stands.
#[derive(Debug, Clone, Copy, PartialEq, Eq, Structural)]
pub enum Status {
    /// Never connected.
    Null,
    /// Connected.
    Active,
    /// Closed or failed.
    Inactive,
}

impl Default for Status {
    fn default() -> (s: Self)
        ensures
            s == Status::Null,
    {
        Status::Null
    }
}

/// A byte gives one of the sixty-two letters and digits, the small letters first,
/// then the capital ones, then the digits, over and over: two bytes give the same
/// one where they are the same modulo sixty-two, and only then.
pub proof fn law_padding_characters(b: u8, c: u8)
    ensures
        is_padding_char(padding_char(b)),
        padding_char(b) == padding_char(c) <==> b % 62 == c % 62,
        b < 26 ==> padding_char(b) as u32 == 'a' as u32 + b,
        26 <= b < 52 ==> padding_char(b) as u32 == 'A' as u32 + (b - 26),
        52 <= b < 62 ==> padding_char(b) as u32 == '0' as u32 + (b - 52),
{
}

} // verus!
