//! How a client introduces itself.

use vstd::prelude::*;

use crate::hysteria::headers::{header_value, header_views, push_header, Headers};
use crate::hysteria::hub::{
    asks_in, let_in, parse_receive_rate, receive_rate, AuthRequest, AuthValidator,
};
use crate::hysteria::random::{random_bytes, random_upto};
use crate::text::{decimal, join, lower, push_decimal, same_text, to_lower};

verus! {

/// Where the request goes.
pub const AUTH_URL: &'static str = "https://hysteria/auth";

/// The status that accepts the client.
pub const STATUS_AUTH_OK: u16 = 233;

/// The fewest bytes of padding.
pub const AUTH_PADDING_MIN: usize = 256;

/// The most bytes of padding.
pub const AUTH_PADDING_MAX: usize = 2048;

/// A hexadecimal digit.
pub open spec fn hex_digit(d: u8) -> char {
    if d < 10 {
        ('0' as u32 + d) as char
    } else {
        ('a' as u32 + d - 10) as char
    }
}

/// Bytes in hexadecimal digits, two for each, the higher one first.
pub open spec fn hex_text(bytes: Seq<u8>) -> Seq<char> {
    Seq::new(
        2 * bytes.len(),
        |i: int|
            if i % 2 == 0 {
                hex_digit(bytes[i / 2] / 16)
            } else {
                hex_digit(bytes[i / 2] % 16)
            },
    )
}

/// Bytes in hexadecimal digits by `hex::encode`, which writes two digits for
/// each byte, the higher one first, letters in lower case.
#[verifier::external_body]
fn hex_encode(bytes: &[u8]) -> (s: String)
    ensures
        s@ == hex_text(bytes@),
{
    hex::encode(bytes)
}

/// Whether the character is a hexadecimal digit in lower case.
pub open spec fn is_hex_char(c: char) -> bool {
    ('0' <= c && c <= '9') || ('a' <= c && c <= 'f')
}

/// The padding that bytes make.
pub fn padding_from(bytes: &[u8]) -> (s: String)
    ensures
        s@ == hex_text(bytes@),
{
    hex_encode(bytes)
}

/// Random padding: between 256 and 2048 random bytes in hexadecimal digits.
pub fn random_auth_padding() -> (s: String)
    ensures
        2 * AUTH_PADDING_MIN <= s@.len() <= 2 * AUTH_PADDING_MAX,
        s@.len() % 2 == 0,
        forall|i: int| 0 <= i < s@.len() ==> is_hex_char(#[trigger] s@[i]),
{
    let spread: u64 = (AUTH_PADDING_MAX - AUTH_PADDING_MIN) as u64;
    let len: usize = AUTH_PADDING_MIN + random_upto(spread) as usize;
    let bytes: Vec<u8> = random_bytes(len);
    let s: String = padding_from(bytes.as_slice());
    assert forall|i: int| 0 <= i < s@.len() implies is_hex_char(#[trigger] s@[i]) by {
        let b = bytes@[i / 2];
        assert(b / 16 < 16 && b % 16 < 16);
    }
    s
}

/// The header fields of the request.
pub open spec fn request_fields(token: Seq<char>, brutal_down_bps: u64, padding: Seq<char>) -> Seq<
    (Seq<char>, Seq<char>),
> {
    seq![
        ("Hysteria-Auth"@, token),
        ("Hysteria-CC-RX"@, decimal(brutal_down_bps as nat)),
        ("Hysteria-Padding"@, padding),
    ]
}

/// The header fields of the request.
pub fn auth_request_headers(auth_token: &str, brutal_down_bps: u64, padding: &str) -> (h: Headers)
    ensures
        header_views(h@) == request_fields(auth_token@, brutal_down_bps, padding@),
{
    let mut rate: String = String::new();
    push_decimal(&mut rate, brutal_down_bps);
    assert(rate@ =~= decimal(brutal_down_bps as nat));
    let mut h: Headers = Vec::new();
    push_header(&mut h, "Hysteria-Auth", auth_token);
    push_header(&mut h, "Hysteria-CC-RX", rate.as_str());
    push_header(&mut h, "Hysteria-Padding", padding);
    assert(header_views(h@) =~= request_fields(auth_token@, brutal_down_bps, padding@));
    h
}

/// A server finds in the request the secret that the client has put there and
/// what the client can receive, and lets the client in where the secret is its
/// own.
pub proof fn law_request_is_understood<V: AuthValidator>(
    req: AuthRequest,
    token: Seq<char>,
    down: u64,
    padding: Seq<char>,
)
    requires
        asks_in(req),
        token.len() > 0,
        header_value(request_fields(token, down, padding), "Hysteria-Auth"@) == Some(
            req.auth_header@,
        ),
    ensures
        req.auth_header@ == token,
        let_in::<V>(req, None, token),
        header_value(request_fields(token, down, padding), "Hysteria-CC-RX"@) == Some(
            decimal(down as nat),
        ),
        receive_rate(decimal(down as nat)) == down,
{
    let fields = request_fields(token, down, padding);
    reveal_strlit("Hysteria-Auth");
    reveal_strlit("Hysteria-CC-RX");
    assert("Hysteria-Auth"@.len() == 13 && "Hysteria-CC-RX"@.len() == 14);
    assert(fields[0].0 == "Hysteria-Auth"@);
    assert(fields.skip(1)[0] == fields[1]);
    assert(header_value(fields, "Hysteria-CC-RX"@) == header_value(
        fields.skip(1),
        "Hysteria-CC-RX"@,
    ));
    crate::text::law_decimal_round_trip(down as nat);
}

/// A status and what it is called.
pub uninterp spec fn status_text(code: u16) -> Seq<char>;

/// A status and what it is called, as `http::StatusCode` shows itself. What a
/// status is called is not stated, only that it depends on the status alone.
#[verifier::external_body]
fn show_status(code: u16) -> (s: String)
    requires
        100 <= code <= 999,
    ensures
        s@ == status_text(code),
{
    http::StatusCode::from_u16(code).expect("a status has three digits").to_string()
}

/// What the server has told a client that it accepts.
#[derive(Debug, Clone, Copy, PartialEq, Eq, Structural)]
pub struct Welcome {
    /// Whether the server passes UDP on.
    pub udp_enabled: bool,
    /// What the server can receive, in bytes per second, zero where it leaves
    /// that open.
    pub cc_rx_down: u64,
}

/// Whether a header says that the server passes UDP on.
pub open spec fn says_udp(header: Option<Seq<char>>) -> bool {
    match header {
        Some(s) => lower(s) == "true"@ || s == "1"@,
        None => false,
    }
}

/// What a header says that the server can receive.
pub open spec fn says_rate(header: Option<Seq<char>>) -> u64 {
    match header {
        Some(s) => if lower(s) == "auto"@ {
            0
        } else {
            receive_rate(s)
        },
        None => 0,
    }
}

/// What the answer to the request comes to.
pub fn read_auth_response(status: u16, udp: Option<&str>, cc_rx: Option<&str>) -> (r: core::result::Result<
    Welcome,
    String,
>)
    requires
        100 <= status <= 999,
    ensures
        match r {
            Ok(w) => {
                &&& status == STATUS_AUTH_OK
                &&& w.udp_enabled == says_udp(
                    match udp {
                        Some(s) => Some(s@),
                        None => None,
                    },
                )
                &&& w.cc_rx_down == says_rate(
                    match cc_rx {
                        Some(s) => Some(s@),
                        None => None,
                    },
                )
            },
            Err(text) => {
                &&& status != STATUS_AUTH_OK
                &&& text@ == "hysteria auth failed: status "@ + status_text(status)
                    + " (expected 233)"@
            },
        },
{
    if status != STATUS_AUTH_OK {
        let mut text: String = join("hysteria auth failed: status ", show_status(status).as_str());
        text.append(" (expected 233)");
        return Err(text);
    }
    let udp_enabled: bool = match udp {
        Some(s) => same_text(to_lower(s).as_str(), "true") || same_text(s, "1"),
        None => false,
    };
    let cc_rx_down: u64 = match cc_rx {
        Some(s) => if same_text(to_lower(s).as_str(), "auto") {
            0
        } else {
            parse_receive_rate(s)
        },
        None => 0,
    };
    Ok(Welcome { udp_enabled, cc_rx_down })
}

/// A client reads from the header that a server writes what the server can
/// receive, and that it passes UDP on.
pub proof fn law_client_reads_welcome(rate: u64)
    ensures
        says_rate(Some(decimal(rate as nat))) == rate,
        says_udp(Some("true"@)),
{
    crate::text::law_decimal_round_trip(rate as nat);
    crate::text::lemma_decimal_digits(rate as nat);
    reveal_strlit("auto");
    reveal_strlit("true");
    assert(lower("true"@) =~= "true"@);
    let s = decimal(rate as nat);
    if lower(s) == "auto"@ {
        assert(lower(s)[0] == 'a');
        assert(crate::text::is_digit(s[0]));
        assert(crate::text::lower_char(s[0]) == s[0]);
    }
}

/// A client's request carries what it was given under the three names, each once.
pub proof fn law_request_carries_its_fields(token: Seq<char>, down: u64, padding: Seq<char>)
    ensures
        ({
            let fields = request_fields(token, down, padding);
            &&& fields.len() == 3
            &&& header_value(fields, "Hysteria-Auth"@) == Some(token)
            &&& header_value(fields, "Hysteria-CC-RX"@) == Some(decimal(down as nat))
            &&& header_value(fields, "Hysteria-Padding"@) == Some(padding)
        }),
{
    let fields = request_fields(token, down, padding);
    reveal_strlit("Hysteria-Auth");
    reveal_strlit("Hysteria-CC-RX");
    reveal_strlit("Hysteria-Padding");
    assert("Hysteria-Auth"@.len() == 13 && "Hysteria-CC-RX"@.len() == 14
        && "Hysteria-Padding"@.len() == 16);
    crate::hysteria::headers::law_first_field_counts(fields, 0);
    crate::hysteria::headers::law_first_field_counts(fields, 1);
    crate::hysteria::headers::law_first_field_counts(fields, 2);
}

/// What the header of an answer says of UDP and of what the server can receive:
/// nothing where it is missing; `auto`, whatever the case of its letters, leaves
/// the rate open; a number that can be counted is the rate.
pub proof fn law_welcome_by_header(s: Seq<char>)
    ensures
        !says_udp(None),
        says_udp(Some(s)) <==> lower(s) == "true"@ || s == "1"@,
        says_rate(None) == 0,
        lower(s) == "auto"@ ==> says_rate(Some(s)) == 0,
        crate::text::unsigned_value(s) is None ==> says_rate(Some(s)) == 0,
        crate::text::unsigned_value(s) matches Some(n) ==> says_rate(Some(s)) == if n <= u64::MAX {
            n as int
        } else {
            0
        },
{
    reveal_strlit("auto");
    if lower(s) == "auto"@ {
        assert("auto"@.len() == 4);
        assert(lower(s)[0] == 'a');
        assert(s.len() == 4);
        assert(crate::text::lower_char(s[0]) == 'a');
        assert(s[0] == 'a' || s[0] == 'A');
        crate::text::law_only_digits_make_numbers(s, 0);
    }
}

} // verus!
