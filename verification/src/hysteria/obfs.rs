//! Disguising datagrams.

use vstd::prelude::*;
use vstd::utf8::encode_utf8;

use crate::hysteria::quic_params::{number_i64, ordered};
use crate::json::{bad_input, Json, Refusal, SettingsError};
use crate::text::{
    chars_of, debug_text, decimal, find_char, join, law_position_is_first,
    law_signed_decimal_round_trip, lemma_decimal_digits, parse_signed, position, quoted, same_text,
    signed_decimal, slice_chars,
};

verus! {

/// Datagrams that are cut to pieces of a random size.
#[derive(Debug, PartialEq, Eq)]
pub struct GeckoConfig {
    pub password: String,
    pub min_packet_size: u32,
    pub max_packet_size: u32,
}

/// How datagrams are disguised.
#[derive(Debug, PartialEq, Eq)]
pub enum UdpObfs {
    /// Under a password.
    Salamander(String),
    /// Under a password and cut to pieces.
    Gecko(GeckoConfig),
}

/// The contents of a [`UdpObfs`].
pub ghost enum ObfsView {
    Salamander(Seq<char>),
    Gecko { password: Seq<char>, min_packet_size: u32, max_packet_size: u32 },
}

impl View for UdpObfs {
    type V = ObfsView;

    open spec fn view(&self) -> ObfsView {
        match self {
            UdpObfs::Salamander(password) => ObfsView::Salamander(password@),
            UdpObfs::Gecko(c) => ObfsView::Gecko {
                password: c.password@,
                min_packet_size: c.min_packet_size,
                max_packet_size: c.max_packet_size,
            },
        }
    }
}

/// The fewest bytes of a password.
pub const MIN_PASSWORD_LEN: usize = 4;

/// A text that is no range.
pub open spec fn no_range(s: Seq<char>) -> Refusal {
    bad_input("invalid range string: "@ + s)
}

/// Two numbers with a minus sign between them; where the text starts with one,
/// that is the sign of the first number.
pub open spec fn range_parts(s: Seq<char>) -> Option<(Seq<char>, Seq<char>)> {
    if s.len() > 0 && s[0] == '-' {
        let rest = s.skip(1);
        let at = position(rest, '-') as int;
        if at < rest.len() {
            Some((seq!['-'] + rest.take(at), rest.skip(at + 1)))
        } else {
            None
        }
    } else {
        let at = position(s, '-') as int;
        if at < s.len() {
            Some((s.take(at), s.skip(at + 1)))
        } else {
            None
        }
    }
}

/// The range that a text gives: a number, nothing for zero, or two numbers.
pub open spec fn range_text(s: Seq<char>) -> core::result::Result<(i64, i64), Refusal> {
    if number_i64(s) is Some {
        Ok((number_i64(s)->0, number_i64(s)->0))
    } else if s.len() == 0 {
        Ok((0, 0))
    } else {
        match range_parts(s) {
            None => Err(no_range(s)),
            Some((l, r)) => match (number_i64(l), number_i64(r)) {
                (Some(a), Some(b)) => Ok((a, b)),
                _ => Err(no_range(s)),
            },
        }
    }
}

fn refuse_range(s: &str) -> (e: SettingsError)
    ensures
        e@ == no_range(s@),
{
    SettingsError::input(join("invalid range string: ", s).as_str())
}

/// Reads the range that a text gives.
pub fn parse_range_string(s: &str) -> (r: core::result::Result<(i64, i64), SettingsError>)
    ensures
        match r {
            Ok(x) => range_text(s@) == Ok::<(i64, i64), Refusal>(x),
            Err(e) => range_text(s@) == Err::<(i64, i64), Refusal>(e@),
        },
{
    let chars: Vec<char> = chars_of(s);
    match parse_signed(chars.as_slice()) {
        Some(n) => return Ok((n, n)),
        None => {},
    }
    if chars.len() == 0 {
        return Ok((0, 0));
    }
    let from: usize = if chars[0] == '-' {
        1
    } else {
        0
    };
    let rest: Vec<char> = slice_chars(chars.as_slice(), from, chars.len());
    let at: usize = find_char(rest.as_slice(), '-');
    proof {
        assert(from == 1 ==> rest@ =~= s@.skip(1));
        assert(from == 0 ==> rest@ =~= s@);
    }
    if at == rest.len() {
        return Err(refuse_range(s));
    }
    let left: Vec<char> = slice_chars(chars.as_slice(), 0, from + at);
    let right: Vec<char> = slice_chars(rest.as_slice(), at + 1, rest.len());
    proof {
        assert(right@ =~= rest@.skip(at + 1));
        assert(from == 1 ==> left@ =~= seq!['-'] + rest@.take(at as int));
        assert(from == 0 ==> left@ =~= rest@.take(at as int));
    }
    match (parse_signed(left.as_slice()), parse_signed(right.as_slice())) {
        (Some(a), Some(b)) => Ok((a, b)),
        _ => Err(refuse_range(s)),
    }
}

/// The sizes of pieces that a value gives, in order.
pub open spec fn size_range(v: Option<Json>) -> core::result::Result<Option<(i64, i64)>, Refusal> {
    match v {
        None => Ok(None),
        Some(j) => match j.signed() {
            Some(n) => Ok(Some((n, n))),
            None => match j.text() {
                Some(s) => match range_text(s) {
                    Ok((a, b)) => Ok(Some(ordered(a, b))),
                    Err(e) => Err(e),
                },
                None => Err(
                    bad_input(
                        "hysteria finalmask: invalid packetSize, expected integer or \"from-to\" string"@,
                    ),
                ),
            },
        },
    }
}

/// Reads the sizes of pieces.
pub fn packet_size_range(v: Option<&Json>) -> (r: core::result::Result<
    Option<(i64, i64)>,
    SettingsError,
>)
    ensures
        ({
            let given = match v {
                Some(j) => Some(*j),
                None => None,
            };
            match r {
                Ok(x) => size_range(given) == Ok::<Option<(i64, i64)>, Refusal>(x),
                Err(e) => size_range(given) == Err::<Option<(i64, i64)>, Refusal>(e@),
            }
        }),
{
    let j = match v {
        None => return Ok(None),
        Some(j) => j,
    };
    match j.as_i64() {
        Some(n) => return Ok(Some((n, n))),
        None => {},
    }
    match j.as_str() {
        Some(s) => match parse_range_string(s) {
            Ok((a, b)) => if a <= b {
                Ok(Some((a, b)))
            } else {
                Ok(Some((b, a)))
            },
            Err(e) => Err(e),
        },
        None => Err(
            SettingsError::input(
                "hysteria finalmask: invalid packetSize, expected integer or \"from-to\" string",
            ),
        ),
    }
}

/// The settings of an entry, nothing where it has none.
pub open spec fn entry_settings(entry: Json) -> Json {
    match entry.field("settings"@) {
        Some(s) => s,
        None => Json::Null,
    }
}

/// A password that is too short. What is said of it may go on from there.
pub open spec fn short_password() -> Refusal {
    bad_input("hysteria finalmask salamander: "@)
}

/// Whether a refusal is the one that is owed, word for word but for what is
/// said of a password that is too short.
pub open spec fn told(e: Refusal, owed: Refusal) -> bool {
    if owed == short_password() {
        e.kind == owed.kind && owed.message.is_prefix_of(e.message)
    } else {
        e == owed
    }
}

/// The disguise that settings give.
pub open spec fn disguise(settings: Json) -> core::result::Result<ObfsView, Refusal> {
    let password = settings.field_text("password"@);
    if encode_utf8(password).len() < MIN_PASSWORD_LEN {
        Err(short_password())
    } else {
        match size_range(settings.field("packetSize"@)) {
            Err(e) => Err(e),
            Ok(Some((from, to))) if to > 0 => if from <= 0 || to > 2048 {
                Err(bad_input("hysteria finalmask: gecko: invalid min/max packet size"@))
            } else {
                Ok(
                    ObfsView::Gecko {
                        password,
                        min_packet_size: from as u32,
                        max_packet_size: to as u32,
                    },
                )
            },
            Ok(_) => Ok(ObfsView::Salamander(password)),
        }
    }
}

/// The disguise that an entry gives.
pub open spec fn entry_disguise(entry: Json) -> core::result::Result<ObfsView, Refusal> {
    let kind = entry.field_text("type"@);
    if kind != "salamander"@ {
        Err(
            bad_input(
                "hysteria finalmask: unsupported udp mask type "@ + debug_text(kind)
                    + " (supported: salamander)"@,
            ),
        )
    } else {
        disguise(entry_settings(entry))
    }
}

/// The disguise that a list gives: of at most one entry.
pub open spec fn list_disguise(entries: Seq<Json>) -> core::result::Result<
    Option<ObfsView>,
    Refusal,
>
    decreases entries.len(),
{
    if entries.len() == 0 {
        Ok(None)
    } else {
        match list_disguise(entries.drop_last()) {
            Err(e) => Err(e),
            Ok(before) => match entry_disguise(entries.last()) {
                Err(e) => Err(e),
                Ok(d) => if before is Some {
                    Err(bad_input("hysteria finalmask: multiple salamander entries unsupported"@))
                } else {
                    Ok(Some(d))
                },
            },
        }
    }
}

/// The disguise that a document gives, nothing where it names none.
pub open spec fn obfs_of(json: Option<Json>) -> core::result::Result<Option<ObfsView>, Refusal> {
    match json {
        None => Ok(None),
        Some(v) => match v.field("udp"@) {
            Some(udp) => match udp {
                Json::List(entries) => list_disguise(entries@),
                _ => Ok(None),
            },
            None => Ok(None),
        },
    }
}

fn read_disguise(settings: &Json) -> (r: core::result::Result<UdpObfs, SettingsError>)
    ensures
        match r {
            Ok(d) => disguise(*settings) == Ok::<ObfsView, Refusal>(d@),
            Err(e) => disguise(*settings) matches Err(owed) && told(e@, owed),
        },
{
    let password: &str = settings.get_text("password");
    proof {
        reveal_strlit("hysteria finalmask salamander: ");
        reveal_strlit("hysteria finalmask salamander: password must be at least 4 bytes");
    }
    if password.as_bytes().len() < MIN_PASSWORD_LEN {
        return Err(
            SettingsError::input(
                "hysteria finalmask salamander: password must be at least 4 bytes",
            ),
        );
    }
    match packet_size_range(settings.get("packetSize")) {
        Err(e) => Err(e),
        Ok(Some((from, to))) => {
            if to <= 0 {
                return Ok(UdpObfs::Salamander(password.to_owned()));
            }
            if from <= 0 || to > 2048 {
                return Err(
                    SettingsError::input("hysteria finalmask: gecko: invalid min/max packet size"),
                );
            }
            Ok(
                UdpObfs::Gecko(
                    GeckoConfig {
                        password: password.to_owned(),
                        min_packet_size: from as u32,
                        max_packet_size: to as u32,
                    },
                ),
            )
        },
        Ok(None) => Ok(UdpObfs::Salamander(password.to_owned())),
    }
}

fn read_entry(entry: &Json) -> (r: core::result::Result<UdpObfs, SettingsError>)
    ensures
        match r {
            Ok(d) => entry_disguise(*entry) == Ok::<ObfsView, Refusal>(d@),
            Err(e) => entry_disguise(*entry) matches Err(owed) && told(e@, owed),
        },
{
    let kind: &str = entry.get_text("type");
    if !same_text(kind, "salamander") {
        let mut message: String = join(
            "hysteria finalmask: unsupported udp mask type ",
            quoted(kind).as_str(),
        );
        message.append(" (supported: salamander)");
        return Err(SettingsError::input(message.as_str()));
    }
    match entry.get("settings") {
        Some(settings) => read_disguise(settings),
        None => read_disguise(&Json::Null),
    }
}

proof fn lemma_list_refused(entries: Seq<Json>, k: int, e: Refusal)
    requires
        0 <= k <= entries.len(),
        list_disguise(entries.take(k)) == Err::<Option<ObfsView>, Refusal>(e),
    ensures
        list_disguise(entries) == Err::<Option<ObfsView>, Refusal>(e),
    decreases entries.len() - k,
{
    if k == entries.len() {
        assert(entries.take(k) =~= entries);
    } else {
        assert(entries.take(k + 1).drop_last() =~= entries.take(k));
        lemma_list_refused(entries, k + 1, e);
    }
}

/// Reads the disguise that a document gives.
pub fn parse_udp_obfs(finalmask_json: Option<&Json>) -> (r: core::result::Result<
    Option<UdpObfs>,
    SettingsError,
>)
    ensures
        ({
            let given = match finalmask_json {
                Some(v) => Some(*v),
                None => None,
            };
            match r {
                Ok(Some(d)) => obfs_of(given) == Ok::<Option<ObfsView>, Refusal>(Some(d@)),
                Ok(None) => obfs_of(given) == Ok::<Option<ObfsView>, Refusal>(None),
                Err(e) => obfs_of(given) matches Err(owed) && told(e@, owed),
            }
        }),
{
    let v = match finalmask_json {
        None => return Ok(None),
        Some(v) => v,
    };
    let udp = match v.get("udp") {
        None => return Ok(None),
        Some(udp) => udp,
    };
    let entries = match udp {
        Json::List(entries) => entries,
        _ => return Ok(None),
    };
    let mut result: Option<UdpObfs> = None;
    let mut i: usize = 0;
    assert(entries@.take(0) =~= Seq::empty());
    while i < entries.len()
        invariant
            i <= entries@.len(),
            obfs_of(Some(*v)) == list_disguise(entries@),
            finalmask_json == Some(v),
            list_disguise(entries@.take(i as int)) == Ok::<Option<ObfsView>, Refusal>(
                match result {
                    Some(d) => Some(d@),
                    None => None,
                },
            ),
        decreases entries@.len() - i,
    {
        proof {
            assert(entries@.take(i + 1).drop_last() =~= entries@.take(i as int));
            assert(entries@.take(i + 1).last() == entries@[i as int]);
        }
        let d = match read_entry(&entries[i]) {
            Ok(d) => d,
            Err(e) => {
                proof {
                    lemma_list_refused(entries@, i + 1, entry_disguise(entries@[i as int])->Err_0);
                }
                return Err(e);
            },
        };
        if result.is_some() {
            let e = SettingsError::input(
                "hysteria finalmask: multiple salamander entries unsupported",
            );
            proof {
                lemma_list_refused(entries@, i + 1, e@);
            }
            return Err(e);
        }
        result = Some(d);
        i += 1;
    }
    assert(entries@.take(i as int) =~= entries@);
    Ok(result)
}

/// Pieces are never empty, never longer than 2048 bytes, and the smallest size
/// is not above the largest.
pub proof fn law_piece_sizes_are_bounded(settings: Json)
    ensures
        disguise(settings) matches Ok(ObfsView::Gecko { min_packet_size, max_packet_size, .. })
            ==> 1 <= min_packet_size <= max_packet_size <= 2048,
{
}

/// A byte with the bits of another turned over.
pub open spec fn masked(data: Seq<u8>, key: Seq<u8>) -> Seq<u8> {
    if key.len() == 0 {
        data
    } else {
        Seq::new(data.len(), |i: int| data[i] ^ key[i % (key.len() as int)])
    }
}

/// Turns the bits of `data` over where the key, over and over, has ones. An
/// empty key changes nothing.
pub fn salamander_obfuscate(data: &mut [u8], key: &[u8])
    ensures
        final(data)@ == masked(old(data)@, key@),
{
    if key.len() == 0 {
        return;
    }
    let ghost goal = masked(data@, key@);
    let mut i: usize = 0;
    while i < data.len()
        invariant
            key@.len() > 0,
            i <= data@.len(),
            data@.len() == old(data)@.len(),
            goal == masked(old(data)@, key@),
            forall|k: int| 0 <= k < i ==> data@[k] == goal[k],
            forall|k: int| i <= k < data@.len() ==> data@[k] == old(data)@[k],
        decreases data@.len() - i,
    {
        let turned: u8 = data[i] ^ key[i % key.len()];
        data[i] = turned;
        i += 1;
    }
    assert(data@ =~= goal);
}

/// Disguising twice under the same key gives back what was disguised.
pub proof fn law_disguising_twice_restores(data: Seq<u8>, key: Seq<u8>)
    ensures
        masked(masked(data, key), key) == data,
{
    if key.len() > 0 {
        let twice = masked(masked(data, key), key);
        assert forall|i: int| 0 <= i < data.len() implies #[trigger] twice[i] == data[i] by {
            let x = data[i];
            let y = key[i % (key.len() as int)];
            assert((x ^ y) ^ y == x) by (bit_vector);
        }
        assert(twice =~= data);
    }
}

/// Each byte is turned over by the byte of the key at its place, the key starting
/// anew where it ends; an empty key turns nothing over.
pub proof fn law_key_is_repeated(data: Seq<u8>, key: Seq<u8>, i: int)
    requires
        0 <= i < data.len(),
    ensures
        masked(data, key).len() == data.len(),
        key.len() == 0 ==> masked(data, key) == data,
        key.len() > 0 ==> masked(data, key)[i] == data[i] ^ key[i % (key.len() as int)],
        i + key.len() < data.len() && key.len() > 0 && data[i] == data[i + key.len()] ==> masked(
            data,
            key,
        )[i] == masked(data, key)[i + key.len()],
        0 < key.len() && i < key.len() && data[i] == 0 ==> masked(data, key)[i] == key[i],
{
    if key.len() > 0 {
        let n = key.len() as int;
        assert((i + n) % n == i % n) by {
            vstd::arithmetic::div_mod::lemma_mod_add_multiples_vanish(i, n);
        }
        if i < n {
            assert(i % n == i) by {
                vstd::arithmetic::div_mod::lemma_small_mod(i as nat, n as nat);
            }
            let y = key[i];
            assert(0u8 ^ y == y) by (bit_vector);
        }
    }
}

/// Two numbers, with a minus sign between them, are the range that their text
/// gives; one number is a range of its own.
pub proof fn law_range_text_is_read(a: i64, b: i64)
    ensures
        range_text(signed_decimal(a as int) + seq!['-'] + signed_decimal(b as int)) == Ok::<
            (i64, i64),
            Refusal,
        >((a, b)),
        range_text(signed_decimal(a as int)) == Ok::<(i64, i64), Refusal>((a, a)),
        range_text(Seq::empty()) == Ok::<(i64, i64), Refusal>((0, 0)),
{
    let l = signed_decimal(a as int);
    let r = signed_decimal(b as int);
    let s = l + seq!['-'] + r;
    law_signed_decimal_round_trip(a as int);
    law_signed_decimal_round_trip(b as int);
    lemma_signed_digits(a as int);
    lemma_signed_digits(b as int);
    let at = l.len() as int;
    assert(s[at] == '-');
    crate::text::law_only_digits_make_numbers(s, at);
    assert(number_i64(s) is None);
    if a < 0 {
        let rest = s.skip(1);
        assert(s[0] == '-');
        assert(rest[at - 1] == '-');
        assert forall|j: int| 0 <= j < at - 1 implies #[trigger] rest[j] != '-' by {
            assert(rest[j] == l[j + 1]);
        }
        law_position_is_first(rest, '-', at - 1);
        assert(seq!['-'] + rest.take(at - 1) =~= l);
        assert(rest.skip(at) =~= r);
    } else {
        assert(s[0] == l[0]);
        assert forall|j: int| 0 <= j < at implies #[trigger] s[j] != '-' by {
            assert(s[j] == l[j]);
        }
        law_position_is_first(s, '-', at);
        assert(s.take(at) =~= l);
        assert(s.skip(at + 1) =~= r);
    }
    assert(crate::text::signed_value(Seq::<char>::empty()) is None);
}

proof fn lemma_signed_digits(n: int)
    ensures
        signed_decimal(n).len() > 0,
        n < 0 ==> signed_decimal(n)[0] == '-' && signed_decimal(n).len() > 1,
        n >= 0 ==> signed_decimal(n)[0] != '-',
        forall|i: int| 1 <= i < signed_decimal(n).len() ==> #[trigger] signed_decimal(n)[i] != '-',
{
    let digits = decimal(if n < 0 {
        (-n) as nat
    } else {
        n as nat
    });
    lemma_decimal_digits(if n < 0 {
        (-n) as nat
    } else {
        n as nat
    });
    assert(crate::text::is_digit(digits[0]));
    assert forall|i: int| 1 <= i < signed_decimal(n).len() implies #[trigger] signed_decimal(n)[i]
        != '-' by {
        if n < 0 {
            assert(signed_decimal(n)[i] == digits[i - 1]);
            assert(crate::text::is_digit(digits[i - 1]));
        } else {
            assert(signed_decimal(n)[i] == digits[i]);
            assert(crate::text::is_digit(digits[i]));
        }
    }
}

/// What the size of pieces makes of a password of four bytes or more: without a
/// size, or with none above zero, datagrams stay whole; with sizes from one to
/// two thousand and forty-eight they are cut to pieces of these sizes; any other
/// size is refused. The two ends of a range may stand in either order.
pub proof fn law_sizes_cut_datagrams(settings: Json, from: i64, to: i64)
    requires
        encode_utf8(settings.field_text("password"@)).len() >= 4,
    ensures
        ({
            let password = settings.field_text("password"@);
            let given = settings.field("packetSize"@);
            let low = vstd::math::min(from as int, to as int);
            let high = vstd::math::max(from as int, to as int);
            let range = given is Some && (given->0.signed() == Some(from) && from == to || (
            given->0.signed() is None && given->0.text() is Some && range_text(given->0.text()->0)
                == Ok::<(i64, i64), Refusal>((from, to))));
            &&& given is None ==> disguise(settings) == Ok::<ObfsView, Refusal>(
                ObfsView::Salamander(password),
            )
            &&& range && high <= 0 ==> disguise(settings) == Ok::<ObfsView, Refusal>(
                ObfsView::Salamander(password),
            )
            &&& range && 1 <= low && high <= 2048 ==> (disguise(settings) matches Ok(
                ObfsView::Gecko { password: p, min_packet_size, max_packet_size },
            ) && p == password && min_packet_size == low && max_packet_size == high)
            &&& range && (low <= 0 < high || high > 2048) ==> disguise(settings) is Err
        }),
{
}

/// A password of less than four bytes is refused, whatever else is given.
pub proof fn law_short_passwords_are_refused(settings: Json)
    requires
        encode_utf8(settings.field_text("password"@)).len() < 4,
    ensures
        disguise(settings) is Err,
{
}

/// A list gives the disguise of its only entry, none where it is empty, and is
/// refused where it has more or where any entry is.
pub proof fn law_one_disguise_at_most(entries: Seq<Json>)
    ensures
        entries.len() == 0 ==> list_disguise(entries) == Ok::<Option<ObfsView>, Refusal>(None),
        entries.len() == 1 ==> match entry_disguise(entries[0]) {
            Ok(d) => list_disguise(entries) == Ok::<Option<ObfsView>, Refusal>(Some(d)),
            Err(e) => list_disguise(entries) == Err::<Option<ObfsView>, Refusal>(e),
        },
        entries.len() >= 2 ==> list_disguise(entries) is Err,
    decreases entries.len(),
{
    if entries.len() >= 1 {
        let less = entries.drop_last();
        law_one_disguise_at_most(less);
        if entries.len() == 2 {
            assert(less[0] == entries[0]);
        }
    }
}

/// An entry of another sort than the one that there is is refused.
pub proof fn law_other_sorts_are_refused(entry: Json)
    ensures
        entry.field_text("type"@) != "salamander"@ ==> entry_disguise(entry) is Err,
        entry.field_text("type"@) == "salamander"@ ==> {
            &&& entry.field("settings"@) matches Some(s) ==> entry_disguise(entry) == disguise(s)
            &&& entry.field("settings"@) is None ==> entry_disguise(entry) == disguise(Json::Null)
        },
{
}

} // verus!
