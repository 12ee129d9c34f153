//! Characters, words and numbers in text.

use vstd::prelude::*;

verus! {

/// The characters of a text.
pub type Text = Seq<char>;

/// A number of things.
pub type Count = nat;

/// `String::push` adds the character at the end of the string.
pub assume_specification[ std::string::String::push ](s: &mut std::string::String, c: char)
    ensures
        final(s)@ == old(s)@.push(c),
;

/// The text in quotation marks, with escapes for what cannot be shown.
pub uninterp spec fn debug_text(s: Seq<char>) -> Seq<char>;

/// The text in quotation marks, as `format!` makes it of a string by `{:?}`.
/// What it escapes and how is not stated, only that it depends on the text
/// alone.
#[verifier::external_body]
pub(crate) fn quoted(s: &str) -> (q: String)
    ensures
        q@ == debug_text(s@),
{
    format!("{s:?}")
}

/// The characters of `s`.
pub fn chars_of(s: &str) -> (out: Vec<char>)
    ensures
        out@ == s@,
{
    let mut out: Vec<char> = Vec::new();
    let n: usize = s.unicode_len();
    let mut i: usize = 0;
    while i < n
        invariant
            i <= n,
            n == s@.len(),
            out@ == s@.take(i as int),
        decreases n - i,
    {
        out.push(s.get_char(i));
        i += 1;
        assert(out@ =~= s@.take(i as int));
    }
    assert(s@.take(n as int) =~= s@);
    out
}

/// The string with those characters.
pub fn string_of(chars: &[char]) -> (s: String)
    ensures
        s@ == chars@,
{
    let mut s = String::new();
    let mut i: usize = 0;
    while i < chars.len()
        invariant
            i <= chars@.len(),
            s@ == chars@.take(i as int),
        decreases chars@.len() - i,
    {
        s.push(chars[i]);
        i += 1;
        assert(s@ =~= chars@.take(i as int));
    }
    assert(chars@.take(chars@.len() as int) =~= chars@);
    s
}

/// Whether the two texts are the same.
pub fn same_text(a: &str, b: &str) -> (r: bool)
    ensures
        r == (a@ == b@),
{
    let x = chars_of(a);
    let y = chars_of(b);
    if x.len() != y.len() {
        return false;
    }
    let mut i: usize = 0;
    while i < x.len()
        invariant
            i <= x@.len(),
            x@.len() == y@.len(),
            x@ == a@,
            y@ == b@,
            forall|k: int| 0 <= k < i ==> x@[k] == y@[k],
        decreases x@.len() - i,
    {
        if x[i] != y[i] {
            return false;
        }
        i += 1;
    }
    assert(a@ =~= b@);
    true
}

/// The text `a` followed by the text `b`.
pub fn join(a: &str, b: &str) -> (s: String)
    ensures
        s@ == a@ + b@,
{
    let mut s = a.to_owned();
    s.append(b);
    s
}

/// The lower case letter of an upper case ASCII letter, any other character
/// itself.
pub open spec fn lower_char(c: char) -> char {
    match c {
        'A' => 'a',
        'B' => 'b',
        'C' => 'c',
        'D' => 'd',
        'E' => 'e',
        'F' => 'f',
        'G' => 'g',
        'H' => 'h',
        'I' => 'i',
        'J' => 'j',
        'K' => 'k',
        'L' => 'l',
        'M' => 'm',
        'N' => 'n',
        'O' => 'o',
        'P' => 'p',
        'Q' => 'q',
        'R' => 'r',
        'S' => 's',
        'T' => 't',
        'U' => 'u',
        'V' => 'v',
        'W' => 'w',
        'X' => 'x',
        'Y' => 'y',
        'Z' => 'z',
        _ => c,
    }
}

fn to_lower_char(c: char) -> (l: char)
    ensures
        l == lower_char(c),
{
    match c {
        'A' => 'a',
        'B' => 'b',
        'C' => 'c',
        'D' => 'd',
        'E' => 'e',
        'F' => 'f',
        'G' => 'g',
        'H' => 'h',
        'I' => 'i',
        'J' => 'j',
        'K' => 'k',
        'L' => 'l',
        'M' => 'm',
        'N' => 'n',
        'O' => 'o',
        'P' => 'p',
        'Q' => 'q',
        'R' => 'r',
        'S' => 's',
        'T' => 't',
        'U' => 'u',
        'V' => 'v',
        'W' => 'w',
        'X' => 'x',
        'Y' => 'y',
        'Z' => 'z',
        _ => c,
    }
}

/// The text with its ASCII letters in lower case.
pub open spec fn lower(s: Seq<char>) -> Seq<char> {
    Seq::new(s.len(), |i: int| lower_char(s[i]))
}

/// The text with its ASCII letters in lower case.
pub fn to_lower(s: &str) -> (l: String)
    ensures
        l@ == lower(s@),
{
    let chars = chars_of(s);
    let mut l = String::new();
    let mut i: usize = 0;
    while i < chars.len()
        invariant
            i <= chars@.len(),
            chars@ == s@,
            l@ == lower(s@).take(i as int),
        decreases chars@.len() - i,
    {
        l.push(to_lower_char(chars[i]));
        i += 1;
        assert(l@ =~= lower(s@).take(i as int));
    }
    assert(lower(s@).take(chars@.len() as int) =~= lower(s@));
    l
}

/// Whether the character is white space.
pub open spec fn is_space(c: char) -> bool {
    let v = c as u32;
    ||| 9 <= v <= 13
    ||| v == 32
    ||| v == 0x85
    ||| v == 0xA0
    ||| v == 0x1680
    ||| 0x2000 <= v <= 0x200A
    ||| v == 0x2028
    ||| v == 0x2029
    ||| v == 0x202F
    ||| v == 0x205F
    ||| v == 0x3000
}

fn check_space(c: char) -> (b: bool)
    ensures
        b == is_space(c),
{
    let v: u32 = c as u32;
    (9 <= v && v <= 13) || v == 32 || v == 0x85 || v == 0xA0 || v == 0x1680 || (0x2000 <= v && v
        <= 0x200A) || v == 0x2028 || v == 0x2029 || v == 0x202F || v == 0x205F || v == 0x3000
}

/// The text without white space in front.
pub open spec fn trim_front(s: Seq<char>) -> Seq<char>
    decreases s.len(),
{
    if s.len() > 0 && is_space(s[0]) {
        trim_front(s.skip(1))
    } else {
        s
    }
}

/// The text without white space behind.
pub open spec fn trim_back(s: Seq<char>) -> Seq<char>
    decreases s.len(),
{
    if s.len() > 0 && is_space(s.last()) {
        trim_back(s.drop_last())
    } else {
        s
    }
}

/// The text without white space around it.
pub open spec fn trimmed(s: Seq<char>) -> Seq<char> {
    trim_back(trim_front(s))
}

/// The text without white space around it.
pub fn trim(chars: &[char]) -> (out: Vec<char>)
    ensures
        out@ == trimmed(chars@),
{
    let mut from: usize = 0;
    assert(chars@.skip(0) =~= chars@);
    while from < chars.len() && check_space(chars[from])
        invariant
            from <= chars@.len(),
            trim_front(chars@.skip(from as int)) == trim_front(chars@),
        decreases chars@.len() - from,
    {
        assert(chars@.skip(from as int).skip(1) =~= chars@.skip(from + 1));
        from += 1;
    }
    let ghost rest = chars@.skip(from as int);
    let mut to: usize = chars.len();
    assert(chars@.subrange(from as int, to as int) =~= rest);
    while to > from && check_space(chars[to - 1])
        invariant
            from <= to <= chars@.len(),
            trim_back(chars@.subrange(from as int, to as int)) == trim_back(rest),
        decreases to,
    {
        assert(chars@.subrange(from as int, to as int).drop_last() =~= chars@.subrange(
            from as int,
            to - 1,
        ));
        to -= 1;
    }
    slice_chars(chars, from, to)
}

/// The characters from `from` up to, not including, `to`.
pub fn slice_chars(chars: &[char], from: usize, to: usize) -> (out: Vec<char>)
    requires
        from <= to <= chars@.len(),
    ensures
        out@ == chars@.subrange(from as int, to as int),
{
    let mut out: Vec<char> = Vec::new();
    let mut i: usize = from;
    while i < to
        invariant
            from <= i <= to <= chars@.len(),
            out@ == chars@.subrange(from as int, i as int),
        decreases to - i,
    {
        out.push(chars[i]);
        i += 1;
        assert(out@ =~= chars@.subrange(from as int, i as int));
    }
    out
}

/// Where `c` stands first in `s`, the length of `s` where it does not stand
/// there.
pub open spec fn position(s: Seq<char>, c: char) -> nat
    decreases s.len(),
{
    if s.len() == 0 || s[0] == c {
        0
    } else {
        1 + position(s.skip(1), c)
    }
}

/// Where `c` stands first.
pub fn find_char(chars: &[char], c: char) -> (at: usize)
    ensures
        at == position(chars@, c),
        at <= chars@.len(),
        at < chars@.len() ==> chars@[at as int] == c,
        at == chars@.len() ==> !chars@.contains(c),
{
    let mut i: usize = 0;
    assert(chars@.skip(0) =~= chars@);
    while i < chars.len() && chars[i] != c
        invariant
            i <= chars@.len(),
            i + position(chars@.skip(i as int), c) == position(chars@, c),
            forall|k: int| 0 <= k < i ==> chars@[k] != c,
        decreases chars@.len() - i,
    {
        assert(chars@.skip(i as int).skip(1) =~= chars@.skip(i + 1));
        i += 1;
    }
    i
}

/// The parts of a text that stand between separators.
pub open spec fn split(s: Seq<char>, c: char) -> Seq<Seq<char>>
    decreases s.len(),
{
    let at = position(s, c) as int;
    if 0 <= at < s.len() {
        seq![s.take(at)] + split(s.skip(at + 1), c)
    } else {
        seq![s]
    }
}

/// The contents of texts.
pub open spec fn char_views(parts: Seq<Vec<char>>) -> Seq<Seq<char>> {
    Seq::new(parts.len(), |i: int| parts[i]@)
}

/// The parts of a text that stand between separators.
pub fn split_chars(chars: &[char], c: char) -> (out: Vec<Vec<char>>)
    ensures
        char_views(out@) == split(chars@, c),
{
    let mut out: Vec<Vec<char>> = Vec::new();
    let mut rest: Vec<char> = slice_chars(chars, 0, chars.len());
    assert(rest@ =~= chars@);
    assert(char_views(out@) + split(rest@, c) =~= split(chars@, c));
    loop
        invariant_except_break
            char_views(out@) + split(rest@, c) == split(chars@, c),
        ensures
            char_views(out@) == split(chars@, c),
        decreases rest@.len(),
    {
        let ghost done = char_views(out@);
        let at: usize = find_char(rest.as_slice(), c);
        if at == rest.len() {
            let ghost last = rest@;
            out.push(rest);
            assert(char_views(out@) =~= done + seq![last]);
            break;
        }
        let part: Vec<char> = slice_chars(rest.as_slice(), 0, at);
        let next: Vec<char> = slice_chars(rest.as_slice(), at + 1, rest.len());
        proof {
            assert(part@ =~= rest@.take(at as int));
            assert(next@ =~= rest@.skip(at + 1));
            assert(done.push(part@) + split(next@, c) =~= done + (seq![part@] + split(next@, c)));
        }
        let ghost first = part@;
        out.push(part);
        assert(char_views(out@) =~= done.push(first));
        rest = next;
    }
    out
}

/// Whether the character is a decimal digit.
pub open spec fn is_digit(c: char) -> bool {
    '0' <= c && c <= '9'
}

/// The value of a decimal digit.
pub open spec fn digit_value(c: char) -> int {
    c as u32 - '0' as u32
}

/// Whether every character is a decimal digit.
pub open spec fn all_digits(s: Seq<char>) -> bool {
    forall|i: int| 0 <= i < s.len() ==> is_digit(#[trigger] s[i])
}

/// The number that decimal digits make.
pub open spec fn digits_value(s: Seq<char>) -> nat
    decreases s.len(),
{
    if s.len() == 0 {
        0
    } else {
        (digits_value(s.drop_last()) * 10 + digit_value(s.last())) as nat
    }
}

/// The number that a text of digits stands for, a plus sign in front allowed.
pub open spec fn unsigned_value(s: Seq<char>) -> Option<nat> {
    let digits = if s.len() > 0 && s[0] == '+' {
        s.skip(1)
    } else {
        s
    };
    if digits.len() > 0 && all_digits(digits) {
        Some(digits_value(digits))
    } else {
        None
    }
}

/// The number that a text of digits stands for, a sign in front allowed.
pub open spec fn signed_value(s: Seq<char>) -> Option<int> {
    if s.len() > 0 && s[0] == '-' {
        let digits = s.skip(1);
        if digits.len() > 0 && all_digits(digits) {
            Some(-(digits_value(digits) as int))
        } else {
            None
        }
    } else {
        match unsigned_value(s) {
            Some(n) => Some(n as int),
            None => None,
        }
    }
}

proof fn lemma_digits_value_grows(s: Seq<char>, i: int)
    requires
        0 <= i <= s.len(),
        all_digits(s),
    ensures
        digits_value(s.take(i)) <= digits_value(s),
    decreases s.len() - i,
{
    if i == s.len() {
        assert(s.take(i) =~= s);
    } else {
        lemma_digits_value_grows(s, i + 1);
        assert(s.take(i + 1).drop_last() =~= s.take(i));
        assert(s.take(i + 1).last() == s[i]);
        assert(is_digit(s[i]));
    }
}

/// The number that the digits from `from` on make, where it is at most `most`.
fn parse_digits(chars: &[char], from: usize, most: u64) -> (n: Option<u64>)
    requires
        from <= chars@.len(),
    ensures
        ({
            let digits = chars@.skip(from as int);
            let ok = digits.len() > 0 && all_digits(digits) && digits_value(digits) <= most;
            &&& n is Some <==> ok
            &&& n matches Some(v) ==> v == digits_value(digits)
        }),
{
    let ghost digits = chars@.skip(from as int);
    if from == chars.len() {
        return None;
    }
    let mut value: u64 = 0;
    let mut i: usize = from;
    assert(digits.take(0) =~= Seq::<char>::empty());
    while i < chars.len()
        invariant
            from <= i <= chars@.len(),
            digits == chars@.skip(from as int),
            all_digits(digits.take(i - from)),
            value == digits_value(digits.take(i - from)),
            value <= most,
        decreases chars@.len() - i,
    {
        let c: char = chars[i];
        assert(digits[i - from] == c);
        if c < '0' || c > '9' {
            assert(!is_digit(digits[i - from]));
            return None;
        }
        let d: u64 = (c as u32 - '0' as u32) as u64;
        proof {
            assert(digits.take(i + 1 - from).drop_last() =~= digits.take(i - from));
            assert(digits.take(i + 1 - from).last() == c);
            assert forall|k: int| 0 <= k < i + 1 - from implies is_digit(
                #[trigger] digits.take(i + 1 - from)[k],
            ) by {
                if k < i - from {
                    assert(digits.take(i - from)[k] == digits[k]);
                }
            }
        }
        let next: u128 = value as u128 * 10 + d as u128;
        if next > most as u128 {
            proof {
                if all_digits(digits) {
                    lemma_digits_value_grows(digits, i + 1 - from);
                }
            }
            return None;
        }
        value = next as u64;
        i += 1;
    }
    assert(digits.take(i - from) =~= digits);
    Some(value)
}

/// Reads an unsigned number of at most `most`.
pub fn parse_unsigned(chars: &[char], most: u64) -> (n: Option<u64>)
    ensures
        n is Some <==> (unsigned_value(chars@) matches Some(v) && v <= most),
        n matches Some(v) ==> unsigned_value(chars@) == Some(v as nat),
{
    assert(chars@.skip(0) =~= chars@);
    if chars.len() > 0 && chars[0] == '+' {
        parse_digits(chars, 1, most)
    } else {
        parse_digits(chars, 0, most)
    }
}

/// Reads a signed number of 64 bits.
pub fn parse_signed(chars: &[char]) -> (n: Option<i64>)
    ensures
        n is Some <==> (signed_value(chars@) matches Some(v) && i64::MIN <= v <= i64::MAX),
        n matches Some(v) ==> signed_value(chars@) == Some(v as int),
{
    if chars.len() > 0 && chars[0] == '-' {
        match parse_digits(chars, 1, 0x8000_0000_0000_0000) {
            Some(v) => {
                if v == 0x8000_0000_0000_0000 {
                    Some(i64::MIN)
                } else {
                    Some(-(v as i64))
                }
            },
            None => None,
        }
    } else {
        match parse_unsigned(chars, 0x7FFF_FFFF_FFFF_FFFF) {
            Some(v) => Some(v as i64),
            None => None,
        }
    }
}

/// The character of a decimal digit.
pub open spec fn digit_char(d: nat) -> char {
    ('0' as u32 + d) as char
}

/// A number in decimal digits.
pub open spec fn decimal(n: nat) -> Seq<char>
    decreases n,
{
    if n < 10 {
        seq![digit_char(n)]
    } else {
        decimal(n / 10).push(digit_char(n % 10))
    }
}

/// A number in decimal digits, with a minus sign where it is negative.
pub open spec fn signed_decimal(n: int) -> Seq<char> {
    if n < 0 {
        seq!['-'] + decimal((-n) as nat)
    } else {
        decimal(n as nat)
    }
}

fn to_digit(d: u64) -> (c: char)
    requires
        d < 10,
    ensures
        c == digit_char(d as nat),
{
    if d == 0 {
        '0'
    } else if d == 1 {
        '1'
    } else if d == 2 {
        '2'
    } else if d == 3 {
        '3'
    } else if d == 4 {
        '4'
    } else if d == 5 {
        '5'
    } else if d == 6 {
        '6'
    } else if d == 7 {
        '7'
    } else if d == 8 {
        '8'
    } else {
        '9'
    }
}

/// Adds a number in decimal digits.
pub fn push_decimal(s: &mut String, n: u64)
    ensures
        final(s)@ == old(s)@ + decimal(n as nat),
    decreases n,
{
    if n < 10 {
        s.push(to_digit(n));
    } else {
        push_decimal(s, n / 10);
        s.push(to_digit(n % 10));
    }
    assert(s@ =~= old(s)@ + decimal(n as nat));
}

/// Adds a number in decimal digits, with a minus sign where it is negative.
pub fn push_signed_decimal(s: &mut String, n: i64)
    ensures
        final(s)@ == old(s)@ + signed_decimal(n as int),
{
    if n < 0 {
        s.push('-');
        if n == i64::MIN {
            push_decimal(s, 0x8000_0000_0000_0000);
        } else {
            push_decimal(s, (-n) as u64);
        }
    } else {
        push_decimal(s, n as u64);
    }
    assert(s@ =~= old(s)@ + signed_decimal(n as int));
}

proof fn lemma_position(s: Seq<char>, c: char)
    ensures
        position(s, c) <= s.len(),
        forall|i: int| 0 <= i < position(s, c) ==> #[trigger] s[i] != c,
        position(s, c) < s.len() ==> s[position(s, c) as int] == c,
    decreases s.len(),
{
    if s.len() > 0 && s[0] != c {
        lemma_position(s.skip(1), c);
        assert forall|i: int| 0 <= i < position(s, c) implies #[trigger] s[i] != c by {
            if i > 0 {
                assert(s.skip(1)[i - 1] == s[i]);
            }
        }
    }
}

/// No part between separators holds a separator, and there is at least one
/// part.
pub proof fn law_parts_hold_no_separator(s: Seq<char>, c: char)
    ensures
        split(s, c).len() > 0,
        forall|i: int| 0 <= i < split(s, c).len() ==> !(#[trigger] split(s, c)[i]).contains(c),
    decreases s.len(),
{
    lemma_position(s, c);
    let at = position(s, c) as int;
    if at < s.len() {
        let rest = s.skip(at + 1);
        law_parts_hold_no_separator(rest, c);
        assert forall|i: int| 0 <= i < split(s, c).len() implies !(#[trigger] split(
            s,
            c,
        )[i]).contains(c) by {
            if i > 0 {
                assert(split(s, c)[i] == split(rest, c)[i - 1]);
            }
        }
    }
}

/// Reading a number that was written in decimal digits gives it back.
pub proof fn law_decimal_round_trip(n: nat)
    ensures
        unsigned_value(decimal(n)) == Some(n),
{
    lemma_decimal_digits(n);
    assert(is_digit(decimal(n)[0]));
}

/// A number in decimal digits is made of digits, which give it back.
pub proof fn lemma_decimal_digits(n: nat)
    ensures
        decimal(n).len() > 0,
        all_digits(decimal(n)),
        digits_value(decimal(n)) == n,
    decreases n,
{
    let s = decimal(n);
    if n < 10 {
        assert(s.drop_last() =~= Seq::<char>::empty());
        assert(digits_value(s.drop_last()) == 0);
        assert(s.last() == digit_char(n));
    } else {
        lemma_decimal_digits(n / 10);
        assert(s.drop_last() =~= decimal(n / 10));
        assert(s.last() == digit_char(n % 10));
        assert forall|i: int| 0 <= i < s.len() implies is_digit(#[trigger] s[i]) by {
            if i < s.len() - 1 {
                assert(s[i] == decimal(n / 10)[i]);
            }
        }
    }
}

/// Parts one after the other, with a separator between each two.
pub open spec fn between(parts: Seq<Seq<char>>, c: char) -> Seq<char>
    decreases parts.len(),
{
    if parts.len() == 0 {
        Seq::empty()
    } else if parts.len() == 1 {
        parts[0]
    } else {
        parts[0] + seq![c] + between(parts.skip(1), c)
    }
}

/// The parts of a text, with the separators between them, are the text: nothing
/// of it is lost and nothing changes its place.
pub proof fn law_parts_make_the_text(s: Seq<char>, c: char)
    ensures
        between(split(s, c), c) == s,
    decreases s.len(),
{
    lemma_position(s, c);
    let at = position(s, c) as int;
    if at < s.len() {
        let rest = s.skip(at + 1);
        law_parts_make_the_text(rest, c);
        law_parts_hold_no_separator(rest, c);
        let parts = split(s, c);
        assert(parts.skip(1) =~= split(rest, c));
        assert(s.take(at) + seq![c] + rest =~= s);
    }
}

/// A separator parts a text in front of it from a text behind it.
pub proof fn law_separator_parts(a: Seq<char>, b: Seq<char>, c: char)
    ensures
        split(a + seq![c] + b, c) == split(a, c) + split(b, c),
    decreases a.len(),
{
    let s = a + seq![c] + b;
    lemma_position(a, c);
    lemma_position(s, c);
    let at = position(a, c) as int;
    if at < a.len() {
        assert(s[at] == c);
        assert forall|i: int| 0 <= i < at implies s[i] != c by {
            assert(a[i] != c);
        }
        assert(position(s, c) == at);
        let rest = a.skip(at + 1);
        law_separator_parts(rest, b, c);
        assert(s.skip(at + 1) =~= rest + seq![c] + b);
        assert(s.take(at) =~= a.take(at));
        assert(split(s, c) =~= split(a, c) + split(b, c));
    } else {
        assert(s[a.len() as int] == c);
        assert forall|i: int| 0 <= i < a.len() implies s[i] != c by {
            assert(a[i] != c);
        }
        assert(position(s, c) == a.len());
        assert(s.take(a.len() as int) =~= a);
        assert(s.skip((a.len() + 1) as int) =~= b);
        assert(split(s, c) =~= split(a, c) + split(b, c));
    }
}

/// Where a character stands first: nowhere before.
pub proof fn law_position_is_first(s: Seq<char>, c: char, i: int)
    requires
        0 <= i < s.len(),
        s[i] == c,
        forall|j: int| 0 <= j < i ==> #[trigger] s[j] != c,
    ensures
        position(s, c) == i,
{
    lemma_position(s, c);
    if position(s, c) > i {
        assert(s[i] != c);
    } else if position(s, c) < i {
        assert(s[position(s, c) as int] == c);
    }
}

/// Lower case changes the twenty-six capital letters, each to the letter thirty-two
/// places further on, and nothing else; twice is the same as once.
pub proof fn law_lower_case(s: Seq<char>, i: int)
    requires
        0 <= i < s.len(),
    ensures
        lower(s).len() == s.len(),
        65 <= s[i] as u32 <= 90 ==> lower(s)[i] as u32 == s[i] as u32 + 32,
        !(65 <= s[i] as u32 <= 90) ==> lower(s)[i] == s[i],
        lower(lower(s)) == lower(s),
{
    lemma_lower_char(s[i]);
    assert forall|k: int| 0 <= k < s.len() implies lower_char(lower_char(#[trigger] s[k]))
        == lower_char(s[k]) by {
        lemma_lower_char(s[k]);
        lemma_lower_char(lower_char(s[k]));
    }
    assert(lower(lower(s)) =~= lower(s));
}

proof fn lemma_lower_char(c: char)
    ensures
        65 <= c as u32 <= 90 ==> lower_char(c) as u32 == c as u32 + 32,
        !(65 <= c as u32 <= 90) ==> lower_char(c) == c,
{
}

proof fn lemma_trim_front(s: Seq<char>) -> (k: nat)
    ensures
        k <= s.len(),
        trim_front(s) == s.skip(k as int),
        forall|i: int| 0 <= i < k ==> is_space(#[trigger] s[i]),
        k < s.len() ==> !is_space(s[k as int]),
    decreases s.len(),
{
    if s.len() > 0 && is_space(s[0]) {
        let rest = s.skip(1);
        let j = lemma_trim_front(rest);
        assert(rest.skip(j as int) =~= s.skip((j + 1) as int));
        assert forall|i: int| 0 <= i < j + 1 implies is_space(#[trigger] s[i]) by {
            if i > 0 {
                assert(rest[i - 1] == s[i]);
            }
        }
        if j < rest.len() {
            assert(rest[j as int] == s[(j + 1) as int]);
        }
        (j + 1) as nat
    } else {
        assert(s.skip(0) =~= s);
        0
    }
}

proof fn lemma_trim_back(s: Seq<char>) -> (k: nat)
    ensures
        k <= s.len(),
        trim_back(s) == s.take(k as int),
        forall|i: int| k <= i < s.len() ==> is_space(#[trigger] s[i]),
        k > 0 ==> !is_space(s[k - 1]),
    decreases s.len(),
{
    if s.len() > 0 && is_space(s.last()) {
        let less = s.drop_last();
        let k = lemma_trim_back(less);
        assert(less.take(k as int) =~= s.take(k as int));
        assert forall|i: int| k <= i < s.len() implies is_space(#[trigger] s[i]) by {
            if i < less.len() {
                assert(less[i] == s[i]);
            }
        }
        if k > 0 {
            assert(less[k - 1] == s[k - 1]);
        }
        k
    } else {
        assert(s.take(s.len() as int) =~= s);
        s.len()
    }
}

/// Trimming takes white space away at both ends and nothing else: what is left is
/// a piece of the text that neither starts nor ends with white space, and there
/// is only white space around it. Where it starts and ends is returned.
pub proof fn law_trimming_takes_only_space(s: Seq<char>) -> (r: (int, int))
    ensures
        0 <= r.0 <= r.1 <= s.len(),
        trimmed(s) == s.subrange(r.0, r.1),
        forall|i: int| 0 <= i < r.0 || r.1 <= i < s.len() ==> is_space(#[trigger] s[i]),
        r.0 < r.1 ==> !is_space(s[r.0]) && !is_space(s[r.1 - 1]),
{
    let k = lemma_trim_front(s) as int;
    let front = s.skip(k);
    let j = lemma_trim_back(front) as int;
    assert(front.take(j) =~= s.subrange(k, k + j));
    assert forall|i: int| 0 <= i < k || k + j <= i < s.len() implies is_space(#[trigger] s[i]) by {
        if i >= k + j {
            assert(front[i - k] == s[i]);
        }
    }
    if j > 0 {
        assert(front[j - 1] == s[k + j - 1]);
    }
    (k, k + j)
}

/// White space is no letter, no digit and no mark of ASCII: of the characters
/// below a hundred and twenty-eight only the blank and the five from the tab to
/// the carriage return are.
pub proof fn law_white_space(c: char)
    requires
        (c as u32) < 128,
    ensures
        is_space(c) <==> c == ' ' || 9 <= c as u32 <= 13,
{
}

/// Each digit behind a number makes it ten times as much, and the digit.
pub proof fn law_digits_have_places(s: Seq<char>, d: nat)
    requires
        d < 10,
        s.len() > 0,
        unsigned_value(s) is Some,
    ensures
        unsigned_value(s.push(('0' as u32 + d) as char)) == Some(
            (10 * unsigned_value(s)->0 + d) as nat,
        ),
{
    let c = ('0' as u32 + d) as char;
    let t = s.push(c);
    let digits = if s[0] == '+' {
        s.skip(1)
    } else {
        s
    };
    let more = if t[0] == '+' {
        t.skip(1)
    } else {
        t
    };
    assert(more =~= digits.push(c));
    assert(more.drop_last() =~= digits);
    assert forall|i: int| 0 <= i < more.len() implies is_digit(#[trigger] more[i]) by {
        if i < digits.len() {
            assert(more[i] == digits[i]);
        }
    }
}

/// A text with anything but digits behind its sign is no number.
pub proof fn law_only_digits_make_numbers(s: Seq<char>, i: int)
    requires
        0 <= i < s.len(),
        !('0' <= s[i] && s[i] <= '9'),
    ensures
        i > 0 || s[i] != '+' ==> unsigned_value(s) is None,
        i > 0 || (s[i] != '+' && s[i] != '-') ==> signed_value(s) is None,
{
    if s[0] == '+' {
        if i > 0 {
            assert(s.skip(1)[i - 1] == s[i]);
        }
    }
    if s[0] == '-' {
        if i > 0 {
            assert(s.skip(1)[i - 1] == s[i]);
        }
        assert(!is_digit(s[0]));
    }
}

/// Reading a number that was written with its sign gives it back.
pub proof fn law_signed_decimal_round_trip(n: int)
    ensures
        signed_value(signed_decimal(n)) == Some(n),
{
    if n < 0 {
        let digits = decimal((-n) as nat);
        lemma_decimal_digits((-n) as nat);
        assert((seq!['-'] + digits).skip(1) =~= digits);
    } else {
        law_decimal_round_trip(n as nat);
        lemma_decimal_digits(n as nat);
        assert(is_digit(decimal(n as nat)[0]));
    }
}

/// A text without a separator is one part.
pub proof fn law_one_part_without_separator(s: Seq<char>, c: char)
    requires
        !s.contains(c),
    ensures
        split(s, c) == seq![s],
        position(s, c) == s.len(),
{
    lemma_position(s, c);
    let at = position(s, c) as int;
    if at < s.len() {
        assert(s[at] == c);
    }
}

/// A text that neither starts nor ends with white space is left as it is.
pub proof fn law_nothing_to_trim(s: Seq<char>)
    requires
        s.len() > 0 ==> !is_space(s[0]) && !is_space(s.last()),
    ensures
        trimmed(s) == s,
{
    let (from, to) = law_trimming_takes_only_space(s);
    if s.len() > 0 {
        let last = s.len() - 1;
        assert(from == 0) by {
            if from > 0 {
                assert(is_space(s[0]));
            }
        }
        assert(to == s.len()) by {
            if to < s.len() {
                assert(is_space(s[last]));
            }
        }
    }
    assert(s.subrange(0, s.len() as int) =~= s);
}

} // verus!
