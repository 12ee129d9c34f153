//! Decimal fractions, rounded as numbers of double precision.

use vstd::prelude::*;

use crate::text::{
    all_digits, char_views, digit_value, digits_value, is_digit, law_one_part_without_separator,
    law_separator_parts, split, split_chars,
};

verus! {

/// Two to the `n`-th.
pub open spec fn two_to(n: nat) -> nat
    decreases n,
{
    if n == 0 {
        1
    } else {
        2 * two_to((n - 1) as nat)
    }
}

/// Ten to the `n`-th.
pub open spec fn ten_to(n: nat) -> nat
    decreases n,
{
    if n == 0 {
        1
    } else {
        10 * ten_to((n - 1) as nat)
    }
}

/// How many binary digits a number has.
pub open spec fn bits(n: nat) -> nat
    decreases n,
{
    if n == 0 {
        0
    } else {
        1 + bits(n / 2)
    }
}

/// The whole number nearest to `n / d`, the even one of two that are as near.
pub open spec fn nearest(n: nat, d: nat) -> nat {
    let q = n / d;
    let r = n % d;
    if 2 * r < d || (2 * r == d && q % 2 == 0) {
        q
    } else {
        q + 1
    }
}

/// `n / d`, rounded to the nearest number with 53 binary digits, without its
/// fraction.
pub open spec fn double_floor(n: nat, d: nat) -> nat {
    let b = bits(n / d);
    if b <= 53 {
        let scale = two_to((53 - b) as nat);
        nearest(n * scale, d) / scale
    } else {
        let scale = two_to((b - 53) as nat);
        nearest(n, d * scale) * scale
    }
}

/// The decimal fraction that a text stands for, as a number and how many of its
/// decimal digits follow the point. There is at least one digit and at most one
/// point.
pub open spec fn fraction_of(s: Seq<char>) -> Option<(nat, nat)> {
    let parts = split(s, '.');
    let digits = if parts.len() == 2 {
        parts[0] + parts[1]
    } else {
        parts[0]
    };
    let after = if parts.len() == 2 {
        parts[1].len()
    } else {
        0
    };
    if parts.len() > 2 || digits.len() == 0 || !all_digits(digits) {
        None
    } else {
        Some((digits_value(digits), after))
    }
}

/// The number that decimal digits make, the lowest first.
pub open spec fn value(d: Seq<u8>) -> nat
    decreases d.len(),
{
    if d.len() == 0 {
        0
    } else {
        d[0] as nat + 10 * value(d.skip(1))
    }
}

/// Whether all are decimal digits.
pub open spec fn are_digits(d: Seq<u8>) -> bool {
    forall|i: int| 0 <= i < d.len() ==> #[trigger] d[i] < 10
}

proof fn lemma_ten_positive(n: nat)
    ensures
        ten_to(n) > 0,
    decreases n,
{
    if n > 0 {
        lemma_ten_positive((n - 1) as nat);
    }
}

proof fn lemma_two_positive(n: nat)
    ensures
        two_to(n) > 0,
    decreases n,
{
    if n > 0 {
        lemma_two_positive((n - 1) as nat);
    }
}

proof fn lemma_value_add(a: Seq<u8>, b: Seq<u8>)
    ensures
        value(a + b) == value(a) + ten_to(a.len()) * value(b),
    decreases a.len(),
{
    if a.len() == 0 {
        assert(a + b =~= b);
        assert(ten_to(0) == 1);
        assert(ten_to(a.len()) * value(b) == value(b));
    } else {
        let rest = a.skip(1);
        lemma_value_add(rest, b);
        assert((a + b).skip(1) =~= rest + b);
        assert((a + b)[0] == a[0]);
        let t = ten_to(rest.len());
        let v = value(b);
        assert(10 * (t * v) == (10 * t) * v) by (nonlinear_arith);
        assert(ten_to(a.len()) == 10 * t);
    }
}

proof fn lemma_value_bound(a: Seq<u8>)
    requires
        are_digits(a),
    ensures
        value(a) < ten_to(a.len()),
    decreases a.len(),
{
    if a.len() > 0 {
        let rest = a.skip(1);
        assert forall|i: int| 0 <= i < rest.len() implies #[trigger] rest[i] < 10 by {
            assert(rest[i] == a[i + 1]);
        }
        lemma_value_bound(rest);
        assert(a[0] < 10);
    }
}

/// The digits from `at` on and those before it are the quotient and the rest of
/// a division by a power of ten.
proof fn lemma_split_value(d: Seq<u8>, at: int)
    requires
        are_digits(d),
        0 <= at <= d.len(),
    ensures
        value(d) / ten_to(at as nat) == value(d.skip(at)),
        value(d) % ten_to(at as nat) == value(d.take(at)),
        ten_to(at as nat) > 0,
{
    let low = d.take(at);
    let high = d.skip(at);
    assert(low + high =~= d);
    lemma_value_add(low, high);
    assert forall|i: int| 0 <= i < low.len() implies #[trigger] low[i] < 10 by {
        assert(low[i] == d[i]);
    }
    lemma_value_bound(low);
    lemma_ten_positive(at as nat);
    let t = ten_to(at as nat) as int;
    let q = value(high) as int;
    let r = value(low) as int;
    assert(value(d) == r + t * q);
    assert((r + t * q) / t == q && (r + t * q) % t == r) by {
        vstd::arithmetic::div_mod::lemma_fundamental_div_mod_converse(r + t * q, t, q, r);
    }
}

/// Doubles a number that is given by its digits.
fn double(digits: &mut Vec<u8>)
    requires
        are_digits(old(digits)@),
    ensures
        are_digits(final(digits)@),
        value(final(digits)@) == 2 * value(old(digits)@),
        old(digits)@.len() <= final(digits)@.len() <= old(digits)@.len() + 1,
{
    let ghost before = digits@;
    let n: usize = digits.len();
    let mut carry: u8 = 0;
    let mut i: usize = 0;
    proof {
        assert(before.skip(0) =~= before);
        assert(digits@.take(0) =~= Seq::<u8>::empty());
        assert(ten_to(0) == 1);
    }
    while i < n
        invariant
            i <= n,
            n == before.len(),
            digits@.len() == n,
            are_digits(before),
            are_digits(digits@),
            carry <= 1,
            digits@.skip(i as int) == before.skip(i as int),
            2 * value(before) == value(digits@.take(i as int)) + ten_to(i as nat) * (carry + 2
                * value(before.skip(i as int))),
        decreases n - i,
    {
        let ghost was = digits@;
        let ghost low = digits@.take(i as int);
        let ghost rest = before.skip(i as int);
        let ghost c0 = carry as nat;
        assert(digits@.skip(i as int)[0] == digits@[i as int]);
        assert(digits@[i as int] == rest[0]);
        let doubled: u8 = 2 * digits[i] + carry;
        let digit: u8 = doubled % 10;
        carry = doubled / 10;
        digits.set(i, digit);
        proof {
            assert(digits@.take(i + 1) =~= low + seq![digit]);
            lemma_value_add(low, seq![digit]);
            assert(seq![digit].skip(1) =~= Seq::<u8>::empty());
            assert(value(seq![digit]) == digit) by {
                reveal_with_fuel(value, 2);
            }
            assert(rest.skip(1) =~= before.skip(i + 1));
            assert(digits@.skip(i + 1) =~= before.skip(i + 1)) by {
                assert forall|k: int| 0 <= k < n - i - 1 implies #[trigger] digits@.skip(i + 1)[k]
                    == before.skip(i + 1)[k] by {
                    assert(was.skip(i as int)[k + 1] == before.skip(i as int)[k + 1]);
                }
            }
            let t = ten_to(i as nat);
            let w = value(before.skip(i + 1));
            assert(value(rest) == rest[0] + 10 * w);
            assert(t * (c0 + 2 * (rest[0] + 10 * w)) == t * digit + (10 * t) * (carry + 2 * w))
                by (nonlinear_arith)
                requires
                    c0 + 2 * rest[0] == digit + 10 * carry,
            ;
            assert(ten_to((i + 1) as nat) == 10 * t);
        }
        i += 1;
    }
    proof {
        assert(before.skip(n as int) =~= Seq::<u8>::empty());
        assert(value(before.skip(n as int)) == 0);
        assert(digits@.take(n as int) =~= digits@);
        assert(ten_to(n as nat) * 0 == 0);
    }
    if carry > 0 {
        let ghost low = digits@;
        digits.push(carry);
        proof {
            assert(digits@ =~= low + seq![carry]);
            lemma_value_add(low, seq![carry]);
            assert(seq![carry].skip(1) =~= Seq::<u8>::empty());
            assert(value(seq![carry]) == carry) by {
                reveal_with_fuel(value, 2);
            }
        }
    }
}

/// Doubles a number that is given by its digits, `times` times.
fn double_times(digits: &mut Vec<u8>, times: u32)
    requires
        are_digits(old(digits)@),
    ensures
        are_digits(final(digits)@),
        value(final(digits)@) == value(old(digits)@) * two_to(times as nat),
        old(digits)@.len() <= final(digits)@.len() <= old(digits)@.len() + times,
{
    let mut i: u32 = 0;
    assert(two_to(0) == 1);
    while i < times
        invariant
            i <= times,
            are_digits(digits@),
                old(digits)@.len() <= digits@.len() <= old(digits)@.len() + i,
            value(digits@) == value(old(digits)@) * two_to(i as nat),
        decreases times - i,
    {
        let ghost v = value(old(digits)@);
        let ghost t = two_to(i as nat);
        double(digits);
        i += 1;
        proof {
            assert(two_to(i as nat) == 2 * t);
            assert(2 * (v * t) == v * (2 * t)) by (nonlinear_arith);
        }
    }
}

/// The number that the digits from `from` on make, where it fits.
fn whole_part(digits: &Vec<u8>, from: usize) -> (r: Option<u64>)
    requires
        are_digits(digits@),
        from <= digits@.len(),
    ensures
        match r {
            Some(v) => v == value(digits@.skip(from as int)),
            None => value(digits@.skip(from as int)) > u64::MAX,
        },
{
    let mut v: u64 = 0;
    let mut i: usize = digits.len();
    assert(digits@.skip(i as int) =~= Seq::<u8>::empty());
    while i > from
        invariant
            from <= i <= digits@.len(),
            are_digits(digits@),
            v == value(digits@.skip(i as int)),
        decreases i,
    {
        let ghost here = digits@.skip(i - 1);
        proof {
            assert(here.skip(1) =~= digits@.skip(i as int));
            assert(here[0] == digits@[i - 1]);
            lemma_suffix_grows(digits@, from as int, i - 1);
        }
        let next: u128 = v as u128 * 10 + digits[i - 1] as u128;
        if next > 0xFFFF_FFFF_FFFF_FFFF {
            return None;
        }
        v = next as u64;
        i -= 1;
    }
    Some(v)
}

proof fn lemma_suffix_grows(d: Seq<u8>, from: int, to: int)
    requires
        0 <= from <= to <= d.len(),
    ensures
        value(d.skip(to)) <= value(d.skip(from)),
    decreases to - from,
{
    if from < to {
        lemma_suffix_grows(d, from + 1, to);
        assert(d.skip(from).skip(1) =~= d.skip(from + 1));
    }
}

/// Whether the digits before `to` make a number other than zero.
fn has_rest(digits: &Vec<u8>, to: usize) -> (b: bool)
    requires
        to <= digits@.len(),
    ensures
        b == (value(digits@.take(to as int)) > 0),
{
    let mut i: usize = 0;
    assert(digits@.take(0) =~= Seq::<u8>::empty());
    while i < to
        invariant
            i <= to <= digits@.len(),
            value(digits@.take(i as int)) == 0,
        decreases to - i,
    {
        proof {
            assert(digits@.take(i + 1) =~= digits@.take(i as int) + seq![digits@[i as int]]);
            lemma_value_add(digits@.take(i as int), seq![digits@[i as int]]);
            assert(seq![digits@[i as int]].skip(1) =~= Seq::<u8>::empty());
            assert(value(seq![digits@[i as int]]) == digits@[i as int]) by {
                reveal_with_fuel(value, 2);
            }
            lemma_ten_positive(i as nat);
        }
        if digits[i] != 0 {
            proof {
                let t = ten_to(i as nat);
                let x = digits@[i as int] as nat;
                assert(t * x > 0) by (nonlinear_arith)
                    requires
                        t > 0,
                        x > 0,
                ;
                assert(digits@.take(to as int) =~= digits@.take(i + 1) + digits@.subrange(
                    i + 1,
                    to as int,
                ));
                lemma_value_add(digits@.take(i + 1), digits@.subrange(i + 1, to as int));
                let u = ten_to((i + 1) as nat);
                let w = value(digits@.subrange(i + 1, to as int));
                assert(u * w >= 0) by (nonlinear_arith)
                    requires
                        u >= 0,
                        w >= 0,
                ;
            }
            return true;
        }
        assert(ten_to(i as nat) * 0 == 0);
        i += 1;
    }
    false
}

/// How many binary digits a number has.
fn count_bits(n: u64) -> (b: u32)
    ensures
        b == bits(n as nat),
        b <= 64,
        n < two_to(b as nat),
        b > 0 ==> n >= two_to((b - 1) as nat),
    decreases n,
{
    if n == 0 {
        0
    } else {
        let b: u32 = count_bits(n / 2);
        proof {
            assert(two_to((b + 1) as nat) == 2 * two_to(b as nat));
            if b > 0 {
                assert(two_to(b as nat) == 2 * two_to((b - 1) as nat));
                lemma_bits_limit((n / 2) as nat, b as nat);
            } else {
                assert(n / 2 == 0);
                assert(two_to(0) == 1);
            }
        }
        1 + b
    }
}

proof fn lemma_two_values()
    ensures
        two_to(53) == 0x20_0000_0000_0000,
        two_to(54) == 0x40_0000_0000_0000,
        two_to(63) == 0x8000_0000_0000_0000,
        two_to(64) == 0x1_0000_0000_0000_0000,
{
    reveal_with_fuel(two_to, 66);
}

proof fn lemma_two_add(a: nat, b: nat)
    ensures
        two_to(a + b) == two_to(a) * two_to(b),
    decreases a,
{
    if a == 0 {
        assert(1 * two_to(b) == two_to(b));
    } else {
        lemma_two_add((a - 1) as nat, b);
        let x = two_to((a - 1) as nat);
        let y = two_to(b);
        assert(two_to(a + b) == 2 * two_to((a + b - 1) as nat));
        assert(2 * (x * y) == (2 * x) * y) by (nonlinear_arith);
    }
}

proof fn lemma_bits_limit(n: nat, b: nat)
    requires
        n <= 0x7FFF_FFFF_FFFF_FFFF,
        b > 0,
        n >= two_to((b - 1) as nat),
    ensures
        b <= 63,
{
    lemma_two_values();
    if b >= 64 {
        lemma_two_grows(63, (b - 1) as nat);
    }
}

proof fn lemma_two_grows(a: nat, b: nat)
    requires
        a <= b,
    ensures
        two_to(a) <= two_to(b),
    decreases b - a,
{
    if a < b {
        lemma_two_grows(a, (b - 1) as nat);
    }
}

/// Rounding by the number of halves and whether anything is left.
proof fn lemma_nearest(n: nat, d: nat)
    requires
        d > 0,
    ensures
        ({
            let halves = (2 * n) / d;
            let left = (2 * n) % d;
            let q = halves / 2;
            nearest(n, d) == if halves % 2 == 1 && (left > 0 || q % 2 == 1) {
                q + 1
            } else {
                q
            }
        }),
{
    let q = n as int / d as int;
    let r = n as int % d as int;
    let di = d as int;
    assert(n == q * di + r) by (nonlinear_arith)
        requires
            q == n as int / di,
            r == n as int % di,
            di > 0,
    ;
    assert(0 <= r < di) by (nonlinear_arith)
        requires
            r == n as int % di,
            di > 0,
    ;
    if 2 * r < di {
        assert(2 * n == (2 * q) * di + 2 * r) by (nonlinear_arith)
            requires
                n == q * di + r,
        ;
        vstd::arithmetic::div_mod::lemma_fundamental_div_mod_converse(
            2 * n as int,
            di,
            2 * q,
            2 * r,
        );
    } else {
        assert(2 * n == (2 * q + 1) * di + (2 * r - di)) by (nonlinear_arith)
            requires
                n == q * di + r,
        ;
        vstd::arithmetic::div_mod::lemma_fundamental_div_mod_converse(
            2 * n as int,
            di,
            2 * q + 1,
            2 * r - di,
        );
    }
}

fn round_halves(halves: u64, left: bool) -> (n: u64)
    ensures
        n == if halves % 2 == 1 && (left || (halves / 2) % 2 == 1) {
            halves / 2 + 1
        } else {
            halves as int / 2
        },
{
    let q: u64 = halves / 2;
    if halves % 2 == 1 && (left || q % 2 == 1) {
        q + 1
    } else {
        q
    }
}

fn power_of_two(n: u32) -> (p: u64)
    requires
        n <= 63,
    ensures
        p == two_to(n as nat),
        p > 0,
{
    let mut p: u64 = 1;
    let mut i: u32 = 0;
    assert(two_to(0) == 1);
    while i < n
        invariant
            i <= n <= 63,
            p == two_to(i as nat),
            p > 0,
        decreases n - i,
    {
        proof {
            lemma_two_values();
            lemma_two_grows((i + 1) as nat, 63);
        }
        p = p * 2;
        i += 1;
    }
    p
}

proof fn lemma_bits(n: nat)
    ensures
        n < two_to(bits(n)),
        n > 0 ==> bits(n) > 0 && two_to((bits(n) - 1) as nat) <= n,
    decreases n,
{
    if n > 0 {
        lemma_bits(n / 2);
        assert(two_to(bits(n)) == 2 * two_to(bits(n / 2)));
        if n / 2 > 0 {
            assert(two_to(bits(n / 2)) == 2 * two_to((bits(n / 2) - 1) as nat));
        } else {
            assert(bits(0) == 0);
            assert(two_to(0) == 1);
        }
    }
}

/// What does not fit as it is does not fit when it is rounded.
proof fn lemma_large(n: nat, d: nat)
    requires
        d > 0,
        n / d > u64::MAX,
    ensures
        double_floor(n, d) > u64::MAX,
{
    let q = n / d;
    let b = bits(q);
    lemma_bits(q);
    lemma_two_values();
    if b < 65 {
        lemma_two_grows(b, 64);
    }
    let scale = two_to((b - 53) as nat);
    lemma_two_positive((b - 53) as nat);
    lemma_two_add(52, (b - 53) as nat);
    lemma_two_grows(64, (b - 1) as nat);
    assert(two_to(53) == 2 * two_to(52));
    vstd::arithmetic::div_mod::lemma_div_denominator(n as int, d as int, scale as int);
    let m = q as int / scale as int;
    assert(m >= two_to(52)) by (nonlinear_arith)
        requires
            m == q as int / scale as int,
            scale > 0,
            q >= two_to(52) * scale,
    ;
    assert(nearest(n, d * scale) >= m);
    let r = nearest(n, d * scale);
    assert(r * scale >= two_to(52) * scale) by (nonlinear_arith)
        requires
            r >= two_to(52),
    ;
}

/// Halves of a coarser unit, and whether anything is left.
proof fn lemma_coarse(n: nat, d: nat, half: nat)
    requires
        d > 0,
        half > 0,
    ensures
        (2 * n) / (d * (2 * half)) == (n / d) / half,
        (2 * n) % (d * (2 * half)) > 0 <==> n % d > 0 || (n / d) % half > 0,
{
    let m = d as int * half as int;
    let ni = n as int;
    assert(m > 0) by (nonlinear_arith)
        requires
            d > 0,
            half > 0,
            m == d as int * half as int,
    ;
    vstd::arithmetic::div_mod::lemma_div_denominator(ni, d as int, half as int);
    vstd::arithmetic::div_mod::lemma_mod_breakdown(ni, d as int, half as int);
    let q = ni / m;
    let r = ni % m;
    vstd::arithmetic::div_mod::lemma_fundamental_div_mod(ni, m);
    vstd::arithmetic::div_mod::lemma_mod_bound(ni, m);
    assert(2 * ni == q * (2 * m) + 2 * r) by (nonlinear_arith)
        requires
            ni == m * q + r,
    ;
    vstd::arithmetic::div_mod::lemma_fundamental_div_mod_converse(2 * ni, 2 * m, q, 2 * r);
    assert(d * (2 * half) == 2 * m) by (nonlinear_arith)
        requires
            m == d as int * half as int,
    ;
    let high = (n / d) % half;
    let low = n % d;
    assert(r == d * high + low);
    vstd::arithmetic::div_mod::lemma_mod_bound((n / d) as int, half as int);
    vstd::arithmetic::div_mod::lemma_mod_bound(ni, d as int);
    assert(r > 0 <==> low > 0 || high > 0) by (nonlinear_arith)
        requires
            r == d * high + low,
            d > 0,
            high >= 0,
            low >= 0,
    ;
}

/// How many halves there are of the smallest part that counts.
proof fn lemma_fine(n: nat, d: nat, b: nat)
    requires
        d > 0,
        b <= 53,
        n / d < two_to(b),
    ensures
        n * two_to((54 - b) as nat) == 2 * (n * two_to((53 - b) as nat)),
        (n * two_to((54 - b) as nat)) / d < two_to(54),
{
    let p = two_to((53 - b) as nat);
    let t = two_to((54 - b) as nat);
    assert(t == 2 * p);
    assert(n * t == 2 * (n * p)) by (nonlinear_arith)
        requires
            t == 2 * p,
    ;
    lemma_two_add(b, (54 - b) as nat);
    let w = two_to(b);
    assert(n < d * w) by (nonlinear_arith)
        requires
            d > 0,
            n / d < w,
    ;
    lemma_two_positive((54 - b) as nat);
    assert(n * t < d * (w * t)) by (nonlinear_arith)
        requires
            n < d * w,
            t > 0,
    ;
    let x = n * t;
    let y = w * t;
    assert(x / d < y) by (nonlinear_arith)
        requires
            x < d * y,
            d > 0,
    ;
}

/// The number that digits make, `after` of them behind the point, rounded to 53
/// binary digits, without its fraction: its whole part has `b` of them.
fn floor_of_small(digits: Vec<u8>, after: usize, b: u32) -> (v: u64)
    requires
        are_digits(digits@),
        after <= digits@.len(),
        b <= 53,
        b == bits(value(digits@) / ten_to(after as nat)),
        value(digits@) / ten_to(after as nat) < two_to(b as nat),
    ensures
        v == double_floor(value(digits@), ten_to(after as nat)),
{
    let ghost n = value(digits@);
    let ghost d = ten_to(after as nat);
    proof {
        lemma_ten_positive(after as nat);
        lemma_fine(n, d, b as nat);
        lemma_two_values();
    }
    let mut fine: Vec<u8> = digits;
    double_times(&mut fine, 54 - b);
    proof {
        lemma_split_value(fine@, after as int);
        lemma_nearest(n * two_to((53 - b) as nat), d);
    }
    let left: bool = has_rest(&fine, after);
    let halves: u64 = match whole_part(&fine, after) {
        Some(h) => h,
        None => 0,
    };
    let scale: u64 = power_of_two(53 - b);
    let rounded: u64 = round_halves(halves, left);
    assert(rounded == nearest(n * (scale as nat), d));
    rounded / scale
}

/// The number that digits make, `after` of them behind the point, rounded to 53
/// binary digits, without its fraction. Nothing where it does not fit.
fn floor_as_double(digits: Vec<u8>, after: usize) -> (r: Option<u64>)
    requires
        are_digits(digits@),
        after <= digits@.len(),
    ensures
        ({
            let exact = double_floor(value(digits@), ten_to(after as nat));
            match r {
                Some(v) => v == exact,
                None => exact > u64::MAX,
            }
        }),
{
    let ghost n = value(digits@);
    let ghost d = ten_to(after as nat);
    proof {
        lemma_split_value(digits@, after as int);
    }
    let q: u64 = match whole_part(&digits, after) {
        Some(q) => q,
        None => {
            proof {
                lemma_large(n, d);
            }
            return None;
        },
    };
    let b: u32 = count_bits(q);
    if b <= 53 {
        return Some(floor_of_small(digits, after, b));
    }
    let left: bool = has_rest(&digits, after);
    let half: u64 = power_of_two(b - 54);
    let scale: u64 = power_of_two(b - 53);
    let halves: u64 = q / half;
    let rest: bool = left || q % half != 0;
    let rounded: u64 = round_halves(halves, rest);
    proof {
        assert(scale == 2 * half);
        lemma_coarse(n, d, half as nat);
        lemma_scale_positive(d, scale as nat);
        lemma_nearest(n, d * (scale as nat));
        assert(rounded == nearest(n, d * (scale as nat)));
        assert(0 <= rounded * scale <= u64::MAX * u64::MAX) by (nonlinear_arith)
            requires
                0 <= rounded <= u64::MAX,
                0 <= scale <= u64::MAX,
        ;
    }
    let product: u128 = rounded as u128 * scale as u128;
    if product > 0xFFFF_FFFF_FFFF_FFFF {
        None
    } else {
        Some(product as u64)
    }
}

proof fn lemma_scale_positive(d: nat, scale: nat)
    requires
        d > 0,
        scale > 0,
    ensures
        d * scale > 0,
{
    assert(d * scale > 0) by (nonlinear_arith)
        requires
            d > 0,
            scale > 0,
    ;
}

/// Digits, the lowest first, of digits that are written the highest first.
fn reversed(chars: &Vec<char>) -> (r: Option<Vec<u8>>)
    ensures
        r is Some <==> all_digits(chars@),
        r matches Some(d) ==> are_digits(d@) && d@.len() == chars@.len() && value(d@)
            == digits_value(chars@),
{
    let mut d: Vec<u8> = Vec::new();
    let mut i: usize = chars.len();
    proof {
        assert(chars@.skip(i as int) =~= Seq::<char>::empty());
        assert(d@ =~= mirrored(chars@.skip(i as int)));
    }
    while i > 0
        invariant
            i <= chars@.len(),
            d@.len() == chars@.len() - i,
            forall|k: int| i <= k < chars@.len() ==> is_digit(#[trigger] chars@[k]),
            d@ == mirrored(chars@.skip(i as int)),
        decreases i,
    {
        let c: char = chars[i - 1];
        if c < '0' || c > '9' {
            assert(!is_digit(chars@[i - 1]));
            return None;
        }
        let ghost before = d@;
        let x: u8 = (c as u32 - '0' as u32) as u8;
        d.push(x);
        proof {
            let here = chars@.skip(i - 1);
            assert forall|k: int| 0 <= k < here.len() implies #[trigger] mirrored(here)[k]
                == before.push(x)[k] by {
                if k < before.len() {
                    assert(before[k] == mirrored(chars@.skip(i as int))[k]);
                }
            }
            assert(d@ =~= mirrored(here));
        }
        i -= 1;
    }
    proof {
        assert(chars@.skip(0) =~= chars@);
        lemma_mirrored(chars@);
    }
    Some(d)
}

spec fn mirrored(s: Seq<char>) -> Seq<u8> {
    Seq::new(s.len(), |i: int| digit_value(s[s.len() - 1 - i]) as u8)
}

proof fn lemma_mirrored(s: Seq<char>)
    requires
        all_digits(s),
    ensures
        value(mirrored(s)) == digits_value(s),
        are_digits(mirrored(s)),
    decreases s.len(),
{
    assert forall|i: int| 0 <= i < mirrored(s).len() implies #[trigger] mirrored(s)[i] < 10 by {
        assert(is_digit(s[s.len() - 1 - i]));
    }
    if s.len() > 0 {
        let less = s.drop_last();
        assert forall|i: int| 0 <= i < less.len() implies is_digit(#[trigger] less[i]) by {
            assert(is_digit(s[i]));
        }
        lemma_mirrored(less);
        assert(mirrored(s).skip(1) =~= mirrored(less));
        assert(is_digit(s[s.len() - 1]));
        assert(mirrored(s)[0] == digit_value(s.last()));
    }
}

/// Whole numbers that have at most 53 binary digits are not rounded.
pub proof fn law_whole_numbers_are_exact(n: nat, d: nat)
    requires
        d > 0,
        bits(n) <= 53,
    ensures
        double_floor(n * d, d) == n,
{
    assert((n * d) / d == n) by (nonlinear_arith)
        requires
            d > 0,
    ;
    let scale = two_to((53 - bits(n)) as nat);
    lemma_two_positive((53 - bits(n)) as nat);
    let m = n * scale;
    assert((n * d) * scale == m * d) by (nonlinear_arith)
        requires
            m == n * scale,
    ;
    assert((m * d) / d == m && (m * d) % d == 0) by (nonlinear_arith)
        requires
            d > 0,
    ;
    assert((n * scale) / scale == n) by (nonlinear_arith)
        requires
            scale > 0,
    ;
}

/// `n`, as far as it fits.
pub open spec fn capped(n: nat) -> u64 {
    if n > u64::MAX {
        u64::MAX
    } else {
        n as u64
    }
}

/// The number, times a power of two, that a text of digits and at most one
/// point stands for, rounded to 53 binary digits, without its fraction, as far
/// as it fits.
pub open spec fn scaled_floor(s: Seq<char>, power: nat) -> Option<u64> {
    match fraction_of(s) {
        Some((n, after)) => Some(capped(double_floor(n * two_to(power), ten_to(after)))),
        None => None,
    }
}

/// Reads such a number.
pub fn read_scaled(chars: &[char], power: u32) -> (r: Option<u64>)
    requires
        power <= 40,
    ensures
        r == scaled_floor(chars@, power as nat),
{
    let parts = split_chars(chars, '.');
    let ghost views = char_views(parts@);
    proof {
        crate::text::law_parts_hold_no_separator(chars@, '.');
        assert(views.len() == parts@.len());
        assert(views[0] == parts@[0]@);
    }
    if parts.len() > 2 {
        return None;
    }
    let mut digits: Vec<char> = Vec::new();
    let mut i: usize = 0;
    while i < parts[0].len()
        invariant
            0 < parts@.len(),
            i <= parts@[0]@.len(),
            digits@ == parts@[0]@.take(i as int),
        decreases parts@[0]@.len() - i,
    {
        digits.push(parts[0][i]);
        i += 1;
        assert(digits@ =~= parts@[0]@.take(i as int));
    }
    assert(digits@ =~= parts@[0]@);
    let mut after: usize = 0;
    if parts.len() == 2 {
        assert(views[1] == parts@[1]@);
        after = parts[1].len();
        let mut j: usize = 0;
        assert(digits@ =~= parts@[0]@ + parts@[1]@.take(0));
        while j < parts[1].len()
            invariant
                parts@.len() == 2,
                j <= parts@[1]@.len(),
                digits@ == parts@[0]@ + parts@[1]@.take(j as int),
            decreases parts@[1]@.len() - j,
        {
            digits.push(parts[1][j]);
            j += 1;
            assert(digits@ =~= parts@[0]@ + parts@[1]@.take(j as int));
        }
        assert(digits@ =~= parts@[0]@ + parts@[1]@);
    }
    if digits.len() == 0 {
        return None;
    }
    match reversed(&digits) {
        None => None,
        Some(d) => {
            let mut number: Vec<u8> = d;
            double_times(&mut number, power);
            match floor_as_double(number, after) {
                Some(v) => Some(v),
                None => Some(0xFFFF_FFFF_FFFF_FFFF),
            }
        },
    }
}

/// The nearest whole number lies no more than a half away, and is even where two
/// are as near.
pub proof fn law_nearest_is_near(n: nat, d: nat)
    requires
        d > 0,
    ensures
        2 * (n - nearest(n, d) * d) <= d,
        2 * (nearest(n, d) * d - n) <= d,
        2 * (n - nearest(n, d) * d) == d || 2 * (nearest(n, d) * d - n) == d ==> nearest(n, d) % 2
            == 0,
{
    let q = (n / d) as int;
    let r = (n % d) as int;
    let e = d as int;
    assert(n == q * e + r && 0 <= r < e) by (nonlinear_arith)
        requires
            q == n as int / e,
            r == n as int % e,
            e > 0,
    ;
    assert((q + 1) * e == q * e + e) by (nonlinear_arith);
}

/// A number has as many binary digits as it needs: it is less than two to that
/// many, and not less than two to one fewer.
pub proof fn law_binary_digits(n: nat)
    ensures
        n < two_to(bits(n)),
        n > 0 ==> bits(n) > 0 && two_to((bits(n) - 1) as nat) <= n,
    decreases n,
{
    if n > 0 {
        law_binary_digits(n / 2);
    }
}

/// Digits with a point between them are the number without the point, and as
/// many digits after it as stand there. Digits without a point are the number.
pub proof fn law_fraction_is_read(a: Seq<char>, b: Seq<char>)
    requires
        all_digits(a),
        all_digits(b),
        a.len() + b.len() > 0,
    ensures
        fraction_of(a + seq!['.'] + b) == Some((digits_value(a + b), b.len())),
        a.len() > 0 ==> fraction_of(a) == Some((digits_value(a), 0nat)),
{
    lemma_digits_hold_no_point(a);
    lemma_digits_hold_no_point(b);
    law_separator_parts(a, b, '.');
    law_one_part_without_separator(a, '.');
    law_one_part_without_separator(b, '.');
    let parts = split(a + seq!['.'] + b, '.');
    assert(parts =~= seq![a, b]);
    assert forall|i: int| 0 <= i < (a + b).len() implies is_digit(#[trigger] (a + b)[i]) by {
        if i < a.len() {
            assert(is_digit(a[i]));
        } else {
            assert(is_digit(b[i - a.len()]));
        }
    }
}

proof fn lemma_digits_hold_no_point(s: Seq<char>)
    requires
        all_digits(s),
    ensures
        !s.contains('.'),
{
    if s.contains('.') {
        let i = choose|i: int| 0 <= i < s.len() && s[i] == '.';
        assert(is_digit(s[i]));
    }
}

/// A number with more than fifty-three binary digits keeps the first fifty-three:
/// what is left is a multiple of the power of two of the others, and no more than
/// half of that away.
pub proof fn law_large_numbers_keep_their_digits(n: nat, d: nat)
    requires
        d > 0,
        bits(n / d) > 53,
    ensures
        ({
            let scale = two_to((bits(n / d) - 53) as nat);
            let r = double_floor(n, d);
            &&& scale > 0 && r % scale == 0
            &&& 2 * (n - r * d) <= d * scale
            &&& 2 * (r * d - n) <= d * scale
        }),
{
    let scale = two_to((bits(n / d) - 53) as nat);
    lemma_two_positive((bits(n / d) - 53) as nat);
    let e = d * scale;
    assert(e > 0) by (nonlinear_arith)
        requires
            e == d * scale,
            d > 0,
            scale > 0,
    ;
    law_nearest_is_near(n, e);
    let q = nearest(n, e);
    let r = double_floor(n, d);
    assert(r == q * scale);
    assert(r * d == q * e) by (nonlinear_arith)
        requires
            r == q * scale,
            e == d * scale,
    ;
    assert((q * scale) % scale == 0) by (nonlinear_arith)
        requires
            scale > 0,
    ;
}

/// A number with at most fifty-three binary digits before its point loses its
/// fraction, or is the next one where the fraction is that close to it.
pub proof fn law_small_numbers_lose_their_fraction(n: nat, d: nat)
    requires
        d > 0,
        bits(n / d) <= 53,
    ensures
        n / d <= double_floor(n, d) <= n / d + 1,
{
    let scale = two_to((53 - bits(n / d)) as nat);
    lemma_two_positive((53 - bits(n / d)) as nat);
    let q = (n / d) as int;
    let e = d as int;
    let s = scale as int;
    let m = (n * scale) as int;
    assert(q * e <= n < q * e + e && q >= 0) by (nonlinear_arith)
        requires
            q == n as int / e,
            e > 0,
    ;
    assert(m == n as int * s);
    assert((q * s) * e <= m < (q * s + s) * e) by (nonlinear_arith)
        requires
            m == n as int * s,
            q * e <= n,
            n < q * e + e,
            s > 0,
            e > 0,
    ;
    let f = m / e;
    assert(q * s <= f < q * s + s) by (nonlinear_arith)
        requires
            f == m / e,
            (q * s) * e <= m,
            m < (q * s + s) * e,
            e > 0,
    ;
    let near = nearest(n * scale, d) as int;
    assert(f <= near <= f + 1);
    let r = near / s;
    assert(q <= r <= q + 1) by (nonlinear_arith)
        requires
            r == near / s,
            q * s <= near,
            near <= q * s + s,
            s > 0,
    ;
}

} // verus!
