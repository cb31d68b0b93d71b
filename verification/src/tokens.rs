//! Token counts: the estimate for a text, and the short form shown to users.

use crate::text::{byte_len, decimal, decimal_text, lemma_encode_concat, text_len};
use vstd::prelude::*;
use vstd::string::*;

verus! {

/// The estimated number of tokens of a text: one for every four bytes of its
/// UTF-8 encoding, and one more.
pub open spec fn token_estimate(text: Seq<char>) -> nat {
    byte_len(text) / 4 + 1
}

/// The estimated number of tokens of `s`.
pub fn estimate_tokens(s: &str) -> (tokens: usize)
    ensures
        tokens == token_estimate(s@),
{
    text_len(s) / 4 + 1
}

/// A text that comes in two pieces counts no less than in one, and at most one
/// token more; every text counts.
pub proof fn law_pieces_count(a: Seq<char>, b: Seq<char>)
    ensures
        token_estimate(a + b) >= 1,
        token_estimate(a + b) <= token_estimate(a) + token_estimate(b),
        token_estimate(a) + token_estimate(b) <= token_estimate(a + b) + 1,
{
    lemma_encode_concat(a, b);
}

/// The integer nearest to `a / b`; the even one of two that are equally near.
pub open spec fn round_half_even(a: nat, b: nat) -> nat {
    let q = a / b;
    let r = a % b;
    if 2 * r < b || (2 * r == b && q % 2 == 0) {
        q
    } else {
        q + 1
    }
}

/// The smallest of `unit`, `2 * unit`, `4 * unit`, ... of which fewer than 2^53
/// make up `n`: the distance of neighbouring doubles around `n`.
pub open spec fn double_spacing(n: nat, unit: nat) -> nat
    decreases n - unit,
{
    if unit == 0 || n < 0x20000000000000 * unit {
        unit
    } else {
        double_spacing(n, 2 * unit)
    }
}

/// The double-precision number nearest to the integer `n`.
pub open spec fn nearest_double(n: nat) -> nat {
    let unit = double_spacing(n, 1);
    round_half_even(n, unit) * unit
}

/// Doubles `num` and `scale` together until `num` is at least `2^52 * den`.
pub open spec fn scaled_up(num: nat, scale: nat, den: nat) -> (nat, nat)
    decreases (if num < 0x10000000000000 * den { 0x10000000000000 * den - num } else { 0 }),
{
    if num == 0 || num >= 0x10000000000000 * den {
        (num, scale)
    } else {
        scaled_up(2 * num, 2 * scale, den)
    }
}

/// The number of tenths nearest to the double-precision quotient of `n` and
/// `den`. The quotient has a significand of 53 bits, and both it and the tenths
/// are rounded to the nearest value, ties to the even one.
pub open spec fn quotient_tenths(n: nat, den: nat) -> nat {
    let (num, scale) = scaled_up(nearest_double(n), 1, den);
    round_half_even(10 * round_half_even(num, den), scale)
}

/// `n / den` as a decimal number with one digit after the point.
pub open spec fn one_decimal(n: nat, den: nat) -> Seq<char> {
    let tenths = quotient_tenths(n, den);
    decimal(tenths / 10) + "."@ + decimal(tenths % 10)
}

/// The short form of a token count: millions with `M`, thousands with `K`, each
/// with one digit after the point, and smaller counts in full.
pub open spec fn formatted_tokens(n: nat) -> Seq<char> {
    if n >= 1_000_000 {
        one_decimal(n, 1_000_000) + "M"@
    } else if n >= 1_000 {
        one_decimal(n, 1_000) + "K"@
    } else {
        decimal(n)
    }
}

fn div_half_even(a: u128, b: u128) -> (q: u128)
    requires
        0 < b < 0x8000_0000_0000_0000_0000_0000_0000_0000,
        a < 0x8000_0000_0000_0000_0000_0000_0000_0000,
    ensures
        q == round_half_even(a as nat, b as nat),
        q <= a + 1,
{
    let q = a / b;
    let r = a % b;
    assert(q <= a) by (nonlinear_arith)
        requires
            q == a / b,
            b > 0,
    ;
    if 2 * r < b || (2 * r == b && q % 2 == 0) {
        q
    } else {
        q + 1
    }
}

/// Rounding to a multiple of the spacing at most doubles a positive number, and
/// does not bring it below one.
proof fn lemma_nearest_double_bounds(n: nat, unit: nat)
    requires
        n >= 1,
        unit >= 1,
        unit == 1 || 2 * n >= 0x20000000000000 * unit,
    ensures
        1 <= round_half_even(n, unit) * unit <= 2 * n,
{
    let q = n / unit;
    let r = n % unit;
    vstd::arithmetic::div_mod::lemma_fundamental_div_mod(n as int, unit as int);
    vstd::arithmetic::div_mod::lemma_mod_bound(n as int, unit as int);
    let m = round_half_even(n, unit);
    if unit == 1 {
        assert(q == n && r == 0);
        assert(m * unit == m) by (nonlinear_arith)
            requires
                unit == 1,
        ;
    } else {
        assert(q >= 1) by (nonlinear_arith)
            requires
                n == unit * q + r,
                r < unit,
                2 * n >= 0x20000000000000 * unit,
                unit >= 1,
        ;
        assert(m == q || m == q + 1);
        assert(1 <= m * unit <= 2 * n) by (nonlinear_arith)
            requires
                m == q || m == q + 1,
                n == unit * q + r,
                q >= 1,
                r >= 0,
                unit >= 1,
                2 * n >= 0x20000000000000 * unit,
        ;
    }
}

fn double_of(n: u64) -> (v: u128)
    requires
        n >= 1,
    ensures
        v == nearest_double(n as nat),
        1 <= v <= 2 * n,
{
    let mut unit: u128 = 1;
    while n as u128 >= 0x20000000000000 * unit
        invariant
            1 <= unit <= n,
            unit == 1 || 2 * n >= 0x20000000000000 * unit,
            double_spacing(n as nat, 1) == double_spacing(n as nat, unit as nat),
        decreases n - unit,
    {
        unit = 2 * unit;
    }
    proof {
        lemma_nearest_double_bounds(n as nat, unit as nat);
    }
    div_half_even(n as u128, unit) * unit
}

fn tenths_of(n: u64, den: u64) -> (tenths: u128)
    requires
        n >= 1,
        1 <= den <= 1_000_000,
    ensures
        tenths == quotient_tenths(n as nat, den as nat),
{
    let mut num: u128 = double_of(n);
    let mut scale: u128 = 1;
    let bound: u128 = 0x10000000000000 * den as u128;
    let ghost start = (num as nat, 1nat);
    while num < bound
        invariant
            bound == 0x10000000000000 * den,
            1 <= den <= 1_000_000,
            1 <= scale <= num,
            num <= 2 * bound || num <= 2 * u64::MAX,
            start.0 == nearest_double(n as nat),
            scaled_up(start.0, 1, den as nat) == scaled_up(num as nat, scale as nat, den as nat),
        decreases (if num < bound { bound - num } else { 0 }),
    {
        num = 2 * num;
        scale = 2 * scale;
    }
    let significand = div_half_even(num, den as u128);
    div_half_even(10 * significand, scale)
}

fn one_decimal_text(n: u64, den: u64) -> (text: String)
    requires
        n >= 1,
        1 <= den <= 1_000_000,
    ensures
        text@ == one_decimal(n as nat, den as nat),
{
    let tenths = tenths_of(n, den);
    let mut text = decimal_text(tenths / 10);
    text.append(".");
    text.append(decimal_text(tenths % 10).as_str());
    text
}

/// The short form of the token count `n`.
pub fn format_tokens(n: u64) -> (text: String)
    ensures
        text@ == formatted_tokens(n as nat),
{
    if n >= 1_000_000 {
        let mut text = one_decimal_text(n, 1_000_000);
        text.append("M");
        text
    } else if n >= 1_000 {
        let mut text = one_decimal_text(n, 1_000);
        text.append("K");
        text
    } else {
        decimal_text(n as u128)
    }
}

/// The estimate counts one token for every four bytes, and one more.
pub proof fn law_four_bytes_a_token(text: Seq<char>)
    ensures
        4 * (token_estimate(text) - 1) <= byte_len(text) < 4 * token_estimate(text),
{
}

/// How far apart two numbers are.
pub open spec fn distance(a: nat, b: nat) -> int {
    if a < b {
        b - a
    } else {
        a - b
    }
}

proof fn lemma_round_is_near(a: nat, b: nat)
    requires
        b > 0,
    ensures
        2 * distance(round_half_even(a, b) * b, a) <= b,
{
    let q = a / b;
    let r = a % b;
    vstd::arithmetic::div_mod::lemma_fundamental_div_mod(a as int, b as int);
    vstd::arithmetic::div_mod::lemma_mod_bound(a as int, b as int);
    assert(q * b == b * q) by (nonlinear_arith);
    assert((q + 1) * b == b * q + b) by (nonlinear_arith);
}

proof fn lemma_scaling_keeps_the_ratio(num: nat, scale: nat, den: nat)
    requires
        num > 0,
        scale > 0,
    ensures
        ({
            let (n, s) = scaled_up(num, scale, den);
            n * scale == num * s && n >= 0x10000000000000 * den && s > 0
        }),
    decreases (if num < 0x10000000000000 * den { 0x10000000000000 * den - num } else { 0 }),
{
    if num < 0x10000000000000 * den {
        lemma_scaling_keeps_the_ratio(2 * num, 2 * scale, den);
        let (n, s) = scaled_up(num, scale, den);
        assert(n * scale == num * s) by (nonlinear_arith)
            requires
                n * (2 * scale) == (2 * num) * s,
        ;
    }
}

proof fn lemma_spacing(n: nat, unit: nat)
    requires
        unit > 0,
        unit == 1 || 2 * n >= 0x20000000000000 * unit,
    ensures
        ({
            let spacing = double_spacing(n, unit);
            spacing > 0 && (spacing == 1 || 2 * n >= 0x20000000000000 * spacing)
        }),
    decreases n - unit,
{
    if n >= 0x20000000000000 * unit {
        lemma_spacing(n, 2 * unit);
    }
}

proof fn lemma_double_is_near(n: nat)
    requires
        n > 0,
    ensures
        0x20000000000000 * distance(nearest_double(n), n) <= n,
        nearest_double(n) > 0,
{
    let unit = double_spacing(n, 1);
    lemma_spacing(n, 1);
    lemma_round_is_near(n, unit);
    lemma_nearest_double_bounds(n, unit);
    if unit == 1 {
        assert(2 * distance(nearest_double(n), n) <= 1);
    }
}

proof fn lemma_tenths_are_near(n: nat, den: nat)
    requires
        n > 0,
        den > 0,
    ensures
        0x20000000000000 * distance(quotient_tenths(n, den) * den, 10 * n)
            <= 0x10000000000000 * den + 30 * n,
{
    let x = nearest_double(n);
    lemma_double_is_near(n);
    let (num, scale) = scaled_up(x, 1, den);
    lemma_scaling_keeps_the_ratio(x, 1, den);
    assert(num == x * scale);
    let sig = round_half_even(num, den);
    lemma_round_is_near(num, den);
    let t = round_half_even(10 * sig, scale);
    lemma_round_is_near(10 * sig, scale);
    let far = distance(t * den, 10 * x);
    assert(2 * distance(t * scale, 10 * sig) <= scale);
    assert(2 * distance(sig * den, num) <= den);
    assert(2 * far * scale <= den * scale + 10 * den) by (nonlinear_arith)
        requires
            far == (if t * den < 10 * x { 10 * x - t * den } else { t * den - 10 * x }),
            -scale <= 2 * (t * scale - 10 * sig) <= scale,
            -den <= 2 * (sig * den - x * scale) <= den,
            den > 0,
            scale > 0,
    ;
    assert(0x20000000000000 * far <= 0x10000000000000 * den + 10 * x) by (nonlinear_arith)
        requires
            2 * far * scale <= den * scale + 10 * den,
            x * scale >= 0x10000000000000 * den,
            scale > 0,
    ;
}

/// The short form of a count below a thousand is the count. That of a larger one is
/// in thousands, or from a million on in millions, with one digit after the point,
/// and off by half a tenth at most, but for the precision of the division.
pub proof fn law_short_form(n: nat)
    ensures
        n < 1_000 ==> formatted_tokens(n) == decimal(n),
        1_000 <= n < 1_000_000 ==> exists|t: nat|
            0x20000000000000 * distance(t * 1_000, 10 * n) <= 0x10000000000000 * 1_000 + 30
                * n && formatted_tokens(n) == #[trigger] tenths_text(t) + "K"@,
        n >= 1_000_000 ==> exists|t: nat|
            0x20000000000000 * distance(t * 1_000_000, 10 * n) <= 0x10000000000000
                * 1_000_000 + 30 * n && formatted_tokens(n) == #[trigger] tenths_text(t) + "M"@,
{
    if n >= 1_000_000 {
        lemma_tenths_are_near(n, 1_000_000);
        assert(formatted_tokens(n) == tenths_text(quotient_tenths(n, 1_000_000)) + "M"@);
    } else if n >= 1_000 {
        lemma_tenths_are_near(n, 1_000);
        assert(formatted_tokens(n) == tenths_text(quotient_tenths(n, 1_000)) + "K"@);
    }
}

/// A number of tenths, with a point before the last digit.
pub open spec fn tenths_text(tenths: nat) -> Seq<char> {
    decimal(tenths / 10) + "."@ + decimal(tenths % 10)
}

} // verus!
