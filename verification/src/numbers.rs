//! Numbers as text: decimal digits, token counts with a unit, and amounts of
//! money.
//!
//! Fractions are shown the way double-precision arithmetic shows them. A
//! quotient is first rounded to the nearest number with 53 significant bits,
//! then that number is rounded to the decimal places that are printed; both
//! steps take the even neighbour of a tie.

use vstd::arithmetic::power2::{
    lemma2_to64, lemma_pow2_pos, lemma_pow2_strictly_increases, lemma_pow2_unfold, pow2,
};
use vstd::prelude::*;

verus! {

/// The character that stands for the digit `d`.
pub open spec fn digit(d: int) -> char {
    (48 + d) as char
}

/// `n` in decimal notation, without leading zeros.
pub open spec fn decimal_digits(n: nat) -> Seq<char>
    decreases n,
{
    if n < 10 {
        seq![digit(n as int)]
    } else {
        decimal_digits(n / 10).push(digit((n % 10) as int))
    }
}

fn push_digit(s: &mut String, d: u128)
    requires
        d < 10,
    ensures
        final(s)@ == old(s)@.push(digit(d as int)),
{
    s.push((48u8 + d as u8) as char);
}

/// Appends `n` in decimal notation to `s`.
pub fn push_decimal(s: &mut String, n: u128)
    ensures
        final(s)@ == old(s)@ + decimal_digits(n as nat),
    decreases n,
{
    if n >= 10 {
        push_decimal(s, n / 10);
    }
    push_digit(s, n % 10);
    proof {
        let rest = if n >= 10 {
            decimal_digits((n / 10) as nat)
        } else {
            Seq::empty()
        };
        assert(s@ =~= old(s)@ + rest.push(digit((n % 10) as int)));
        assert(rest.push(digit((n % 10) as int)) =~= decimal_digits(n as nat));
    }
}

/// `n` in decimal notation.
pub fn decimal(n: u64) -> (r: String)
    ensures
        r@ == decimal_digits(n as nat),
{
    let mut r = String::new();
    push_decimal(&mut r, n as u128);
    assert(Seq::<char>::empty() + decimal_digits(n as nat) =~= decimal_digits(n as nat));
    r
}

/// `num / den` rounded to an integer, a tie to the even one.
pub open spec fn round_half_even(num: nat, den: nat) -> nat {
    if 2 * (num % den) < den || (2 * (num % den) == den && (num / den) % 2 == 0) {
        num / den
    } else {
        num / den + 1
    }
}

fn round_div(num: u128, den: u128) -> (r: u128)
    requires
        0 < den < 0x4000_0000_0000_0000_0000_0000_0000_0000,
    ensures
        r == round_half_even(num as nat, den as nat),
        num / den <= r <= num / den + 1,
{
    let q: u128 = num / den;
    let rest: u128 = num % den;
    assert(den >= 2 ==> q <= num / 2) by (nonlinear_arith)
        requires
            q == num / den,
            0 < den,
    ;
    if 2 * rest < den || (2 * rest == den && q % 2 == 0) {
        q
    } else {
        q + 1
    }
}

/// How often `n` is halved before it has at most 53 bits.
pub open spec fn excess_bits(n: nat) -> nat
    decreases n,
{
    if n < 0x20_0000_0000_0000 {
        0
    } else {
        1 + excess_bits(n / 2)
    }
}

/// The number with 53 significant bits that is nearest to `n`.
pub open spec fn as_double(n: nat) -> nat {
    round_half_even(n, pow2(excess_bits(n))) * pow2(excess_bits(n))
}

fn to_double(n: u64) -> (r: u128)
    ensures
        r == as_double(n as nat),
        n >= 1 ==> r >= 1,
        r <= 2 * n,
        n < 0x20_0000_0000_0000 ==> r == n,
{
    let wide: u128 = n as u128;
    let mut p: u128 = 1;
    let ghost mut k: nat = 0;
    proof {
        reveal(pow2);
        lemma2_to64();
        assert(wide / p == wide);
    }
    while wide / p >= 0x20_0000_0000_0000
        invariant
            wide == n,
            p == pow2(k),
            1 <= p,
            k > 0 ==> p <= wide,
            k > 0 ==> wide >= 0x20_0000_0000_0000,
            excess_bits(n as nat) == k + excess_bits((wide / p) as nat),
        decreases wide / p,
    {
        proof {
            vstd::arithmetic::div_mod::lemma_div_denominator(wide as int, p as int, 2);
            lemma_pow2_unfold(k + 1);
            assert(2 * p <= wide) by (nonlinear_arith)
                requires
                    wide / p >= 0x20_0000_0000_0000,
                    1 <= p,
            ;
            k = k + 1;
        }
        p = p * 2;
    }
    let m: u128 = round_div(wide, p);
    proof {
        assert(k == excess_bits(n as nat));
        vstd::arithmetic::div_mod::lemma_fundamental_div_mod(wide as int, p as int);
        assert(m <= wide / p + 1);
        if k > 0 {
            assert(1 <= wide / p <= wide) by (nonlinear_arith)
                requires
                    1 <= p <= wide,
            ;
            assert(m * p <= 2 * wide) by (nonlinear_arith)
                requires
                    m <= wide / p + 1,
                    wide == p * (wide / p) + wide % p,
                    0 <= wide % p,
                    p <= wide,
            ;
            assert(m * p >= 1) by (nonlinear_arith)
                requires
                    m >= wide / p,
                    wide / p >= 1,
                    p >= 1,
            ;
        } else {
            assert(m == wide);
            assert(m * p == wide);
        }
    }
    m * p
}

/// How often `num` is doubled before `num / den` has 53 bits before the point.
pub open spec fn binary_places(num: nat, den: nat) -> nat
    decreases 0x20_0000_0000_0000 * den - num,
{
    if num == 0 || num >= 0x10_0000_0000_0000 * den {
        0
    } else {
        1 + binary_places(2 * num, den)
    }
}

/// `num / den`, rounded to 53 significant bits, times `scale`, rounded to an
/// integer.
pub open spec fn double_scaled(num: nat, den: nat, scale: nat) -> nat {
    let up = pow2(binary_places(num, den));
    let down = pow2(excess_bits(num / den));
    round_half_even(round_half_even(num * up, den * down) * down * scale, up)
}

fn small_quotient(num: u128, den: u128, scale: u128) -> (r: u128)
    requires
        0 < num < 0x20_0000_0000_0000 * den,
        0 < den <= 1_000_000_000,
        scale <= 100,
    ensures
        r == double_scaled(num as nat, den as nat, scale as nat),
{
    let mut n: u128 = num;
    let mut p: u128 = 1;
    let ghost mut k: nat = 0;
    proof {
        lemma2_to64();
        assert(num / den < 0x20_0000_0000_0000) by (nonlinear_arith)
            requires
                num < 0x20_0000_0000_0000 * den,
                0 < den,
        ;
        assert(excess_bits((num / den) as nat) == 0);
    }
    while n < 0x10_0000_0000_0000 * den
        invariant
            0 < num,
            0 < den <= 1_000_000_000,
            1 <= p <= n,
            p == pow2(k),
            n == num * p,
            n < 0x20_0000_0000_0000 * den,
            binary_places(num as nat, den as nat) == k + binary_places(n as nat, den as nat),
        decreases 0x20_0000_0000_0000 * den - n,
    {
        proof {
            lemma_pow2_unfold(k + 1);
            assert(num * (2 * p) == 2 * (num * p)) by (nonlinear_arith);
            k = k + 1;
        }
        n = n * 2;
        p = p * 2;
    }
    let m: u128 = round_div(n, den);
    proof {
        assert(n / den < 0x20_0000_0000_0000) by (nonlinear_arith)
            requires
                n < 0x20_0000_0000_0000 * den,
                0 < den,
        ;
        assert(m * scale <= 0x20_0000_0000_0000 * 100) by (nonlinear_arith)
            requires
                m <= 0x20_0000_0000_0000,
                scale <= 100,
        ;
    }
    round_div(m * scale, p)
}

fn large_quotient(num: u128, den: u128, scale: u128) -> (r: u128)
    requires
        0x20_0000_0000_0000 * den <= num,
        1_000_000 <= den <= 1_000_000_000,
        scale <= 100,
    ensures
        r == double_scaled(num as nat, den as nat, scale as nat),
{
    let whole: u128 = num / den;
    let mut p: u128 = 1;
    let ghost mut k: nat = 0;
    proof {
        lemma2_to64();
        assert(whole >= 0x20_0000_0000_0000) by (nonlinear_arith)
            requires
                whole == num / den,
                0x20_0000_0000_0000 * den <= num,
                0 < den,
        ;
        assert(whole <= 0x1_0000_0000_0000_0000_0000_0000_0000) by (nonlinear_arith)
            requires
                whole == num / den,
                num < 0x1_0000_0000_0000_0000_0000_0000_0000_0000,
                1_000_000 <= den,
        ;
        assert(whole / 1 == whole);
    }
    while whole / p >= 0x20_0000_0000_0000
        invariant
            whole == num / den,
            0x20_0000_0000_0000 <= whole <= 0x1_0000_0000_0000_0000_0000_0000_0000,
            1 <= p <= whole,
            p == pow2(k),
            0x10_0000_0000_0000 * p <= whole,
            excess_bits(whole as nat) == k + excess_bits((whole / p) as nat),
        decreases whole / p,
    {
        proof {
            vstd::arithmetic::div_mod::lemma_div_denominator(whole as int, p as int, 2);
            lemma_pow2_unfold(k + 1);
            assert(0x10_0000_0000_0000 * (2 * p) <= whole) by (nonlinear_arith)
                requires
                    whole / p >= 0x20_0000_0000_0000,
                    1 <= p,
            ;
            k = k + 1;
        }
        p = p * 2;
    }
    proof {
        assert(binary_places(num as nat, den as nat) == 0);
        assert(den * p <= 1_000_000_000 * 0x1000_0000_0000_0000) by (nonlinear_arith)
            requires
                den <= 1_000_000_000,
                p <= 0x1000_0000_0000_0000,
                0 < den,
                0 < p,
        ;
        assert(den * p > 0) by (nonlinear_arith)
            requires
                0 < den,
                0 < p,
        ;
        vstd::arithmetic::div_mod::lemma_div_denominator(num as int, den as int, p as int);
    }
    let m: u128 = round_div(num, den * p);
    proof {
        assert(m <= 0x20_0000_0000_0000);
        assert(m * p <= 2 * whole) by (nonlinear_arith)
            requires
                m <= 0x20_0000_0000_0000,
                0x10_0000_0000_0000 * p <= whole,
        ;
        assert((m * p) * scale <= 2 * whole * 100) by (nonlinear_arith)
            requires
                m * p <= 2 * whole,
                0 <= m * p,
                scale <= 100,
        ;
        let scaled = m * p * scale;
        assert(scaled % 1 == 0 && scaled / 1 == scaled);
    }
    m * p * scale
}

fn scaled_quotient(num: u128, den: u128, scale: u128) -> (r: u128)
    requires
        0 < num,
        0 < den <= 1_000_000_000,
        0x20_0000_0000_0000 * den <= num ==> 1_000_000 <= den,
        scale <= 100,
    ensures
        r == double_scaled(num as nat, den as nat, scale as nat),
{
    if num < 0x20_0000_0000_0000 * den {
        small_quotient(num, den, scale)
    } else {
        large_quotient(num, den, scale)
    }
}

/// `tenths / 10` with one decimal place.
pub open spec fn tenths_text(tenths: nat) -> Seq<char> {
    decimal_digits(tenths / 10) + seq!['.', digit((tenths % 10) as int)]
}

/// `n / unit` with one decimal place, followed by `suffix`.
pub open spec fn scaled_text(n: nat, unit: nat, suffix: char) -> Seq<char> {
    tenths_text(double_scaled(as_double(n), unit, 10)).push(suffix)
}

/// A count of tokens, in billions, millions or thousands where it reaches one.
pub open spec fn tokens_text(n: nat) -> Seq<char> {
    if n >= 1_000_000_000 {
        scaled_text(n, 1_000_000_000, 'B')
    } else if n >= 1_000_000 {
        scaled_text(n, 1_000_000, 'M')
    } else if n >= 1_000 {
        scaled_text(n, 1_000, 'K')
    } else {
        decimal_digits(n)
    }
}

fn scaled(n: u64, unit: u64, suffix: char) -> (r: String)
    requires
        1_000 <= unit <= 1_000_000_000,
        unit <= n,
        n < 1_000_000 * unit || unit == 1_000_000_000,
    ensures
        r@ == scaled_text(n as nat, unit as nat, suffix),
{
    let tenths: u128 = scaled_quotient(to_double(n), unit as u128, 10);
    let mut r = String::new();
    push_decimal(&mut r, tenths / 10);
    r.push('.');
    push_digit(&mut r, tenths % 10);
    r.push(suffix);
    assert(r@ =~= scaled_text(n as nat, unit as nat, suffix));
    r
}

/// A count of tokens as text: one decimal place and `B`, `M` or `K` from a
/// thousand on, the bare count below.
pub fn format_tokens(n: u64) -> (r: String)
    ensures
        r@ == tokens_text(n as nat),
{
    if n >= 1_000_000_000 {
        scaled(n, 1_000_000_000, 'B')
    } else if n >= 1_000_000 {
        scaled(n, 1_000_000, 'M')
    } else if n >= 1_000 {
        scaled(n, 1_000, 'K')
    } else {
        decimal(n)
    }
}

/// The text `$d.cc` of `cents` cents.
pub open spec fn dollars_text(cents: nat) -> Seq<char> {
    seq!['$'] + decimal_digits(cents / 100) + seq![
        '.',
        digit((cents / 10 % 10) as int),
        digit((cents % 10) as int),
    ]
}

/// An amount of microcents (millionths of a cent) in dollars, with two decimal
/// places.
pub open spec fn cost_text(microcents: nat) -> Seq<char> {
    if microcents == 0 {
        dollars_text(0)
    } else {
        dollars_text(double_scaled(microcents, 100_000_000, 100))
    }
}

/// An amount of microcents as text: dollars with two decimal places.
pub fn format_cost(microcents: u128) -> (r: String)
    ensures
        r@ == cost_text(microcents as nat),
{
    let cents: u128 = if microcents == 0 {
        0
    } else {
        scaled_quotient(microcents, 100_000_000, 100)
    };
    let mut r = String::new();
    r.push('$');
    push_decimal(&mut r, cents / 100);
    r.push('.');
    push_digit(&mut r, cents / 10 % 10);
    push_digit(&mut r, cents % 10);
    assert(r@ =~= dollars_text(cents as nat));
    r
}

/// What the rounded quotient has to do with the exact one: they are at most a half
/// apart, and where they are, the rounded one is even.
proof fn rounded_is_near(a: nat, b: nat)
    requires
        0 < b,
    ensures
        ({
            let k = round_half_even(a, b);
            &&& 2 * (k * b) <= 2 * a + b
            &&& 2 * (k * b) == 2 * a + b ==> k % 2 == 0
            &&& 2 * a <= 2 * (k * b) + b
            &&& 2 * a == 2 * (k * b) + b ==> k % 2 == 0
        }),
{
    let q = a / b;
    vstd::arithmetic::div_mod::lemma_fundamental_div_mod(a as int, b as int);
    assert(b * q == q * b) by (nonlinear_arith);
    assert((q + 1) * b == q * b + b) by (nonlinear_arith);
}

/// Of two quotients the larger is not rounded to less: `a / b` is at most `c / d`.
proof fn rounding_grows(a: nat, b: nat, c: nat, d: nat)
    requires
        0 < b,
        0 < d,
        a * d <= c * b,
    ensures
        round_half_even(a, b) <= round_half_even(c, d),
{
    let k = round_half_even(a, b);
    let l = round_half_even(c, d);
    rounded_is_near(a, b);
    rounded_is_near(c, d);
    if k > l {
        assert(2 * ((k * b) * d) <= 2 * (a * d) + b * d && (2 * ((k * b) * d) == 2 * (a * d) + b * d
            ==> 2 * (k * b) == 2 * a + b)) by (nonlinear_arith)
            requires
                2 * (k * b) <= 2 * a + b,
                0 < d,
        ;
        assert(2 * (c * b) <= 2 * ((l * d) * b) + d * b && (2 * (c * b) == 2 * ((l * d) * b) + d * b
            ==> 2 * c == 2 * (l * d) + d)) by (nonlinear_arith)
            requires
                2 * c <= 2 * (l * d) + d,
                0 < b,
        ;
        assert((k * b) * d == k * (b * d)) by (nonlinear_arith);
        assert((l * d) * b == l * (b * d)) by (nonlinear_arith);
        assert(d * b == b * d) by (nonlinear_arith);
        assert(b * d > 0) by (nonlinear_arith)
            requires
                0 < b,
                0 < d,
        ;
        let e = b * d;
        assert(k * e >= (l + 1) * e) by (nonlinear_arith)
            requires
                k >= l + 1,
                e > 0,
        ;
        assert((l + 1) * e == l * e + e) by (nonlinear_arith);
        assert(k * e == (l + 1) * e);
        assert(k == l + 1) by (nonlinear_arith)
            requires
                k * e == (l + 1) * e,
                e > 0,
        ;
    }
}

/// A quotient that reaches an integer, or does not exceed it, is not rounded across
/// it.
proof fn rounding_stops(a: nat, b: nat, n: nat)
    requires
        0 < b,
    ensures
        a <= n * b ==> round_half_even(a, b) <= n,
        n * b <= a ==> n <= round_half_even(a, b),
        a == n * b ==> round_half_even(a, b) == n,
{
    assert(round_half_even(n, 1) == n);
    if a <= n * b {
        rounding_grows(a, b, n, 1);
    }
    if n * b <= a {
        rounding_grows(n, 1, a, b);
    }
}

proof fn powers_double(i: nat, j: nat)
    requires
        i < j,
    ensures
        0 < pow2(i),
        2 * pow2(i) <= pow2(j),
{
    lemma_pow2_pos(i);
    lemma_pow2_unfold(i + 1);
    if i + 1 < j {
        lemma_pow2_strictly_increases(i + 1, j);
    }
}

/// The bits of `n` beyond 53.
proof fn excess_is(n: nat)
    ensures
        0 < pow2(excess_bits(n)),
        n < 0x20_0000_0000_0000 * pow2(excess_bits(n)),
        excess_bits(n) > 0 ==> 0x10_0000_0000_0000 * pow2(excess_bits(n)) <= n,
    decreases n,
{
    lemma2_to64();
    lemma_pow2_pos(excess_bits(n));
    if n >= 0x20_0000_0000_0000 {
        excess_is(n / 2);
        lemma_pow2_unfold(excess_bits(n));
    }
}

proof fn excess_grows(m: nat, n: nat)
    requires
        m <= n,
    ensures
        excess_bits(m) <= excess_bits(n),
{
    excess_is(m);
    excess_is(n);
    if excess_bits(n) < excess_bits(m) {
        powers_double(excess_bits(n), excess_bits(m));
    }
}

/// A number with at most 53 bits is a double.
proof fn small_is_double(n: nat)
    requires
        n < 0x20_0000_0000_0000,
    ensures
        as_double(n) == n,
{
    lemma2_to64();
    assert(excess_bits(n) == 0);
    assert(round_half_even(n, 1) == n);
    assert(n * 1 == n);
}

/// The double nearest to a larger number is not less.
pub proof fn law_doubles_grow(m: nat, n: nat)
    requires
        m <= n,
    ensures
        as_double(m) <= as_double(n),
{
    excess_is(m);
    excess_is(n);
    excess_grows(m, n);
    let p = pow2(excess_bits(m));
    let q = pow2(excess_bits(n));
    let a = round_half_even(m, p);
    let b = round_half_even(n, q);
    if excess_bits(m) == excess_bits(n) {
        assert(m * p <= n * p) by (nonlinear_arith)
            requires
                m <= n,
        ;
        rounding_grows(m, p, n, p);
        assert(a * p <= b * p) by (nonlinear_arith)
            requires
                a <= b,
        ;
    } else {
        powers_double(excess_bits(m), excess_bits(n));
        rounding_stops(m, p, 0x20_0000_0000_0000);
        rounding_stops(n, q, 0x10_0000_0000_0000);
        assert(a * p <= b * q) by (nonlinear_arith)
            requires
                a <= 0x20_0000_0000_0000,
                0x10_0000_0000_0000 <= b,
                2 * p <= q,
        ;
    }
}

/// How far `num / den` is scaled up to have 53 bits before the point.
proof fn places_are(num: nat, den: nat)
    requires
        0 < num < 0x20_0000_0000_0000 * den,
    ensures
        0 < pow2(binary_places(num, den)),
        0x10_0000_0000_0000 * den <= num * pow2(binary_places(num, den)),
        num * pow2(binary_places(num, den)) < 0x20_0000_0000_0000 * den,
    decreases 0x20_0000_0000_0000 * den - num,
{
    lemma2_to64();
    lemma_pow2_pos(binary_places(num, den));
    if num < 0x10_0000_0000_0000 * den {
        let k = binary_places(2 * num, den);
        places_are(2 * num, den);
        lemma_pow2_unfold(k + 1);
        assert(num * (2 * pow2(k)) == (2 * num) * pow2(k)) by (nonlinear_arith);
    } else {
        assert(num * pow2(0) == num);
    }
}

/// A small quotient has no bits beyond 53 before the point, and a large one is not
/// scaled up.
proof fn parts_of_quotient(num: nat, den: nat)
    requires
        0 < num,
        0 < den,
    ensures
        num < 0x20_0000_0000_0000 * den ==> pow2(excess_bits(num / den)) == 1,
        num >= 0x20_0000_0000_0000 * den ==> {
            let down = pow2(excess_bits(num / den));
            &&& pow2(binary_places(num, den)) == 1
            &&& excess_bits(num / den) > 0
            &&& 2 <= down
            &&& 0x10_0000_0000_0000 * (den * down) <= num <= 0x20_0000_0000_0000 * (den * down)
        },
{
    lemma2_to64();
    let whole = num / den;
    vstd::arithmetic::div_mod::lemma_fundamental_div_mod(num as int, den as int);
    assert(den * whole <= num < den * (whole + 1)) by (nonlinear_arith)
        requires
            num == den * whole + num % den,
            0 <= num % den < den,
    ;
    excess_is(whole);
    let down = pow2(excess_bits(whole));
    if num < 0x20_0000_0000_0000 * den {
        assert(whole < 0x20_0000_0000_0000) by (nonlinear_arith)
            requires
                den * whole <= num,
                num < 0x20_0000_0000_0000 * den,
        ;
    } else {
        assert(whole >= 0x20_0000_0000_0000) by (nonlinear_arith)
            requires
                num < den * (whole + 1),
                num >= 0x20_0000_0000_0000 * den,
        ;
        powers_double(0, excess_bits(whole));
        assert(0x10_0000_0000_0000 * (den * down) <= num) by (nonlinear_arith)
            requires
                0x10_0000_0000_0000 * down <= whole,
                den * whole <= num,
        ;
        assert(num <= 0x20_0000_0000_0000 * (den * down)) by (nonlinear_arith)
            requires
                whole + 1 <= 0x20_0000_0000_0000 * down,
                num < den * (whole + 1),
        ;
    }
}

proof fn scaled_grows(m: nat, down: nat, up: nat, n: nat, deep: nat, high: nat, scale: nat)
    requires
        0 < up,
        0 < high,
        (m * down) * high <= (n * deep) * up,
    ensures
        round_half_even(m * down * scale, up) <= round_half_even(n * deep * scale, high),
{
    let a = m * down;
    let b = n * deep;
    assert((a * scale) * high <= (b * scale) * up) by (nonlinear_arith)
        requires
            a * high <= b * up,
    ;
    rounding_grows(a * scale, up, b * scale, high);
}

proof fn small_quotients_grow(x: nat, y: nat, den: nat, scale: nat)
    requires
        0 < x <= y < 0x20_0000_0000_0000 * den,
    ensures
        double_scaled(x, den, scale) <= double_scaled(y, den, scale),
{
    let u = pow2(binary_places(x, den));
    let v = pow2(binary_places(y, den));
    let m = round_half_even(x * u, den);
    let n = round_half_even(y * v, den);
    parts_of_quotient(x, den);
    parts_of_quotient(y, den);
    places_are(x, den);
    places_are(y, den);
    if binary_places(x, den) < binary_places(y, den) {
        powers_double(binary_places(x, den), binary_places(y, den));
        assert(y * v >= 2 * (x * u)) by (nonlinear_arith)
            requires
                x <= y,
                2 * u <= v,
        ;
    }
    if binary_places(x, den) == binary_places(y, den) {
        assert((x * u) * den <= (y * u) * den) by (nonlinear_arith)
            requires
                x <= y,
        ;
        rounding_grows(x * u, den, y * u, den);
        assert(m * v <= n * u) by (nonlinear_arith)
            requires
                m <= n,
                u == v,
        ;
    } else {
        powers_double(binary_places(y, den), binary_places(x, den));
        rounding_stops(x * u, den, 0x20_0000_0000_0000);
        rounding_stops(y * v, den, 0x10_0000_0000_0000);
        assert(m * v <= n * u) by (nonlinear_arith)
            requires
                m <= 0x20_0000_0000_0000,
                0x10_0000_0000_0000 <= n,
                2 * v <= u,
        ;
    }
    assert(den * 1 == den);
    assert(m * 1 == m && n * 1 == n);
    scaled_grows(m, 1, u, n, 1, v, scale);
}

proof fn large_quotients_grow(x: nat, y: nat, den: nat, scale: nat)
    requires
        0 < den,
        0 < x <= y,
        0x20_0000_0000_0000 * den <= y,
    ensures
        double_scaled(x, den, scale) <= double_scaled(y, den, scale),
{
    let u = pow2(binary_places(x, den));
    let p = pow2(excess_bits(x / den));
    let q = pow2(excess_bits(y / den));
    let m = round_half_even(x * u, den * p);
    let n = round_half_even(y * 1, den * q);
    parts_of_quotient(x, den);
    parts_of_quotient(y, den);
    assert(den * q > 0) by (nonlinear_arith)
        requires
            0 < den,
            2 <= q,
    ;
    rounding_stops(y, den * q, 0x10_0000_0000_0000);
    assert(y * 1 == y);
    if x < 0x20_0000_0000_0000 * den {
        places_are(x, den);
        assert(den * 1 == den);
        rounding_stops(x * u, den, 0x20_0000_0000_0000);
        assert((m * p) * 1 <= (n * q) * u) by (nonlinear_arith)
            requires
                p == 1,
                m <= 0x20_0000_0000_0000,
                0x10_0000_0000_0000 <= n,
                2 <= q,
                1 <= u,
        ;
    } else {
        assert(x * 1 == x);
        excess_is(x / den);
        vstd::arithmetic::div_mod::lemma_div_is_ordered(x as int, y as int, den as int);
        excess_grows(x / den, y / den);
        assert(den * p > 0) by (nonlinear_arith)
            requires
                0 < den,
                2 <= p,
        ;
        if excess_bits(x / den) == excess_bits(y / den) {
            assert(x * (den * p) <= y * (den * p)) by (nonlinear_arith)
                requires
                    x <= y,
            ;
            rounding_grows(x, den * p, y, den * p);
            assert((m * p) * 1 <= (n * q) * u) by (nonlinear_arith)
                requires
                    m <= n,
                    p == q,
                    u == 1,
            ;
        } else {
            powers_double(excess_bits(x / den), excess_bits(y / den));
            rounding_stops(x, den * p, 0x20_0000_0000_0000);
            assert((m * p) * 1 <= (n * q) * u) by (nonlinear_arith)
                requires
                    m <= 0x20_0000_0000_0000,
                    0x10_0000_0000_0000 <= n,
                    2 * p <= q,
                    u == 1,
            ;
        }
    }
    scaled_grows(m, p, u, n, q, 1, scale);
}

/// A larger number divided by the same one is not shown as less.
pub proof fn law_quotients_grow(x: nat, y: nat, den: nat, scale: nat)
    requires
        0 < den,
        0 < x <= y,
    ensures
        double_scaled(x, den, scale) <= double_scaled(y, den, scale),
{
    if y < 0x20_0000_0000_0000 * den {
        small_quotients_grow(x, y, den, scale);
    } else {
        large_quotients_grow(x, y, den, scale);
    }
}

/// A multiple of the divisor is shown exactly, if it has at most 53 bits.
pub proof fn law_multiples_exact(k: nat, den: nat, scale: nat)
    requires
        0 < den,
        0 < k < 0x20_0000_0000_0000,
    ensures
        double_scaled(k * den, den, scale) == k * scale,
{
    let x = k * den;
    assert(0 < x < 0x20_0000_0000_0000 * den) by (nonlinear_arith)
        requires
            x == k * den,
            0 < den,
            0 < k < 0x20_0000_0000_0000,
    ;
    parts_of_quotient(x, den);
    places_are(x, den);
    let u = pow2(binary_places(x, den));
    assert(den * 1 == den);
    assert(x * u == (k * u) * den) by (nonlinear_arith)
        requires
            x == k * den,
    ;
    rounding_stops(x * u, den, k * u);
    assert((k * u) * 1 * scale == (k * scale) * u) by (nonlinear_arith);
    rounding_stops((k * u) * 1 * scale, u, k * scale);
}

/// The digit that a character stands for.
pub open spec fn digit_value(c: char) -> int {
    c as int - 48
}

/// The number that a text in decimal notation shows.
pub open spec fn digits_value(s: Seq<char>) -> int
    decreases s.len(),
{
    if s.len() == 0 {
        0
    } else {
        10 * digits_value(s.drop_last()) + digit_value(s.last())
    }
}

/// Decimal notation shows the number that it was made from.
pub proof fn law_decimal_shows(n: nat)
    ensures
        digits_value(decimal_digits(n)) == n,
        decimal_digits(n).len() > 0,
        48 <= decimal_digits(n).last() as int <= 57,
    decreases n,
{
    if n < 10 {
        assert(decimal_digits(n).drop_last() =~= Seq::empty());
        assert(digits_value(Seq::empty()) == 0);
    } else {
        law_decimal_shows(n / 10);
        assert(decimal_digits(n).drop_last() =~= decimal_digits(n / 10));
    }
}

/// The number of tenths that a text with one decimal place shows.
pub open spec fn tenths_value(s: Seq<char>) -> int {
    10 * digits_value(s.take(s.len() - 2)) + digit_value(s.last())
}

/// The number of tokens that a text shows, with its unit.
pub open spec fn tokens_value(s: Seq<char>) -> int {
    if s.last() == 'B' {
        tenths_value(s.drop_last()) * 100_000_000
    } else if s.last() == 'M' {
        tenths_value(s.drop_last()) * 100_000
    } else if s.last() == 'K' {
        tenths_value(s.drop_last()) * 100
    } else {
        digits_value(s)
    }
}

proof fn tenths_shown(tenths: nat)
    ensures
        tenths_value(tenths_text(tenths)) == tenths,
{
    let s = tenths_text(tenths);
    law_decimal_shows(tenths / 10);
    assert(s.take(s.len() - 2) =~= decimal_digits(tenths / 10));
}

/// A larger number is not shown with fewer tenths of a unit.
proof fn tenths_grow(m: nat, n: nat, unit: nat)
    requires
        0 < unit <= m <= n,
    ensures
        double_scaled(as_double(m), unit, 10) <= double_scaled(as_double(n), unit, 10),
{
    law_doubles_grow(m, n);
    law_doubles_grow(1, m);
    small_is_double(1);
    law_quotients_grow(as_double(m), as_double(n), unit, 10);
}

proof fn whole_units(unit: nat, k: nat)
    requires
        0 < unit,
        0 < k,
        k * unit < 0x20_0000_0000_0000,
    ensures
        double_scaled(as_double(k * unit), unit, 10) == 10 * k,
{
    assert(k < 0x20_0000_0000_0000) by (nonlinear_arith)
        requires
            0 < unit,
            k * unit < 0x20_0000_0000_0000,
    ;
    small_is_double(k * unit);
    law_multiples_exact(k, unit, 10);
}

proof fn tokens_shown(n: nat)
    ensures
        tokens_value(tokens_text(n)) == if n >= 1_000_000_000 {
            double_scaled(as_double(n), 1_000_000_000, 10) * 100_000_000
        } else if n >= 1_000_000 {
            double_scaled(as_double(n), 1_000_000, 10) * 100_000
        } else if n >= 1_000 {
            double_scaled(as_double(n), 1_000, 10) * 100
        } else {
            n
        },
{
    if n >= 1_000 {
        let unit: nat = if n >= 1_000_000_000 {
            1_000_000_000
        } else if n >= 1_000_000 {
            1_000_000
        } else {
            1_000
        };
        let tenths = double_scaled(as_double(n), unit, 10);
        tenths_shown(tenths);
        assert(tokens_text(n).drop_last() =~= tenths_text(tenths));
    } else {
        law_decimal_shows(n);
    }
}

/// A larger count of tokens is never shown as less, across a change of the unit
/// either.
pub proof fn law_tokens_grow(m: nat, n: nat)
    requires
        m <= n,
    ensures
        tokens_value(tokens_text(m)) <= tokens_value(tokens_text(n)),
{
    tokens_shown(m);
    tokens_shown(n);
    let billion: nat = 1_000_000_000;
    let million: nat = 1_000_000;
    let thousand: nat = 1_000;
    whole_units(billion, 1);
    whole_units(million, 1);
    whole_units(million, 1_000);
    whole_units(thousand, 1);
    whole_units(thousand, 1_000);
    if n >= billion {
        tenths_grow(billion, n, billion);
    } else if n >= million {
        tenths_grow(million, n, million);
    } else if n >= thousand {
        tenths_grow(thousand, n, thousand);
    }
    if m >= billion {
        tenths_grow(m, n, billion);
    } else if m >= million {
        if n >= billion {
            tenths_grow(m, billion, million);
        } else {
            tenths_grow(m, n, million);
        }
    } else if m >= thousand {
        if n >= million {
            tenths_grow(m, million, thousand);
        } else {
            tenths_grow(m, n, thousand);
        }
    }
}

/// The number of cents that a text of the form `$d.cc` shows.
pub open spec fn cents_value(s: Seq<char>) -> int {
    100 * digits_value(s.subrange(1, s.len() - 3)) + 10 * digit_value(s[s.len() - 2])
        + digit_value(s.last())
}

proof fn cents_shown(cents: nat)
    ensures
        cents_value(dollars_text(cents)) == cents,
{
    let s = dollars_text(cents);
    law_decimal_shows(cents / 100);
    assert(s.subrange(1, s.len() - 3) =~= decimal_digits(cents / 100));
}

/// A larger amount is never shown as less.
pub proof fn law_costs_grow(m: nat, n: nat)
    requires
        m <= n,
    ensures
        cents_value(cost_text(m)) <= cents_value(cost_text(n)),
{
    cents_shown(0);
    if n > 0 {
        cents_shown(double_scaled(n, 100_000_000, 100));
    }
    if m > 0 {
        cents_shown(double_scaled(m, 100_000_000, 100));
        law_quotients_grow(m, n, 100_000_000, 100);
    }
}

/// A number is written as what it has but for its last digit, and that digit.
pub proof fn law_decimal_form(n: nat)
    ensures
        n < 10 ==> decimal_digits(n).len() == 1,
        n >= 10 ==> decimal_digits(n).drop_last() == decimal_digits(n / 10),
        decimal_digits(n).last() as int == '0' as int + n % 10,
{
    if n >= 10 {
        assert(decimal_digits(n).drop_last() =~= decimal_digits(n / 10));
    }
}

/// A shown quotient is as near to the exact one as its last place allows, but for
/// what a double leaves out: one part in two to the 52nd power.
pub proof fn law_quotient_near(x: nat, den: nat, scale: nat)
    requires
        0 < x,
        0 < den,
    ensures
        ({
            let shown = double_scaled(x, den, scale) * den;
            let slack = 0x10_0000_0000_0000 * den + scale * x;
            &&& 0x20_0000_0000_0000 * (x * scale) <= 0x20_0000_0000_0000 * shown + slack
            &&& 0x20_0000_0000_0000 * shown <= 0x20_0000_0000_0000 * (x * scale) + slack
        }),
{
    let u = pow2(binary_places(x, den));
    let p = pow2(excess_bits(x / den));
    let d = den * p;
    let m = round_half_even(x * u, d);
    let r = double_scaled(x, den, scale);
    parts_of_quotient(x, den);
    lemma_pow2_pos(binary_places(x, den));
    lemma_pow2_pos(excess_bits(x / den));
    assert(d > 0) by (nonlinear_arith)
        requires
            d == den * p,
            0 < den,
            0 < p,
    ;
    rounded_is_near(x * u, d);
    rounded_is_near(m * p * scale, u);
    if x < 0x20_0000_0000_0000 * den {
        places_are(x, den);
        assert(den * 1 == den);
    } else {
        assert(x * 1 == x);
    }
    assert(0x10_0000_0000_0000 * d <= x * u);
    // Both bounds are multiplied by what is missing for a common divisor.
    let a = x * scale;
    let b = r * den;
    let c = m * d * scale;
    assert(2 * ((m * d) * scale) <= 2 * ((x * u) * scale) + d * scale && 2 * ((x * u) * scale) <= 2
        * ((m * d) * scale) + d * scale) by (nonlinear_arith)
        requires
            2 * (m * d) <= 2 * (x * u) + d,
            2 * (x * u) <= 2 * (m * d) + d,
    ;
    assert(2 * ((r * u) * den) <= 2 * ((m * p * scale) * den) + u * den && 2 * ((m * p * scale)
        * den) <= 2 * ((r * u) * den) + u * den) by (nonlinear_arith)
        requires
            2 * (r * u) <= 2 * (m * p * scale) + u,
            2 * (m * p * scale) <= 2 * (r * u) + u,
    ;
    assert((m * p * scale) * den == c) by (nonlinear_arith)
        requires
            c == m * d * scale,
            d == den * p,
    ;
    assert((x * u) * scale == a * u) by (nonlinear_arith)
        requires
            a == x * scale,
    ;
    assert((r * u) * den == b * u) by (nonlinear_arith)
        requires
            b == r * den,
    ;
    assert(0x10_0000_0000_0000 * (d * scale) <= (scale * x) * u) by (nonlinear_arith)
        requires
            0x10_0000_0000_0000 * d <= x * u,
    ;
    let slack = 0x10_0000_0000_0000 * den + scale * x;
    assert(slack * u == 0x10_0000_0000_0000 * (u * den) + (scale * x) * u) by (nonlinear_arith)
        requires
            slack == 0x10_0000_0000_0000 * den + scale * x,
    ;
    assert(0x20_0000_0000_0000 * (a * u) <= 0x20_0000_0000_0000 * (b * u) + slack * u);
    assert(0x20_0000_0000_0000 * (b * u) <= 0x20_0000_0000_0000 * (a * u) + slack * u);
    assert(0x20_0000_0000_0000 * a <= 0x20_0000_0000_0000 * b + slack) by (nonlinear_arith)
        requires
            0x20_0000_0000_0000 * (a * u) <= 0x20_0000_0000_0000 * (b * u) + slack * u,
            0 < u,
    ;
    assert(0x20_0000_0000_0000 * b <= 0x20_0000_0000_0000 * a + slack) by (nonlinear_arith)
        requires
            0x20_0000_0000_0000 * (b * u) <= 0x20_0000_0000_0000 * (a * u) + slack * u,
            0 < u,
    ;
}

/// A number and the double nearest to it are at most half a unit of the 53rd bit
/// apart.
pub proof fn law_double_near(n: nat)
    ensures
        0x20_0000_0000_0000 * as_double(n) <= 0x20_0000_0000_0000 * n + n,
        0x20_0000_0000_0000 * n <= 0x20_0000_0000_0000 * as_double(n) + n,
{
    excess_is(n);
    if excess_bits(n) == 0 {
        small_is_double(n);
    } else {
        rounded_is_near(n, pow2(excess_bits(n)));
    }
}

/// A count of tokens has a decimal point, one digit after it, and the unit that it
/// reaches; below a thousand it is written out.
pub proof fn law_tokens_form(n: nat)
    ensures
        n < 1_000 ==> tokens_text(n) == decimal_digits(n),
        1_000 <= n < 1_000_000 ==> tokens_text(n).last() == 'K',
        1_000_000 <= n < 1_000_000_000 ==> tokens_text(n).last() == 'M',
        1_000_000_000 <= n ==> tokens_text(n).last() == 'B',
        1_000 <= n ==> tokens_text(n)[tokens_text(n).len() - 3] == '.',
{
}

/// A count of tokens is shown as near as one decimal place of its unit allows, but
/// for what doubles leave out.
pub proof fn law_tokens_near(n: nat)
    ensures
        ({
            let shown = tokens_value(tokens_text(n));
            let unit: int = if n >= 1_000_000_000 {
                1_000_000_000
            } else if n >= 1_000_000 {
                1_000_000
            } else if n >= 1_000 {
                1_000
            } else {
                0
            };
            let slack = 0x10_0000_0000_0000 * unit + 30 * n;
            &&& n < 1_000 ==> shown == n
            &&& 20 * (0x10_0000_0000_0000 * shown) <= 20 * (0x10_0000_0000_0000 * n) + slack
            &&& 20 * (0x10_0000_0000_0000 * n) <= 20 * (0x10_0000_0000_0000 * shown) + slack
        }),
{
    tokens_shown(n);
    if n >= 1_000 {
        let unit: nat = if n >= 1_000_000_000 {
            1_000_000_000
        } else if n >= 1_000_000 {
            1_000_000
        } else {
            1_000
        };
        let x = as_double(n);
        law_double_near(n);
        small_is_double(1);
        law_doubles_grow(1, n);
        law_quotient_near(x, unit, 10);
    }
}

/// An amount has a dollar sign in front and two digits after the point.
pub proof fn law_cost_form(n: nat)
    ensures
        cost_text(n)[0] == '$',
        cost_text(n)[cost_text(n).len() - 3] == '.',
{
    law_decimal_shows(double_scaled(n, 100_000_000, 100) / 100);
    law_decimal_shows(0);
}

/// An amount of microcents is shown to the nearest cent, but for what a double
/// leaves out.
pub proof fn law_cost_near(n: nat)
    ensures
        ({
            let shown = cents_value(cost_text(n)) * 1_000_000;
            let slack = 0x10_0000_0000_0000 * 1_000_000 + n;
            &&& 0x20_0000_0000_0000 * shown <= 0x20_0000_0000_0000 * n + slack
            &&& 0x20_0000_0000_0000 * n <= 0x20_0000_0000_0000 * shown + slack
        }),
{
    if n == 0 {
        cents_shown(0);
    } else {
        cents_shown(double_scaled(n, 100_000_000, 100));
        law_quotient_near(n, 100_000_000, 100);
    }
}

/// Rounding gives the nearest integer, and of two that are equally near the even
/// one.
pub proof fn law_rounding(num: nat, den: nat)
    requires
        0 < den,
    ensures
        ({
            let k = round_half_even(num, den);
            &&& 2 * (k * den) <= 2 * num + den
            &&& 2 * num <= 2 * (k * den) + den
            &&& 2 * (k * den) == 2 * num + den || 2 * num == 2 * (k * den) + den ==> k % 2 == 0
        }),
{
    rounded_is_near(num, den);
}

/// A quotient is rounded twice: to the nearest number `m * 2^down / 2^up` whose
/// `m` has 53 bits, and that number, scaled, to the nearest integer. Ties go to the
/// even neighbour both times.
pub proof fn law_quotient_is_double(x: nat, den: nat, scale: nat)
    requires
        0 < x,
        0 < den,
    ensures
        exists|m: nat, up: nat, down: nat|
            {
                let a = x * pow2(up);
                let b = den * pow2(down);
                let c = #[trigger] (m * pow2(down)) * scale;
                let k = double_scaled(x, den, scale);
                &&& 0x10_0000_0000_0000 <= m <= 0x20_0000_0000_0000
                &&& up == 0 || down == 0
                &&& 2 * (m * b) <= 2 * a + b
                &&& 2 * a <= 2 * (m * b) + b
                &&& 2 * (m * b) == 2 * a + b || 2 * a == 2 * (m * b) + b ==> m % 2 == 0
                &&& 2 * (k * #[trigger] pow2(up)) <= 2 * c + pow2(up)
                &&& 2 * c <= 2 * (k * pow2(up)) + pow2(up)
                &&& 2 * (k * pow2(up)) == 2 * c + pow2(up) || 2 * c == 2 * (k * pow2(up)) + pow2(up)
                    ==> k % 2 == 0
            },
{
    let up = binary_places(x, den);
    let down = excess_bits(x / den);
    let u = pow2(up);
    let p = pow2(down);
    let m = round_half_even(x * u, den * p);
    parts_of_quotient(x, den);
    lemma_pow2_pos(up);
    lemma_pow2_pos(down);
    assert(den * p > 0) by (nonlinear_arith)
        requires
            0 < den,
            0 < p,
    ;
    rounded_is_near(x * u, den * p);
    rounded_is_near(m * p * scale, u);
    if x < 0x20_0000_0000_0000 * den {
        places_are(x, den);
        excess_is(x / den);
        assert(down == 0) by {
            if down > 0 {
                powers_double(0, down);
                lemma2_to64();
            }
        }
        assert(den * 1 == den);
        rounding_stops(x * u, den, 0x10_0000_0000_0000);
        rounding_stops(x * u, den, 0x20_0000_0000_0000);
    } else {
        assert(x * 1 == x);
        assert(up == 0) by {
            if up > 0 {
                powers_double(0, up);
                lemma2_to64();
            }
        }
        rounding_stops(x, den * p, 0x10_0000_0000_0000);
        rounding_stops(x, den * p, 0x20_0000_0000_0000);
    }
    assert(m * pow2(down) == m * p);
}

/// A double has at most 53 bits before its zeros.
pub proof fn law_double_bits(n: nat)
    ensures
        exists|m: nat, e: nat|
            m <= 0x20_0000_0000_0000 && as_double(n) == #[trigger] (m * pow2(e)),
{
    let e = excess_bits(n);
    let m = round_half_even(n, pow2(e));
    excess_is(n);
    rounding_stops(n, pow2(e), 0x20_0000_0000_0000);
    assert(as_double(n) == m * pow2(e));
}

} // verus!
