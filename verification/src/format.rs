//! Numbers for people: byte counts, rates, times and percentages.
//!
//! The texts are those of double-precision arithmetic: an integer becomes the
//! nearest number with a mantissa of 53 bits, a quotient is rounded the same
//! way, and the decimal text is the nearest one. Ties go to the even neighbour.
//! All of it is computed with integers.

use vstd::arithmetic::power2::pow2;
use vstd::prelude::*;

use crate::model::Progress;
use crate::text::{
    dec, dec_pad, owned, pad_end, pad_start, padded_end, padded_start, push_dec, push_dec_big,
    push_dec_pad,
};

verus! {

// ---------------------------------------------------------------------------
// Rounding
// ---------------------------------------------------------------------------

/// The integer nearest to `num / den`; of two that are equally near, the even
/// one.
pub open spec fn nearest(num: nat, den: nat) -> nat {
    let q = num / den;
    let r = num % den;
    if 2 * r < den || (2 * r == den && q % 2 == 0) {
        q
    } else {
        q + 1
    }
}

fn nearest_div(num: u128, den: u128) -> (r: u128)
    requires
        den > 0,
    ensures
        r as nat == nearest(num as nat, den as nat),
{
    let q: u128 = num / den;
    let rest: u128 = num % den;
    assert(den >= 2 ==> 2 * q <= num) by (nonlinear_arith)
        requires
            q == num / den,
            den > 0,
    ;
    assert(rest > 0 ==> den >= 2);
    if rest < den - rest || (rest == den - rest && q % 2 == 0) {
        q
    } else {
        q + 1
    }
}

/// A number `m * 2^e`.
#[derive(Debug, Clone, Copy)]
pub struct Float {
    pub m: u64,
    pub e: i64,
}

/// How many low bits a mantissa of 53 bits has no room for.
pub open spec fn excess(n: nat) -> nat
    decreases n,
{
    if n < 0x20_0000_0000_0000 {
        0
    } else {
        1 + excess(n / 2)
    }
}

/// The mantissa of `n` as a floating-point number.
pub open spec fn mantissa(n: nat) -> nat {
    nearest(n, pow2(excess(n)))
}

/// The places by which `a` is shifted so that its quotient by `b` has 53 bits.
pub open spec fn shift(a: nat, b: nat) -> nat
    decreases
            (if a < 0x10_0000_0000_0000 * b {
                0x10_0000_0000_0000 * b - a
            } else {
                0
            }),
{
    if a == 0 || a >= 0x10_0000_0000_0000 * b {
        0
    } else {
        1 + shift(2 * a, b)
    }
}

/// The mantissa of the floating-point quotient of `a` by `b`.
pub open spec fn quotient(a: nat, b: nat) -> nat {
    nearest(a * pow2(shift(a, b)), b)
}

/// `m * 2^e` times `factor`, as the nearest integer.
pub open spec fn scaled(m: nat, e: int, factor: nat) -> nat {
    if e >= 0 {
        m * factor * pow2(e as nat)
    } else {
        nearest(m * factor, pow2((-e) as nat))
    }
}

pub proof fn lemma_pow2_step(n: nat)
    ensures
        pow2(n + 1) == 2 * pow2(n),
        pow2(n) > 0,
        pow2(0) == 1,
{
    vstd::arithmetic::power2::lemma_pow2_unfold(n + 1);
    vstd::arithmetic::power2::lemma_pow2_pos(n);
    vstd::arithmetic::power2::lemma2_to64();
}

fn two_to(n: u32) -> (r: u128)
    requires
        n < 128,
    ensures
        r as nat == pow2(n as nat),
{
    let mut r: u128 = 1;
    let mut i: u32 = 0;
    proof {
        lemma_pow2_step(0);
    }
    while i < n
        invariant
            i <= n < 128,
            r as nat == pow2(i as nat),
        decreases n - i,
    {
        proof {
            lemma_pow2_step(i as nat);
            lemma_pow2_bound((i + 1) as nat, 127);
        }
        r = r * 2;
        i = i + 1;
    }
    r
}

proof fn lemma_pow2_bound(n: nat, k: nat)
    requires
        n <= k <= 127,
    ensures
        pow2(n) <= pow2(k) <= 0x8000_0000_0000_0000_0000_0000_0000_0000,
    decreases 127 - n,
{
    if n < k {
        lemma_pow2_step(n);
        lemma_pow2_bound(n + 1, k);
    } else if k < 127 {
        lemma_pow2_step(k);
        lemma_pow2_bound(k + 1, k + 1);
    } else {
        vstd::arithmetic::power2::lemma2_to64();
        vstd::arithmetic::power2::lemma2_to64_rest();
        vstd::arithmetic::power2::lemma_pow2_adds(64, 63);
        assert(0x1_0000_0000_0000_0000 * 0x8000_0000_0000_0000
            == 0x8000_0000_0000_0000_0000_0000_0000_0000);
    }
}

pub proof fn lemma_excess_bound(n: nat, k: nat)
    requires
        n < 0x20_0000_0000_0000 * pow2(k),
    ensures
        excess(n) <= k,
    decreases n,
{
    if n >= 0x20_0000_0000_0000 {
        if k == 0 {
            lemma_pow2_step(0);
        } else {
            lemma_pow2_step((k - 1) as nat);
            lemma_excess_bound(n / 2, (k - 1) as nat);
        }
    }
}

proof fn lemma_excess_fits(n: nat)
    ensures
        n < 0x20_0000_0000_0000 * pow2(excess(n)),
    decreases n,
{
    if n >= 0x20_0000_0000_0000 {
        lemma_excess_fits(n / 2);
        lemma_pow2_step(excess(n / 2));
    } else {
        lemma_pow2_step(0);
    }
}

proof fn lemma_mantissa_bound(n: nat)
    ensures
        mantissa(n) <= 0x20_0000_0000_0000,
        n > 0 ==> mantissa(n) > 0,
{
    let d = pow2(excess(n));
    lemma_excess_fits(n);
    lemma_pow2_step(excess(n));
    assert(n / d < 0x20_0000_0000_0000) by (nonlinear_arith)
        requires
            n < 0x20_0000_0000_0000 * d,
            d > 0,
    ;
    if n > 0 {
        if n >= 0x20_0000_0000_0000 {
            lemma_excess_low(n);
            assert(n / d > 0) by (nonlinear_arith)
                requires
                    n >= d,
                    d > 0,
            ;
        } else {
            assert(excess(n) == 0);
            lemma_pow2_step(0);
            assert(n / d == n) by (nonlinear_arith)
                requires
                    d == 1,
            ;
        }
    }
}

proof fn lemma_excess_low(n: nat)
    requires
        n >= 0x20_0000_0000_0000,
    ensures
        n >= pow2(excess(n)),
    decreases n,
{
    lemma_pow2_step(excess(n / 2));
    if n / 2 >= 0x20_0000_0000_0000 {
        lemma_excess_low(n / 2);
    } else {
        lemma_pow2_step(0);
    }
}

/// The floating-point number nearest to `n`.
fn float_of(n: u128) -> (r: Float)
    ensures
        r.m as nat == mantissa(n as nat),
        r.e == excess(n as nat),
        r.m <= 0x20_0000_0000_0000,
        0 <= r.e <= 75,
        n > 0 ==> r.m > 0,
{
    let mut x: u128 = n;
    let mut e: u32 = 0;
    proof {
        lemma_pow2_step(0);
        vstd::arithmetic::power2::lemma2_to64();
        vstd::arithmetic::power2::lemma_pow2_adds(64, 11);
        lemma_excess_bound(n as nat, 75);
    }
    while x >= 0x20_0000_0000_0000
        invariant
            excess(n as nat) == e + excess(x as nat),
            excess(n as nat) <= 75,
        decreases x,
    {
        x = x / 2;
        e = e + 1;
    }
    let d = two_to(e);
    proof {
        lemma_mantissa_bound(n as nat);
        lemma_pow2_step(e as nat);
    }
    let m: u128 = nearest_div(n, d);
    Float { m: m as u64, e: e as i64 }
}

/// An integer as a floating-point number: its mantissa and its exponent.
pub open spec fn float_int(n: nat) -> (nat, int) {
    (mantissa(n), excess(n) as int)
}

/// The floating-point quotient of two floating-point numbers.
pub open spec fn float_ratio(a: (nat, int), b: (nat, int)) -> (nat, int) {
    (quotient(a.0, b.0), a.1 - b.1 - shift(a.0, b.0))
}

/// A floating-point number divided by 2^20, which is exact.
pub open spec fn in_mib(a: (nat, int)) -> (nat, int) {
    (a.0, a.1 - 20)
}

/// A floating-point number times a hundred.
pub open spec fn times_hundred(a: (nat, int)) -> (nat, int) {
    (mantissa(a.0 * 100), a.1 + excess(a.0 * 100))
}

pub proof fn lemma_shift_bounds(a: nat, b: nat, k: nat)
    requires
        a > 0,
        b > 0,
    ensures
        a * pow2(k) >= 0x10_0000_0000_0000 * b ==> shift(a, b) <= k,
        a * pow2(k) < 0x10_0000_0000_0000 * b ==> shift(a, b) > k,
    decreases k,
{
    lemma_pow2_step(0);
    if k > 0 {
        lemma_pow2_step((k - 1) as nat);
        let p = pow2((k - 1) as nat);
        assert(a * (2 * p) == (2 * a) * p) by (nonlinear_arith);
        assert(a * p >= a) by (nonlinear_arith)
            requires
                p > 0,
        ;
        lemma_shift_bounds(2 * a, b, (k - 1) as nat);
    }
}

proof fn lemma_shift_fits(a: nat, b: nat)
    requires
        0 < a <= 0x20_0000_0000_0000 * b,
    ensures
        0x10_0000_0000_0000 * b <= a * pow2(shift(a, b)) <= 0x20_0000_0000_0000 * b,
    decreases shift(a, b),
{
    lemma_pow2_step(0);
    if a < 0x10_0000_0000_0000 * b {
        let s = shift(2 * a, b);
        lemma_pow2_step(s);
        let p = pow2(s);
        assert(a * (2 * p) == (2 * a) * p) by (nonlinear_arith);
        lemma_shift_fits(2 * a, b);
    } else {
        let one = pow2(0);
        assert(a * one == a) by (nonlinear_arith)
            requires
                one == 1,
        ;
    }
}

pub proof fn lemma_quotient_bounds(a: nat, b: nat)
    requires
        0 < a <= 0x20_0000_0000_0000,
        0 < b,
    ensures
        0x10_0000_0000_0000 <= quotient(a, b) <= 0x20_0000_0000_0000,
{
    assert(a <= 0x20_0000_0000_0000 * b) by (nonlinear_arith)
        requires
            a <= 0x20_0000_0000_0000,
            b > 0,
    ;
    lemma_shift_fits(a, b);
    let x = a * pow2(shift(a, b));
    assert(0x10_0000_0000_0000 <= x / b <= 0x20_0000_0000_0000 && (x / b == 0x20_0000_0000_0000
        ==> x % b == 0)) by (nonlinear_arith)
        requires
            0x10_0000_0000_0000 * b <= x <= 0x20_0000_0000_0000 * b,
            b > 0,
    ;
}

/// Divides two floating-point numbers.
fn divide(a: Float, b: Float) -> (r: Float)
    requires
        0 < a.m <= 0x20_0000_0000_0000,
        0 < b.m <= 0x20_0000_0000_0000,
        -1000 <= a.e <= 1000,
        -1000 <= b.e <= 1000,
    ensures
        (r.m as nat, r.e as int) == float_ratio((a.m as nat, a.e as int), (b.m as nat, b.e as int)),
        0x10_0000_0000_0000 <= r.m <= 0x20_0000_0000_0000,
        a.e - b.e - 105 <= r.e <= a.e - b.e,
{
    let den: u128 = b.m as u128;
    let bound: u128 = 0x10_0000_0000_0000 * den;
    let mut x: u128 = a.m as u128;
    let mut s: i64 = 0;
    proof {
        lemma_pow2_step(0);
        vstd::arithmetic::power2::lemma2_to64();
        vstd::arithmetic::power2::lemma2_to64_rest();
        vstd::arithmetic::power2::lemma_pow2_adds(53, 52);
        let p = pow2(105);
        assert(p == 0x20_0000_0000_0000 * 0x10_0000_0000_0000);
        assert(a.m * p >= p) by (nonlinear_arith)
            requires
                a.m > 0,
                p > 0,
        ;
        assert(0x10_0000_0000_0000 * b.m <= 0x10_0000_0000_0000 * 0x20_0000_0000_0000);
        lemma_shift_bounds(a.m as nat, b.m as nat, 105);
        lemma_quotient_bounds(a.m as nat, b.m as nat);
        let one = pow2(0);
        let m = a.m as nat;
        assert(m * one == m) by (nonlinear_arith)
            requires
                one == 1,
        ;
    }
    while x < bound
        invariant
            0 < x <= 2 * bound || x <= 0x20_0000_0000_0000,
            x > 0,
            0 <= s,
            bound == 0x10_0000_0000_0000 * den,
            den == b.m,
            0 < b.m <= 0x20_0000_0000_0000,
            x as nat == a.m * pow2(s as nat),
            shift(a.m as nat, b.m as nat) == s + shift(x as nat, b.m as nat),
            shift(a.m as nat, b.m as nat) <= 105,
        decreases 105 - s,
    {
        proof {
            lemma_pow2_step(s as nat);
            let p = pow2(s as nat);
            let m = a.m as nat;
            assert(m * (2 * p) == 2 * (m * p)) by (nonlinear_arith);
        }
        x = x * 2;
        s = s + 1;
    }
    let m: u128 = nearest_div(x, den);
    Float { m: m as u64, e: a.e - b.e - s }
}

/// Multiplies a floating-point number by a hundred.
fn hundredfold(a: Float) -> (r: Float)
    requires
        a.m <= 0x20_0000_0000_0000,
        -1000 <= a.e <= 1000,
    ensures
        (r.m as nat, r.e as int) == times_hundred((a.m as nat, a.e as int)),
        r.m <= 0x20_0000_0000_0000,
        a.e <= r.e <= a.e + 75,
{
    let f = float_of(a.m as u128 * 100);
    Float { m: f.m, e: a.e + f.e }
}

/// `f * factor` as the nearest integer.
fn scale(f: Float, factor: u64) -> (r: u128)
    requires
        f.m <= 0x20_0000_0000_0000,
        1 <= factor <= 100,
        -2000 <= f.e <= 67,
    ensures
        r as nat == scaled(f.m as nat, f.e as int, factor as nat),
{
    assert(f.m * factor <= 0x20_0000_0000_0000 * 100) by (nonlinear_arith)
        requires
            f.m <= 0x20_0000_0000_0000,
            factor <= 100,
    ;
    let x: u128 = f.m as u128 * factor as u128;
    if f.e >= 0 {
        let p = two_to(f.e as u32);
        proof {
            lemma_pow2_bound(f.e as nat, 67);
            vstd::arithmetic::power2::lemma2_to64();
            vstd::arithmetic::power2::lemma2_to64_rest();
            vstd::arithmetic::power2::lemma_pow2_adds(64, 3);
            assert(pow2(67) == 0x8_0000_0000_0000_0000);
            assert(x * p <= 0x20_0000_0000_0000 * 100 * 0x8_0000_0000_0000_0000) by (nonlinear_arith)
                requires
                    x <= 0x20_0000_0000_0000 * 100,
                    p <= 0x8_0000_0000_0000_0000,
            ;
        }
        x * p
    } else if f.e > -127 {
        let d = two_to((-f.e) as u32);
        proof {
            lemma_pow2_step((-f.e) as nat);
        }
        nearest_div(x, d)
    } else {
        proof {
            let n = (-f.e) as nat;
            let d = pow2(n);
            if n > 127 {
                vstd::arithmetic::power2::lemma_pow2_strictly_increases(127, n);
            }
            vstd::arithmetic::power2::lemma2_to64();
            vstd::arithmetic::power2::lemma2_to64_rest();
            vstd::arithmetic::power2::lemma_pow2_adds(64, 63);
            assert(d >= 0x1_0000_0000_0000_0000 * 0x8000_0000_0000_0000);
            let y = f.m * factor;
            assert(y == x);
            assert(y / (d as int) == 0 && y % (d as int) == y) by (nonlinear_arith)
                requires
                    0 <= y < d,
            ;
        }
        0
    }
}

// ---------------------------------------------------------------------------
// Texts
// ---------------------------------------------------------------------------

/// A number of units of one tenth, or one hundredth, as a decimal.
pub open spec fn fixed(n: nat, digits: nat) -> Seq<char> {
    if digits == 1 {
        dec(n / 10).push('.') + dec_pad(n % 10, 1)
    } else {
        dec(n / 100).push('.') + dec_pad(n % 100, 2)
    }
}

fn push_tenths(out: &mut String, n: u128)
    ensures
        final(out)@ == old(out)@ + fixed(n as nat, 1),
{
    push_dec_big(out, n / 10);
    out.push('.');
    push_dec_pad(out, (n % 10) as u64, 1);
    assert(out@ =~= old(out)@ + fixed(n as nat, 1));
}

fn push_hundredths(out: &mut String, n: u128)
    ensures
        final(out)@ == old(out)@ + fixed(n as nat, 2),
{
    push_dec_big(out, n / 100);
    out.push('.');
    push_dec_pad(out, (n % 100) as u64, 2);
    assert(out@ =~= old(out)@ + fixed(n as nat, 2));
}

/// `n` in units of 2^k, with one digit behind the point.
pub open spec fn tenths_of(n: nat, k: int) -> nat {
    scaled(mantissa(n), excess(n) - k, 10)
}

/// The text of a byte count.
pub open spec fn bytes_text(n: nat) -> Seq<char> {
    if n < 1024 {
        dec(n) + " B"@
    } else if n < 1_048_576 {
        fixed(tenths_of(n, 10), 1) + " KiB"@
    } else if n < 1_073_741_824 {
        fixed(tenths_of(n, 20), 1) + " MiB"@
    } else {
        fixed(scaled(mantissa(n), excess(n) - 30, 100), 2) + " GiB"@
    }
}

/// Formats a byte count with an appropriate unit.
#[must_use]
pub fn human_bytes(n: u64) -> (r: String)
    ensures
        r@ == bytes_text(n as nat),
{
    let mut s = String::new();
    if n < 1024 {
        push_dec(&mut s, n);
        s.push_str(" B");
        assert(s@ =~= bytes_text(n as nat));
        return s;
    }
    let f = float_of(n as u128);
    proof {
        lemma_small_excess(n);
    }
    if n < 1_048_576 {
        push_tenths(&mut s, scale(Float { m: f.m, e: f.e - 10 }, 10));
        s.push_str(" KiB");
    } else if n < 1_073_741_824 {
        push_tenths(&mut s, scale(Float { m: f.m, e: f.e - 20 }, 10));
        s.push_str(" MiB");
    } else {
        push_hundredths(&mut s, scale(Float { m: f.m, e: f.e - 30 }, 100));
        s.push_str(" GiB");
    }
    assert(s@ =~= bytes_text(n as nat));
    s
}

proof fn lemma_small_excess(n: u64)
    ensures
        excess(n as nat) <= 11,
{
    vstd::arithmetic::power2::lemma2_to64();
    lemma_excess_bound(n as nat, 11);
}

/// A rate in MiB per second, as a floating-point number.
pub open spec fn rate_float(bytes: nat, millis: nat) -> (nat, int) {
    float_ratio(in_mib(float_int(bytes)), float_ratio(float_int(millis), (1000, 0)))
}

fn rate_of(bytes: u64, millis: u128) -> (r: Float)
    requires
        bytes > 0,
        millis > 0,
    ensures
        (r.m as nat, r.e as int) == rate_float(bytes as nat, millis as nat),
        r.m <= 0x20_0000_0000_0000,
        -400 <= r.e <= 67,
{
    let b = float_of(bytes as u128);
    let t = float_of(millis);
    proof {
        lemma_small_excess(bytes);
        vstd::arithmetic::power2::lemma2_to64();
        vstd::arithmetic::power2::lemma2_to64_rest();
        let p = pow2(62);
        assert(t.m * p >= p) by (nonlinear_arith)
            requires
                t.m > 0,
                p > 0,
        ;
        lemma_shift_bounds(t.m as nat, 1000, 62);
    }
    let secs = divide(t, Float { m: 1000, e: 0 });
    divide(Float { m: b.m, e: b.e - 20 }, secs)
}

/// The text of a throughput.
pub open spec fn rate_text(bytes: nat, millis: nat) -> Seq<char> {
    if millis == 0 {
        "n/a"@
    } else {
        fixed(
            scaled(rate_float(bytes, millis).0, rate_float(bytes, millis).1, 100),
            2,
        ) + " MiB/s"@
    }
}

proof fn lemma_nearest_zero(d: nat)
    requires
        d > 0,
    ensures
        nearest(0, d) == 0,
{
    let z: int = 0;
    let k = d as int;
    assert(z / k == 0 && z % k == 0) by (nonlinear_arith)
        requires
            z == 0,
            k > 0,
    ;
}

proof fn lemma_scaled_zero(e: int, factor: nat)
    ensures
        scaled(0, e, factor) == 0,
{
    let z: nat = 0;
    assert(z * factor == 0) by (nonlinear_arith)
        requires
            z == 0,
    ;
    if e < 0 {
        lemma_pow2_step((-e) as nat);
        lemma_nearest_zero(pow2((-e) as nat));
    }
}

/// Zero divided is zero.
proof fn lemma_zero_float(b: (nat, int))
    requires
        b.0 > 0,
    ensures
        mantissa(0) == 0,
        float_ratio(float_int(0), b).0 == 0,
        float_ratio(in_mib(float_int(0)), b).0 == 0,
{
    lemma_pow2_step(0);
    lemma_nearest_zero(1);
    assert(excess(0) == 0);
    assert(shift(0, b.0) == 0);
    lemma_nearest_zero(b.0);
}

proof fn lemma_zero_rate(millis: nat, factor: nat)
    requires
        millis > 0,
    ensures
        scaled(rate_float(0, millis).0, rate_float(0, millis).1, factor) == 0,
{
    lemma_mantissa_bound(millis);
    lemma_quotient_bounds(mantissa(millis), 1000);
    lemma_zero_float(float_ratio(float_int(millis), (1000, 0)));
    lemma_scaled_zero(rate_float(0, millis).1, factor);
}

/// Formats a throughput given bytes and elapsed milliseconds.
#[must_use]
pub fn human_rate(bytes: u64, millis: u128) -> (r: String)
    ensures
        r@ == rate_text(bytes as nat, millis as nat),
{
    if millis == 0 {
        return owned("n/a");
    }
    let n: u128 = if bytes == 0 {
        proof {
            lemma_zero_rate(millis as nat, 100);
        }
        0
    } else {
        scale(rate_of(bytes, millis), 100)
    };
    let mut s = String::new();
    push_hundredths(&mut s, n);
    s.push_str(" MiB/s");
    assert(s@ =~= rate_text(bytes as nat, millis as nat));
    s
}

/// The text of a rate in bytes per second.
pub open spec fn speed_text(bps: nat) -> Seq<char> {
    if bps == 0 {
        "\u{2014}"@
    } else if bps >= 1_048_576 {
        fixed(tenths_of(bps, 20), 1) + " MiB/s"@
    } else {
        dec(scaled(mantissa(bps), excess(bps) - 10, 1)) + " KiB/s"@
    }
}

/// Formats a rate in bytes per second.
pub fn fmt_rate(bps: u64) -> (r: String)
    ensures
        r@ == speed_text(bps as nat),
{
    if bps == 0 {
        return owned("\u{2014}");
    }
    let f = float_of(bps as u128);
    proof {
        lemma_small_excess(bps);
    }
    let mut s = String::new();
    if bps >= 1_048_576 {
        push_tenths(&mut s, scale(Float { m: f.m, e: f.e - 20 }, 10));
        s.push_str(" MiB/s");
    } else {
        push_dec_big(&mut s, scale(Float { m: f.m, e: f.e - 10 }, 1));
        s.push_str(" KiB/s");
    }
    assert(s@ =~= speed_text(bps as nat));
    s
}

/// Two integers divided, with two digits behind the point.
pub open spec fn ratio_digits(num: nat, den: nat) -> Seq<char> {
    let q = float_ratio(float_int(num), float_int(den));
    fixed(scaled(q.0, q.1, 100), 2)
}

/// Divides two integers and gives two digits behind the point.
pub fn ratio_text(num: u64, den: u64) -> (r: String)
    requires
        den > 0,
    ensures
        r@ == ratio_digits(num as nat, den as nat),
{
    let b = float_of(den as u128);
    let n: u128 = if num == 0 {
        proof {
            lemma_mantissa_bound(den as nat);
            lemma_zero_ratio(float_int(den as nat));
        }
        0
    } else {
        let a = float_of(num as u128);
        proof {
            lemma_small_excess(num);
            lemma_small_excess(den);
        }
        scale(divide(a, b), 100)
    };
    let mut s = String::new();
    push_hundredths(&mut s, n);
    assert(s@ =~= ratio_digits(num as nat, den as nat));
    s
}

proof fn lemma_zero_ratio(b: (nat, int))
    requires
        b.0 > 0,
    ensures
        scaled(float_ratio(float_int(0), b).0, float_ratio(float_int(0), b).1, 100) == 0,
{
    lemma_zero_float(b);
    lemma_scaled_zero(float_ratio(float_int(0), b).1, 100);
}

/// The text of a time in seconds.
pub open spec fn secs_digits(millis: nat) -> Seq<char> {
    let q = float_ratio(float_int(millis), (1000, 0));
    fixed(scaled(q.0, q.1, 100), 2)
}

/// Formats a time in seconds, with two digits behind the point.
pub fn secs_text(millis: u128) -> (r: String)
    ensures
        r@ == secs_digits(millis as nat),
{
    let n: u128 = if millis == 0 {
        proof {
            lemma_zero_ratio((1000, 0));
        }
        0
    } else {
        let t = float_of(millis);
        proof {
            vstd::arithmetic::power2::lemma2_to64();
            lemma_shift_bounds(t.m as nat, 1000, 8);
        }
        scale(divide(t, Float { m: 1000, e: 0 }), 100)
    };
    let mut s = String::new();
    push_hundredths(&mut s, n);
    assert(s@ =~= secs_digits(millis as nat));
    s
}

// ---------------------------------------------------------------------------
// Progress
// ---------------------------------------------------------------------------

/// The percentage of a transfer, in tenths. A transfer of nothing is complete,
/// and none is more than complete.
pub open spec fn percent_tenths(p: Progress) -> nat {
    if p.total == 0 {
        1000
    } else {
        let done = if p.done <= p.total {
            p.done
        } else {
            p.total
        };
        let q = times_hundred(float_ratio(float_int(done as nat), float_int(p.total as nat)));
        scaled(q.0, q.1, 10)
    }
}

fn percent_of(p: &Progress) -> (r: u128)
    ensures
        r as nat == percent_tenths(*p),
{
    if p.total == 0 {
        return 1000;
    }
    let done = if p.done <= p.total {
        p.done
    } else {
        p.total
    };
    if done == 0 {
        proof {
            lemma_zero_percent(p.total as nat);
        }
        return 0;
    }
    let a = float_of(done as u128);
    let b = float_of(p.total as u128);
    proof {
        lemma_small_excess(done);
        lemma_small_excess(p.total);
    }
    let q = divide(a, b);
    let h = hundredfold(q);
    proof {
        vstd::arithmetic::power2::lemma2_to64();
        lemma_excess_bound((q.m * 100) as nat, 7);
    }
    scale(h, 10)
}

pub proof fn lemma_zero_percent(total: nat)
    requires
        total > 0,
    ensures
        ({
            let q = times_hundred(float_ratio(float_int(0), float_int(total)));
            scaled(q.0, q.1, 10) == 0
        }),
{
    lemma_mantissa_bound(total);
    lemma_zero_float(float_int(total));
    let q = times_hundred(float_ratio(float_int(0), float_int(total)));
    lemma_scaled_zero(q.1, 10);
}

/// The rate of a transfer in MiB per second, in tenths.
pub open spec fn rate_tenths(done: nat, millis: nat) -> nat {
    if millis == 0 {
        0
    } else {
        scaled(rate_float(done, millis).0, rate_float(done, millis).1, 10)
    }
}

/// The line that shows a transfer: its label, the percentage, the bytes
/// transferred and to transfer, and the rate.
pub open spec fn progress_text(label: Seq<char>, p: Progress, millis: nat) -> Seq<char> {
    "\r"@ + pad_end(label, 28) + " "@ + pad_start(fixed(percent_tenths(p), 1), 6) + "% "@
        + pad_start(bytes_text(p.done as nat), 9) + " / "@ + pad_end(
        bytes_text(p.total as nat),
        9,
    ) + " "@ + pad_start(fixed(rate_tenths(p.done as nat, millis), 1), 7) + " MiB/s "@
}

/// The line that shows a transfer.
pub fn progress_line(label: &str, p: &Progress, millis: u128) -> (r: String)
    ensures
        r@ == progress_text(label@, *p, millis as nat),
{
    let mut pct = String::new();
    push_tenths(&mut pct, percent_of(p));
    let rate: u128 = if millis == 0 {
        0
    } else if p.done == 0 {
        proof {
            lemma_zero_rate(millis as nat, 10);
        }
        0
    } else {
        scale(rate_of(p.done, millis), 10)
    };
    let mut speed = String::new();
    push_tenths(&mut speed, rate);
    assert(pct@ =~= fixed(percent_tenths(*p), 1));
    assert(speed@ =~= fixed(rate_tenths(p.done as nat, millis as nat), 1));
    let mut s = owned("\r");
    s.push_str(padded_end(label, 28).as_str());
    s.push_str(" ");
    s.push_str(padded_start(pct.as_str(), 6).as_str());
    s.push_str("% ");
    s.push_str(padded_start(human_bytes(p.done).as_str(), 9).as_str());
    s.push_str(" / ");
    s.push_str(padded_end(human_bytes(p.total).as_str(), 9).as_str());
    s.push_str(" ");
    s.push_str(padded_start(speed.as_str(), 7).as_str());
    s.push_str(" MiB/s ");
    s
}

} // verus!
