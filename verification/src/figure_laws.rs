//! How near the figures are to the numbers they stand for.

use vstd::arithmetic::power2::pow2;
use vstd::prelude::*;

use crate::format::{
    bytes_text, excess, fixed, float_int, float_ratio, lemma_excess_bound, lemma_pow2_step,
    lemma_quotient_bounds, lemma_shift_bounds, lemma_zero_percent, mantissa, nearest,
    percent_tenths, progress_text, quotient, rate_float, rate_tenths, rate_text, ratio_digits,
    scaled, secs_digits, shift, speed_text, tenths_of, times_hundred,
};
use crate::model::Progress;
use crate::text::{dec, dec_pad, digit_char, pad_end, pad_start};

verus! {

// ---------------------------------------------------------------------------
// Rounding
// ---------------------------------------------------------------------------

/// Rounding is off by half a unit at most.
proof fn lemma_near(num: nat, den: nat)
    requires
        den > 0,
    ensures
        -den <= 2 * (nearest(num, den) * den - num) <= den,
{
    let q = num / den;
    let r = num % den;
    vstd::arithmetic::div_mod::lemma_fundamental_div_mod(num as int, den as int);
    assert(den * q == q * den) by (nonlinear_arith);
    assert((q + 1) * den == q * den + den) by (nonlinear_arith);
}

proof fn lemma_spread(a: int, x: int, y: int)
    ensures
        a * (x - y) == a * x - a * y,
{
    vstd::arithmetic::mul::lemma_mul_is_distributive_sub(a, x, y);
}

/// A number below 2^53 is its own mantissa.
proof fn lemma_exact(n: nat)
    requires
        n < 0x20_0000_0000_0000,
    ensures
        mantissa(n) == n,
        excess(n) == 0,
{
    lemma_pow2_step(0);
    lemma_near(n, 1);
    let m = nearest(n, 1);
    assert(m * 1 == m) by (nonlinear_arith);
}

/// `n` in units of 2^k and shares of `f`: off by half a share, and where `n` has
/// more than 53 bits by what its mantissa leaves out.
proof fn lemma_in_units(n: nat, k: nat, f: nat)
    requires
        excess(n) < k,
    ensures
        ({
            let h = scaled(mantissa(n), excess(n) - k, f);
            let left = if excess(n) == 0 {
                0
            } else {
                f * pow2(excess(n))
            };
            -(pow2(k) + left) <= 2 * (h * pow2(k) - f * n) <= pow2(k) + left
        }),
{
    let x = excess(n);
    let p = pow2(x) as int;
    let d = pow2((k - x) as nat) as int;
    lemma_pow2_step(x);
    lemma_pow2_step((k - x) as nat);
    vstd::arithmetic::power2::lemma_pow2_adds(x, (k - x) as nat);
    let m = mantissa(n) as int;
    let h = scaled(mantissa(n), x - k, f) as int;
    lemma_near(n, p as nat);
    lemma_near((m * f) as nat, d as nat);
    let e1 = m * p - n;
    let e2 = h * d - m * f;
    let g = f as int;
    let c = n as int;
    assert(h * (p * d) - g * c == p * e2 + g * e1) by {
        lemma_spread(p, h * d, m * g);
        lemma_spread(g, m * p, c);
        assert(h * (p * d) == p * (h * d)) by (nonlinear_arith);
        assert(p * (m * g) == g * (m * p)) by (nonlinear_arith);
    }
    assert(-(p * d) <= 2 * (p * e2) <= p * d) by (nonlinear_arith)
        requires
            -d <= 2 * e2 <= d,
            p > 0,
    ;
    assert(-(g * p) <= 2 * (g * e1) <= g * p) by (nonlinear_arith)
        requires
            -p <= 2 * e1 <= p,
            g >= 0,
    ;
    if x == 0 {
        lemma_pow2_step(0);
        assert(e1 == 0);
        assert(g * e1 == 0) by (nonlinear_arith)
            requires
                e1 == 0,
        ;
    }
}

proof fn lemma_small(n: u64)
    ensures
        excess(n as nat) <= 11,
        pow2(excess(n as nat)) <= 2048,
        n < 0x20_0000_0000_0000 ==> excess(n as nat) == 0,
        pow2(10) == 1024,
        pow2(20) == 1_048_576,
        pow2(30) == 1_073_741_824,
{
    vstd::arithmetic::power2::lemma2_to64();
    lemma_excess_bound(n as nat, 11);
    if excess(n as nat) < 11 {
        vstd::arithmetic::power2::lemma_pow2_strictly_increases(excess(n as nat), 11);
    }
}

proof fn lemma_two_digits(d: nat)
    requires
        d < 100,
    ensures
        dec_pad(d, 2) == seq![digit_char(d / 10), digit_char(d % 10)],
{
    reveal_with_fuel(dec_pad, 3);
    assert(dec_pad(d, 2) =~= seq![digit_char(d / 10), digit_char(d % 10)]);
}

proof fn lemma_one_digit(d: nat)
    requires
        d < 10,
    ensures
        dec_pad(d, 1) == seq![digit_char(d)],
{
    reveal_with_fuel(dec_pad, 2);
    assert(dec_pad(d, 1) =~= seq![digit_char(d)]);
}

/// True when `text` is `n` tenths, in decimal notation.
pub open spec fn reads_tenths(text: Seq<char>, n: nat) -> bool {
    text == dec(n / 10) + seq!['.', digit_char(n % 10)]
}

/// True when `text` is `n` hundredths, in decimal notation.
pub open spec fn reads_hundredths(text: Seq<char>, n: nat) -> bool {
    text == dec(n / 100) + seq!['.', digit_char(n / 10 % 10), digit_char(n % 10)]
}

proof fn lemma_fixed(n: nat)
    ensures
        reads_tenths(fixed(n, 1), n),
        reads_hundredths(fixed(n, 2), n),
{
    lemma_one_digit(n % 10);
    lemma_two_digits(n % 100);
    assert((n % 100) / 10 == n / 10 % 10);
    assert((n % 100) % 10 == n % 10);
    assert(fixed(n, 1) =~= dec(n / 10) + seq!['.', digit_char(n % 10)]);
    assert(fixed(n, 2) =~= dec(n / 100) + seq!['.', digit_char(n / 10 % 10), digit_char(n % 10)]);
}

// ---------------------------------------------------------------------------
// Bytes
// ---------------------------------------------------------------------------

/// What the mantissa of a large number may leave out, in shares of `f`.
pub open spec fn left_out(n: u64, f: nat) -> nat {
    if n < 0x20_0000_0000_0000 {
        0
    } else {
        2048 * f
    }
}

/// The text of a byte count is the count, below a kibibyte; from there on it is
/// the number of tenths of a kibibyte or mebibyte, or of hundredths of a
/// gibibyte, that comes nearest, with that unit behind it.
pub proof fn law_byte_count_is_near(n: u64) -> (r: (Seq<char>, nat))
    ensures
        n < 1024 ==> bytes_text(n as nat) == dec(n as nat) + " B"@,
        1024 <= n < 1_048_576 ==> bytes_text(n as nat) == r.0 + " KiB"@ && reads_tenths(r.0, r.1)
            && -1024 <= 2 * (r.1 * 1024 - 10 * n) <= 1024,
        1_048_576 <= n < 1_073_741_824 ==> bytes_text(n as nat) == r.0 + " MiB"@ && reads_tenths(
            r.0,
            r.1,
        ) && -1_048_576 <= 2 * (r.1 * 1_048_576 - 10 * n) <= 1_048_576,
        1_073_741_824 <= n ==> bytes_text(n as nat) == r.0 + " GiB"@ && reads_hundredths(r.0, r.1)
            && -(1_073_741_824 + left_out(n, 100)) <= 2 * (r.1 * 1_073_741_824 - 100 * n)
            <= 1_073_741_824 + left_out(n, 100),
{
    lemma_small(n);
    if n < 1024 {
        (Seq::empty(), 0)
    } else if n < 1_048_576 {
        let h = tenths_of(n as nat, 10);
        lemma_in_units(n as nat, 10, 10);
        lemma_fixed(h);
        (fixed(h, 1), h)
    } else if n < 1_073_741_824 {
        let h = tenths_of(n as nat, 20);
        lemma_in_units(n as nat, 20, 10);
        lemma_fixed(h);
        (fixed(h, 1), h)
    } else {
        let h = scaled(mantissa(n as nat), excess(n as nat) - 30, 100);
        lemma_in_units(n as nat, 30, 100);
        lemma_fixed(h);
        (fixed(h, 2), h)
    }
}

/// The text of a speed is a dash when nothing moves, the nearest number of
/// kibibytes below a mebibyte, and the nearest number of tenths of a mebibyte
/// from there on.
pub proof fn law_speed_is_near(bps: u64) -> (r: (Seq<char>, nat))
    ensures
        bps == 0 ==> speed_text(bps as nat) == "\u{2014}"@,
        0 < bps < 1_048_576 ==> speed_text(bps as nat) == dec(r.1) + " KiB/s"@ && -1024 <= 2 * (r.1
            * 1024 - bps) <= 1024,
        1_048_576 <= bps ==> speed_text(bps as nat) == r.0 + " MiB/s"@ && reads_tenths(r.0, r.1)
            && -(1_048_576 + left_out(bps, 10)) <= 2 * (r.1 * 1_048_576 - 10 * bps) <= 1_048_576
            + left_out(bps, 10),
{
    lemma_small(bps);
    if bps == 0 {
        (Seq::empty(), 0)
    } else if bps < 1_048_576 {
        lemma_in_units(bps as nat, 10, 1);
        (Seq::empty(), scaled(mantissa(bps as nat), excess(bps as nat) - 10, 1))
    } else {
        let h = tenths_of(bps as nat, 20);
        lemma_in_units(bps as nat, 20, 10);
        lemma_fixed(h);
        (fixed(h, 1), h)
    }
}

// ---------------------------------------------------------------------------
// Quotients
// ---------------------------------------------------------------------------

/// The quotient of two numbers below 2^53, in hundredths.
proof fn lemma_ratio(a: nat, b: nat) -> (h: nat)
    requires
        0 < a < 0x20_0000_0000_0000,
        0 < b < 0x20_0000_0000_0000,
        a < 0x2000_0000_0000 * b,
    ensures
        h == scaled(
            float_ratio(float_int(a), (b, 0)).0,
            float_ratio(float_int(a), (b, 0)).1,
            100,
        ),
        -b < h * b - 100 * a < b,
{
    lemma_exact(a);
    let s = shift(a, b);
    let q = quotient(a, b) as int;
    let t = pow2(s) as int;
    lemma_pow2_step(s);
    vstd::arithmetic::power2::lemma2_to64();
    lemma_shift_bounds(a, b, 6);
    vstd::arithmetic::power2::lemma_pow2_strictly_increases(6, s);
    assert(t > 100) by {
        if s > 7 {
            vstd::arithmetic::power2::lemma_pow2_strictly_increases(7, s);
        }
    }
    lemma_near(a * pow2(s), b);
    lemma_near((q * 100) as nat, pow2(s));
    let h = scaled(q as nat, -(s as int), 100);
    let e1 = q * b - a * t;
    let e2 = h * t - q * 100;
    let (x, y) = (a as int, b as int);
    let z = h as int;
    assert(t * (z * y - 100 * x) == y * e2 + 100 * e1) by {
        lemma_spread(t, z * y, 100 * x);
        lemma_spread(y, z * t, q * 100);
        assert(t * (z * y) == y * (z * t)) by (nonlinear_arith);
        assert(t * (100 * x) == 100 * (x * t)) by (nonlinear_arith);
        assert(y * (q * 100) == 100 * (q * y)) by (nonlinear_arith);
    }
    assert(-(y * t) <= 2 * (y * e2) <= y * t) by (nonlinear_arith)
        requires
            -t <= 2 * e2 <= t,
            y > 0,
    ;
    assert(100 * y < y * t) by (nonlinear_arith)
        requires
            t > 100,
            y > 0,
    ;
    let w = z * y - 100 * x;
    assert(-y < w < y) by (nonlinear_arith)
        requires
            -2 * (y * t) < 2 * (t * w) < 2 * (y * t),
            t > 0,
            y > 0,
    ;
    h
}

/// The text of a quotient is off by less than a hundredth.
pub proof fn law_quotient_is_near(num: u64, den: u64) -> (h: nat)
    requires
        0 < num < 0x20_0000_0000_0000,
        0 < den < 0x20_0000_0000_0000,
        num < 0x2000_0000_0000 * den,
    ensures
        reads_hundredths(ratio_digits(num as nat, den as nat), h),
        -den < h * den - 100 * num < den,
{
    lemma_exact(den as nat);
    let h = lemma_ratio(num as nat, den as nat);
    lemma_fixed(h);
    h
}

/// The text of a time is off by less than a hundredth of a second.
pub proof fn law_seconds_are_near(millis: u64) -> (h: nat)
    requires
        0 < millis < 0x20_0000_0000_0000,
    ensures
        reads_hundredths(secs_digits(millis as nat), h),
        -1000 < h * 1000 - 100 * millis < 1000,
{
    let h = lemma_ratio(millis as nat, 1000);
    lemma_fixed(h);
    h
}

// ---------------------------------------------------------------------------
// Transfers
// ---------------------------------------------------------------------------

/// The percentage of a transfer is off by less than a tenth, never more than a
/// hundred, a hundred exactly once nothing is left, and zero while nothing was
/// transferred.
pub proof fn law_percentage_is_near(p: Progress)
    requires
        p.total < 0x20_0000_0000_0000,
    ensures
        p.done <= p.total ==> -p.total < percent_tenths(p) * p.total - 1000 * p.done < p.total
            || p.total == 0,
        p.done >= p.total ==> percent_tenths(p) == 1000,
        p.done == 0 && p.total > 0 ==> percent_tenths(p) == 0,
        percent_tenths(p) <= 1000,
{
    if p.total == 0 {
    } else if p.done == 0 {
        lemma_zero_percent(p.total as nat);
        let t = p.total as int;
        assert(0 * t == 0) by (nonlinear_arith);
    } else {
        let done = if p.done <= p.total {
            p.done
        } else {
            p.total
        };
        let n = lemma_percent(done as nat, p.total as nat);
        let t = p.total as int;
        let d = done as int;
        assert(n <= 1000) by (nonlinear_arith)
            requires
                n * t - 1000 * d < t,
                d <= t,
                t > 0,
        ;
        if done == p.total {
            assert(n == 1000) by (nonlinear_arith)
                requires
                    -t < n * t - 1000 * t < t,
                    t > 0,
            ;
        }
    }
}

proof fn lemma_percent(a: nat, b: nat) -> (n: nat)
    requires
        0 < a <= b < 0x20_0000_0000_0000,
    ensures
        n == scaled(
            times_hundred(float_ratio(float_int(a), float_int(b))).0,
            times_hundred(float_ratio(float_int(a), float_int(b))).1,
            10,
        ),
        -b < n * b - 1000 * a < b,
{
    lemma_exact(a);
    lemma_exact(b);
    let s = shift(a, b);
    let q = quotient(a, b);
    lemma_quotient_bounds(a, b);
    vstd::arithmetic::power2::lemma2_to64();
    vstd::arithmetic::power2::lemma2_to64_rest();
    lemma_shift_bounds(a, b, 51);
    if s > 52 {
        vstd::arithmetic::power2::lemma_pow2_strictly_increases(52, s);
    }
    let x = excess(q * 100);
    lemma_excess_bound(q * 100, 7);
    if x < 7 {
        vstd::arithmetic::power2::lemma_pow2_strictly_increases(x, 7);
    }
    lemma_pow2_step(s);
    lemma_pow2_step(x);
    lemma_pow2_step((s - x) as nat);
    vstd::arithmetic::power2::lemma_pow2_adds(x, (s - x) as nat);
    let t = pow2(s) as int;
    let c = pow2(x) as int;
    let d = pow2((s - x) as nat) as int;
    let m = mantissa(q * 100);
    let n = scaled(m, x - s, 10);
    lemma_near(a * pow2(s), b);
    lemma_near(q * 100, pow2(x));
    lemma_near(m * 10, pow2((s - x) as nat));
    let (k, u, v, g, y) = (n as int, m as int, q as int, a as int, b as int);
    let e1 = v * y - g * t;
    let e2 = u * c - v * 100;
    let e3 = k * d - u * 10;
    let w = k * y - 1000 * g;
    assert(t * w == y * (c * e3) + 10 * (y * e2) + 1000 * e1) by {
        lemma_spread(t, k * y, 1000 * g);
        lemma_spread(c, k * d, u * 10);
        lemma_spread(y, c * (k * d), c * (u * 10));
        lemma_spread(y, u * c, v * 100);
        assert((c * d) * (k * y) == y * (c * (k * d))) by (nonlinear_arith);
        assert(y * (c * (u * 10)) == 10 * (y * (u * c))) by (nonlinear_arith);
        assert(y * (v * 100) == 100 * (v * y)) by (nonlinear_arith);
        assert(t * (1000 * g) == 1000 * (g * t)) by (nonlinear_arith);
    }
    let ce = c * e3;
    assert(-t <= 2 * ce <= t) by (nonlinear_arith)
        requires
            -d <= 2 * e3 <= d,
            c > 0,
            t == c * d,
            ce == c * e3,
    ;
    assert(-(y * t) <= 2 * (y * ce) <= y * t) by (nonlinear_arith)
        requires
            -t <= 2 * ce <= t,
            y > 0,
    ;
    assert(-(y * 128) <= 2 * (y * e2) <= y * 128) by (nonlinear_arith)
        requires
            -128 <= 2 * e2 <= 128,
            y > 0,
    ;
    assert(4000 * y < y * t) by (nonlinear_arith)
        requires
            t > 4000,
            y > 0,
    ;
    assert(-y < w < y) by (nonlinear_arith)
        requires
            -2 * (y * t) < 2 * (t * w) < 2 * (y * t),
            t > 0,
            y > 0,
    ;
    n
}

/// The rate of a transfer in MiB per second, in shares of `f`.
proof fn lemma_rate(bytes: nat, millis: nat, f: nat) -> (h: nat)
    requires
        0 < bytes < 0x20_0000_0000_0000,
        0 < millis < 0x20_0000_0000_0000,
        1 <= f <= 100,
    ensures
        h == scaled(rate_float(bytes, millis).0, rate_float(bytes, millis).1, f),
        -(millis * 0x10_0000) < h * millis * 0x10_0000 - 1000 * f * bytes < millis * 0x10_0000,
{
    lemma_exact(bytes);
    lemma_exact(millis);
    vstd::arithmetic::power2::lemma2_to64();
    vstd::arithmetic::power2::lemma2_to64_rest();
    let s1 = shift(millis, 1000);
    let q1 = quotient(millis, 1000);
    lemma_quotient_bounds(millis, 1000);
    let p62 = pow2(62);
    assert(millis * p62 >= p62) by (nonlinear_arith)
        requires
            millis > 0,
    ;
    lemma_shift_bounds(millis, 1000, 62);
    let s2 = shift(bytes, q1);
    let q2 = quotient(bytes, q1);
    lemma_quotient_bounds(bytes, q1);
    lemma_shift_bounds(bytes, q1, 51);
    let e = (20 + s2 - s1) as nat;
    if e > 10 {
        vstd::arithmetic::power2::lemma_pow2_strictly_increases(10, e);
    }
    vstd::arithmetic::power2::lemma_pow2_adds(e, s1);
    vstd::arithmetic::power2::lemma_pow2_adds(20, s2);
    lemma_pow2_step(s1);
    lemma_pow2_step(s2);
    lemma_pow2_step(e);
    assert(rate_float(bytes, millis) == (q2, -(e as int)));
    let h = scaled(q2, -(e as int), f);
    lemma_near(millis * pow2(s1), 1000);
    lemma_near(bytes * pow2(s2), q1);
    lemma_near(q2 * f, pow2(e));
    lemma_rate_error(
        bytes as int,
        millis as int,
        f as int,
        h as int,
        q1 as int,
        q2 as int,
        pow2(s1) as int,
        pow2(s2) as int,
        pow2(e) as int,
    );
    h
}

proof fn lemma_rate_error(
    a: int,
    t: int,
    f: int,
    h: int,
    q1: int,
    q2: int,
    p1: int,
    p2: int,
    p: int,
)
    requires
        t > 0,
        1 <= f <= 100,
        h >= 0,
        0x10_0000_0000_0000 <= q1 <= 0x20_0000_0000_0000,
        0 <= q2 <= 0x20_0000_0000_0000,
        p1 > 0,
        p2 > 0,
        p >= 1024,
        p * p1 == 0x10_0000 * p2,
        -1000 <= 2 * (q1 * 1000 - t * p1) <= 1000,
        -q1 <= 2 * (q2 * q1 - a * p2) <= q1,
        -p <= 2 * (h * p - q2 * f) <= p,
    ensures
        -(t * 0x10_0000) < h * t * 0x10_0000 - 1000 * f * a < t * 0x10_0000,
{
    let e1 = t * p1 - q1 * 1000;
    let e2 = q2 * q1 - a * p2;
    let e3 = h * p - q2 * f;
    let w = h * t * 0x10_0000 - 1000 * f * a;
    let hp = h * p;
    // What the error comes to, in units of `p2`.
    assert(w * p2 == 1000 * (f * e2) + 1000 * (e3 * q1) + hp * e1) by {
        assert(h * t * 0x10_0000 * p2 == h * t * (p * p1)) by (nonlinear_arith)
            requires
                p * p1 == 0x10_0000 * p2,
        ;
        assert(h * t * (p * p1) == hp * (t * p1)) by (nonlinear_arith)
            requires
                hp == h * p,
        ;
        assert(hp * (t * p1) == hp * (q1 * 1000) + hp * e1) by (nonlinear_arith)
            requires
                t * p1 == q1 * 1000 + e1,
        ;
        assert(hp * (q1 * 1000) == 1000 * (f * (q2 * q1)) + 1000 * (e3 * q1)) by (nonlinear_arith)
            requires
                hp == q2 * f + e3,
        ;
        assert(f * (q2 * q1) == f * (a * p2) + f * e2) by (nonlinear_arith)
            requires
                q2 * q1 == a * p2 + e2,
        ;
        assert((1000 * f * a) * p2 == 1000 * (f * (a * p2))) by (nonlinear_arith);
        assert(w * p2 == h * t * 0x10_0000 * p2 - (1000 * f * a) * p2) by (nonlinear_arith)
            requires
                w == h * t * 0x10_0000 - 1000 * f * a,
        ;
    }
    let qp = q1 * p;
    assert(1024 * q1 <= qp) by (nonlinear_arith)
        requires
            p >= 1024,
            q1 > 0,
            qp == q1 * p,
    ;
    assert(-(100 * q1) <= 2 * (f * e2) <= 100 * q1) by (nonlinear_arith)
        requires
            -q1 <= 2 * e2 <= q1,
            1 <= f <= 100,
            q1 > 0,
    ;
    assert(-qp <= 2 * (e3 * q1) <= qp) by (nonlinear_arith)
        requires
            -p <= 2 * e3 <= p,
            q1 > 0,
            qp == q1 * p,
    ;
    assert(q2 * f <= 100 * q2) by (nonlinear_arith)
        requires
            f <= 100,
            q2 >= 0,
    ;
    // `hp` is at most 100 * 2^53 and half a `p`.
    assert(2 * hp <= 400 * q1 + p);
    assert(hp >= 0) by (nonlinear_arith)
        requires
            hp == h * p,
            h >= 0,
            p > 0,
    ;
    assert(p <= qp / 1000) by (nonlinear_arith)
        requires
            q1 >= 0x10_0000_0000_0000,
            p > 0,
            qp == q1 * p,
    ;
    assert(-(500 * hp) <= hp * e1 <= 500 * hp) by (nonlinear_arith)
        requires
            -500 <= e1 <= 500,
            hp >= 0,
    ;
    let tp = t * 0x10_0000;
    assert(tp * p2 == p * (t * p1)) by (nonlinear_arith)
        requires
            p * p1 == 0x10_0000 * p2,
            tp == t * 0x10_0000,
    ;
    assert(p * (t * p1) >= 1000 * qp - 500 * p) by (nonlinear_arith)
        requires
            t * p1 >= q1 * 1000 - 500,
            p > 0,
            qp == q1 * p,
    ;
    assert(-(tp * p2) < w * p2 < tp * p2);
    assert(-tp < w < tp) by (nonlinear_arith)
        requires
            -(tp * p2) < w * p2 < tp * p2,
            p2 > 0,
    ;
}

/// The text of a throughput is off by less than a hundredth of a MiB per second;
/// none is given where no time has passed.
pub proof fn law_throughput_is_near(bytes: u64, millis: u64) -> (h: nat)
    requires
        0 < bytes < 0x20_0000_0000_0000,
        millis < 0x20_0000_0000_0000,
    ensures
        millis == 0 ==> rate_text(bytes as nat, millis as nat) == "n/a"@,
        millis > 0 ==> exists|text: Seq<char>|
            #[trigger] reads_hundredths(text, h) && rate_text(bytes as nat, millis as nat) == text
                + " MiB/s"@,
        millis > 0 ==> -(millis * 0x10_0000) < h * millis * 0x10_0000 - 100_000 * bytes < millis
            * 0x10_0000,
{
    if millis == 0 {
        0
    } else {
        let h = lemma_rate(bytes as nat, millis as nat, 100);
        lemma_fixed(h);
        assert(reads_hundredths(fixed(h, 2), h));
        h
    }
}

/// The rate that is shown with a transfer is off by less than a tenth of a MiB
/// per second.
pub proof fn law_shown_rate_is_near(done: u64, millis: u64)
    requires
        0 < done < 0x20_0000_0000_0000,
        0 < millis < 0x20_0000_0000_0000,
    ensures
        ({
            let n = rate_tenths(done as nat, millis as nat);
            -(millis * 0x10_0000) < n * millis * 0x10_0000 - 10_000 * done < millis * 0x10_0000
        }),
{
    let h = lemma_rate(done as nat, millis as nat, 10);
}

/// The line that shows a transfer has its parts in their order: the label, the
/// percentage, the bytes transferred, those to transfer, and the rate.
pub proof fn law_progress_line_shows_the_transfer(label: Seq<char>, p: Progress, millis: nat)
    ensures
        progress_text(label, p, millis) == "\r"@ + pad_end(label, 28) + " "@ + pad_start(
            fixed(percent_tenths(p), 1),
            6,
        ) + "% "@ + pad_start(bytes_text(p.done as nat), 9) + " / "@ + pad_end(
            bytes_text(p.total as nat),
            9,
        ) + " "@ + pad_start(fixed(rate_tenths(p.done as nat, millis), 1), 7) + " MiB/s "@,
{
}

} // verus!
