//! Scaling by a ratio in binary floating point, carried out on integers.
//!
//! Meters and plots are sized by `round(scale * (part / whole))`, where the quotient and the
//! product are each rounded to the significand width of a floating-point format. The functions
//! here give those results exactly, with the rounding steps spelled out over integers.

use vstd::arithmetic::div_mod::*;
use vstd::arithmetic::mul::*;
use vstd::arithmetic::power2::*;
use vstd::prelude::*;

verus! {

/// Significand width of the single-precision format.
pub const SINGLE: u32 = 24;

/// Significand width of the double-precision format.
pub const DOUBLE: u32 = 53;

/// `n / d` rounded to the nearest integer, halves going to the even neighbour.
pub open spec fn nearest_even(n: nat, d: nat) -> nat {
    let q = n / d;
    let r = n % d;
    if 2 * r < d || (2 * r == d && q % 2 == 0) {
        q
    } else {
        q + 1
    }
}

/// `n / d` rounded to the nearest integer, halves going up.
pub open spec fn nearest_up(n: nat, d: nat) -> nat {
    (2 * n + d) / (2 * d)
}

/// How many low bits of `n` lie beyond a significand of `bits` bits.
pub open spec fn excess_bits(n: nat, bits: nat) -> nat
    decreases n,
{
    if n < pow2(bits) {
        0
    } else {
        proof {
            lemma_pow2_pos(bits);
        }
        1 + excess_bits(n / 2, bits)
    }
}

/// The integer closest to `n` among those with at most `bits` significant bits.
pub open spec fn to_precision(n: nat, bits: nat) -> nat {
    let unit = pow2(excess_bits(n, bits));
    nearest_even(n, unit) * unit
}

/// The number of doublings that bring `a / b` up to a significand of `bits` bits.
pub open spec fn quotient_shift(a: nat, b: nat, bits: nat) -> nat
    decreases 2 * (b * pow2((bits - 1) as nat)) - a,
{
    if a == 0 || a >= b * pow2((bits - 1) as nat) {
        0
    } else {
        1 + quotient_shift(2 * a, b, bits)
    }
}

/// `round(scale * (a / b))` with the quotient and the product rounded to `bits` significant
/// bits, halves of the final rounding going up.
pub open spec fn scaled(a: nat, b: nat, scale: nat, bits: nat) -> nat {
    if a == 0 {
        0
    } else {
        let shift = quotient_shift(a, b, bits);
        let significand = nearest_even(a * pow2(shift), b);
        nearest_up(to_precision(significand * scale, bits), pow2(shift))
    }
}

/// Rounding to the nearest integer stays within one of the quotient.
proof fn lemma_nearest_even_bounds(n: nat, d: nat)
    requires
        0 < d,
    ensures
        nearest_even(n, d) * d <= n + d,
        nearest_even(n, d) * d + d >= n,
        n % d == 0 ==> nearest_even(n, d) * d == n,
{
    lemma_fundamental_div_mod(n as int, d as int);
    lemma_mod_bound(n as int, d as int);
    let q = n / d;
    assert((q + 1) * d == q * d + d) by (nonlinear_arith);
    assert(q * d == d * q) by (nonlinear_arith);
}

/// A larger numerator does not round lower.
proof fn lemma_nearest_even_monotonic(n: nat, m: nat, d: nat)
    requires
        0 < d,
        n <= m,
    ensures
        nearest_even(n, d) <= nearest_even(m, d),
{
    lemma_fundamental_div_mod(n as int, d as int);
    lemma_fundamental_div_mod(m as int, d as int);
    lemma_div_is_ordered(n as int, m as int, d as int);
    let q = n / d;
    let p = m / d;
    if q == p {
        assert(d * q == d * p);
    }
}

/// A numerator that does not pass `k` whole denominators does not round past `k`.
proof fn lemma_nearest_even_at_most(n: nat, d: nat, k: nat)
    requires
        0 < d,
        n <= k * d,
    ensures
        nearest_even(n, d) <= k,
{
    lemma_nearest_even_monotonic(n, k * d, d);
    lemma_nearest_even_whole(k, d);
}

/// A whole number of denominators is its own rounding.
proof fn lemma_nearest_even_whole(k: nat, d: nat)
    requires
        0 < d,
    ensures
        nearest_even(k * d, d) == k,
{
    lemma_div_by_multiple(k as int, d as int);
    lemma_mod_multiples_basic(k as int, d as int);
}

/// `excess_bits` is the least number of low bits whose removal leaves `bits` bits.
proof fn lemma_excess_bits(n: nat, bits: nat)
    ensures
        n < pow2(bits + excess_bits(n, bits)),
        excess_bits(n, bits) > 0 ==> n >= pow2((bits + excess_bits(n, bits) - 1) as nat),
    decreases n,
{
    lemma_pow2_pos(bits);
    if n >= pow2(bits) {
        lemma_excess_bits(n / 2, bits);
        let e = excess_bits(n / 2, bits);
        lemma_pow2_unfold(bits + e + 1);
        if e > 0 {
            lemma_pow2_unfold(bits + e);
        }
    }
}

/// The excess is fixed by the power-of-two range that the number lies in.
proof fn lemma_excess_bits_unique(n: nat, bits: nat, e: nat)
    requires
        n < pow2(bits + e),
        e > 0 ==> n >= pow2((bits + e - 1) as nat),
    ensures
        excess_bits(n, bits) == e,
{
    lemma_excess_bits(n, bits);
    let f = excess_bits(n, bits);
    if f < e {
        if bits + f < bits + e - 1 {
            lemma_pow2_strictly_increases(bits + f, (bits + e - 1) as nat);
        }
    } else if e < f {
        if bits + e < bits + f - 1 {
            lemma_pow2_strictly_increases(bits + e, (bits + f - 1) as nat);
        }
    }
}

/// Rounding to a precision never passes a power of two.
proof fn lemma_to_precision_range(n: nat, bits: nat)
    requires
        0 < bits,
    ensures
        to_precision(n, bits) <= pow2(bits + excess_bits(n, bits)),
        excess_bits(n, bits) > 0 ==> to_precision(n, bits) >= pow2(
            (bits + excess_bits(n, bits) - 1) as nat,
        ),
        excess_bits(n, bits) == 0 ==> to_precision(n, bits) == n,
{
    lemma_excess_bits(n, bits);
    let e = excess_bits(n, bits);
    let unit = pow2(e);
    lemma_pow2_pos(e);
    lemma_pow2_adds(bits, e);
    assert(pow2(bits) * unit == pow2(bits + e));
    lemma_nearest_even_at_most(n, unit, pow2(bits));
    assert(to_precision(n, bits) <= pow2(bits) * unit) by (nonlinear_arith)
        requires
            nearest_even(n, unit) <= pow2(bits),
            to_precision(n, bits) == nearest_even(n, unit) * unit,
    ;
    if e > 0 {
        let low = pow2((bits - 1) as nat);
        lemma_pow2_adds((bits - 1) as nat, e);
        assert(low * unit == pow2((bits + e - 1) as nat));
        lemma_nearest_even_monotonic(low * unit, n, unit);
        lemma_nearest_even_whole(low, unit);
        assert(to_precision(n, bits) >= low * unit) by (nonlinear_arith)
            requires
                nearest_even(n, unit) >= low,
                to_precision(n, bits) == nearest_even(n, unit) * unit,
        ;
    } else {
        lemma2_to64();
        lemma_nearest_even_whole(n, 1);
    }
}

/// A larger number does not round lower.
pub proof fn lemma_to_precision_monotonic(n: nat, m: nat, bits: nat)
    requires
        0 < bits,
        n <= m,
    ensures
        to_precision(n, bits) <= to_precision(m, bits),
{
    lemma_excess_bits(n, bits);
    lemma_excess_bits(m, bits);
    lemma_to_precision_range(n, bits);
    lemma_to_precision_range(m, bits);
    let e = excess_bits(n, bits);
    let f = excess_bits(m, bits);
    if e == f {
        let unit = pow2(e);
        lemma_pow2_pos(e);
        lemma_nearest_even_monotonic(n, m, unit);
        assert(nearest_even(n, unit) * unit <= nearest_even(m, unit) * unit) by (nonlinear_arith)
            requires
                nearest_even(n, unit) <= nearest_even(m, unit),
        ;
    } else if e < f {
        if bits + e < bits + f - 1 {
            lemma_pow2_strictly_increases(bits + e, (bits + f - 1) as nat);
        }
    } else {
        if bits + f < bits + e - 1 {
            lemma_pow2_strictly_increases(bits + f, (bits + e - 1) as nat);
        }
    }
}

/// Numbers of at most `bits` bits times a power of two are their own rounding.
proof fn lemma_to_precision_exact(n: nat, k: nat, bits: nat)
    requires
        0 < n < pow2(bits),
    ensures
        to_precision(n * pow2(k), bits) == n * pow2(k),
    decreases k,
{
    let v = n * pow2(k);
    lemma_excess_bits(v, bits);
    let e = excess_bits(v, bits);
    let unit = pow2(e);
    lemma_pow2_pos(e);
    lemma_pow2_pos(k);
    lemma_pow2_adds(bits, k);
    assert(v < pow2(bits + k)) by (nonlinear_arith)
        requires
            v == n * pow2(k),
            n < pow2(bits),
            pow2(k) > 0,
            pow2(bits + k) == pow2(bits) * pow2(k),
    ;
    if e > k {
        if bits + k < bits + e - 1 {
            lemma_pow2_strictly_increases(bits + k, (bits + e - 1) as nat);
        }
        assert(false);
    }
    lemma_pow2_adds((k - e) as nat, e);
    let whole = n * pow2((k - e) as nat);
    assert(v == whole * unit) by (nonlinear_arith)
        requires
            v == n * pow2(k),
            pow2(k) == pow2((k - e) as nat) * unit,
            whole == n * pow2((k - e) as nat),
    ;
    lemma_nearest_even_whole(whole, unit);
}

/// What the doublings of `quotient_shift` reach.
proof fn lemma_quotient_shift(a: nat, b: nat, bits: nat)
    requires
        0 < a,
        0 < b,
        0 < bits,
    ensures
        a * pow2(quotient_shift(a, b, bits)) >= b * pow2((bits - 1) as nat),
        quotient_shift(a, b, bits) > 0 ==> a * pow2(quotient_shift(a, b, bits)) < 2 * (b * pow2(
            (bits - 1) as nat,
        )),
    decreases 2 * (b * pow2((bits - 1) as nat)) - a,
{
    let limit = b * pow2((bits - 1) as nat);
    let k = quotient_shift(a, b, bits);
    lemma2_to64();
    if a < limit {
        lemma_quotient_shift(2 * a, b, bits);
        lemma_pow2_unfold(k);
        let p = pow2((k - 1) as nat);
        assert(a * pow2(k) == (2 * a) * p) by (nonlinear_arith)
            requires
                pow2(k) == 2 * p,
        ;
        if k == 1 {
            assert((2 * a) * p == 2 * a) by (nonlinear_arith)
                requires
                    p == 1,
            ;
        }
    } else {
        assert(a * pow2(0) == a) by (nonlinear_arith)
            requires
                pow2(0) == 1,
        ;
    }
}

/// A 64-bit integer rounds to at most `2^64`, and to zero only where it is zero.
pub proof fn lemma_to_precision_of_word(n: u64)
    ensures
        to_precision(n as nat, SINGLE as nat) <= 0x1_0000_0000_0000_0000,
        to_precision(n as nat, DOUBLE as nat) <= 0x1_0000_0000_0000_0000,
        n == 0 <==> to_precision(n as nat, SINGLE as nat) == 0,
        n == 0 <==> to_precision(n as nat, DOUBLE as nat) == 0,
{
    lemma2_to64();
    lemma2_to64_rest();
    lemma_to_precision_range(1, SINGLE as nat);
    lemma_to_precision_range(1, DOUBLE as nat);
    lemma_to_precision_range(0, SINGLE as nat);
    lemma_to_precision_range(0, DOUBLE as nat);
    if n > 0 {
        lemma_to_precision_monotonic(1, n as nat, SINGLE as nat);
        lemma_to_precision_monotonic(1, n as nat, DOUBLE as nat);
    }
    lemma_to_precision_monotonic(n as nat, 1 * pow2(64), SINGLE as nat);
    lemma_to_precision_monotonic(n as nat, 1 * pow2(64), DOUBLE as nat);
    lemma_to_precision_exact(1, 64, SINGLE as nat);
    lemma_to_precision_exact(1, 64, DOUBLE as nat);
}

/// A part of the whole never scales past `scale`.
pub proof fn lemma_scaled_at_most(a: nat, b: nat, scale: nat, bits: nat)
    requires
        a <= b,
        0 < b,
        0 < bits,
        scale < pow2(bits),
    ensures
        scaled(a, b, scale, bits) <= scale,
{
    if a > 0 {
        let k = quotient_shift(a, b, bits);
        let unit = pow2(k);
        let m = nearest_even(a * unit, b);
        lemma_pow2_pos(k);
        assert(a * unit <= unit * b) by (nonlinear_arith)
            requires
                a <= b,
        ;
        lemma_nearest_even_at_most(a * unit, b, unit);
        assert(m * scale <= scale * unit) by (nonlinear_arith)
            requires
                m <= unit,
        ;
        lemma_to_precision_monotonic(m * scale, scale * unit, bits);
        if scale > 0 {
            lemma_to_precision_exact(scale, k, bits);
        } else {
            assert(scale * unit == 0) by (nonlinear_arith)
                requires
                    scale == 0,
            ;
            lemma_to_precision_range(0, bits);
        }
        let t = to_precision(m * scale, bits);
        assert(t <= scale * unit);
        assert((2 * t + unit) / (2 * unit) <= scale) by {
            assert(2 * t + unit < (scale + 1) * (2 * unit)) by (nonlinear_arith)
                requires
                    t <= scale * unit,
                    unit > 0,
            ;
            lemma_div_is_ordered((2 * t + unit) as int, (scale + 1) * (2 * unit) - 1, 2 * unit as int);
            lemma_div_multiples_vanish_fancy(scale as int, 2 * unit - 1, 2 * unit as int);
            assert((scale + 1) * (2 * unit) - 1 == 2 * unit * scale + (2 * unit - 1)) by (nonlinear_arith);
        }
    }
}

/// Rounding to a precision goes along with doublings.
proof fn lemma_to_precision_shifted(n: nat, s: nat, bits: nat)
    requires
        0 < bits,
    ensures
        to_precision(n * pow2(s), bits) == to_precision(n, bits) * pow2(s),
{
    let e = excess_bits(n, bits);
    let shift = pow2(s);
    lemma_pow2_pos(s);
    lemma_to_precision_range(n, bits);
    if n == 0 {
        assert(n * shift == 0) by (nonlinear_arith)
            requires
                n == 0,
        ;
        assert(to_precision(n, bits) * shift == 0) by (nonlinear_arith)
            requires
                to_precision(n, bits) == 0,
        ;
    } else if e == 0 {
        lemma_excess_bits(n, bits);
        lemma_to_precision_exact(n, s, bits);
    } else {
        lemma_excess_bits(n, bits);
        lemma_pow2_adds(bits + e, s);
        lemma_pow2_adds((bits + e - 1) as nat, s);
        assert(n * shift < pow2(bits + e) * shift) by (nonlinear_arith)
            requires
                n < pow2(bits + e),
                shift > 0,
        ;
        assert(n * shift >= pow2((bits + e - 1) as nat) * shift) by (nonlinear_arith)
            requires
                n >= pow2((bits + e - 1) as nat),
        ;
        lemma_excess_bits_unique(n * shift, bits, e + s);
        let unit = pow2(e);
        lemma_pow2_pos(e);
        lemma_pow2_adds(e, s);
        lemma_nearest_even_shifted(n, unit, shift);
        assert(nearest_even(n, unit) * (unit * shift) == nearest_even(n, unit) * unit * shift)
            by (nonlinear_arith);
    }
}

/// A common factor of numerator and denominator does not change the rounding.
proof fn lemma_nearest_even_shifted(n: nat, d: nat, f: nat)
    requires
        0 < d,
        0 < f,
    ensures
        nearest_even(n * f, d * f) == nearest_even(n, d),
{
    let q = n / d;
    let r = n % d;
    lemma_fundamental_div_mod(n as int, d as int);
    lemma_mod_bound(n as int, d as int);
    assert(n * f == q * (d * f) + r * f) by (nonlinear_arith)
        requires
            n == d * q + r,
    ;
    assert(0 <= r * f < d * f) by (nonlinear_arith)
        requires
            0 <= r < d,
            0 < f,
    ;
    lemma_fundamental_div_mod_converse((n * f) as int, (d * f) as int, q as int, (r * f) as int);
    assert(2 * (r * f) < d * f <==> 2 * r < d) by (nonlinear_arith)
        requires
            0 < f,
    ;
    assert(2 * (r * f) == d * f <==> 2 * r == d) by (nonlinear_arith)
        requires
            0 < f,
    ;
}

/// A larger numerator over the same denominator does not round lower.
proof fn lemma_nearest_up_monotonic(n: nat, m: nat, d: nat)
    requires
        0 < d,
        n <= m,
    ensures
        nearest_up(n, d) <= nearest_up(m, d),
{
    lemma_div_is_ordered((2 * n + d) as int, (2 * m + d) as int, 2 * d as int);
}

/// A larger part needs no more doublings.
proof fn lemma_quotient_shift_ordered(a: nat, c: nat, b: nat, bits: nat)
    requires
        0 < a <= c,
        0 < b,
        0 < bits,
    ensures
        quotient_shift(c, b, bits) <= quotient_shift(a, b, bits),
{
    let k = quotient_shift(a, b, bits);
    let l = quotient_shift(c, b, bits);
    lemma_quotient_shift(a, b, bits);
    lemma_quotient_shift(c, b, bits);
    if k < l {
        lemma_pow2_unfold(l);
        let p = pow2((l - 1) as nat);
        if k < l - 1 {
            lemma_pow2_strictly_increases(k, (l - 1) as nat);
        }
        assert(a * pow2(k) <= c * p) by (nonlinear_arith)
            requires
                a <= c,
                pow2(k) <= p,
        ;
        assert(c * pow2(l) == 2 * (c * p)) by (nonlinear_arith)
            requires
                pow2(l) == 2 * p,
        ;
    }
}

/// A larger part of the same whole never scales to less.
pub proof fn law_scaled_monotonic(a: nat, c: nat, b: nat, scale: nat, bits: nat)
    requires
        a <= c,
        0 < b,
        0 < bits,
    ensures
        scaled(a, b, scale, bits) <= scaled(c, b, scale, bits),
{
    if a > 0 {
        let k = quotient_shift(a, b, bits);
        let l = quotient_shift(c, b, bits);
        let m = nearest_even(a * pow2(k), b);
        let n = nearest_even(c * pow2(l), b);
        lemma_quotient_shift_ordered(a, c, b, bits);
        lemma_quotient_shift(a, b, bits);
        lemma_quotient_shift(c, b, bits);
        let s = (k - l) as nat;
        let f = pow2(s);
        lemma_pow2_pos(l);
        lemma_pow2_pos(s);
        lemma_pow2_adds(l, s);
        let half = pow2((bits - 1) as nat);
        if s == 0 {
            lemma2_to64();
            assert(a * pow2(k) <= c * pow2(l)) by (nonlinear_arith)
                requires
                    a <= c,
                    k == l,
            ;
            lemma_nearest_even_monotonic(a * pow2(k), c * pow2(l), b);
        } else {
            assert(a * pow2(k) <= (2 * half) * b) by (nonlinear_arith)
                requires
                    a * pow2(k) < 2 * (b * half),
            ;
            lemma_nearest_even_at_most(a * pow2(k), b, 2 * half);
            assert(half * b <= c * pow2(l)) by (nonlinear_arith)
                requires
                    c * pow2(l) >= b * half,
            ;
            lemma_nearest_even_monotonic(half * b, c * pow2(l), b);
            lemma_nearest_even_whole(half, b);
            lemma_pow2_unfold(s);
            lemma_pow2_pos((s - 1) as nat);
        }
        assert(m <= n * f) by (nonlinear_arith)
            requires
                s == 0 ==> m <= n && f == 1,
                s > 0 ==> m <= 2 * half && half <= n && f >= 2,
        ;
        assert(m * scale <= (n * scale) * f) by (nonlinear_arith)
            requires
                m <= n * f,
        ;
        lemma_to_precision_monotonic(m * scale, (n * scale) * f, bits);
        lemma_to_precision_shifted(n * scale, s, bits);
        let t = to_precision(n * scale, bits);
        let unit = pow2(l);
        assert(unit * f > 0) by (nonlinear_arith)
            requires
                unit > 0,
                f > 0,
        ;
        lemma_nearest_up_monotonic(to_precision(m * scale, bits), t * f, unit * f);
        assert(nearest_up(t * f, unit * f) == nearest_up(t, unit)) by {
            lemma_quotient_shifted((2 * t + unit) as int, 2 * unit as int, f as int);
            assert(2 * (t * f) + unit * f == (2 * t + unit) * f) by (nonlinear_arith);
            assert(2 * (unit * f) == (2 * unit) * f) by (nonlinear_arith);
        }
    }
}

/// A common factor of dividend and divisor does not change the quotient.
proof fn lemma_quotient_shifted(x: int, d: int, f: int)
    requires
        0 <= x,
        0 < d,
        0 < f,
    ensures
        (x * f) / (d * f) == x / d,
{
    lemma_fundamental_div_mod(x, d);
    lemma_mod_bound(x, d);
    let q = x / d;
    let r = x % d;
    assert(x * f == q * (d * f) + r * f) by (nonlinear_arith)
        requires
            x == d * q + r,
    ;
    assert(0 <= r * f < d * f) by (nonlinear_arith)
        requires
            0 <= r < d,
            0 < f,
    ;
    lemma_fundamental_div_mod_converse(x * f, d * f, q, r * f);
}

/// Twice the part of twice the whole needs as many doublings.
proof fn lemma_quotient_shift_doubled(a: nat, b: nat, bits: nat)
    requires
        0 < b,
        0 < bits,
    ensures
        quotient_shift(2 * a, 2 * b, bits) == quotient_shift(a, b, bits),
    decreases 2 * (b * pow2((bits - 1) as nat)) - a,
{
    let half = pow2((bits - 1) as nat);
    assert((2 * b) * half == 2 * (b * half)) by (nonlinear_arith);
    if a != 0 && a < b * half {
        lemma_quotient_shift_doubled(2 * a, b, bits);
    }
}

/// Scaling depends on the ratio alone: twice the part of twice the whole scales to the same.
pub proof fn law_scaled_is_relative(a: nat, b: nat, scale: nat, bits: nat)
    requires
        0 < b,
        0 < bits,
    ensures
        scaled(2 * a, 2 * b, scale, bits) == scaled(a, b, scale, bits),
{
    if a > 0 {
        lemma_quotient_shift_doubled(a, b, bits);
        let unit = pow2(quotient_shift(a, b, bits));
        assert((2 * a) * unit == (a * unit) * 2) by (nonlinear_arith);
        lemma_nearest_even_shifted(a * unit, b, 2);
        assert(b * 2 == 2 * b);
    }
}

/// Twice a number rounds to twice its rounding.
pub proof fn lemma_to_precision_doubled(n: nat, bits: nat)
    requires
        0 < bits,
    ensures
        to_precision(2 * n, bits) == 2 * to_precision(n, bits),
{
    lemma2_to64();
    lemma_to_precision_shifted(n, 1, bits);
    assert(n * pow2(1) == 2 * n) by (nonlinear_arith)
        requires
            pow2(1) == 2,
    ;
    assert(to_precision(n, bits) * pow2(1) == 2 * to_precision(n, bits)) by (nonlinear_arith)
        requires
            pow2(1) == 2,
    ;
}

/// The whole scales to all of `scale`.
pub proof fn law_scaled_whole(b: nat, scale: nat, bits: nat)
    requires
        0 < b,
        0 < bits,
        scale < pow2(bits),
    ensures
        scaled(b, b, scale, bits) == scale,
{
    let k = quotient_shift(b, b, bits);
    let unit = pow2(k);
    lemma_pow2_pos(k);
    assert(b * unit == unit * b) by (nonlinear_arith);
    lemma_nearest_even_whole(unit, b);
    assert(unit * scale == scale * unit) by (nonlinear_arith);
    if scale > 0 {
        lemma_to_precision_exact(scale, k, bits);
    } else {
        assert(scale * unit == 0) by (nonlinear_arith)
            requires
                scale == 0,
        ;
        lemma_to_precision_range(0, bits);
    }
    assert(2 * (scale * unit) + unit == scale * (2 * unit) + unit) by (nonlinear_arith);
    lemma_fundamental_div_mod_converse(
        (2 * (scale * unit) + unit) as int,
        (2 * unit) as int,
        scale as int,
        unit as int,
    );
}

/// Rounding to the nearest integer misses the quotient by a half at most.
proof fn lemma_nearest_even_close(n: nat, d: nat)
    requires
        0 < d,
    ensures
        2 * (nearest_even(n, d) * d) <= 2 * n + d,
        2 * n <= 2 * (nearest_even(n, d) * d) + d,
{
    lemma_fundamental_div_mod(n as int, d as int);
    lemma_mod_bound(n as int, d as int);
    let q = n / d;
    assert((q + 1) * d == q * d + d) by (nonlinear_arith);
    assert(q * d == d * q) by (nonlinear_arith);
}

/// Rounding to a precision misses a number by less than one part in `2^bits`.
pub proof fn lemma_to_precision_close(n: nat, bits: nat)
    requires
        0 < bits,
    ensures
        pow2(bits) * to_precision(n, bits) <= pow2(bits) * n + n,
        pow2(bits) * n <= pow2(bits) * to_precision(n, bits) + n,
{
    lemma_excess_bits(n, bits);
    lemma_to_precision_range(n, bits);
    let e = excess_bits(n, bits);
    let unit = pow2(e);
    let t = to_precision(n, bits);
    let p = pow2((bits - 1) as nat);
    lemma_pow2_pos(e);
    lemma_pow2_unfold(bits);
    if e > 0 {
        lemma_pow2_adds((bits - 1) as nat, e);
        lemma_nearest_even_close(n, unit);
        assert(pow2(bits) * t <= pow2(bits) * n + n) by (nonlinear_arith)
            requires
                pow2(bits) == 2 * p,
                2 * t <= 2 * n + unit,
                n >= p * unit,
        ;
        assert(pow2(bits) * n <= pow2(bits) * t + n) by (nonlinear_arith)
            requires
                pow2(bits) == 2 * p,
                2 * n <= 2 * t + unit,
                n >= p * unit,
        ;
    }
}

/// Scaling by a ratio is rounding to the nearest integer, but for what the two roundings of
/// floating point add: `scaled(a, b, scale)` misses `scale * a / b` by little more than a half.
pub proof fn law_scaled_is_close(a: nat, b: nat, scale: nat, bits: nat)
    requires
        0 < b,
        0 < bits,
    ensures
        pow2(bits) * (2 * (b * scaled(a, b, scale, bits))) <= pow2(bits) * (2 * (a * scale) + b) + 5
            * (a * scale),
        pow2(bits) * (2 * (a * scale)) <= pow2(bits) * (2 * (b * scaled(a, b, scale, bits)) + b) + 5
            * (a * scale),
{
    let s = scaled(a, b, scale, bits);
    let n = pow2(bits);
    lemma_pow2_pos(bits);
    if a == 0 {
        assert(a * scale == 0) by (nonlinear_arith)
            requires
                a == 0,
        ;
        assert(b * s == 0) by (nonlinear_arith)
            requires
                s == 0,
        ;
        assert(n * (2 * (b * s)) == 0) by (nonlinear_arith)
            requires
                b * s == 0,
        ;
        assert(n * (2 * (a * scale)) == 0) by (nonlinear_arith)
            requires
                a * scale == 0,
        ;
        assert(n * (2 * (a * scale) + b) >= 0) by (nonlinear_arith);
        assert(n * (2 * (b * s) + b) >= 0) by (nonlinear_arith);
    } else {
        let shift = quotient_shift(a, b, bits);
        let u = pow2(shift);
        let m = a * u;
        let q = nearest_even(m, b);
        let v = q * scale;
        let t = to_precision(v, bits);
        let p = pow2((bits - 1) as nat);
        lemma_pow2_pos(shift);
        lemma_pow2_pos((bits - 1) as nat);
        lemma_pow2_unfold(bits);
        lemma_quotient_shift(a, b, bits);
        lemma_nearest_even_close(m, b);
        lemma_to_precision_close(v, bits);
        lemma_fundamental_div_mod((2 * t + u) as int, (2 * u) as int);
        lemma_mod_bound((2 * t + u) as int, (2 * u) as int);
        let whole = u * s;
        assert((2 * u) * s == 2 * whole) by (nonlinear_arith)
            requires
                whole == u * s,
        ;
        assert(2 * whole <= 2 * t + u && 2 * t <= 2 * whole + u);
        // The quotient, times the scale.
        let bv = b * v;
        let ms = m * scale;
        let bs = b * scale;
        assert(2 * bv <= 2 * ms + bs) by (nonlinear_arith)
            requires
                bv == b * (q * scale),
                ms == m * scale,
                bs == b * scale,
                2 * (q * b) <= 2 * m + b,
        ;
        assert(2 * ms <= 2 * bv + bs) by (nonlinear_arith)
            requires
                bv == b * (q * scale),
                ms == m * scale,
                bs == b * scale,
                2 * m <= 2 * (q * b) + b,
        ;
        assert(p * bs <= ms) by (nonlinear_arith)
            requires
                bs == b * scale,
                ms == m * scale,
                m >= b * p,
        ;
        assert(bs <= ms) by (nonlinear_arith)
            requires
                p * bs <= ms,
                p >= 1,
        ;
        // The product.
        let bt = b * t;
        assert(n * bt <= n * bv + bv) by (nonlinear_arith)
            requires
                bt == b * t,
                bv == b * v,
                n * t <= n * v + v,
        ;
        assert(n * bv <= n * bt + bv) by (nonlinear_arith)
            requires
                bt == b * t,
                bv == b * v,
                n * v <= n * t + v,
        ;
        // The last rounding.
        let bw = b * whole;
        let bu = b * u;
        assert(2 * bw <= 2 * bt + bu && 2 * bt <= 2 * bw + bu) by (nonlinear_arith)
            requires
                bw == b * whole,
                bt == b * t,
                bu == b * u,
                2 * whole <= 2 * t + u,
                2 * t <= 2 * whole + u,
        ;
        // All three together, times `u`.
        assert(n * (2 * bv) <= n * (2 * ms) + 2 * ms) by (nonlinear_arith)
            requires
                n == 2 * p,
                2 * bv <= 2 * ms + bs,
                p * bs <= ms,
        ;
        assert(n * (2 * ms) <= n * (2 * bv) + 2 * ms) by (nonlinear_arith)
            requires
                n == 2 * p,
                2 * ms <= 2 * bv + bs,
                p * bs <= ms,
        ;
        assert(n * (2 * bw) <= n * (2 * bt) + n * bu) by (nonlinear_arith)
            requires
                2 * bw <= 2 * bt + bu,
        ;
        assert(n * (2 * bt) <= n * (2 * bw) + n * bu) by (nonlinear_arith)
            requires
                2 * bt <= 2 * bw + bu,
        ;
        assert(n * (2 * bt) == 2 * (n * bt)) by (nonlinear_arith);
        assert(n * (2 * bv) == 2 * (n * bv)) by (nonlinear_arith);
        assert(n * (2 * bw) <= n * (2 * ms) + 5 * ms + n * bu);
        assert(n * (2 * ms) <= n * (2 * bw) + 5 * ms + n * bu);
        let c = a * scale;
        let d = b * s;
        assert(ms == c * u) by (nonlinear_arith)
            requires
                ms == (a * u) * scale,
                c == a * scale,
        ;
        assert(bw == d * u) by (nonlinear_arith)
            requires
                bw == b * (u * s),
                d == b * s,
        ;
        assert(n * (2 * d) <= n * (2 * c + b) + 5 * c) by (nonlinear_arith)
            requires
                n * (2 * bw) <= n * (2 * ms) + 5 * ms + n * bu,
                bw == d * u,
                ms == c * u,
                bu == b * u,
                u > 0,
        {
            assert((n * (2 * d)) * u <= (n * (2 * c + b) + 5 * c) * u);
        }
        assert(n * (2 * c) <= n * (2 * d + b) + 5 * c) by (nonlinear_arith)
            requires
                n * (2 * ms) <= n * (2 * bw) + 5 * ms + n * bu,
                bw == d * u,
                ms == c * u,
                bu == b * u,
                u > 0,
        {
            assert((n * (2 * c)) * u <= (n * (2 * d + b) + 5 * c) * u);
        }
    }
}

/// The share `n` of `top` in `scale`, both rounded to the precision before they are divided, misses
/// `scale * n / top` by little more than a half.
pub proof fn lemma_share_is_close(n: nat, top: nat, scale: nat, bits: nat)
    requires
        n <= top,
        0 < top,
        0 < bits,
        scale < pow2(bits),
        0 < to_precision(top, bits),
    ensures
        ({
            let s = scaled(to_precision(n, bits), to_precision(top, bits), scale, bits);
            &&& pow2(bits) * (2 * (top * s)) <= pow2(bits) * (2 * (scale * n)) + (pow2(bits) + 1
                + 14 * scale) * top
            &&& pow2(bits) * (2 * (scale * n)) <= pow2(bits) * (2 * (top * s)) + (pow2(bits) + 1
                + 14 * scale) * top
        }),
{
    let a = to_precision(n, bits);
    let b = to_precision(top, bits);
    let s = scaled(a, b, scale, bits);
    let big = pow2(bits);
    lemma_pow2_pos(bits);
    lemma_to_precision_close(n, bits);
    lemma_to_precision_close(top, bits);
    lemma_to_precision_monotonic(n, top, bits);
    lemma_scaled_at_most(a, b, scale, bits);
    law_scaled_is_close(a, b, scale, bits);
    assert(a <= 2 * top) by (nonlinear_arith)
        requires
            big * a <= big * n + n,
            n <= top,
            big >= 1,
    ;
    let asc = a * scale;
    let ts = top * scale;
    let bs = b * s;
    let tops = top * s;
    let sn = scale * n;
    assert(asc <= 2 * ts) by (nonlinear_arith)
        requires
            asc == a * scale,
            ts == top * scale,
            a <= 2 * top,
    ;
    assert(sn <= ts) by (nonlinear_arith)
        requires
            sn == scale * n,
            ts == top * scale,
            n <= top,
    ;
    assert(tops <= ts) by (nonlinear_arith)
        requires
            tops == top * s,
            ts == top * scale,
            s <= scale,
    ;
    assert(big * tops <= big * bs + tops && big * bs <= big * tops + tops) by (nonlinear_arith)
        requires
            tops == top * s,
            bs == b * s,
            big * top <= big * b + top,
            big * b <= big * top + top,
    ;
    assert(big * asc <= big * sn + sn && big * sn <= big * asc + sn) by (nonlinear_arith)
        requires
            asc == a * scale,
            sn == scale * n,
            big * a <= big * n + n,
            big * n <= big * a + n,
    ;
    assert(big * (2 * bs) == 2 * (big * bs)) by (nonlinear_arith);
    assert(big * (2 * tops) == 2 * (big * tops)) by (nonlinear_arith);
    assert(big * (2 * sn) == 2 * (big * sn)) by (nonlinear_arith);
    assert(big * (2 * asc) == 2 * (big * asc)) by (nonlinear_arith);
    assert(big * (2 * asc + b) == 2 * (big * asc) + big * b) by (nonlinear_arith);
    assert(big * (2 * bs + b) == 2 * (big * bs) + big * b) by (nonlinear_arith);
    assert((big + 1 + 14 * scale) * top == big * top + top + 14 * ts) by (nonlinear_arith)
        requires
            ts == top * scale,
    ;
}

/// `2^bits` for the two significand widths in use.
fn significand_limit(bits: u32) -> (r: u128)
    requires
        bits == SINGLE || bits == DOUBLE,
    ensures
        r == pow2(bits as nat),
        r == 2 * pow2((bits - 1) as nat),
        0x100_0000 <= r <= 0x20_0000_0000_0000,
{
    proof {
        lemma2_to64();
        lemma2_to64_rest();
    }
    if bits == SINGLE {
        0x100_0000
    } else {
        0x20_0000_0000_0000
    }
}

/// `n / d` rounded to the nearest integer, halves going to the even neighbour.
pub fn round_half_even(n: u128, d: u128) -> (r: u128)
    requires
        0 < d,
    ensures
        r == nearest_even(n as nat, d as nat),
{
    let q: u128 = n / d;
    let rest: u128 = n % d;
    if rest < d - rest || (rest == d - rest && q % 2 == 0) {
        q
    } else {
        assert(q < u128::MAX) by (nonlinear_arith)
            requires
                d >= 2,
                q == n / d,
                n <= u128::MAX,
        ;
        q + 1
    }
}

/// The integer closest to `n` among those that a significand of `bits` bits can carry.
pub fn round_to_precision(n: u128, bits: u32) -> (r: u128)
    requires
        bits == SINGLE || bits == DOUBLE,
        n < 0x100_0000_0000_0000_0000_0000_0000_0000,
    ensures
        r == to_precision(n as nat, bits as nat),
{
    let limit: u128 = significand_limit(bits);
    let mut rest: u128 = n;
    let mut unit: u128 = 1;
    let ghost mut e: nat = 0;
    proof {
        lemma2_to64();
        assert(n * 1 == n);
    }
    while rest >= limit
        invariant
            limit == pow2(bits as nat),
            limit >= 0x100_0000,
            e > 0 ==> rest >= 1,
            e + excess_bits(rest as nat, bits as nat) == excess_bits(n as nat, bits as nat),
            unit == pow2(e),
            unit >= 1,
            rest * unit <= n,
            n < 0x100_0000_0000_0000_0000_0000_0000_0000,
        decreases rest,
    {
        assert((rest / 2) * (2 * unit) <= rest * unit) by (nonlinear_arith);
        assert(2 * unit <= n) by (nonlinear_arith)
            requires
                rest * unit <= n,
                rest >= limit,
                limit >= 2,
                unit >= 1,
        ;
        rest = rest / 2;
        unit = 2 * unit;
        proof {
            e = e + 1;
            lemma_pow2_unfold(e);
        }
    }
    proof {
        lemma_nearest_even_bounds(n as nat, unit as nat);
        if e > 0 {
            assert(unit <= n) by (nonlinear_arith)
                requires
                    rest * unit <= n,
                    rest >= 1,
                    unit >= 1,
            ;
        }
    }
    round_half_even(n, unit) * unit
}

/// `round(scale * (a / b))` in floating point with `bits` significant bits.
pub fn scale_by_ratio(a: u128, b: u128, scale: u16, bits: u32) -> (r: u16)
    requires
        a <= b,
        0 < b <= 0x1_0000_0000_0000_0000,
        bits == SINGLE || bits == DOUBLE,
    ensures
        r == scaled(a as nat, b as nat, scale as nat, bits as nat),
        r <= scale,
{
    proof {
        lemma2_to64();
        lemma2_to64_rest();
        lemma_scaled_at_most(a as nat, b as nat, scale as nat, bits as nat);
    }
    if a == 0 {
        return 0;
    }
    let full: u128 = significand_limit(bits);
    assert(b * (full / 2) <= 0x1_0000_0000_0000_0000 * 0x10_0000_0000_0000) by (nonlinear_arith)
        requires
            b <= 0x1_0000_0000_0000_0000,
            full / 2 <= 0x10_0000_0000_0000,
    ;
    let target: u128 = b * (full / 2);
    let mut raised: u128 = a;
    let mut unit: u128 = 1;
    let ghost mut k: nat = 0;
    assert(a * 1 == a);
    while raised < target
        invariant
            0 < raised,
            1 <= a,
            0 < b,
            target == b * pow2((bits - 1) as nat),
            target <= 0x1_0000_0000_0000_0000 * 0x10_0000_0000_0000,
            k + quotient_shift(raised as nat, b as nat, bits as nat) == quotient_shift(
                a as nat,
                b as nat,
                bits as nat,
            ),
            unit == pow2(k),
            unit >= 1,
            raised == a * unit,
            unit <= 2 * target,
        decreases 2 * target - raised,
    {
        assert(unit <= raised) by (nonlinear_arith)
            requires
                raised == a * unit,
                a >= 1,
        ;
        assert(2 * raised == a * (2 * unit)) by (nonlinear_arith)
            requires
                raised == a * unit,
        ;
        raised = 2 * raised;
        unit = 2 * unit;
        proof {
            k = k + 1;
            lemma_pow2_unfold(k);
        }
    }
    assert(k == quotient_shift(a as nat, b as nat, bits as nat));
    let significand: u128 = round_half_even(raised, b);
    proof {
        assert(a * unit <= unit * b) by (nonlinear_arith)
            requires
                a <= b,
        ;
        lemma_nearest_even_at_most(raised as nat, b as nat, unit as nat);
        lemma_quotient_shift(a as nat, b as nat, bits as nat);
        if k > 0 {
            assert(raised <= full * b) by (nonlinear_arith)
                requires
                    raised < 2 * target,
                    target == b * (full / 2),
                    full % 2 == 0,
            ;
            lemma_nearest_even_at_most(raised as nat, b as nat, full as nat);
        }
        assert(significand <= full);
        assert(significand * scale <= 0x20_0000_0000_0000 * 0xffff) by (nonlinear_arith)
            requires
                significand <= full,
                full <= 0x20_0000_0000_0000,
                scale <= 0xffff,
        ;
    }
    let product: u128 = round_to_precision(significand * scale as u128, bits);
    proof {
        lemma_to_precision_monotonic(
            (significand * scale) as nat,
            (0x20_0000_0000_0000 * 0x10000) as nat,
            bits as nat,
        );
        lemma_to_precision_exact(1, 69, bits as nat);
        lemma_pow2_adds(53, 16);
    }
    ((2 * product + unit) / (2 * unit)) as u16
}

} // verus!
