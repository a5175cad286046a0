//! Sums and quotients of binary64 numbers, worked out on their bit patterns
//! with integer arithmetic: each result is the exact one, rounded to the
//! nearest number that binary64 holds and, of two equally near, to the one
//! with the even significand.

use crate::score::{
    exponent, is_nan, is_negative, lemma_pow2_grows, magnitude, nan, round53, round_to_53,
    rounding_unit, significand, unit_of, HIDDEN_BIT, INFINITY_BITS, SIGNIFICAND_LIMIT, SIGN_BIT,
    WIDE_LIMIT,
};
use vstd::arithmetic::div_mod::{
    lemma_div_denominator, lemma_fundamental_div_mod, lemma_fundamental_div_mod_converse,
};
use vstd::arithmetic::power2::{lemma_pow2_adds, lemma_pow2_pos, lemma_pow2_unfold, pow2};
use vstd::prelude::*;

verus! {

/// The pattern that stands for every NaN that a sum or a quotient gives.
pub const QUIET_NAN_BITS: u64 = 0x7FF8_0000_0000_0000;

/// Whether the pattern is a number: neither an infinity nor a NaN.
pub open spec fn is_finite(bits: u64) -> bool {
    magnitude(bits) < INFINITY_BITS
}

/// The magnitude of a finite pattern's value, counted in units of 2^-1074,
/// the smallest step of binary64: a natural number.
pub open spec fn scaled(bits: u64) -> nat {
    significand(bits) * pow2((exponent(bits) + 1074) as nat)
}

/// The value of a finite pattern in units of 2^-1074, with its sign.
pub open spec fn signed_scaled(bits: u64) -> int {
    if is_negative(bits) {
        -(scaled(bits) as int)
    } else {
        scaled(bits) as int
    }
}

/// The magnitude pattern of the number that is `r` units of 2^-1074, for an
/// `r` that binary64 holds: below 2^53 the pattern is `r` itself, and each
/// doubling from there adds one to the exponent field.
pub open spec fn pattern(r: nat) -> nat
    decreases r,
{
    if r < SIGNIFICAND_LIMIT {
        r
    } else {
        (HIDDEN_BIT + pattern(r / 2)) as nat
    }
}

/// The pattern with the given sign and magnitude.
pub open spec fn with_sign(negative: bool, mag: nat) -> u64 {
    if negative {
        (SIGN_BIT + mag) as u64
    } else {
        mag as u64
    }
}

/// The pattern of the number with the given sign that `r` units of 2^-1074
/// round to; infinity where that is beyond the largest number.
pub open spec fn packed(negative: bool, r: nat) -> u64 {
    let p = pattern(r);
    with_sign(
        negative,
        if p >= INFINITY_BITS {
            INFINITY_BITS as nat
        } else {
            p
        },
    )
}

/// Doubling a number doubles what it rounds to.
pub proof fn lemma_round53_double(y: nat)
    ensures
        round53(2 * y) == 2 * round53(y),
{
    if 2 * y < SIGNIFICAND_LIMIT {
        assert(rounding_unit(2 * y) == 1);
        assert(rounding_unit(y) == 1);
        assert(round53(2 * y) == 2 * y);
        assert(round53(y) == y);
    } else {
        let u = rounding_unit(y);
        assert((2 * y) / 2 == y);
        assert(rounding_unit(2 * y) == 2 * u);
        lemma_unit_positive(y);
        let q = y / u;
        let r = y % u;
        lemma_fundamental_div_mod(y as int, u as int);
        vstd::arithmetic::div_mod::lemma_mod_bound(y as int, u as int);
        assert(2 * y == q * (2 * u) + 2 * r) by (nonlinear_arith)
            requires
                y == u * q + r,
        ;
        lemma_fundamental_div_mod_converse((2 * y) as int, (2 * u) as int, q as int, (2 * r) as int);
        assert((2 * y) / (2 * u) == q);
        assert((2 * y) % (2 * u) == 2 * r);
        assert((q + 1) * (2 * u) == 2 * ((q + 1) * u)) by (nonlinear_arith);
        assert(q * (2 * u) == 2 * (q * u)) by (nonlinear_arith);
        let up = 2 * r > u || (2 * r == u && q % 2 == 1);
        assert(round53(y) == if up { (q + 1) * u } else { q * u });
        assert(round53(2 * y) == if up { (q + 1) * (2 * u) } else { q * (2 * u) });
    }
}

/// The unit of rounding is at least 1.
pub proof fn lemma_unit_positive(w: nat)
    ensures
        rounding_unit(w) >= 1,
    decreases w,
{
    if w >= SIGNIFICAND_LIMIT {
        lemma_unit_positive(w / 2);
    }
}

/// Scaling a number by a power of two scales what it rounds to.
pub proof fn lemma_round53_scale(y: nat, k: nat)
    ensures
        round53(y * pow2(k)) == round53(y) * pow2(k),
    decreases k,
{
    if k == 0 {
        vstd::arithmetic::power2::lemma2_to64();
        assert(y * pow2(0) == y) by (nonlinear_arith)
            requires
                pow2(0) == 1,
        ;
        assert(round53(y) * pow2(0) == round53(y)) by (nonlinear_arith)
            requires
                pow2(0) == 1,
        ;
    } else {
        lemma_round53_scale(y, (k - 1) as nat);
        lemma_pow2_unfold(k);
        let h = pow2((k - 1) as nat);
        lemma_round53_double(y * h);
        assert(y * pow2(k) == 2 * (y * h)) by (nonlinear_arith)
            requires
                pow2(k) == 2 * h,
        ;
        assert(round53(y) * pow2(k) == 2 * (round53(y) * h)) by (nonlinear_arith)
            requires
                pow2(k) == 2 * h,
        ;
    }
}

/// From 2^52 on, each doubling adds one to the exponent field.
pub proof fn lemma_pattern_scale(z: nat, k: nat)
    requires
        z >= HIDDEN_BIT,
    ensures
        pattern(z * pow2(k)) == k * HIDDEN_BIT + pattern(z),
    decreases k,
{
    if k == 0 {
        vstd::arithmetic::power2::lemma2_to64();
        assert(z * pow2(0) == z) by (nonlinear_arith)
            requires
                pow2(0) == 1,
        ;
    } else {
        lemma_pattern_scale(z, (k - 1) as nat);
        lemma_pow2_unfold(k);
        lemma_pow2_pos((k - 1) as nat);
        let h = pow2((k - 1) as nat);
        let r = z * pow2(k);
        assert(r == 2 * (z * h)) by (nonlinear_arith)
            requires
                r == z * pow2(k),
                pow2(k) == 2 * h,
        ;
        assert(z * h >= z) by (nonlinear_arith)
            requires
                h >= 1,
        ;
        assert(r / 2 == z * h);
        assert(r >= SIGNIFICAND_LIMIT);
        assert(k * HIDDEN_BIT == (k - 1) * HIDDEN_BIT + HIDDEN_BIT) by (nonlinear_arith);
    }
}

/// A number that binary64 holds is the pattern of its own value.
pub proof fn lemma_pattern_of_scaled(bits: u64)
    requires
        is_finite(bits),
    ensures
        packed(is_negative(bits), scaled(bits)) == bits,
{
    let mag = magnitude(bits);
    vstd::arithmetic::power2::lemma2_to64();
    if mag < HIDDEN_BIT {
        assert((mag as nat) * pow2(0) == mag) by (nonlinear_arith)
            requires
                pow2(0) == 1,
        ;
    } else {
        let m = (HIDDEN_BIT + mag % HIDDEN_BIT) as nat;
        let field = mag / HIDDEN_BIT;
        let k = (field - 1) as nat;
        lemma_pattern_scale(m, k);
        lemma_fundamental_div_mod(mag as int, HIDDEN_BIT as int);
        assert(k * HIDDEN_BIT + m == mag) by (nonlinear_arith)
            requires
                mag == HIDDEN_BIT * field + mag % HIDDEN_BIT,
                k == field - 1,
                m == HIDDEN_BIT + mag % HIDDEN_BIT,
        ;
    }
}

/// The sum of two patterns: the exact sum of the two numbers, rounded to
/// the nearest number that binary64 holds, ties to the even one. A sum that
/// is exactly zero is -0.0 only where both numbers are negative (both are
/// -0.0 then). An infinity swallows every number; two infinities of opposite
/// sign, and anything with a NaN, give the quiet NaN.
pub open spec fn sum_of_two(a: u64, b: u64) -> u64 {
    if is_nan(a) || is_nan(b) {
        QUIET_NAN_BITS
    } else if !is_finite(a) {
        if !is_finite(b) && is_negative(a) != is_negative(b) {
            QUIET_NAN_BITS
        } else {
            a
        }
    } else if !is_finite(b) {
        b
    } else {
        let s = signed_scaled(a) + signed_scaled(b);
        if s == 0 {
            with_sign(is_negative(a) && is_negative(b), 0)
        } else if s < 0 {
            packed(true, round53((-s) as nat))
        } else {
            packed(false, round53(s as nat))
        }
    }
}

/// The unit of rounding of `w` is `2^t` where `w / 2^t` has 53 significant
/// bits.
proof fn lemma_unit_of(w: nat, t: nat)
    requires
        HIDDEN_BIT <= w / pow2(t) < SIGNIFICAND_LIMIT,
    ensures
        rounding_unit(w) == pow2(t),
    decreases t,
{
    vstd::arithmetic::power2::lemma2_to64();
    if t == 0 {
        assert(w / 1 == w);
    } else {
        lemma_pow2_unfold(t);
        lemma_pow2_pos((t - 1) as nat);
        let h = pow2((t - 1) as nat);
        lemma_div_denominator(w as int, 2, h as int);
        assert(2 * h == pow2(t));
        assert((w / 2) / h == w / pow2(t));
        lemma_unit_of(w / 2, (t - 1) as nat);
        if w < SIGNIFICAND_LIMIT {
            vstd::arithmetic::div_mod::lemma_div_is_ordered_by_denominator(
                w as int,
                2,
                pow2(t) as int,
            );
            assert(w / pow2(t) <= w / 2);
            assert(false);
        }
    }
}

/// With 53 significant bits in `a` and `d >= 55`, the number `a * 2^d`
/// swallows whatever is below 2^53: with so little put on or taken off, it
/// still rounds to itself.
proof fn lemma_absorb(a: nat, d: nat, b: nat)
    requires
        HIDDEN_BIT <= a < SIGNIFICAND_LIMIT,
        b < SIGNIFICAND_LIMIT,
        d >= 55,
    ensures
        round53(a * pow2(d) + b) == a * pow2(d),
        round53((a * pow2(d) - b) as nat) == a * pow2(d),
        a * pow2(d) > b,
{
    vstd::arithmetic::power2::lemma2_to64();
    vstd::arithmetic::power2::lemma2_to64_rest();
    lemma_pow2_grows(55, d);
    lemma_pow2_unfold(d);
    let p = pow2(d);
    let h = pow2((d - 1) as nat);
    assert(p == 2 * h);
    assert(p >= 0x80000000000000);
    let top = a * p;
    assert(top >= p) by (nonlinear_arith)
        requires
            top == a * p,
            a >= 1,
            p >= 0,
    ;
    // Adding.
    {
        let w = top + b;
        lemma_fundamental_div_mod_converse(w as int, p as int, a as int, b as int);
        lemma_unit_of(w, d);
    }
    // Taking off.
    if b == 0 {
        let w = top;
        lemma_fundamental_div_mod_converse(w as int, p as int, a as int, 0);
        lemma_unit_of(w, d);
    } else if a > HIDDEN_BIT {
        let w = (top - b) as nat;
        assert(w == (a - 1) * p + (p - b)) by (nonlinear_arith)
            requires
                w == top - b,
                top == a * p,
        ;
        lemma_fundamental_div_mod_converse(w as int, p as int, (a - 1) as int, (p - b) as int);
        lemma_unit_of(w, d);
        assert(((a - 1) + 1) * p == top) by (nonlinear_arith)
            requires
                top == a * p,
        ;
    } else {
        let w = (top - b) as nat;
        let q = (SIGNIFICAND_LIMIT - 1) as nat;
        assert(w == q * h + (h - b)) by (nonlinear_arith)
            requires
                w == top - b,
                top == a * p,
                p == 2 * h,
                a == 0x0010_0000_0000_0000,
                q == 0x0020_0000_0000_0000 - 1,
        ;
        lemma_fundamental_div_mod_converse(w as int, h as int, q as int, (h - b) as int);
        lemma_unit_of(w, (d - 1) as nat);
        assert((q + 1) * h == top) by (nonlinear_arith)
            requires
                top == a * p,
                p == 2 * h,
                a == 0x0010_0000_0000_0000,
                q == 0x0020_0000_0000_0000 - 1,
        ;
    }
}

/// The significand and the exponent, counted from 2^-1074, of a finite
/// magnitude.
fn parts(mag: u64) -> (r: (u64, u32))
    requires
        mag < INFINITY_BITS,
    ensures
        r.0 == significand(mag),
        r.1 == exponent(mag) + 1074,
        r.0 < SIGNIFICAND_LIMIT,
        r.1 <= 2045,
        r.1 > 0 ==> r.0 >= HIDDEN_BIT,
        scaled(mag) == (r.0 as nat) * pow2(r.1 as nat),
        pattern((r.0 as nat) * pow2(r.1 as nat)) == mag,
        (r.0 == 0) == (mag == 0),
{
    if mag < HIDDEN_BIT {
        proof {
            vstd::arithmetic::power2::lemma2_to64();
            assert(mag * pow2(0) == mag) by (nonlinear_arith)
                requires
                    pow2(0) == 1,
            ;
        }
        (mag, 0)
    } else {
        let m = HIDDEN_BIT + mag % HIDDEN_BIT;
        let field = mag / HIDDEN_BIT;
        let k = (field - 1) as u32;
        proof {
            lemma_pattern_scale(m as nat, k as nat);
            lemma_fundamental_div_mod(mag as int, HIDDEN_BIT as int);
            assert(k * HIDDEN_BIT + m == mag) by (nonlinear_arith)
                requires
                    mag == HIDDEN_BIT * field + mag % HIDDEN_BIT,
                    k == field - 1,
                    m == HIDDEN_BIT + mag % HIDDEN_BIT,
            ;
        }
        (m, k)
    }
}

/// The magnitude pattern of `z * 2^k` units of 2^-1074, held at infinity.
fn pack(z: u128, k: u32) -> (mag: u64)
    requires
        z < WIDE_LIMIT,
        k <= 4096,
    ensures
        mag <= INFINITY_BITS,
        mag == packed(false, (z as nat) * pow2(k as nat)),
{
    let ghost target = pattern((z as nat) * pow2(k as nat));
    let mut m: u128 = z;
    let mut e: u32 = k;
    if m >= SIGNIFICAND_LIMIT {
        proof {
            lemma_pattern_scale(z as nat, k as nat);
            vstd::arithmetic::power2::lemma2_to64();
            assert((m as nat) * pow2(0) <= z) by (nonlinear_arith)
                requires
                    m == z,
                    pow2(0) == 1,
            ;
        }
        while m >= SIGNIFICAND_LIMIT
            invariant
                z < WIDE_LIMIT,
                k <= e <= k + 67,
                k <= 4096,
                m >= HIDDEN_BIT,
                pattern(z as nat) == (e - k) * HIDDEN_BIT + pattern(m as nat),
                (m as nat) * pow2((e - k) as nat) <= z,
            decreases m,
        {
            proof {
                let g = (e - k) as nat;
                assert((g + 1) * HIDDEN_BIT == g * HIDDEN_BIT + HIDDEN_BIT) by (nonlinear_arith);
                lemma_pow2_unfold(g + 1);
                assert(((m / 2) as nat) * pow2(g + 1) <= (m as nat) * pow2(g)) by (nonlinear_arith)
                    requires
                        pow2(g + 1) == 2 * pow2(g),
                        (m / 2) * 2 <= m,
                ;
                if g == 67 {
                    vstd::arithmetic::power2::lemma2_to64();
                    lemma_pow2_adds(64, 3);
                    assert(false) by (nonlinear_arith)
                        requires
                            m >= 0x0020_0000_0000_0000u128,
                            (m as nat) * pow2(67) <= z,
                            z < 0x0100_0000_0000_0000_0000_0000_0000_0000u128,
                            pow2(67) == 0x1_0000_0000_0000_0000 * 8,
                    ;
                }
            }
            m = m / 2;
            e = e + 1;
        }
    } else if m >= HIDDEN_BIT as u128 {
        proof {
            lemma_pattern_scale(z as nat, k as nat);
        }
    } else {
        while m < HIDDEN_BIT as u128 && e > 0
            invariant
                m < SIGNIFICAND_LIMIT,
                e <= k,
                (m as nat) * pow2(e as nat) == (z as nat) * pow2(k as nat),
            decreases e,
        {
            proof {
                lemma_pow2_unfold(e as nat);
                assert((2 * m) * pow2((e - 1) as nat) == m * pow2(e as nat)) by (nonlinear_arith)
                    requires
                        pow2(e as nat) == 2 * pow2((e - 1) as nat),
                ;
            }
            m = m * 2;
            e = e - 1;
        }
        proof {
            if m >= HIDDEN_BIT {
                lemma_pattern_scale(m as nat, e as nat);
            } else {
                vstd::arithmetic::power2::lemma2_to64();
                assert(m * pow2(0) == m) by (nonlinear_arith)
                    requires
                        pow2(0) == 1,
                ;
            }
        }
    }
    assert(m < SIGNIFICAND_LIMIT);
    assert(target == if m >= HIDDEN_BIT { e * HIDDEN_BIT + m } else { m as int }) by {
        assert(e * HIDDEN_BIT == k * HIDDEN_BIT + (e - k) * HIDDEN_BIT) by (nonlinear_arith);
    }
    if m >= HIDDEN_BIT as u128 {
        if e >= 2046 {
            assert(e * HIDDEN_BIT + m >= INFINITY_BITS) by (nonlinear_arith)
                requires
                    e >= 2046,
                    m >= 0x0010_0000_0000_0000u128,
                    HIDDEN_BIT == 0x0010_0000_0000_0000u64,
                    INFINITY_BITS == 0x7FF0_0000_0000_0000u64,
            ;
            INFINITY_BITS
        } else {
            assert(e * HIDDEN_BIT + m < INFINITY_BITS) by (nonlinear_arith)
                requires
                    e <= 2045,
                    m < 0x0020_0000_0000_0000u128,
                    HIDDEN_BIT == 0x0010_0000_0000_0000u64,
                    INFINITY_BITS == 0x7FF0_0000_0000_0000u64,
            ;
            (e as u64) * HIDDEN_BIT + (m as u64)
        }
    } else {
        m as u64
    }
}

/// `x * 2^d` for a significand `x` and a shift of at most 66.
fn shifted(x: u64, d: u32) -> (r: u128)
    requires
        x < SIGNIFICAND_LIMIT,
        d <= 66,
    ensures
        r == (x as nat) * pow2(d as nat),
        r < WIDE_LIMIT / 2,
        d <= 64 ==> r < WIDE_LIMIT / 8,
{
    let mut r: u128 = x as u128;
    let mut i: u32 = 0;
    proof {
        vstd::arithmetic::power2::lemma2_to64();
        assert((x as nat) * pow2(0) == x) by (nonlinear_arith)
            requires
                pow2(0) == 1,
        ;
    }
    while i < d
        invariant
            i <= d <= 66,
            x < SIGNIFICAND_LIMIT,
            r == (x as nat) * pow2(i as nat),
        decreases d - i,
    {
        proof {
            lemma_shift_bound(x as nat, (i + 1) as nat);
            lemma_pow2_unfold((i + 1) as nat);
            assert(2 * r == (x as nat) * pow2((i + 1) as nat)) by (nonlinear_arith)
                requires
                    r == (x as nat) * pow2(i as nat),
                    pow2((i + 1) as nat) == 2 * pow2(i as nat),
            ;
        }
        r = r * 2;
        i = i + 1;
    }
    proof {
        lemma_shift_bound(x as nat, d as nat);
    }
    r
}

proof fn lemma_shift_bound(x: nat, d: nat)
    requires
        x < SIGNIFICAND_LIMIT,
        d <= 66,
    ensures
        x * pow2(d) < WIDE_LIMIT / 2,
        d <= 64 ==> x * pow2(d) < WIDE_LIMIT / 8,
{
    vstd::arithmetic::power2::lemma2_to64();
    lemma_pow2_adds(64, 2);
    lemma_pow2_grows(d, 66);
    assert(x * pow2(d) < WIDE_LIMIT / 2) by (nonlinear_arith)
        requires
            x < 0x0020_0000_0000_0000,
            pow2(d) <= pow2(66),
            pow2(66) == 0x1_0000_0000_0000_0000 * 4,
            WIDE_LIMIT == 0x0100_0000_0000_0000_0000_0000_0000_0000u128,
    ;
    if d <= 64 {
        lemma_pow2_grows(d, 64);
        assert(x * pow2(d) < WIDE_LIMIT / 8) by (nonlinear_arith)
            requires
                x < 0x0020_0000_0000_0000,
                pow2(d) <= pow2(64),
                pow2(64) == 0x1_0000_0000_0000_0000,
                WIDE_LIMIT == 0x0100_0000_0000_0000_0000_0000_0000_0000u128,
        ;
    }
}

/// The pattern with the given sign and a magnitude that is no NaN.
fn signed(negative: bool, mag: u64) -> (bits: u64)
    requires
        mag <= INFINITY_BITS,
    ensures
        bits == with_sign(negative, mag as nat),
{
    if negative {
        SIGN_BIT + mag
    } else {
        mag
    }
}

/// Adds two binary64 numbers.
pub fn add_two(a: u64, b: u64) -> (sum: u64)
    ensures
        sum == sum_of_two(a, b),
{
    if nan(a) || nan(b) {
        return QUIET_NAN_BITS;
    }
    let a_negative = a >= SIGN_BIT;
    let b_negative = b >= SIGN_BIT;
    let a_mag = if a_negative { a - SIGN_BIT } else { a };
    let b_mag = if b_negative { b - SIGN_BIT } else { b };
    if a_mag == INFINITY_BITS {
        if b_mag == INFINITY_BITS && a_negative != b_negative {
            return QUIET_NAN_BITS;
        }
        return a;
    }
    if b_mag == INFINITY_BITS {
        return b;
    }
    let (a_sig, a_exp) = parts(a_mag);
    let (b_sig, b_exp) = parts(b_mag);
    assert(scaled(a) == (a_sig as nat) * pow2(a_exp as nat));
    assert(scaled(b) == (b_sig as nat) * pow2(b_exp as nat));
    if a_exp >= b_exp {
        add_ordered(a, a_negative, a_mag, a_sig, a_exp, b, b_negative, b_sig, b_exp)
    } else {
        add_ordered(b, b_negative, b_mag, b_sig, b_exp, a, a_negative, a_sig, a_exp)
    }
}

/// Adds two finite numbers of which the first has the larger exponent, or
/// the same.
fn add_ordered(
    hi: u64,
    hi_negative: bool,
    hi_mag: u64,
    hi_sig: u64,
    hi_exp: u32,
    lo: u64,
    lo_negative: bool,
    lo_sig: u64,
    lo_exp: u32,
) -> (sum: u64)
    requires
        is_finite(hi),
        is_finite(lo),
        hi_negative == is_negative(hi),
        lo_negative == is_negative(lo),
        hi_mag == magnitude(hi),
        hi_sig < SIGNIFICAND_LIMIT,
        lo_sig < SIGNIFICAND_LIMIT,
        lo_exp <= hi_exp <= 2045,
        hi_exp > 0 ==> hi_sig >= HIDDEN_BIT,
        scaled(hi) == (hi_sig as nat) * pow2(hi_exp as nat),
        scaled(lo) == (lo_sig as nat) * pow2(lo_exp as nat),
        pattern((hi_sig as nat) * pow2(hi_exp as nat)) == hi_mag,
    ensures
        sum == sum_of_two(hi, lo),
        sum == sum_of_two(lo, hi),
{
    let d = hi_exp - lo_exp;
    let ghost low = pow2(lo_exp as nat);
    proof {
        lemma_pow2_adds(d as nat, lo_exp as nat);
        lemma_pow2_pos(lo_exp as nat);
        lemma_pow2_pos(d as nat);
    }
    if d > 64 {
        proof {
            let top = (hi_sig as nat) * pow2(d as nat);
            lemma_absorb(hi_sig as nat, d as nat, lo_sig as nat);
            assert(top * low == scaled(hi)) by (nonlinear_arith)
                requires
                    top == (hi_sig as nat) * pow2(d as nat),
                    scaled(hi) == (hi_sig as nat) * pow2(hi_exp as nat),
                    pow2(hi_exp as nat) == pow2(d as nat) * low,
            ;
            assert((top + lo_sig) * low == scaled(hi) + scaled(lo)) by (nonlinear_arith)
                requires
                    top * low == scaled(hi),
                    scaled(lo) == (lo_sig as nat) * low,
            ;
            assert((top - lo_sig) * low == scaled(hi) - scaled(lo)) by (nonlinear_arith)
                requires
                    top * low == scaled(hi),
                    scaled(lo) == (lo_sig as nat) * low,
            ;
            assert((top - lo_sig) * low > 0) by (nonlinear_arith)
                requires
                    top > lo_sig,
                    low > 0,
            ;
            lemma_round53_scale(top + lo_sig as nat, lo_exp as nat);
            lemma_round53_scale((top - lo_sig) as nat, lo_exp as nat);
            assert(hi_mag < INFINITY_BITS);
        }
        return hi;
    }
    let top = shifted(hi_sig, d);
    let negative: bool;
    let exact: u128;
    if hi_negative == lo_negative {
        negative = hi_negative;
        exact = top + lo_sig as u128;
    } else if top >= lo_sig as u128 {
        negative = hi_negative;
        exact = top - lo_sig as u128;
    } else {
        negative = lo_negative;
        exact = lo_sig as u128 - top;
    }
    proof {
        assert((top as nat) * low == scaled(hi)) by (nonlinear_arith)
            requires
                top == (hi_sig as nat) * pow2(d as nat),
                scaled(hi) == (hi_sig as nat) * pow2(hi_exp as nat),
                pow2(hi_exp as nat) == pow2(d as nat) * low,
        ;
        let s = signed_scaled(hi) + signed_scaled(lo);
        assert(s == (if negative { -(exact as int) } else { exact as int }) * low)
            by (nonlinear_arith)
            requires
                s == signed_scaled(hi) + signed_scaled(lo),
                signed_scaled(hi) == if hi_negative { -(top as int * low) } else {
                    top as int * low
                },
                signed_scaled(lo) == if lo_negative { -(lo_sig as int * low) } else {
                    lo_sig as int * low
                },
                exact == if hi_negative == lo_negative {
                    top + lo_sig
                } else if top >= lo_sig {
                    top - lo_sig
                } else {
                    lo_sig - top
                },
                negative == if hi_negative == lo_negative {
                    hi_negative
                } else if top >= lo_sig {
                    hi_negative
                } else {
                    lo_negative
                },
        ;
        if exact != 0 {
            assert((exact as nat) * low > 0) by (nonlinear_arith)
                requires
                    exact > 0,
                    low > 0,
            ;
            lemma_round53_scale(exact as nat, lo_exp as nat);
        } else {
            assert(s == 0) by (nonlinear_arith)
                requires
                    s == (if negative { -(exact as int) } else { exact as int }) * low,
                    exact == 0,
            ;
        }
    }
    if exact == 0 {
        // Opposite numbers, or two zeros.
        return signed(hi_negative && lo_negative, 0);
    }
    let rounded = round_to_53(exact);
    let mag = pack(rounded, lo_exp);
    proof {
        let s = signed_scaled(hi) + signed_scaled(lo);
        let r = (exact as nat) * low;
        assert(r > 0);
        assert(negative ==> s == -(r as int)) by (nonlinear_arith)
            requires
                s == (if negative { -(exact as int) } else { exact as int }) * low,
                r == (exact as nat) * low,
        ;
        assert(!negative ==> s == r as int) by (nonlinear_arith)
            requires
                s == (if negative { -(exact as int) } else { exact as int }) * low,
                r == (exact as nat) * low,
        ;
        assert(round53(r) == (rounded as nat) * low);
        assert(mag == packed(false, round53(r)));
        assert(with_sign(negative, mag as nat) == packed(negative, round53(r)));
        assert(sum_of_two(hi, lo) == packed(negative, round53(r)));
        assert(sum_of_two(lo, hi) == packed(negative, round53(r)));
    }
    signed(negative, mag)
}

/// The quotient `v / n` of two natural numbers, rounded as binary64 rounds
/// a number of `v / n` units of 2^-1074: to a whole number below 2^53, to 53
/// significant bits from there on, ties to the even one.
pub open spec fn round_ratio(v: nat, n: nat) -> nat {
    let unit = rounding_unit(v / n);
    let den = n * unit;
    let q = v / den;
    let r = v % den;
    if 2 * r > den || (2 * r == den && q % 2 == 1) {
        (q + 1) * unit
    } else {
        q * unit
    }
}

/// A pattern divided by a whole number `n`: the exact quotient, rounded to
/// the nearest number that binary64 holds, ties to the even one. An infinity
/// stays what it is, and a NaN gives the quiet NaN. Divided by zero, a zero
/// gives the quiet NaN and every other number the infinity of its sign.
pub open spec fn quotient_by(a: u64, n: nat) -> u64 {
    if is_nan(a) {
        QUIET_NAN_BITS
    } else if n == 0 {
        if magnitude(a) == 0 {
            QUIET_NAN_BITS
        } else {
            with_sign(is_negative(a), INFINITY_BITS as nat)
        }
    } else if !is_finite(a) {
        a
    } else {
        packed(is_negative(a), round_ratio(scaled(a), n))
    }
}

/// Doubling the dividend doubles the rounded quotient, once the quotient
/// has 53 significant bits.
proof fn lemma_ratio_double(v: nat, n: nat)
    requires
        n >= 1,
        v / n >= HIDDEN_BIT,
    ensures
        round_ratio(2 * v, n) == 2 * round_ratio(v, n),
        (2 * v) / n >= HIDDEN_BIT,
{
    let whole = v / n;
    let twice = (2 * v) / n;
    lemma_div_denominator((2 * v) as int, n as int, 2);
    lemma_div_denominator((2 * v) as int, 2, n as int);
    assert((2 * v) / 2 == v);
    assert(n * 2 == 2 * n);
    assert(twice / 2 == whole);
    assert(twice >= SIGNIFICAND_LIMIT);
    let u = rounding_unit(whole);
    assert(rounding_unit(twice) == 2 * u);
    lemma_unit_positive(whole);
    let den = n * u;
    assert(den >= 1) by (nonlinear_arith)
        requires
            den == n * u,
            n >= 1,
            u >= 1,
    ;
    let q = v / den;
    let r = v % den;
    lemma_fundamental_div_mod(v as int, den as int);
    vstd::arithmetic::div_mod::lemma_mod_bound(v as int, den as int);
    assert(n * (2 * u) == 2 * den) by (nonlinear_arith)
        requires
            den == n * u,
    ;
    assert(2 * v == q * (2 * den) + 2 * r) by (nonlinear_arith)
        requires
            v == den * q + r,
    ;
    lemma_fundamental_div_mod_converse((2 * v) as int, (2 * den) as int, q as int, (2 * r) as int);
    assert((2 * v) / (2 * den) == q);
    assert((2 * v) % (2 * den) == 2 * r);
    assert((q + 1) * (2 * u) == 2 * ((q + 1) * u)) by (nonlinear_arith);
    assert(q * (2 * u) == 2 * (q * u)) by (nonlinear_arith);
    let up = 2 * r > den || (2 * r == den && q % 2 == 1);
    assert(round_ratio(v, n) == if up { (q + 1) * u } else { q * u });
    assert(round_ratio(2 * v, n) == if up { (q + 1) * (2 * u) } else { q * (2 * u) });
}

/// Scaling the dividend by a power of two scales the rounded quotient,
/// once the quotient has 53 significant bits.
proof fn lemma_ratio_scale(v: nat, n: nat, k: nat)
    requires
        n >= 1,
        v / n >= HIDDEN_BIT,
    ensures
        round_ratio(v * pow2(k), n) == round_ratio(v, n) * pow2(k),
        (v * pow2(k)) / n >= HIDDEN_BIT,
    decreases k,
{
    if k == 0 {
        vstd::arithmetic::power2::lemma2_to64();
        assert(v * pow2(0) == v) by (nonlinear_arith)
            requires
                pow2(0) == 1,
        ;
        assert(round_ratio(v, n) * pow2(0) == round_ratio(v, n)) by (nonlinear_arith)
            requires
                pow2(0) == 1,
        ;
    } else {
        lemma_ratio_scale(v, n, (k - 1) as nat);
        lemma_pow2_unfold(k);
        let h = pow2((k - 1) as nat);
        lemma_ratio_double(v * h, n);
        assert(v * pow2(k) == 2 * (v * h)) by (nonlinear_arith)
            requires
                pow2(k) == 2 * h,
        ;
        assert(round_ratio(v, n) * pow2(k) == 2 * (round_ratio(v, n) * h)) by (nonlinear_arith)
            requires
                pow2(k) == 2 * h,
        ;
    }
}

/// The rounded quotient of two numbers.
fn ratio_round(v: u128, n: u128) -> (z: u128)
    requires
        v < WIDE_LIMIT / 2,
        n >= 1,
    ensures
        z == round_ratio(v as nat, n as nat),
        z < WIDE_LIMIT,
{
    let whole = v / n;
    let unit = unit_of(whole);
    proof {
        lemma_fundamental_div_mod(v as int, n as int);
        vstd::arithmetic::div_mod::lemma_mod_bound(v as int, n as int);
        lemma_fundamental_div_mod(whole as int, unit as int);
        vstd::arithmetic::div_mod::lemma_mod_bound(whole as int, unit as int);
        if unit > 1 {
            assert(unit * (SIGNIFICAND_LIMIT / 2) <= whole);
            assert(unit <= whole) by (nonlinear_arith)
                requires
                    unit * 0x0010_0000_0000_0000 <= whole,
                    unit >= 1,
            ;
            // `n * unit` is at most `v`.
            assert(n * unit <= v) by (nonlinear_arith)
                requires
                    v == n * whole + v % n,
                    0 <= v % n,
                    unit <= whole,
                    n >= 1,
            ;
        }
        assert(n * unit >= 1) by (nonlinear_arith)
            requires
                n >= 1,
                unit >= 1,
        ;
        assert(unit == 1 ==> n * unit == n) by (nonlinear_arith);
    }
    let den = n * unit;
    let q = v / den;
    let r = v % den;
    proof {
        lemma_fundamental_div_mod(v as int, den as int);
        vstd::arithmetic::div_mod::lemma_mod_bound(v as int, den as int);
        lemma_div_denominator(v as int, n as int, unit as int);
        assert(q == whole / unit);
        assert(q < SIGNIFICAND_LIMIT);
        assert((q + 1) * unit <= 2 * v + 1) by (nonlinear_arith)
            requires
                v == den * q + r,
                den == n * unit,
                n >= 1,
                unit >= 1,
                r >= 0,
                q >= 0,
                unit > 1 ==> n * unit <= v,
        ;
    }
    if 2 * r > den || (2 * r == den && q % 2 == 1) {
        (q + 1) * unit
    } else {
        assert(q * unit <= (q + 1) * unit) by (nonlinear_arith)
            requires
                unit >= 0,
                q >= 0,
        ;
        q * unit
    }
}

/// Divides a binary64 number by a count.
pub fn divide_by_count(a: u64, count: usize) -> (quotient: u64)
    ensures
        quotient == quotient_by(a, round53(count as nat)),
{
    if nan(a) {
        return QUIET_NAN_BITS;
    }
    let negative = a >= SIGN_BIT;
    let mag = if negative { a - SIGN_BIT } else { a };
    if count == 0 {
        assert(round53(0) == 0) by {
            assert(rounding_unit(0) == 1);
        }
        if mag == 0 {
            return QUIET_NAN_BITS;
        }
        return signed(negative, INFINITY_BITS);
    }
    if mag == INFINITY_BITS {
        return a;
    }
    let n = round_to_53(count as u128);
    proof {
        assert(round53(count as nat) >= 1) by {
            lemma_round53_positive(count as nat);
        }
    }
    let (sig, exp) = parts(mag);
    assert(scaled(a) == (sig as nat) * pow2(exp as nat));
    if exp <= 66 {
        let v = shifted(sig, exp);
        let z = ratio_round(v, n);
        let m = pack(z, 0);
        proof {
            vstd::arithmetic::power2::lemma2_to64();
            assert((z as nat) * pow2(0) == z) by (nonlinear_arith)
                requires
                    pow2(0) == 1,
            ;
        }
        signed(negative, m)
    } else {
        let v = shifted(sig, 66);
        let z = ratio_round(v, n);
        let m = pack(z, exp - 66);
        proof {
            let rest = (exp - 66) as nat;
            lemma_pow2_adds(66, rest);
            assert(scaled(a) == (v as nat) * pow2(rest)) by (nonlinear_arith)
                requires
                    scaled(a) == (sig as nat) * pow2(exp as nat),
                    v == (sig as nat) * pow2(66),
                    pow2(exp as nat) == pow2(66) * pow2(rest),
            ;
            // The quotient of `v` has 53 significant bits.
            vstd::arithmetic::power2::lemma2_to64();
            lemma_pow2_adds(64, 2);
            assert(v >= n * HIDDEN_BIT) by (nonlinear_arith)
                requires
                    v == (sig as nat) * pow2(66),
                    pow2(66) == 0x1_0000_0000_0000_0000 * 4,
                    sig >= 0x0010_0000_0000_0000u64,
                    n <= 2 * 0xFFFF_FFFF_FFFF_FFFFu128,
                    HIDDEN_BIT == 0x0010_0000_0000_0000u64,
            ;
            vstd::arithmetic::div_mod::lemma_div_is_ordered(
                (n * HIDDEN_BIT) as int,
                v as int,
                n as int,
            );
            vstd::arithmetic::div_mod::lemma_div_by_multiple(HIDDEN_BIT as int, n as int);
            assert(n * HIDDEN_BIT == HIDDEN_BIT * n) by (nonlinear_arith);
            lemma_ratio_scale(v as nat, n as nat, rest);
        }
        signed(negative, m)
    }
}

/// What a positive number rounds to is positive.
proof fn lemma_round53_positive(w: nat)
    requires
        w >= 1,
    ensures
        round53(w) >= 1,
{
    let u = rounding_unit(w);
    lemma_unit_positive(w);
    lemma_unit_large(w);
    lemma_fundamental_div_mod(w as int, u as int);
    vstd::arithmetic::div_mod::lemma_mod_bound(w as int, u as int);
    let q = w / u;
    let r = w % u;
    assert(q >= 1) by (nonlinear_arith)
        requires
            w == u * q + r,
            r < u,
            w >= 1,
            u >= 1,
            u > 1 ==> u * HIDDEN_BIT <= w,
            HIDDEN_BIT == 0x0010_0000_0000_0000u64,
            q >= 0,
    ;
    assert((q + 1) * u >= 1) by (nonlinear_arith)
        requires
            q >= 0,
            u >= 1,
    ;
    assert(q * u >= 1) by (nonlinear_arith)
        requires
            q >= 1,
            u >= 1,
    ;
}

/// A unit of rounding above 1 is at most the number divided by 2^52.
proof fn lemma_unit_large(w: nat)
    ensures
        rounding_unit(w) > 1 ==> rounding_unit(w) * HIDDEN_BIT <= w,
    decreases w,
{
    if w >= SIGNIFICAND_LIMIT {
        lemma_unit_large(w / 2);
        lemma_unit_positive(w / 2);
        let u = rounding_unit(w / 2);
        if u > 1 {
            assert(2 * u * HIDDEN_BIT <= w) by (nonlinear_arith)
                requires
                    u * HIDDEN_BIT <= w / 2,
                    2 * (w / 2) <= w,
            ;
        } else {
            assert(2 * u * HIDDEN_BIT <= w) by (nonlinear_arith)
                requires
                    u == 1,
                    w >= 0x0020_0000_0000_0000,
                    HIDDEN_BIT == 0x0010_0000_0000_0000u64,
            ;
        }
    }
}

/// The sum of a list of numbers, added one after the other from the first
/// on; -0.0 for the empty list.
pub open spec fn sum_of(numbers: Seq<u64>) -> u64
    decreases numbers.len(),
{
    if numbers.len() == 0 {
        SIGN_BIT
    } else if numbers.len() == 1 {
        numbers[0]
    } else {
        sum_of_two(sum_of(numbers.drop_last()), numbers.last())
    }
}

/// The arithmetic mean of a list of numbers: their sum, divided by their
/// count as binary64 holds it. `None` for the empty list.
pub open spec fn mean_of(numbers: Seq<u64>) -> Option<u64> {
    if numbers.len() == 0 {
        None
    } else {
        Some(quotient_by(sum_of(numbers), round53(numbers.len())))
    }
}

/// Adds up a list of binary64 numbers.
pub fn sum(numbers: &[u64]) -> (total: u64)
    ensures
        total == sum_of(numbers@),
{
    let n = numbers.len();
    if n == 0 {
        return SIGN_BIT;
    }
    let mut total = numbers[0];
    let mut i: usize = 1;
    assert(numbers@.take(1).len() == 1);
    while i < n
        invariant
            1 <= i <= n,
            n == numbers@.len(),
            total == sum_of(numbers@.take(i as int)),
        decreases n - i,
    {
        proof {
            let upto = numbers@.take(i + 1);
            assert(upto.drop_last() =~= numbers@.take(i as int));
            assert(upto.last() == numbers@[i as int]);
        }
        total = add_two(total, numbers[i]);
        i += 1;
    }
    assert(numbers@.take(n as int) =~= numbers@);
    total
}

/// The arithmetic mean of a list of binary64 numbers.
pub fn mean(numbers: &[u64]) -> (value: Option<u64>)
    ensures
        value == mean_of(numbers@),
{
    if numbers.len() == 0 {
        return None;
    }
    Some(divide_by_count(sum(numbers), numbers.len()))
}

} // verus!
