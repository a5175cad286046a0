//! Scores are IEEE-754 binary64 numbers. This crate carries each one as its
//! bit pattern in a `u64` and works on it with integer arithmetic alone: the
//! order of the numbers, the range checks and the rank of a percentile.

use vstd::arithmetic::div_mod::{
    lemma_div_denominator, lemma_div_is_ordered_by_denominator, lemma_fundamental_div_mod,
};
use vstd::arithmetic::mul::{lemma_mul_inequality, lemma_mul_is_associative};
use vstd::arithmetic::power2::{lemma_pow2_pos, lemma_pow2_unfold, pow2};
use vstd::prelude::*;

verus! {

/// The sign bit of a binary64 pattern.
pub const SIGN_BIT: u64 = 0x8000_0000_0000_0000;

/// The pattern of positive infinity; every larger magnitude is a NaN.
pub const INFINITY_BITS: u64 = 0x7FF0_0000_0000_0000;

/// The weight of the implicit leading bit of a normal significand, 2^52.
pub const HIDDEN_BIT: u64 = 0x0010_0000_0000_0000;

/// One more than the largest significand, 2^53.
pub const SIGNIFICAND_LIMIT: u128 = 0x0020_0000_0000_0000;

/// A bound that no product of a length and a significand reaches, 2^120.
pub const WIDE_LIMIT: u128 = 0x0100_0000_0000_0000_0000_0000_0000_0000;

/// The pattern of 0.0.
pub const ZERO_BITS: u64 = 0;

/// The pattern of 10.0, the largest category score.
pub const MAX_CATEGORY_SCORE_BITS: u64 = 0x4024_0000_0000_0000;

/// The pattern of 10000.0, the largest total score.
pub const MAX_SCORE_BITS: u64 = 0x40C3_8800_0000_0000;

/// The pattern of 0.9, the percentile that the statistics report.
pub const NINETIETH_PERCENTILE_BITS: u64 = 0x3FEC_CCCC_CCCC_CCCD;

/// The pattern without its sign bit.
pub open spec fn magnitude(bits: u64) -> u64 {
    if bits >= SIGN_BIT {
        (bits - SIGN_BIT) as u64
    } else {
        bits
    }
}

/// Whether the sign bit is set (true of -0.0 too).
pub open spec fn is_negative(bits: u64) -> bool {
    bits >= SIGN_BIT
}

/// Whether the pattern is a NaN, of whatever payload and sign.
pub open spec fn is_nan(bits: u64) -> bool {
    magnitude(bits) > INFINITY_BITS
}

/// Whether the pattern is one of the two zeros.
pub open spec fn is_zero(bits: u64) -> bool {
    magnitude(bits) == 0
}

/// The place of a number in ascending order. Two patterns have the same rank
/// exactly when they are the same number: the same pattern, or the two
/// zeros. A NaN is unordered against every number; its rank is above all of
/// them, so that a list that holds one still has a single sorted form.
pub open spec fn score_rank(bits: u64) -> u64 {
    if is_nan(bits) {
        u64::MAX
    } else if is_negative(bits) {
        (SIGN_BIT - magnitude(bits)) as u64
    } else {
        (SIGN_BIT + magnitude(bits)) as u64
    }
}

/// `low <= x <= high` as numbers; false where any of the three is a NaN.
pub open spec fn score_within(bits: u64, low: u64, high: u64) -> bool {
    &&& !is_nan(bits)
    &&& !is_nan(low)
    &&& !is_nan(high)
    &&& score_rank(low) <= score_rank(bits) <= score_rank(high)
}

/// Patterns of the same rank that are no NaN differ at most in the sign of a
/// zero.
pub proof fn lemma_same_rank(a: u64, b: u64)
    requires
        score_rank(a) == score_rank(b),
    ensures
        is_nan(a) == is_nan(b),
        !is_nan(a) ==> a == b || (is_zero(a) && is_zero(b)),
{
}

/// A pattern lies between 0.0 and a positive bound exactly when it is -0.0 or
/// not above the bound's pattern.
pub proof fn lemma_within_zero_and(bits: u64, high: u64)
    requires
        high < INFINITY_BITS,
    ensures
        score_within(bits, ZERO_BITS, high) <==> (bits == SIGN_BIT || bits <= high),
{
}

/// Whether the pattern is a NaN.
pub fn nan(bits: u64) -> (r: bool)
    ensures
        r == is_nan(bits),
{
    let m = if bits >= SIGN_BIT { bits - SIGN_BIT } else { bits };
    m > INFINITY_BITS
}

/// The place of the number in ascending order.
pub fn rank(bits: u64) -> (r: u64)
    ensures
        r == score_rank(bits),
{
    let negative = bits >= SIGN_BIT;
    let m = if negative { bits - SIGN_BIT } else { bits };
    if m > INFINITY_BITS {
        u64::MAX
    } else if negative {
        SIGN_BIT - m
    } else {
        SIGN_BIT + m
    }
}

/// Whether `low <= x <= high` as numbers.
pub fn within(bits: u64, low: u64, high: u64) -> (r: bool)
    ensures
        r == score_within(bits, low, high),
{
    !nan(bits) && !nan(low) && !nan(high) && rank(low) <= rank(bits) && rank(bits) <= rank(high)
}

/// The integer `m` of a positive finite pattern's value `m * 2^e`.
pub open spec fn significand(bits: u64) -> nat {
    let m = magnitude(bits);
    if m < HIDDEN_BIT {
        m as nat
    } else {
        (HIDDEN_BIT + m % HIDDEN_BIT) as nat
    }
}

/// The exponent `e` of a positive finite pattern's value `m * 2^e`.
pub open spec fn exponent(bits: u64) -> int {
    let m = magnitude(bits);
    if m < HIDDEN_BIT {
        -1074
    } else {
        m / HIDDEN_BIT - 1075
    }
}

/// The power of two in whose multiples a natural number is held once it is
/// cut down to 53 significant bits.
pub open spec fn rounding_unit(w: nat) -> nat
    decreases w,
{
    if w < SIGNIFICAND_LIMIT {
        1
    } else {
        2 * rounding_unit(w / 2)
    }
}

/// A natural number rounded to 53 significant bits, to the nearest and, of
/// two equally near, to the even one: what binary64 makes of it.
pub open spec fn round53(w: nat) -> nat {
    let unit = rounding_unit(w);
    let q = w / unit;
    let r = w % unit;
    if 2 * r > unit || (2 * r == unit && q % 2 == 1) {
        (q + 1) * unit
    } else {
        q * unit
    }
}

/// The index that a percentile selects in a sorted list of `len` scores: the
/// binary64 product of the length and the percentile, cut to a whole number
/// and capped at `len`. The length is rounded to binary64 first, the product
/// is rounded once, a negative or NaN percentile gives 0.
pub open spec fn percentile_rank(len: nat, percentile: u64) -> nat {
    if is_nan(percentile) || is_negative(percentile) {
        0
    } else if percentile == INFINITY_BITS {
        len
    } else {
        let product = round53(round53(len) * significand(percentile));
        let e = exponent(percentile);
        let whole = if e >= 0 {
            product * pow2(e as nat)
        } else {
            product / pow2((-e) as nat)
        };
        if whole < len {
            whole
        } else {
            len
        }
    }
}

/// The unit of rounding of a number.
pub(crate) fn unit_of(w: u128) -> (unit: u128)
    requires
        w < WIDE_LIMIT,
    ensures
        unit == rounding_unit(w as nat),
        unit >= 1,
        unit > 1 ==> unit * (SIGNIFICAND_LIMIT / 2) <= w,
        w / unit < SIGNIFICAND_LIMIT,
{
    let mut unit: u128 = 1;
    assert(w as nat / 1 == w as nat);
    while w / unit >= SIGNIFICAND_LIMIT
        invariant
            unit >= 1,
            w < WIDE_LIMIT,
            unit > 1 ==> unit * (SIGNIFICAND_LIMIT / 2) <= w,
            rounding_unit(w as nat) == unit * rounding_unit(w as nat / unit as nat),
        decreases w / unit,
    {
        let ghost prev = unit;
        proof {
            let q = w as int / prev as int;
            lemma_fundamental_div_mod(w as int, prev as int);
            lemma_mul_inequality(SIGNIFICAND_LIMIT as int, q, prev as int);
            assert(prev * SIGNIFICAND_LIMIT <= w) by (nonlinear_arith)
                requires
                    SIGNIFICAND_LIMIT as int * prev as int <= q * prev as int,
                    w as int == prev as int * q + (w as int % prev as int),
                    0 <= w as int % prev as int,
            ;
            lemma_div_denominator(w as int, prev as int, 2);
            assert(rounding_unit(q as nat) == 2 * rounding_unit(q as nat / 2));
            lemma_mul_is_associative(prev as int, 2, rounding_unit(q as nat / 2) as int);
        }
        unit = unit * 2;
        proof {
            assert(unit * (SIGNIFICAND_LIMIT / 2) == prev * SIGNIFICAND_LIMIT) by (nonlinear_arith)
                requires
                    unit == prev * 2,
                    SIGNIFICAND_LIMIT == 0x0020_0000_0000_0000u128,
            ;
            assert(w as nat / unit as nat == (w as nat / prev as nat) / 2);
        }
    }
    proof {
        assert(rounding_unit(w as nat / unit as nat) == 1);
        assert(rounding_unit(w as nat) == unit) by (nonlinear_arith)
            requires
                rounding_unit(w as nat) == unit * rounding_unit(w as nat / unit as nat),
                rounding_unit(w as nat / unit as nat) == 1,
        ;
    }
    unit
}

pub(crate) fn round_to_53(w: u128) -> (r: u128)
    requires
        w < WIDE_LIMIT,
    ensures
        r == round53(w as nat),
        r <= 2 * w,
{
    let unit = unit_of(w);
    let q = w / unit;
    let r = w % unit;
    proof {
        lemma_fundamental_div_mod(w as int, unit as int);
        assert(q * unit <= w) by (nonlinear_arith)
            requires
                w as int == unit as int * q as int + r as int,
                0 <= r,
        ;
        assert(unit <= w || unit == 1) by (nonlinear_arith)
            requires
                unit > 1 ==> unit * (SIGNIFICAND_LIMIT / 2) <= w,
                SIGNIFICAND_LIMIT == 0x0020_0000_0000_0000u128,
                unit >= 1,
        ;
    }
    if 2 * r > unit || (2 * r == unit && q % 2 == 1) {
        assert((q + 1) * unit <= 2 * w) by (nonlinear_arith)
            requires
                w as int == unit as int * q as int + r as int,
                0 <= r,
                unit <= w,
                q >= 0,
        ;
        (q + 1) * unit
    } else {
        q * unit
    }
}

/// `x * 2^e`, or some number not below `cap` where the product is not below it.
fn scale_up(x: u128, e: u32, cap: u128) -> (r: u128)
    requires
        cap <= 0x1_0000_0000_0000_0000u128,
    ensures
        r < cap ==> r == x * pow2(e as nat),
        r >= cap ==> x * pow2(e as nat) >= cap,
{
    let mut y = x;
    let mut k: u32 = 0;
    proof {
        vstd::arithmetic::power2::lemma2_to64();
        assert(x * pow2(0) == x) by (nonlinear_arith)
            requires
                pow2(0) == 1,
        ;
    }
    while k < e && y < cap
        invariant
            k <= e,
            cap <= 0x1_0000_0000_0000_0000u128,
            k < e ==> y == x * pow2(k as nat),
            k == e ==> (y < cap ==> y == x * pow2(e as nat)) && (y >= cap ==> x * pow2(
                e as nat,
            ) >= cap),
        decreases e - k,
    {
        proof {
            lemma_pow2_unfold((k + 1) as nat);
            assert(y * 2 == x * pow2((k + 1) as nat)) by (nonlinear_arith)
                requires
                    y == x * pow2(k as nat),
                    pow2((k + 1) as nat) == 2 * pow2(k as nat),
            ;
        }
        y = y * 2;
        k = k + 1;
    }
    proof {
        if k < e {
            lemma_pow2_grows(k as nat, e as nat);
            assert(x * pow2(e as nat) >= x * pow2(k as nat)) by (nonlinear_arith)
                requires
                    pow2(e as nat) >= pow2(k as nat),
                    x >= 0,
            ;
        }
    }
    y
}

pub(crate) proof fn lemma_pow2_grows(a: nat, b: nat)
    requires
        a <= b,
    ensures
        pow2(a) <= pow2(b),
        pow2(a) >= 1,
{
    lemma_pow2_pos(a);
    if a < b {
        vstd::arithmetic::power2::lemma_pow2_strictly_increases(a, b);
    }
}

/// `x / 2^e`, rounded down.
fn scale_down(x: u128, e: u32) -> (r: u128)
    ensures
        r == x as nat / pow2(e as nat),
{
    let mut y = x;
    let mut k: u32 = 0;
    proof {
        vstd::arithmetic::power2::lemma2_to64();
    }
    while k < e && y > 0
        invariant
            k <= e,
            y == x as nat / pow2(k as nat),
        decreases e - k,
    {
        proof {
            lemma_pow2_unfold((k + 1) as nat);
            lemma_pow2_pos(k as nat);
            lemma_div_denominator(x as int, pow2(k as nat) as int, 2);
            assert(pow2(k as nat) * 2 == pow2((k + 1) as nat));
        }
        y = y / 2;
        k = k + 1;
    }
    proof {
        if k < e {
            lemma_pow2_grows(k as nat, e as nat);
            lemma_pow2_pos(k as nat);
            lemma_div_is_ordered_by_denominator(x as int, pow2(k as nat) as int, pow2(e as nat) as int);
            vstd::arithmetic::div_mod::lemma_div_pos_is_pos(x as int, pow2(e as nat) as int);
        }
    }
    y
}

/// The index that a percentile selects in a sorted list of `len` scores.
pub fn percentile_index(len: usize, percentile: u64) -> (index: usize)
    ensures
        index == percentile_rank(len as nat, percentile),
        index <= len,
{
    if nan(percentile) || percentile >= SIGN_BIT {
        return 0;
    }
    if percentile == INFINITY_BITS {
        return len;
    }
    let sig: u64 = if percentile < HIDDEN_BIT {
        percentile
    } else {
        HIDDEN_BIT + percentile % HIDDEN_BIT
    };
    let length = round_to_53(len as u128);
    assert(length * sig < WIDE_LIMIT) by (nonlinear_arith)
        requires
            length <= 2 * 0xFFFF_FFFF_FFFF_FFFFu128,
            sig < 0x0020_0000_0000_0000u64,
            WIDE_LIMIT == 0x0100_0000_0000_0000_0000_0000_0000_0000u128,
    ;
    let product = round_to_53(length * (sig as u128));
    let whole = if percentile < HIDDEN_BIT {
        scale_down(product, 1074)
    } else {
        let field = percentile / HIDDEN_BIT;
        if field >= 1075 {
            scale_up(product, (field - 1075) as u32, len as u128)
        } else {
            scale_down(product, (1075 - field) as u32)
        }
    };
    if whole < len as u128 {
        whole as usize
    } else {
        len
    }
}

} // verus!
