//! IEEE 754 single-precision numbers, held as their 32-bit patterns.
//!
//! Audio samples and model scores reach the library in this form. Here they are
//! ordered and their magnitudes taken; [`crate::pcm`] turns them into sixteen-bit
//! samples and back.
use vstd::prelude::*;

verus! {

/// The pattern of negative infinity.
pub const NEG_INFINITY: u32 = 0xff80_0000;

/// The pattern of positive infinity; the larger magnitudes are not numbers.
pub const INFINITY: u32 = 0x7f80_0000;

/// Whether the sign bit is set.
pub open spec fn is_negative(bits: u32) -> bool {
    bits >= 0x8000_0000
}

/// The pattern of the absolute value: the sign bit cleared.
pub open spec fn abs_bits(bits: u32) -> u32 {
    if is_negative(bits) {
        (bits - 0x8000_0000) as u32
    } else {
        bits
    }
}

/// Whether the pattern stands for no number.
pub open spec fn is_nan(bits: u32) -> bool {
    abs_bits(bits) > INFINITY
}

/// An integer that is larger for the pattern of a larger number, and equal for
/// the two zeros.
pub open spec fn order_key(bits: u32) -> int {
    if is_negative(bits) {
        -(abs_bits(bits) as int)
    } else {
        abs_bits(bits) as int
    }
}

/// Whether the number of `a` is greater than that of `b`; false when either is
/// no number.
pub open spec fn is_greater(a: u32, b: u32) -> bool {
    !is_nan(a) && !is_nan(b) && order_key(a) > order_key(b)
}

/// The absolute value of a pattern, as a multiple of the smallest positive
/// number: the 23 low bits are the significand, the 8 bits above them the
/// exponent. Infinity counts as the first value beyond the finite ones.
pub open spec fn scaled_magnitude(abs: nat) -> nat {
    let exponent = abs / 0x80_0000;
    let fraction = abs % 0x80_0000;
    if exponent == 0 {
        fraction
    } else {
        (0x80_0000 + fraction) * vstd::arithmetic::power2::pow2((exponent - 1) as nat)
    }
}

/// The number that a pattern stands for, as a multiple of the smallest positive
/// number.
pub open spec fn scaled_value(bits: u32) -> int {
    if is_negative(bits) {
        -(scaled_magnitude(abs_bits(bits) as nat) as int)
    } else {
        scaled_magnitude(abs_bits(bits) as nat) as int
    }
}

/// The pattern of the absolute value.
pub fn abs(bits: u32) -> (r: u32)
    ensures
        r == abs_bits(bits),
{
    if bits >= 0x8000_0000 {
        bits - 0x8000_0000
    } else {
        bits
    }
}

/// Whether the number of `a` is greater than that of `b`.
pub fn greater(a: u32, b: u32) -> (r: bool)
    ensures
        r == is_greater(a, b),
{
    let x = abs(a);
    let y = abs(b);
    if x > INFINITY || y > INFINITY {
        return false;
    }
    if a >= 0x8000_0000 {
        b >= 0x8000_0000 && x < y
    } else if b >= 0x8000_0000 {
        x > 0 || y > 0
    } else {
        x > y
    }
}

/// The next pattern of the same sign stands for a number of larger magnitude.
proof fn lemma_scaled_magnitude_step(abs: nat)
    ensures
        scaled_magnitude(abs) < scaled_magnitude(abs + 1),
{
    let e = abs / 0x80_0000;
    let f = abs % 0x80_0000;
    if f + 1 < 0x80_0000 {
        assert((abs + 1) / 0x80_0000 == e);
        assert((abs + 1) % 0x80_0000 == f + 1);
        if e > 0 {
            vstd::arithmetic::power2::lemma_pow2_pos((e - 1) as nat);
            let p = vstd::arithmetic::power2::pow2((e - 1) as nat);
            assert((0x80_0000 + f) * p < (0x80_0000 + f + 1) * p) by (nonlinear_arith)
                requires
                    p > 0,
            ;
        }
    } else {
        assert((abs + 1) / 0x80_0000 == e + 1);
        assert((abs + 1) % 0x80_0000 == 0);
        let q = vstd::arithmetic::power2::pow2(e);
        vstd::arithmetic::power2::lemma_pow2_pos(e);
        if e > 0 {
            vstd::arithmetic::power2::lemma_pow2_unfold(e);
            let p = vstd::arithmetic::power2::pow2((e - 1) as nat);
            assert((0x80_0000 + f) * p < 0x80_0000 * (2 * p)) by (nonlinear_arith)
                requires
                    p > 0,
                    f == 0x7f_ffff,
                    q == 2 * p,
            ;
        } else {
            vstd::arithmetic::power2::lemma2_to64();
        }
    }
}

/// Patterns of the same sign are ordered as their magnitudes.
proof fn lemma_scaled_magnitude_increases(a: nat, b: nat)
    requires
        a < b,
    ensures
        scaled_magnitude(a) < scaled_magnitude(b),
    decreases b,
{
    lemma_scaled_magnitude_step((b - 1) as nat);
    if a + 1 < b {
        lemma_scaled_magnitude_increases(a, (b - 1) as nat);
    }
}

/// `greater` compares numbers: of two patterns that stand for numbers, the first
/// is greater exactly if the number it stands for is.
pub proof fn law_greater_compares_values(a: u32, b: u32)
    requires
        !is_nan(a),
        !is_nan(b),
    ensures
        is_greater(a, b) <==> scaled_value(a) > scaled_value(b),
{
    let x = abs_bits(a) as nat;
    let y = abs_bits(b) as nat;
    if x < y {
        lemma_scaled_magnitude_increases(x, y);
    }
    if y < x {
        lemma_scaled_magnitude_increases(y, x);
    }
    if x > 0 {
        lemma_scaled_magnitude_increases(0, x);
    }
    if y > 0 {
        lemma_scaled_magnitude_increases(0, y);
    }
    assert(scaled_magnitude(0) == 0);
}

/// The parts of a pattern: one sign bit, eight bits of exponent, and 23 bits of
/// fraction. A pattern is no number exactly if the exponent is the largest and
/// the fraction is not zero. Otherwise it stands for the fraction, in multiples
/// of the smallest positive number, where the exponent is zero, and else for 1
/// and the fraction, doubled once less than the exponent says.
pub proof fn law_parts_of_a_pattern(sign: u32, exponent: u32, fraction: u32)
    requires
        sign <= 1,
        exponent <= 255,
        fraction < 0x80_0000,
    ensures
        ({
            let bits = (sign * 0x8000_0000 + exponent * 0x80_0000 + fraction) as u32;
            let magnitude: int = if exponent == 0 {
                fraction as int
            } else {
                (0x80_0000 + fraction) * vstd::arithmetic::power2::pow2((exponent - 1) as nat)
            };
            &&& is_negative(bits) <==> sign == 1
            &&& abs_bits(bits) == exponent * 0x80_0000 + fraction
            &&& is_nan(bits) <==> exponent == 255 && fraction > 0
            &&& scaled_value(bits) == if sign == 1 {
                -magnitude
            } else {
                magnitude
            }
        }),
{
    let abs = (exponent * 0x80_0000 + fraction) as nat;
    assert(abs / 0x80_0000 == exponent);
    assert(abs % 0x80_0000 == fraction);
}

/// The order of patterns: of two positive ones the larger is greater, of two
/// negative ones the smaller, and a positive one is greater than a negative one,
/// but for the two zeros, which are equal. What is no number is neither greater
/// nor smaller than anything.
pub proof fn law_order_of_patterns(a: u32, b: u32)
    ensures
        a <= 0x7f80_0000 && b <= 0x7f80_0000 ==> (is_greater(a, b) <==> a > b),
        0x8000_0000 <= a <= 0xff80_0000 && 0x8000_0000 <= b <= 0xff80_0000 ==> (is_greater(a, b)
            <==> a < b),
        a <= 0x7f80_0000 && 0x8000_0000 <= b <= 0xff80_0000 ==> {
            &&& is_greater(a, b) <==> a != 0 || b != 0x8000_0000
            &&& !is_greater(b, a)
        },
        0x7f80_0000 < a < 0x8000_0000 || a > 0xff80_0000 ==> {
            &&& is_nan(a)
            &&& !is_greater(a, b)
            &&& !is_greater(b, a)
        },
        a <= 0x7f80_0000 || 0x8000_0000 <= a <= 0xff80_0000 ==> !is_nan(a),
        NEG_INFINITY == 0xff80_0000,
        INFINITY == 0x7f80_0000,
{
}

/// The absolute value has the same bits but for the sign, which is cleared.
pub proof fn law_absolute_value(bits: u32)
    ensures
        abs_bits(bits) < 0x8000_0000,
        abs_bits(bits) == bits || abs_bits(bits) + 0x8000_0000 == bits,
{
}

}
