//! Sixteen-bit samples and single-precision samples, and the way from one to the
//! other. Single-precision samples are given by their patterns (see
//! [`crate::single`]).
use crate::single;
use vstd::prelude::*;

verus! {

/// The pattern of 1.
pub const ONE: u32 = 0x3f80_0000;

// ── To sixteen bits ──────────────────────────────────────────────────────────

/// The significand of a pattern below that of 1, which is not negative.
pub open spec fn significand(bits: u32) -> nat {
    if bits < 0x80_0000 {
        bits as nat
    } else {
        (0x80_0000 + bits as nat % 0x80_0000) as nat
    }
}

/// How many binary places a pattern's significand has after the point.
pub open spec fn places(bits: u32) -> nat {
    if bits < 0x80_0000 {
        149
    } else {
        (150 - bits as int / 0x80_0000) as nat
    }
}

/// The smallest of `unit`, twice `unit` and so on of which `p` holds fewer than
/// 2^24.
pub open spec fn unit_from(p: nat, unit: nat) -> nat
    decreases p - unit,
{
    if unit == 0 || p < 0x100_0000 * unit {
        unit
    } else {
        unit_from(p, 2 * unit)
    }
}

/// `p` rounded to the nearest number of 24 significant binary digits, and of two
/// that are as near to the one whose last digit is even.
pub open spec fn rounded(p: nat) -> nat {
    let unit = unit_from(p, 1);
    let down = p / unit;
    let rest = p % unit;
    if 2 * rest > unit || (2 * rest == unit && down % 2 == 1) {
        (down + 1) * unit
    } else {
        down * unit
    }
}

/// The integer part of the single-precision product of 32767 and the number of a
/// pattern below that of 1, which is not negative.
pub open spec fn scaled_up(bits: u32) -> nat {
    rounded(significand(bits) * 32767) / vstd::arithmetic::power2::pow2(places(bits))
}

/// A sample in sixteen bits: its number, held between -1 and 1, times 32767 in
/// single precision, without the fraction. What is no number gives 0.
pub open spec fn quantized(bits: u32) -> int {
    let magnitude = single::abs_bits(bits);
    if single::is_nan(bits) {
        0
    } else {
        let scaled: int = if magnitude >= ONE {
            32767
        } else {
            scaled_up(magnitude) as int
        };
        if single::is_negative(bits) {
            -scaled
        } else {
            scaled
        }
    }
}

/// The unit of rounding is no larger than it has to be.
proof fn lemma_unit_from(p: nat, unit: nat)
    requires
        unit > 0,
    ensures
        unit_from(p, unit) > 0,
        unit_from(p, unit) == unit || 0x80_0000 * unit_from(p, unit) <= p,
    decreases p - unit,
{
    if p >= 0x100_0000 * unit {
        lemma_unit_from(p, 2 * unit);
    }
}

/// Rounding adds less than what is needed to reach the next power of two.
proof fn lemma_rounded_bound(p: nat)
    requires
        p <= 0xff_ffff * 32767,
    ensures
        rounded(p) < 0x100_0000 * 32768,
{
    lemma_unit_from(p, 1);
    let unit = unit_from(p, 1) as int;
    let down = p as int / unit;
    vstd::arithmetic::div_mod::lemma_fundamental_div_mod(p as int, unit);
    assert((down + 1) * unit == unit * down + unit) by (nonlinear_arith);
    assert(down * unit == unit * down) by (nonlinear_arith);
}

/// The product stays within sixteen bits.
proof fn lemma_scaled_up_bound(bits: u32)
    requires
        bits < ONE,
    ensures
        significand(bits) * 32767 <= 0xff_ffff * 32767,
        scaled_up(bits) <= 32767,
{
    let product = significand(bits) * 32767;
    lemma_rounded_bound(product);
    vstd::arithmetic::power2::lemma2_to64();
    if places(bits) > 24 {
        vstd::arithmetic::power2::lemma_pow2_strictly_increases(24, places(bits));
    }
    vstd::arithmetic::div_mod::lemma_div_is_ordered_by_denominator(
        rounded(product) as int,
        0x100_0000,
        vstd::arithmetic::power2::pow2(places(bits)) as int,
    );
}

/// The unit to which `p` is rounded.
fn rounding_unit(p: u64) -> (unit: u64)
    requires
        p < 0x80_0000_0000,
    ensures
        unit == unit_from(p as nat, 1),
        0 < unit <= 0x1_0000,
        unit > 1 ==> unit * 0x80_0000 <= p,
{
    let mut unit: u64 = 1;
    while p >= 0x100_0000 * unit
        invariant
            p < 0x80_0000_0000,
            0 < unit <= 0x1_0000,
            unit_from(p as nat, 1) == unit_from(p as nat, unit as nat),
            unit > 1 ==> unit * 0x80_0000 <= p,
        decreases p - unit,
    {
        unit = unit * 2;
    }
    unit
}

/// Rounds to 24 significant binary digits.
fn round(p: u64) -> (r: u64)
    requires
        p <= 0xff_ffff * 32767,
    ensures
        r == rounded(p as nat),
{
    let unit: u64 = rounding_unit(p);
    let down: u64 = p / unit;
    let rest: u64 = p % unit;
    proof {
        lemma_rounded_bound(p as nat);
        vstd::arithmetic::div_mod::lemma_fundamental_div_mod(p as int, unit as int);
        assert((down + 1) * unit == unit * down + unit) by (nonlinear_arith);
        assert(down * unit == unit * down) by (nonlinear_arith);
    }
    if 2 * rest > unit || (2 * rest == unit && down % 2 == 1) {
        (down + 1) * unit
    } else {
        down * unit
    }
}

/// The integer part of the single-precision product of 32767 and a number
/// between 0 and 1.
fn scale_up(bits: u32) -> (r: u16)
    requires
        bits < ONE,
    ensures
        r == scaled_up(bits),
        r <= 32767,
{
    let (sig, shift): (u64, u64) = if bits < 0x80_0000 {
        (bits as u64, 149)
    } else {
        (0x80_0000 + (bits % 0x80_0000) as u64, 150 - (bits / 0x80_0000) as u64)
    };
    proof {
        lemma_scaled_up_bound(bits);
        lemma_rounded_bound(significand(bits) * 32767);
    }
    let product: u64 = round(sig * 32767);
    if shift >= 40 {
        proof {
            vstd::arithmetic::power2::lemma2_to64_rest();
            if shift > 40 {
                vstd::arithmetic::power2::lemma_pow2_strictly_increases(40, shift as nat);
            }
            vstd::arithmetic::div_mod::lemma_basic_div(
                product as int,
                vstd::arithmetic::power2::pow2(shift as nat) as int,
            );
        }
        0
    } else {
        let r: u64 = product >> shift;
        proof {
            vstd::bits::lemma_u64_shr_is_div(product, shift);
        }
        r as u16
    }
}

/// A sample in sixteen bits.
pub fn quantize(bits: u32) -> (r: i16)
    ensures
        r == quantized(bits),
{
    let magnitude = single::abs(bits);
    if magnitude > single::INFINITY {
        return 0;
    }
    let scaled: u16 = if magnitude >= ONE {
        32767
    } else {
        scale_up(magnitude)
    };
    if bits >= 0x8000_0000 {
        -(scaled as i16)
    } else {
        scaled as i16
    }
}

// ── From sixteen bits ────────────────────────────────────────────────────────

/// Whether a pattern is that of `n / 32768`, with a sign only where `n` has one.
pub open spec fn is_sample_of(bits: u32, n: int) -> bool {
    &&& !single::is_nan(bits)
    &&& single::scaled_value(bits) == n * vstd::arithmetic::power2::pow2(134)
    &&& n == 0 ==> bits == 0
}

/// The pattern of `n / 32768`.
pub fn sample_of(n: i32) -> (r: u32)
    requires
        -32768 <= n <= 32767,
    ensures
        is_sample_of(r, n as int),
{
    if n == 0 {
        return 0;
    }
    let magnitude: u32 = if n < 0 {
        (-n) as u32
    } else {
        n as u32
    };
    let mut sig: u32 = magnitude;
    let mut shift: u32 = 0;
    proof {
        vstd::arithmetic::power2::lemma2_to64();
    }
    while sig < 0x80_0000
        invariant
            1 <= magnitude <= 32768,
            magnitude <= sig < 0x100_0000,
            shift <= 23,
            sig == magnitude * vstd::arithmetic::power2::pow2(shift as nat),
            vstd::arithmetic::power2::pow2(23) == 0x80_0000,
        decreases 0x100_0000 - sig,
    {
        proof {
            if shift == 23 {
                assert(magnitude * vstd::arithmetic::power2::pow2(23) >= 0x80_0000);
            }
            vstd::arithmetic::power2::lemma_pow2_unfold((shift + 1) as nat);
            assert(magnitude * (2 * vstd::arithmetic::power2::pow2(shift as nat)) == 2 * (magnitude * vstd::arithmetic::power2::pow2(shift as nat)))
                by (nonlinear_arith);
        }
        sig = sig * 2;
        shift = shift + 1;
    }
    let bits: u32 = (135 - shift) * 0x80_0000 + (sig - 0x80_0000);
    proof {
        let e = 135 - shift;
        assert(bits as nat / 0x80_0000 == e);
        assert(bits as nat % 0x80_0000 == sig - 0x80_0000);
        vstd::arithmetic::power2::lemma_pow2_adds(shift as nat, (134 - shift) as nat);
        let a = vstd::arithmetic::power2::pow2(shift as nat);
        let b = vstd::arithmetic::power2::pow2((134 - shift) as nat);
        assert((magnitude * a) * b == magnitude * (a * b)) by (nonlinear_arith);
        assert(single::scaled_magnitude(bits as nat) == magnitude * vstd::arithmetic::power2::pow2(134));
        assert((-(magnitude as int)) * vstd::arithmetic::power2::pow2(134) == -(magnitude * vstd::arithmetic::power2::pow2(134))) by (nonlinear_arith);
    }
    if n < 0 {
        0x8000_0000 + bits
    } else {
        bits
    }
}

// ── Laws ─────────────────────────────────────────────────────────────────────

/// A sample in sixteen bits lies between -32767 and 32767.
pub proof fn law_quantized_range(bits: u32)
    ensures
        -32767 <= quantized(bits) <= 32767,
{
    if single::abs_bits(bits) < ONE {
        lemma_scaled_up_bound(single::abs_bits(bits));
    }
}

/// A change of sign changes the sign of the sample in sixteen bits, and nothing
/// else.
pub proof fn law_quantized_is_symmetric(bits: u32)
    requires
        !single::is_negative(bits),
    ensures
        quantized((bits + 0x8000_0000) as u32) == -quantized(bits),
{
}

/// A sample of sixteen bits has one pattern.
pub proof fn law_sample_pattern_is_unique(a: u32, b: u32, n: int)
    requires
        is_sample_of(a, n),
        is_sample_of(b, n),
    ensures
        a == b,
{
    single::law_greater_compares_values(a, b);
    single::law_greater_compares_values(b, a);
    if a == 0 || a == 0x8000_0000 {
        assert(single::scaled_magnitude(0) == 0);
        vstd::arithmetic::power2::lemma_pow2_pos(134);
        assert(n == 0) by (nonlinear_arith)
            requires
                n * vstd::arithmetic::power2::pow2(134) == 0,
                vstd::arithmetic::power2::pow2(134) > 0,
        ;
    }
}

/// The unit of rounding is a power of two.
proof fn lemma_unit_is_a_power(p: nat, i: nat) -> (j: nat)
    ensures
        i <= j,
        unit_from(p, vstd::arithmetic::power2::pow2(i)) == vstd::arithmetic::power2::pow2(j),
        p < 0x100_0000 * vstd::arithmetic::power2::pow2(j),
        j > i ==> 0x80_0000 * vstd::arithmetic::power2::pow2(j) <= p,
    decreases p - vstd::arithmetic::power2::pow2(i),
{
    let unit = vstd::arithmetic::power2::pow2(i);
    vstd::arithmetic::power2::lemma_pow2_pos(i);
    if p < 0x100_0000 * unit {
        i
    } else {
        vstd::arithmetic::power2::lemma_pow2_unfold(i + 1);
        let j = lemma_unit_is_a_power(p, i + 1);
        j
    }
}

/// Rounding gives the nearest multiple of a unit, and of two that are as near
/// the even one. The unit is the power of two of which the number holds at least
/// 2^23 and fewer than 2^24; a number below 2^24 stays as it is.
pub proof fn law_rounding_to_nearest(p: nat) -> (j: nat)
    ensures
        ({
            let unit = vstd::arithmetic::power2::pow2(j) as int;
            let r = rounded(p) as int;
            &&& unit > 0
            &&& p < 0x100_0000 * unit
            &&& j > 0 ==> 0x80_0000 * unit <= p
            &&& r % unit == 0
            &&& -unit <= 2 * (r - p) <= unit
            &&& 2 * (r - p) == unit || 2 * (p - r) == unit ==> (r / unit) % 2 == 0
        }),
        p < 0x100_0000 ==> rounded(p) == p,
{
    vstd::arithmetic::power2::lemma2_to64();
    let j = lemma_unit_is_a_power(p, 0);
    let unit = vstd::arithmetic::power2::pow2(j) as int;
    vstd::arithmetic::power2::lemma_pow2_pos(j);
    let down = p as int / unit;
    let rest = p as int % unit;
    vstd::arithmetic::div_mod::lemma_fundamental_div_mod(p as int, unit);
    vstd::arithmetic::div_mod::lemma_mod_multiples_basic(down, unit);
    vstd::arithmetic::div_mod::lemma_mod_multiples_basic(down + 1, unit);
    vstd::arithmetic::div_mod::lemma_div_by_multiple(down, unit);
    vstd::arithmetic::div_mod::lemma_div_by_multiple(down + 1, unit);
    assert((down + 1) * unit == unit * down + unit) by (nonlinear_arith);
    assert(down * unit == unit * down) by (nonlinear_arith);
    j
}

/// A sample between 0 and 1, by the parts of its pattern: the significand, times
/// 32767 and rounded to 24 binary digits, without what comes after the point. A
/// sample of 1 or more gives 32767, and what is no number gives 0.
pub proof fn law_quantized_by_parts(exponent: u32, fraction: u32)
    requires
        exponent <= 255,
        fraction < 0x80_0000,
    ensures
        ({
            let bits = (exponent * 0x80_0000 + fraction) as u32;
            &&& exponent == 0 ==> quantized(bits) == rounded(fraction as nat * 32767)
                / vstd::arithmetic::power2::pow2(149)
            &&& 0 < exponent < 127 ==> quantized(bits) == rounded(
                ((0x80_0000 + fraction) * 32767) as nat,
            ) / vstd::arithmetic::power2::pow2((150 - exponent) as nat)
            &&& 127 <= exponent < 255 || (exponent == 255 && fraction == 0) ==> quantized(bits)
                == 32767
            &&& exponent == 255 && fraction > 0 ==> quantized(bits) == 0
        }),
{
    let bits = (exponent * 0x80_0000 + fraction) as u32;
    assert(bits as nat / 0x80_0000 == exponent);
    assert(bits as int / 0x80_0000 == exponent);
    assert(bits as nat % 0x80_0000 == fraction);
}

/// The sample in sixteen bits is the product of 32767 and the number, without
/// the fraction, but for a rounding that changes the product by at most its
/// 2^24th part.
pub proof fn law_quantized_is_close(bits: u32)
    requires
        bits < ONE,
    ensures
        ({
            let whole = vstd::arithmetic::power2::pow2(149) as int;
            let product = single::scaled_value(bits) * 32767;
            let q = quantized(bits);
            &&& 0x100_0000 * (q * whole) <= 0x100_0001 * product
            &&& 0xff_ffff * product < 0x100_0000 * ((q + 1) * whole)
        }),
{
    let sig = significand(bits) as int;
    let k = places(bits);
    let p = sig * 32767;
    let r = rounded(p as nat) as int;
    let low = vstd::arithmetic::power2::pow2(k) as int;
    let high = vstd::arithmetic::power2::pow2((149 - k) as nat) as int;
    let whole = vstd::arithmetic::power2::pow2(149) as int;
    vstd::arithmetic::power2::lemma_pow2_pos(k);
    vstd::arithmetic::power2::lemma_pow2_pos((149 - k) as nat);
    vstd::arithmetic::power2::lemma_pow2_adds(k, (149 - k) as nat);
    vstd::arithmetic::power2::lemma2_to64();
    assert(low * high == whole);
    let j = law_rounding_to_nearest(p as nat);
    let unit = vstd::arithmetic::power2::pow2(j) as int;
    assert(-p <= 0x100_0000 * (r - p) <= p);
    let q = quantized(bits);
    assert(q == r / low);
    vstd::arithmetic::div_mod::lemma_fundamental_div_mod(r, low);
    vstd::arithmetic::div_mod::lemma_mod_bound(r, low);
    assert(low * q <= r && r < low * q + low);
    assert(bits as nat / 0x80_0000 == bits as int / 0x80_0000);
    assert(single::scaled_value(bits) == sig * high) by {
        if bits < 0x80_0000 {
            assert(high == 1);
            assert(sig * 1 == sig);
        }
    }
    let v = sig * high;
    assert(p * high == v * 32767) by (nonlinear_arith)
        requires
            p == sig * 32767,
            v == sig * high,
    ;
    assert(q * whole <= r * high) by (nonlinear_arith)
        requires
            low * q <= r,
            low * high == whole,
            high > 0,
    ;
    assert(r * high < (q + 1) * whole) by (nonlinear_arith)
        requires
            r < low * q + low,
            low * high == whole,
            high > 0,
    ;
    assert(0x100_0000 * (r * high) <= 0x100_0001 * (p * high)) by (nonlinear_arith)
        requires
            0x100_0000 * (r - p) <= p,
            high > 0,
    ;
    assert(0xff_ffff * (p * high) <= 0x100_0000 * (r * high)) by (nonlinear_arith)
        requires
            -p <= 0x100_0000 * (r - p),
            high > 0,
    ;
}

/// The pattern of a sixteen-bit sample stands for a 32768th of it.
pub proof fn law_sample_is_its_fraction(bits: u32, n: int)
    requires
        is_sample_of(bits, n),
    ensures
        !single::is_nan(bits),
        single::scaled_value(bits) * 32768 == n * vstd::arithmetic::power2::pow2(149),
        n == 0 ==> bits == 0,
{
    vstd::arithmetic::power2::lemma_pow2_adds(134, 15);
    vstd::arithmetic::power2::lemma2_to64();
    let a = vstd::arithmetic::power2::pow2(134) as int;
    assert((n * a) * 32768 == n * (a * 32768)) by (nonlinear_arith);
}

}
