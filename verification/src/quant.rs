//! Quantization of binary32 samples into fixed-width integer sample types.
//!
//! A real-valued sample is carried through the crate as the bit pattern of an
//! IEEE 754 binary32 value, held in a `u32`.  This module gives that encoding
//! a mathematical reading (sign, exponent, significand), computes the
//! magnitude of a finite value truncated toward zero in pure integer
//! arithmetic, and converts a scaled sample into a chosen integer sample
//! type, failing exactly when the value does not fit that type's range.

use vstd::prelude::*;
use vstd::arithmetic::div_mod::lemma_basic_div;
use vstd::arithmetic::mul::lemma_mul_inequality;
use vstd::arithmetic::power2::{lemma2_to64, lemma_pow2_strictly_increases, lemma_pow2_unfold, pow2};

verus! {

/// Sign bit of a binary32 bit pattern: true when the encoded value is negative
/// (including negative zero).
pub open spec fn f32_sign(bits: u32) -> bool {
    bits / 0x8000_0000 == 1
}

/// Biased exponent field of a binary32 bit pattern.
pub open spec fn f32_exp(bits: u32) -> nat {
    ((bits / 0x0080_0000) % 0x100) as nat
}

/// Trailing significand field of a binary32 bit pattern.
pub open spec fn f32_mant(bits: u32) -> nat {
    (bits % 0x0080_0000) as nat
}

/// A biased exponent of 255 encodes an infinity or a NaN.
pub open spec fn f32_is_nan_or_inf(bits: u32) -> bool {
    f32_exp(bits) == 255
}

/// Full integer significand: the trailing field alone for subnormal numbers,
/// with the implicit leading bit added for normal numbers.
pub open spec fn f32_significand(bits: u32) -> nat {
    if f32_exp(bits) == 0 {
        f32_mant(bits)
    } else {
        (0x0080_0000 + f32_mant(bits)) as nat
    }
}

/// Effective biased exponent: subnormal numbers share the scale of the lowest
/// normal binade.
pub open spec fn f32_point(bits: u32) -> nat {
    if f32_exp(bits) == 0 {
        1
    } else {
        f32_exp(bits)
    }
}

/// Magnitude of a finite binary32 value truncated toward zero.  The encoded
/// magnitude is `significand × 2^(point − 150)`; integer division by a power
/// of two is exactly truncation of the binary fraction.
pub open spec fn f32_trunc_abs(bits: u32) -> nat {
    if f32_point(bits) >= 150 {
        f32_significand(bits) * pow2((f32_point(bits) - 150) as nat)
    } else {
        f32_significand(bits) / pow2((150 - f32_point(bits)) as nat)
    }
}

/// 2^e as a machine integer.
fn pow2_u64(e: u32) -> (r: u64)
    requires
        e <= 63,
    ensures
        r == pow2(e as nat),
        r >= 1,
{
    proof {
        lemma2_to64();
    }
    let mut i: u32 = 0;
    let mut f: u64 = 1;
    while i < e
        invariant
            i <= e <= 63,
            f == pow2(i as nat),
            f >= 1,
        decreases e - i,
    {
        proof {
            lemma_pow2_unfold((i + 1) as nat);
            if (i as nat) + 1 < 64 {
                lemma_pow2_strictly_increases((i + 1) as nat, 64);
            }
            lemma2_to64_rest_bound();
        }
        f = f * 2;
        i = i + 1;
    }
    f
}

/// pow2(64) as a number, so bounds on smaller exponents stay in `u64` range.
proof fn lemma2_to64_rest_bound()
    ensures
        pow2(64) == 0x10000000000000000,
{
    vstd::arithmetic::power2::lemma2_to64_rest();
}

/// Truncated magnitude of a binary32 bit pattern, as a machine integer.
///
/// Returns `None` when the pattern encodes an infinity or a NaN, or when the
/// truncated magnitude does not fit in 32 bits; every integer sample type of
/// this crate rejects such a magnitude anyway.
pub fn f32_trunc_magnitude(bits: u32) -> (r: Option<u64>)
    ensures
        r is None <==> (f32_is_nan_or_inf(bits) || f32_trunc_abs(bits) >= 0x1_0000_0000),
        r matches Some(m) ==> m == f32_trunc_abs(bits) && m < 0x1_0000_0000,
{
    let exp: u32 = (bits / 0x0080_0000) % 0x100;
    let mant: u64 = (bits % 0x0080_0000) as u64;
    assert(exp == f32_exp(bits));
    assert(mant == f32_mant(bits));
    if exp == 0xFF {
        return None;
    }
    let sig: u64 = if exp == 0 {
        mant
    } else {
        0x0080_0000u64 + mant
    };
    let point: u32 = if exp == 0 {
        1
    } else {
        exp
    };
    assert(sig == f32_significand(bits));
    assert(point == f32_point(bits));
    proof {
        lemma2_to64();
    }
    if point >= 150 {
        let shift: u32 = point - 150;
        if shift >= 9 {
            // The magnitude is at least 2^23 × 2^9 = 2^32.
            proof {
                if shift > 9 {
                    lemma_pow2_strictly_increases(9, shift as nat);
                }
                lemma_mul_inequality(0x0080_0000, sig as int, pow2(shift as nat) as int);
                lemma_mul_inequality(pow2(9) as int, pow2(shift as nat) as int, 0x0080_0000);
                vstd::arithmetic::mul::lemma_mul_is_commutative(
                    pow2(shift as nat) as int,
                    0x0080_0000,
                );
            }
            return None;
        }
        let factor: u64 = pow2_u64(shift);
        proof {
            lemma_mul_inequality(sig as int, 0xFF_FFFF, factor as int);
            lemma_mul_inequality(factor as int, 0x100, 0xFF_FFFF);
            vstd::arithmetic::mul::lemma_mul_is_commutative(factor as int, 0xFF_FFFF);
        }
        let ta: u64 = sig * factor;
        Some(ta)
    } else {
        let shift: u32 = 150 - point;
        if shift >= 24 {
            // The significand is below 2^24, so the truncation is zero.
            proof {
                if shift > 24 {
                    lemma_pow2_strictly_increases(24, shift as nat);
                }
                lemma_basic_div(sig as int, pow2(shift as nat) as int);
            }
            Some(0)
        } else {
            let factor: u64 = pow2_u64(shift);
            let ta: u64 = sig / factor;
            proof {
                lemma_basic_div_bound(sig as nat, factor as nat);
            }
            Some(ta)
        }
    }
}

/// Integer division by a positive divisor does not grow the dividend.
proof fn lemma_basic_div_bound(x: nat, d: nat)
    requires
        d >= 1,
    ensures
        x / d <= x,
{
    vstd::arithmetic::div_mod::lemma_div_is_ordered_by_denominator(x as int, 1, d as int);
    vstd::arithmetic::div_mod::lemma_div_by_self(1);
}

/// A fixed-width integer sample type a waveform can be quantized to.
///
/// An implementation names the greatest magnitudes it accepts on the positive
/// and the negative side, the binary32 bit pattern of its maximum value (the
/// scale factor applied to a summed sample before conversion), and how a
/// truncated magnitude becomes one of its values.
pub trait SampleDepth: Sized + Copy {
    /// Binary32 bit pattern of the greatest value of this type, rounded to
    /// the nearest binary32 value.
    spec fn spec_max_float_bits() -> u32;

    /// Greatest truncated magnitude accepted for a non-negative sample.
    spec fn spec_pos_limit() -> nat;

    /// Greatest truncated magnitude accepted for a negative sample.
    spec fn spec_neg_limit() -> nat;

    /// The value holding the given magnitude with the given sign.
    spec fn spec_of_mag(neg: bool, mag: nat) -> Self;

    /// The zero sample of this type.
    spec fn spec_zero() -> Self;

    /// Both limits fit in 32 bits, and a zero magnitude of either sign is the
    /// zero sample.
    proof fn lemma_depth_properties()
        ensures
            Self::spec_pos_limit() < 0x1_0000_0000,
            Self::spec_neg_limit() < 0x1_0000_0000,
            Self::spec_of_mag(false, 0) == Self::spec_zero(),
            Self::spec_of_mag(true, 0) == Self::spec_zero(),
    ;

    fn max_float_bits() -> (r: u32)
        ensures
            r == Self::spec_max_float_bits(),
    ;

    fn pos_limit() -> (r: u64)
        ensures
            r == Self::spec_pos_limit(),
    ;

    fn neg_limit() -> (r: u64)
        ensures
            r == Self::spec_neg_limit(),
    ;

    fn of_mag(neg: bool, mag: u64) -> (r: Self)
        requires
            neg ==> mag <= Self::spec_neg_limit(),
            !neg ==> mag <= Self::spec_pos_limit(),
        ensures
            r == Self::spec_of_mag(neg, mag as nat),
    ;
}

impl SampleDepth for i8 {
    open spec fn spec_max_float_bits() -> u32 {
        0x42FE_0000
    }

    open spec fn spec_pos_limit() -> nat {
        127
    }

    open spec fn spec_neg_limit() -> nat {
        128
    }

    open spec fn spec_of_mag(neg: bool, mag: nat) -> i8 {
        if neg {
            (-(mag as int)) as i8
        } else {
            mag as i8
        }
    }

    open spec fn spec_zero() -> i8 {
        0
    }

    proof fn lemma_depth_properties() {
    }

    /// 127 as a binary32 value, exactly.
    fn max_float_bits() -> u32 {
        0x42FE_0000
    }

    fn pos_limit() -> u64 {
        127
    }

    fn neg_limit() -> u64 {
        128
    }

    fn of_mag(neg: bool, mag: u64) -> i8 {
        if neg {
            (-(mag as i16)) as i8
        } else {
            mag as i8
        }
    }
}

impl SampleDepth for i16 {
    open spec fn spec_max_float_bits() -> u32 {
        0x46FF_FE00
    }

    open spec fn spec_pos_limit() -> nat {
        32767
    }

    open spec fn spec_neg_limit() -> nat {
        32768
    }

    open spec fn spec_of_mag(neg: bool, mag: nat) -> i16 {
        if neg {
            (-(mag as int)) as i16
        } else {
            mag as i16
        }
    }

    open spec fn spec_zero() -> i16 {
        0
    }

    proof fn lemma_depth_properties() {
    }

    /// 32767 as a binary32 value, exactly.
    fn max_float_bits() -> u32 {
        0x46FF_FE00
    }

    fn pos_limit() -> u64 {
        32767
    }

    fn neg_limit() -> u64 {
        32768
    }

    fn of_mag(neg: bool, mag: u64) -> i16 {
        if neg {
            (-(mag as i32)) as i16
        } else {
            mag as i16
        }
    }
}

impl SampleDepth for i32 {
    open spec fn spec_max_float_bits() -> u32 {
        0x4F00_0000
    }

    open spec fn spec_pos_limit() -> nat {
        0x7FFF_FFFF
    }

    open spec fn spec_neg_limit() -> nat {
        0x8000_0000
    }

    open spec fn spec_of_mag(neg: bool, mag: nat) -> i32 {
        if neg {
            (-(mag as int)) as i32
        } else {
            mag as i32
        }
    }

    open spec fn spec_zero() -> i32 {
        0
    }

    proof fn lemma_depth_properties() {
    }

    /// 2147483647 as a binary32 value is rounded up to 2^31.
    fn max_float_bits() -> u32 {
        0x4F00_0000
    }

    fn pos_limit() -> u64 {
        0x7FFF_FFFF
    }

    fn neg_limit() -> u64 {
        0x8000_0000
    }

    fn of_mag(neg: bool, mag: u64) -> i32 {
        if neg {
            (-(mag as i64)) as i32
        } else {
            mag as i32
        }
    }
}

impl SampleDepth for u8 {
    open spec fn spec_max_float_bits() -> u32 {
        0x437F_0000
    }

    open spec fn spec_pos_limit() -> nat {
        255
    }

    open spec fn spec_neg_limit() -> nat {
        0
    }

    open spec fn spec_of_mag(neg: bool, mag: nat) -> u8 {
        if neg {
            0
        } else {
            mag as u8
        }
    }

    open spec fn spec_zero() -> u8 {
        0
    }

    proof fn lemma_depth_properties() {
    }

    /// 255 as a binary32 value, exactly.
    fn max_float_bits() -> u32 {
        0x437F_0000
    }

    fn pos_limit() -> u64 {
        255
    }

    /// An unsigned sample accepts a negative value only above minus one,
    /// where it truncates to zero.
    fn neg_limit() -> u64 {
        0
    }

    fn of_mag(neg: bool, mag: u64) -> u8 {
        if neg {
            0
        } else {
            mag as u8
        }
    }
}

impl SampleDepth for u16 {
    open spec fn spec_max_float_bits() -> u32 {
        0x477F_FF00
    }

    open spec fn spec_pos_limit() -> nat {
        65535
    }

    open spec fn spec_neg_limit() -> nat {
        0
    }

    open spec fn spec_of_mag(neg: bool, mag: nat) -> u16 {
        if neg {
            0
        } else {
            mag as u16
        }
    }

    open spec fn spec_zero() -> u16 {
        0
    }

    proof fn lemma_depth_properties() {
    }

    /// 65535 as a binary32 value, exactly.
    fn max_float_bits() -> u32 {
        0x477F_FF00
    }

    fn pos_limit() -> u64 {
        65535
    }

    /// An unsigned sample accepts a negative value only above minus one,
    /// where it truncates to zero.
    fn neg_limit() -> u64 {
        0
    }

    fn of_mag(neg: bool, mag: u64) -> u16 {
        if neg {
            0
        } else {
            mag as u16
        }
    }
}

impl SampleDepth for u32 {
    open spec fn spec_max_float_bits() -> u32 {
        0x4F80_0000
    }

    open spec fn spec_pos_limit() -> nat {
        0xFFFF_FFFF
    }

    open spec fn spec_neg_limit() -> nat {
        0
    }

    open spec fn spec_of_mag(neg: bool, mag: nat) -> u32 {
        if neg {
            0
        } else {
            mag as u32
        }
    }

    open spec fn spec_zero() -> u32 {
        0
    }

    proof fn lemma_depth_properties() {
    }

    /// 4294967295 as a binary32 value is rounded up to 2^32.
    fn max_float_bits() -> u32 {
        0x4F80_0000
    }

    fn pos_limit() -> u64 {
        0xFFFF_FFFF
    }

    /// An unsigned sample accepts a negative value only above minus one,
    /// where it truncates to zero.
    fn neg_limit() -> u64 {
        0
    }

    fn of_mag(neg: bool, mag: u64) -> u32 {
        if neg {
            0
        } else {
            mag as u32
        }
    }
}

/// The sample of type `BitDepth` that a scaled binary32 sample converts to:
/// its magnitude truncated toward zero with its sign, or nothing when the
/// value is an infinity, a NaN, or out of the type's range.
pub open spec fn quantize_spec<BitDepth: SampleDepth>(bits: u32) -> Option<BitDepth> {
    if f32_is_nan_or_inf(bits) {
        None
    } else if !f32_sign(bits) && f32_trunc_abs(bits) <= BitDepth::spec_pos_limit() {
        Some(BitDepth::spec_of_mag(false, f32_trunc_abs(bits)))
    } else if f32_sign(bits) && f32_trunc_abs(bits) <= BitDepth::spec_neg_limit() {
        Some(BitDepth::spec_of_mag(true, f32_trunc_abs(bits)))
    } else {
        None
    }
}

/// Convert a scaled binary32 sample to the integer sample type, truncating
/// toward zero; out-of-range values, infinities and NaNs convert to nothing.
pub fn quantize<BitDepth: SampleDepth>(bits: u32) -> (r: Option<BitDepth>)
    ensures
        r == quantize_spec::<BitDepth>(bits),
{
    proof {
        BitDepth::lemma_depth_properties();
    }
    match f32_trunc_magnitude(bits) {
        None => None,
        Some(mag) => {
            let neg = bits >= 0x8000_0000;
            assert(neg == f32_sign(bits));
            if !neg && mag <= BitDepth::pos_limit() {
                Some(BitDepth::of_mag(false, mag))
            } else if neg && mag <= BitDepth::neg_limit() {
                Some(BitDepth::of_mag(true, mag))
            } else {
                None
            }
        },
    }
}

/// Both zero bit patterns quantize to the zero sample: positive zero is all
/// zero bits, negative zero adds only the sign bit, and both have a truncated
/// magnitude of zero.
pub proof fn lemma_quantize_zero<BitDepth: SampleDepth>()
    ensures
        quantize_spec::<BitDepth>(0x0000_0000) == Some(BitDepth::spec_zero()),
        quantize_spec::<BitDepth>(0x8000_0000) == Some(BitDepth::spec_zero()),
{
    BitDepth::lemma_depth_properties();
    vstd::arithmetic::power2::lemma_pow2_pos(149);
    lemma_basic_div(0, pow2(149) as int);
}

} // verus!
