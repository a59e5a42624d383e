//! From a colour with channels in `[0, 1]` to a packed 24-bit pixel.
use crate::rounding::{lemma_round53_shifts, round53, round_to_precision};
use crate::scalar::{
    lemma_quanta_monotonic, quanta_of_magnitude, quantum_exponent, Scalar, Value, HIDDEN_BIT,
    ONE_BITS,
};
use crate::vec3::Vec3;
use vstd::arithmetic::div_mod::{lemma_basic_div, lemma_div_multiples_vanish_quotient};
use vstd::arithmetic::power2::{
    lemma2_to64, lemma2_to64_rest, lemma_pow2_adds, lemma_pow2_pos, lemma_pow2_strictly_increases,
    lemma_pow2_unfold, pow2,
};
use vstd::prelude::*;
use vstd::std_specs::convert::FromSpecImpl;

verus! {

/// `val` limited to `[min, max]`: `min` where `val` is below it, `max` where
/// `val` is above it, and `val` itself otherwise, a NaN included.
pub open spec fn clamped(val: Scalar, min: Scalar, max: Scalar) -> Scalar {
    if val@.lt(min@) {
        min
    } else if max@.lt(val@) {
        max
    } else {
        val
    }
}

/// Limits `val` to `[min, max]`. Of a number within the range the result is
/// the number itself, bit for bit.
pub fn clamp(val: Scalar, min: Scalar, max: Scalar) -> (r: Scalar)
    ensures
        r == clamped(val, min, max),
        !(val@ is Nan) && min@.le(max@) ==> min@.le(r@) && r@.le(max@),
{
    if val.lt(min) {
        min
    } else if val.gt(max) {
        max
    } else {
        val
    }
}

/// The pixel `0x00RRGGBB`.
pub open spec fn packed(r: u8, g: u8, b: u8) -> u32 {
    (r as int * 65536 + g as int * 256 + b as int) as u32
}

/// Packs three 8-bit channels into one pixel, red in bits 16 to 23, green in
/// bits 8 to 15 and blue in bits 0 to 7; the top byte is zero.
pub fn pack_rgb(r: u8, g: u8, b: u8) -> (pixel: u32)
    ensures
        pixel == packed(r, g, b),
        pixel < 0x0100_0000,
        pixel / 65536 == r,
        pixel / 256 % 256 == g,
        pixel % 256 == b,
{
    (r as u32) * 65536 + (g as u32) * 256 + (b as u32)
}

/// The product of a number and 255, as the floating-point unit finds it:
/// the product rounded to 53 binary digits. It is this for every number
/// whose product is no greater than the greatest double.
pub open spec fn times_255(v: Value) -> Value {
    match v {
        Value::Finite { quanta } => if quanta >= 0 {
            Value::Finite { quanta: round53((255 * quanta) as nat) as int }
        } else {
            Value::Finite { quanta: -(round53((255 * -quanta) as nat) as int) }
        },
        other => other,
    }
}

/// The byte of a colour channel: the channel limited to `[0, 1]`, scaled by
/// 255 and cut to its whole part.
pub open spec fn color_byte(val: Scalar) -> u8 {
    times_255(clamped(val, Scalar { bits: 0 }, Scalar { bits: ONE_BITS })@).to_byte()
}

/// The byte of a colour channel, from 0 for a channel of zero or less to 255
/// for a channel of one or more. The byte of a NaN is 0.
pub fn to_color_byte(val: Scalar) -> (r: u8)
    ensures
        r == color_byte(val),
{
    let unit = clamp(val, Scalar::zero(), Scalar::one());
    if unit.is_nan() {
        return 0;
    }
    let magnitude = unit.abs().to_bits();
    let ghost quanta = quanta_of_magnitude(magnitude as nat);
    proof {
        lemma2_to64_rest();
        Value::lemma_whole_is_ordered(0, 1);
        crate::scalar::lemma_power_pattern(1023);
        if magnitude > 0 {
            lemma_quanta_monotonic(0, magnitude as nat);
        }
        if magnitude > ONE_BITS {
            lemma_quanta_monotonic(ONE_BITS as nat, magnitude as nat);
        }
        assert(1 * pow2(quantum_exponent()) == pow2(quantum_exponent())) by (nonlinear_arith);
        assert(magnitude <= ONE_BITS);
        assert(unit@ == Value::Finite { quanta: quanta as int });
    }
    let exponent = magnitude / HIDDEN_BIT;
    let fraction = magnitude % HIDDEN_BIT;
    let significand = if exponent == 0 {
        fraction
    } else {
        HIDDEN_BIT + fraction
    };
    let k = if exponent == 0 {
        0
    } else {
        exponent - 1
    };
    let product = 255 * significand;
    let rounded = round_to_precision(product);
    let ghost unit_of_one = pow2(quantum_exponent());
    proof {
        lemma2_to64();
        lemma_pow2_pos(k as nat);
        lemma_pow2_pos((1074 - k) as nat);
        lemma_pow2_adds((1074 - k) as nat, k as nat);
        assert(quanta == significand * pow2(k as nat)) by {
            if exponent == 0 {
                assert(significand * 1 == significand) by (nonlinear_arith);
            }
        }
        assert(255 * quanta == product * pow2(k as nat)) by (nonlinear_arith)
            requires
                quanta == significand * pow2(k as nat),
                product == 255 * significand,
        ;
        lemma_round53_shifts(product as nat, k as nat);
        lemma_div_multiples_vanish_quotient(
            pow2(k as nat) as int,
            rounded as int,
            pow2((1074 - k) as nat) as int,
        );
        assert(pow2(k as nat) * rounded == rounded * pow2(k as nat) && pow2(k as nat) * pow2(
            (1074 - k) as nat,
        ) == pow2((1074 - k) as nat) * pow2(k as nat)) by (nonlinear_arith);
        assert((rounded * pow2(k as nat)) as int / (unit_of_one as int) == rounded as int / (pow2(
            (1074 - k) as nat,
        ) as int));
    }
    let shift = 1074 - k;
    if shift >= 63 {
        proof {
            if shift > 63 {
                lemma_pow2_strictly_increases(63, shift as nat);
            }
            lemma_basic_div(rounded as int, pow2(shift as nat) as int);
        }
        return 0;
    }
    let mut divisor: u64 = 1;
    let mut i: u64 = 0;
    while i < shift
        invariant
            i <= shift < 63,
            divisor == pow2(i as nat),
        decreases shift - i,
    {
        proof {
            lemma_pow2_unfold((i + 1) as nat);
            lemma2_to64_rest();
            if i + 1 < 63 {
                lemma_pow2_strictly_increases((i + 1) as nat, 63);
            }
        }
        divisor = divisor * 2;
        i = i + 1;
    }
    let whole = rounded / divisor;
    if whole > 255 {
        255
    } else {
        whole as u8
    }
}

/// The pixel of a colour: every channel limited to `[0, 1]`, scaled to a
/// byte, and the three bytes packed.
pub fn pixel(color: Vec3) -> (r: u32)
    ensures
        r == packed(color_byte(color.x), color_byte(color.y), color_byte(color.z)),
{
    pack_rgb(to_color_byte(color.x), to_color_byte(color.y), to_color_byte(color.z))
}

impl From<Vec3> for u32 {
    /// The pixel of a colour, as [`pixel`] finds it.
    fn from(color: Vec3) -> (r: u32) {
        pixel(color)
    }
}

impl FromSpecImpl<Vec3> for u32 {
    open spec fn obeys_from_spec() -> bool {
        true
    }

    open spec fn from_spec(color: Vec3) -> u32 {
        packed(color_byte(color.x), color_byte(color.y), color_byte(color.z))
    }
}

} // verus!
