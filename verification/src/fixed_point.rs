//! Q16.16 operations of the `fixed` crate's `I16F16`, on raw 32-bit
//! patterns.
use vstd::prelude::*;
use fixed::types::I16F16;
use fixed::types::extra::U8;
use fixed::FixedI16;
use crate::mixer::trunc_quot;
use crate::predictors::clamp_int;

verus! {

/// Calls `I16F16 * I16F16` (the `Mul` impl of `fixed`) on two bit patterns:
/// the exact product shifted right by 16 (rounding toward minus infinity),
/// truncated to 32 bits. `fixed` panics in debug builds when the widened
/// 64-bit product overflows; `requires` leaves those inputs out.
#[verifier::external_body]
pub(crate) fn i16f16_mul(a: i32, b: i32) -> (r: i32)
    requires
        -0x8000_0000_0000 <= (a as int) * (b as int) < 0x8000_0000_0000,
    ensures
        r == ((a as int * b as int) / 65536) as i32,
{
    (I16F16::from_bits(a) * I16F16::from_bits(b)).to_bits()
}

/// Calls `I16F16 / I16F16` (the `Div` impl of `fixed`) on two bit patterns:
/// `(a << 16) / b` in 64 bits, truncated toward zero. `fixed` panics on a
/// zero divisor, and in debug builds when the quotient does not fit 32 bits;
/// `requires` leaves those inputs out.
#[verifier::external_body]
pub(crate) fn i16f16_div(a: i32, b: i32) -> (r: i32)
    requires
        b != 0,
        i32::MIN <= trunc_quot(a as int * 65536, b as int) <= i32::MAX,
    ensures
        r == trunc_quot(a as int * 65536, b as int),
{
    (I16F16::from_bits(a) / I16F16::from_bits(b)).to_bits()
}

/// Calls `I16F16::from_num` on an integer: its bit pattern is the integer
/// shifted left by 16. `fixed` panics in debug builds when the value does
/// not fit; `requires` leaves those inputs out.
#[verifier::external_body]
pub(crate) fn i16f16_from_int(v: i32) -> (r: i32)
    requires
        -32768 <= v < 32768,
    ensures
        r == v * 65536,
{
    I16F16::from_num(v).to_bits()
}

/// Calls `I16F16::to_num::<i32>`: the integer part, rounding toward minus
/// infinity.
#[verifier::external_body]
pub(crate) fn i16f16_to_i32(x: i32) -> (r: i32)
    ensures
        r == (x as int) / 65536,
{
    I16F16::from_bits(x).to_num::<i32>()
}

/// Calls `I16F16::to_num::<u8>`: the integer part, rounding toward minus
/// infinity. `fixed` panics in debug builds when it does not fit a byte;
/// `requires` leaves those inputs out.
#[verifier::external_body]
pub(crate) fn i16f16_to_u8(x: i32) -> (r: u8)
    requires
        0 <= (x as int) / 65536 <= 255,
    ensures
        r == (x as int) / 65536,
{
    I16F16::from_bits(x).to_num::<u8>()
}

/// Calls `I16F16::from_num` on the `I8F8` (`FixedI16<U8>`) with bit pattern
/// `b`: a widening conversion that keeps the value, so the pattern gains
/// eight zero fraction bits.
#[verifier::external_body]
pub(crate) fn i8f8_to_i16f16(b: i16) -> (r: i32)
    ensures
        r == b * 256,
{
    I16F16::from_num(FixedI16::<U8>::from_bits(b)).to_bits()
}

/// Calls `I16F16::saturating_mul` on two bit patterns: the exact product
/// shifted right by 16 (rounding toward minus infinity), saturated to the
/// 32-bit range.
#[verifier::external_body]
pub(crate) fn i16f16_saturating_mul(a: i32, b: i32) -> (r: i32)
    ensures
        r == clamp_int((a as int * b as int) / 65536, i32::MIN as int, i32::MAX as int),
{
    I16F16::from_bits(a).saturating_mul(I16F16::from_bits(b)).to_bits()
}

/// Calls `I16F16::checked_mul` on two bit patterns: the exact product
/// shifted right by 16 (rounding toward minus infinity) when it fits 32
/// bits, `None` otherwise.
#[verifier::external_body]
pub(crate) fn i16f16_checked_mul(a: i32, b: i32) -> (r: Option<i32>)
    ensures
        ({
            let p = (a as int * b as int) / 65536;
            r == if i32::MIN <= p <= i32::MAX { Some(p as i32) } else { None::<i32> }
        }),
{
    I16F16::from_bits(a).checked_mul(I16F16::from_bits(b)).map(|v| v.to_bits())
}

} // verus!
