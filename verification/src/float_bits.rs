//! Ordering and classification of IEEE-754 binary32 values held as their
//! bit patterns (`f32::to_bits`). Comparisons here agree with Rust's `<` on
//! `f32`: NaN is unordered, `-0.0 == +0.0`, and the infinities bound every
//! finite value.

use vstd::prelude::*;

verus! {

pub const F32_EXP_MASK: u32 = 0x7f80_0000;
pub const F32_FRAC_MASK: u32 = 0x007f_ffff;
pub const F32_ABS_MASK: u32 = 0x7fff_ffff;
pub const F32_SIGN_MASK: u32 = 0x8000_0000;

/// The value is a NaN: all exponent bits set and a non-zero fraction.
pub open spec fn f32_is_nan(b: u32) -> bool {
    (b & F32_EXP_MASK) == F32_EXP_MASK && (b & F32_FRAC_MASK) != 0
}

/// The value is neither infinite nor NaN.
pub open spec fn f32_is_finite(b: u32) -> bool {
    (b & F32_EXP_MASK) != F32_EXP_MASK
}

/// A key whose integer order is the order of the (non-NaN) values: the
/// magnitude bits, negated for negative values (both zeros map to 0).
pub open spec fn f32_order_key(b: u32) -> int {
    let m = (b & F32_ABS_MASK) as int;
    if (b & F32_SIGN_MASK) != 0 { -m } else { m }
}

/// `a < b` on the `f32` values these bits encode.
pub open spec fn f32_lt(a: u32, b: u32) -> bool {
    !f32_is_nan(a) && !f32_is_nan(b) && f32_order_key(a) < f32_order_key(b)
}

pub fn f32_bits_is_nan(b: u32) -> (r: bool)
    ensures
        r == f32_is_nan(b),
{
    (b & F32_EXP_MASK) == F32_EXP_MASK && (b & F32_FRAC_MASK) != 0
}

pub fn f32_bits_is_finite(b: u32) -> (r: bool)
    ensures
        r == f32_is_finite(b),
{
    (b & F32_EXP_MASK) != F32_EXP_MASK
}

fn f32_bits_key(b: u32) -> (r: i64)
    ensures
        r == f32_order_key(b),
{
    let m = (b & F32_ABS_MASK) as i64;
    if (b & F32_SIGN_MASK) != 0 { -m } else { m }
}

/// `a < b` on the `f32` values these bits encode.
pub fn f32_bits_lt(a: u32, b: u32) -> (r: bool)
    ensures
        r == f32_lt(a, b),
{
    !f32_bits_is_nan(a) && !f32_bits_is_nan(b) && f32_bits_key(a) < f32_bits_key(b)
}

/// `a <= b` on the `f32` values these bits encode.
pub open spec fn f32_le(a: u32, b: u32) -> bool {
    !f32_is_nan(a) && !f32_is_nan(b) && f32_order_key(a) <= f32_order_key(b)
}

/// `a <= b` on the `f32` values these bits encode.
pub fn f32_bits_le(a: u32, b: u32) -> (r: bool)
    ensures
        r == f32_le(a, b),
{
    !f32_bits_is_nan(a) && !f32_bits_is_nan(b) && f32_bits_key(a) <= f32_bits_key(b)
}

/// The `f64` these bits encode is `> 0.0`: sign clear, not zero, and not a
/// NaN (`+inf` counts as positive).
pub open spec fn f64_is_positive(b: u64) -> bool {
    0 < b && b <= 0x7ff0_0000_0000_0000u64
}

pub fn f64_bits_is_positive(b: u64) -> (r: bool)
    ensures
        r == f64_is_positive(b),
{
    0 < b && b <= 0x7ff0_0000_0000_0000u64
}

/// The `f32` these bits encode is `> 0.0`.
pub open spec fn f32_is_positive(b: u32) -> bool {
    f32_lt(0u32, b)
}

} // verus!
