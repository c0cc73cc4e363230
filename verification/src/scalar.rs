//! Fixed-point scalars: an `i64` that counts millionths of a unit.

use vstd::prelude::*;

verus! {

/// A fixed-point number: the real value times one million.
pub type Scalar = i64;

/// The scalar that stands for 1.
pub const ONE: i64 = 1_000_000;

/// What the texture kinds move each sampled corner inwards by, so that a
/// neighbouring cell of an atlas never bleeds in. A fixed policy, not a setting.
pub const TEXCOORD_INSET: i64 = 1;

/// The fixed-point value of `value / 255`, rounded towards zero.
pub open spec fn channel_of(value: u8) -> int {
    (value as int * 1_000_000) / 255
}

/// Turns a channel in the 0 to 255 format into a scalar between 0 and [`ONE`].
pub fn channel_from_u8(value: u8) -> (res: i64)
    ensures
        res == channel_of(value),
        0 <= res <= ONE,
        value == 255 ==> res == ONE,
        value == 0 ==> res == 0,
{
    let wide: i64 = value as i64;
    wide * 1_000_000 / 255
}

} // verus!
