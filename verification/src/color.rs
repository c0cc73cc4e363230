//! Colours with four fixed-point channels.

use vstd::prelude::*;
use crate::scalar::{channel_from_u8, channel_of, ONE};

verus! {

/// A colour. Each channel is a scalar, meant to lie between 0 and [`ONE`];
/// the type does not clamp it.
#[derive(Clone, Copy, Debug, PartialEq, Eq, Structural)]
pub struct Color {
    pub r: i64,
    pub g: i64,
    pub b: i64,
    pub a: i64,
}

impl Color {
    /// The colour that `rgb` gives for three channels in the 0 to 255 format.
    pub open spec fn spec_rgb(red: u8, green: u8, blue: u8) -> Color {
        Color {
            r: channel_of(red) as i64,
            g: channel_of(green) as i64,
            b: channel_of(blue) as i64,
            a: ONE,
        }
    }

    /// An opaque colour from the 0 to 255 format.
    pub fn rgb(red: u8, green: u8, blue: u8) -> (res: Color)
        ensures
            res == Color::spec_rgb(red, green, blue),
    {
        Color { r: channel_from_u8(red), g: channel_from_u8(green), b: channel_from_u8(blue), a: ONE }
    }

    /// An opaque grey: all three channels the same.
    pub fn grey(value: u8) -> (res: Color)
        ensures
            res == Color::spec_rgb(value, value, value),
    {
        let v: i64 = channel_from_u8(value);
        Color { r: v, g: v, b: v, a: ONE }
    }
}

impl Default for Color {
    /// Transparent black: every channel zero.
    fn default() -> (res: Color)
        ensures
            res == (Color { r: 0, g: 0, b: 0, a: 0 }),
    {
        Color { r: 0, g: 0, b: 0, a: 0 }
    }
}

} // verus!
