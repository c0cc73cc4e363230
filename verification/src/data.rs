//! The attributes of one instance.

use vstd::prelude::*;
use crate::color::Color;
use crate::scalar::ONE;

verus! {

/// Four corner (u, v) pairs, eight scalars in all.
pub type TextureCoordinate = [i64; 8];

/// What one instance looks like: colour, size, opacity, offset and the part
/// of the texture it shows. Plain data, copied into an object when added.
#[derive(Clone, Copy, Debug, PartialEq, Eq)]
pub struct ObjectData {
    pub color: Color,
    pub dim: (i64, i64),
    pub opacity: i64,
    pub offset: (i64, i64),
    pub texcoord: TextureCoordinate,
}

/// The texture coordinates of the whole image: top left, bottom left, bottom
/// right, top right, in a texture space whose row 0 is the bottom row.
pub open spec fn identity_texcoord() -> Seq<i64> {
    seq![0i64, 0i64, 0i64, ONE, ONE, ONE, ONE, 0i64]
}

impl ObjectData {
    /// The engine-wide default: black, no size, fully opaque, no offset, the
    /// whole texture.
    pub open spec fn spec_default() -> ObjectData {
        ObjectData {
            color: Color { r: 0, g: 0, b: 0, a: 0 },
            dim: (0i64, 0i64),
            opacity: ONE,
            offset: (0i64, 0i64),
            texcoord: [0i64, 0i64, 0i64, ONE, ONE, ONE, ONE, 0i64],
        }
    }
}

impl Default for ObjectData {
    fn default() -> (res: ObjectData)
        ensures
            res == ObjectData::spec_default(),
            res.texcoord@ == identity_texcoord(),
    {
        ObjectData {
            color: Color::default(),
            dim: (0, 0),
            opacity: ONE,
            offset: (0, 0),
            texcoord: [0, 0, 0, ONE, ONE, ONE, ONE, 0],
        }
    }
}

} // verus!
