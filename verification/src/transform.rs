//! Where an object stands, how it is turned and how it is scaled.

use vstd::prelude::*;
use crate::scalar::ONE;

verus! {

/// Position, rotation and scale of an object. The library reads the position;
/// composing the three into a model matrix is left to the renderer.
#[derive(Clone, Copy, Debug, PartialEq, Eq)]
pub struct Transform {
    pub x: i64,
    pub y: i64,
    pub z: i64,
    /// The angle of the rotation, then the axis it turns about.
    pub rotation: (i64, i64, i64, i64),
    pub scale: (i64, i64, i64),
}

impl Transform {
    /// At the origin, not turned, at scale one.
    pub open spec fn spec_new() -> Transform {
        Transform { x: 0, y: 0, z: 0, rotation: (0i64, 0i64, 0i64, ONE), scale: (ONE, ONE, ONE) }
    }

    /// The transform of an object that has not been moved.
    pub fn new() -> (res: Transform)
        ensures
            res == Transform::spec_new(),
    {
        Transform { x: 0, y: 0, z: 0, rotation: (0, 0, 0, ONE), scale: (ONE, ONE, ONE) }
    }

    /// Moves to the given position.
    pub fn set(&mut self, x: i64, y: i64, z: i64)
        ensures
            *final(self) == (Transform { x, y, z, ..*old(self) }),
    {
        self.x = x;
        self.y = y;
        self.z = z;
    }

    /// Moves by the given amounts.
    pub fn add(&mut self, x: i64, y: i64, z: i64)
        requires
            i64::MIN <= old(self).x + x <= i64::MAX,
            i64::MIN <= old(self).y + y <= i64::MAX,
            i64::MIN <= old(self).z + z <= i64::MAX,
        ensures
            *final(self) == (Transform {
                x: (old(self).x + x) as i64,
                y: (old(self).y + y) as i64,
                z: (old(self).z + z) as i64,
                ..*old(self)
            }),
    {
        self.x = self.x + x;
        self.y = self.y + y;
        self.z = self.z + z;
    }

    /// The position.
    pub fn pos(&self) -> (res: (i64, i64, i64))
        ensures
            res == (self.x, self.y, self.z),
    {
        (self.x, self.y, self.z)
    }

    /// Replaces the rotation: an angle and the axis to turn about.
    pub fn set_rotation(&mut self, angle: i64, x: i64, y: i64, z: i64)
        ensures
            *final(self) == (Transform { rotation: (angle, x, y, z), ..*old(self) }),
    {
        self.rotation = (angle, x, y, z);
    }

    /// Replaces the scale.
    pub fn set_scale(&mut self, x: i64, y: i64, z: i64)
        ensures
            *final(self) == (Transform { scale: (x, y, z), ..*old(self) }),
    {
        self.scale = (x, y, z);
    }
}

} // verus!
