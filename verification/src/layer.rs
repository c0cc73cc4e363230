//! The layers of a chunk.

use vstd::prelude::*;

verus! {

/// A layer of a chunk, by name: drawn back to front.
#[derive(Clone, Copy, Debug, PartialEq, Eq, Structural)]
pub enum LayerName {
    BACK,
    MIDDLE,
    FRONT,
}

impl LayerName {
    /// The place of the layer in drawing order: 0 for the back, 2 for the
    /// front.
    pub fn index(&self) -> (res: usize)
        ensures
            res == match self {
                LayerName::BACK => 0usize,
                LayerName::MIDDLE => 1usize,
                LayerName::FRONT => 2usize,
            },
    {
        match self {
            LayerName::BACK => 0,
            LayerName::MIDDLE => 1,
            LayerName::FRONT => 2,
        }
    }
}

} // verus!
