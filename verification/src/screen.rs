//! The screen: the square pixel region balls are rendered into.

use vstd::prelude::*;

use crate::dimension::Dimension;

verus! {

/// The rendering surface, described only by its square dimension.
#[derive(Clone, Copy, Debug, PartialEq, Eq, Structural)]
pub struct Screen {
    pub dimension: Dimension,
}

impl Screen {
    /// Builds a screen with the given positive side length, in pixels.
    pub fn new(side_length: u32) -> (s: Screen)
        requires
            side_length >= 1,
        ensures
            s.dimension.side_length == side_length,
    {
        Screen { dimension: Dimension { side_length } }
    }
}

} // verus!
