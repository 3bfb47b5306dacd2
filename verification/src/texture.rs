//! How a texture is sampled.

use vstd::prelude::*;

verus! {

/// How the output of a texture is determined between its pixels.
#[derive(Copy, Clone, Eq, PartialEq, Ord, PartialOrd, Hash, Debug)]
pub enum Interpolation {
    /// The value of the nearest pixel.
    Nearest,
    /// A linear blend of the neighbouring pixels.
    Linear,
}

/// How a texture is applied outside of the `[0..1]` range of uv coordinates.
#[derive(Copy, Clone, Eq, PartialEq, Ord, PartialOrd, Hash, Debug)]
pub enum Wrapping {
    /// The texture repeats.
    Repeat,
    /// The texture repeats, mirrored at every repetition.
    MirroredRepeat,
    /// The edge pixels extend outwards.
    ClampToEdge,
}

} // verus!
