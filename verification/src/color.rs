//! Colours in the sRGB colour space.

use vstd::prelude::*;

verus! {

/// A colour with red, green and blue components in the sRGB colour space and
/// an alpha component, where 0 is fully transparent and 255 fully opaque.
#[derive(Copy, Clone, Eq, PartialEq, Ord, PartialOrd, Hash, Debug)]
pub struct Srgba {
    /// Red component
    pub r: u8,
    /// Green component
    pub g: u8,
    /// Blue component
    pub b: u8,
    /// Alpha component
    pub a: u8,
}

impl Srgba {
    /// Creates a colour with the given components.
    pub fn new(r: u8, g: u8, b: u8, a: u8) -> (color: Self)
        ensures
            color == (Srgba { r, g, b, a }),
    {
        Srgba { r, g, b, a }
    }

    /// Creates a colour with the given red, green and blue components that
    /// is fully opaque.
    pub fn new_opaque(r: u8, g: u8, b: u8) -> (color: Self)
        ensures
            color == (Srgba { r, g, b, a: 255 }),
    {
        Srgba { r, g, b, a: 255 }
    }
}

impl From<[u8; 3]> for Srgba {
    fn from(value: [u8; 3]) -> (color: Self) {
        Srgba { r: value[0], g: value[1], b: value[2], a: 255 }
    }
}

impl vstd::std_specs::convert::FromSpecImpl<[u8; 3]> for Srgba {
    open spec fn obeys_from_spec() -> bool {
        true
    }

    open spec fn from_spec(value: [u8; 3]) -> Self {
        Srgba { r: value[0], g: value[1], b: value[2], a: 255 }
    }
}

impl From<[u8; 4]> for Srgba {
    fn from(value: [u8; 4]) -> (color: Self) {
        Srgba { r: value[0], g: value[1], b: value[2], a: value[3] }
    }
}

impl vstd::std_specs::convert::FromSpecImpl<[u8; 4]> for Srgba {
    open spec fn obeys_from_spec() -> bool {
        true
    }

    open spec fn from_spec(value: [u8; 4]) -> Self {
        Srgba { r: value[0], g: value[1], b: value[2], a: value[3] }
    }
}

impl From<Srgba> for [u8; 3] {
    fn from(value: Srgba) -> (parts: Self) {
        [value.r, value.g, value.b]
    }
}

impl vstd::std_specs::convert::FromSpecImpl<Srgba> for [u8; 3] {
    open spec fn obeys_from_spec() -> bool {
        true
    }

    open spec fn from_spec(value: Srgba) -> Self {
        [value.r, value.g, value.b]
    }
}

impl From<Srgba> for [u8; 4] {
    fn from(value: Srgba) -> (parts: Self) {
        [value.r, value.g, value.b, value.a]
    }
}

impl vstd::std_specs::convert::FromSpecImpl<Srgba> for [u8; 4] {
    open spec fn obeys_from_spec() -> bool {
        true
    }

    open spec fn from_spec(value: Srgba) -> Self {
        [value.r, value.g, value.b, value.a]
    }
}

impl Default for Srgba {
    fn default() -> (color: Self)
        ensures
            color == (Srgba { r: 255, g: 255, b: 255, a: 255 }),
    {
        Srgba { r: 255, g: 255, b: 255, a: 255 }
    }
}

} // verus!
