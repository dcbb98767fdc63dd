//! The packed-pixel colour format of the display buffer.
//!
//! The front end computes colours as floating-point channels and quantises
//! each channel to a byte; this module packs the bytes into the `u32` layout
//! the pixel buffer holds: blue in the lowest byte, then green, red and alpha.

use vstd::prelude::*;

verus! {

/// One display pixel as four byte channels.
#[derive(Debug, Clone, Copy, PartialEq, Eq, Structural)]
pub struct Color8b {
    pub red: u8,
    pub green: u8,
    pub blue: u8,
    pub alpha: u8,
}

/// The packed layout: blue in bits 0..8, green in 8..16, red in 16..24,
/// alpha in 24..32.
pub open spec fn packed(c: Color8b) -> u32 {
    (c.blue as u32) | ((c.green as u32) << 8) | ((c.red as u32) << 16) | ((c.alpha as u32) << 24)
}

impl Color8b {
    /// A pixel with the given channels and zero alpha.
    pub fn new(red: u8, green: u8, blue: u8) -> (c: Color8b)
        ensures
            c == (Color8b { red, green, blue, alpha: 0u8 }),
    {
        Color8b { red, green, blue, alpha: 0 }
    }
}

impl From<Color8b> for u32 {
    /// The packed pixel value of the four channels.
    fn from(c: Color8b) -> (r: u32)
        ensures
            r == packed(c),
    {
        (c.blue as u32) | ((c.green as u32) << 8) | ((c.red as u32) << 16)
            | ((c.alpha as u32) << 24)
    }
}

impl vstd::std_specs::convert::FromSpecImpl<Color8b> for u32 {
    open spec fn obeys_from_spec() -> bool {
        true
    }

    open spec fn from_spec(c: Color8b) -> Self {
        packed(c)
    }
}

} // verus!
