use vstd::prelude::*;

verus! {

/// An 8-bit-per-channel RGB color.
#[derive(Clone, Copy, Debug, PartialEq, Eq, Structural)]
pub struct Color {
    pub r: u8,
    pub g: u8,
    pub b: u8,
}

/// One cell of the color buffer.
#[derive(Clone, Copy, Debug, PartialEq, Eq, Structural)]
pub struct Pixel {
    pub color: Color,
}

impl Pixel {
    /// A black pixel (the receiver is not read).
    pub fn default(&mut self) -> (r: Pixel)
        ensures
            r.color == (Color { r: 0, g: 0, b: 0 }),
            *final(self) == *old(self),
    {
        Pixel { color: Color { r: 0, g: 0, b: 0 } }
    }

    /// A pixel holding the color `(r, g, b)`.
    pub fn new(r: u8, g: u8, b: u8) -> (p: Pixel)
        ensures
            p.color == (Color { r, g, b }),
    {
        Pixel { color: Color { r, g, b } }
    }
}

} // verus!
