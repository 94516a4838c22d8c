//! Straight 8-bit RGBA colours with the premultiplied storage convention
//! of the GUI toolkit: a colour is exactly its four stored bytes.

use vstd::prelude::*;

verus! {

/// One pixel colour, stored as the four bytes red, green, blue, alpha.
#[derive(Clone, Copy, PartialEq, Eq, Structural, Debug, Hash)]
pub struct Color {
    pub r: u8,
    pub g: u8,
    pub b: u8,
    pub a: u8,
}

/// The fully transparent colour: all four bytes zero.
pub open spec fn transparent() -> Color {
    Color { r: 0, g: 0, b: 0, a: 0 }
}

/// An opaque colour: the given red, green and blue with alpha 255.
pub open spec fn opaque(r: u8, g: u8, b: u8) -> Color {
    Color { r, g, b, a: 255 }
}

/// Byte `k` (0 red, 1 green, 2 blue, 3 alpha) of a colour.
pub open spec fn channel_of(c: Color, k: int) -> u8 {
    if k == 0 {
        c.r
    } else if k == 1 {
        c.g
    } else if k == 2 {
        c.b
    } else {
        c.a
    }
}

impl Color {
    /// The fully transparent colour.
    pub fn transparent() -> (c: Color)
        ensures
            c == transparent(),
    {
        Color { r: 0, g: 0, b: 0, a: 0 }
    }

    /// Opaque black.
    pub fn black() -> (c: Color)
        ensures
            c == opaque(0, 0, 0),
    {
        Color { r: 0, g: 0, b: 0, a: 255 }
    }

    /// Opaque white.
    pub fn white() -> (c: Color)
        ensures
            c == opaque(255, 255, 255),
    {
        Color { r: 255, g: 255, b: 255, a: 255 }
    }

    /// An opaque colour from its red, green and blue bytes.
    pub fn from_rgb(r: u8, g: u8, b: u8) -> (c: Color)
        ensures
            c == opaque(r, g, b),
    {
        Color { r, g, b, a: 255 }
    }

    /// A colour from its four stored (premultiplied) bytes.
    pub fn from_rgba_premultiplied(r: u8, g: u8, b: u8, a: u8) -> (c: Color)
        ensures
            c == (Color { r, g, b, a }),
    {
        Color { r, g, b, a }
    }

    /// The red byte.
    pub fn r(&self) -> (v: u8)
        ensures
            v == self.r,
    {
        self.r
    }

    /// The green byte.
    pub fn g(&self) -> (v: u8)
        ensures
            v == self.g,
    {
        self.g
    }

    /// The blue byte.
    pub fn b(&self) -> (v: u8)
        ensures
            v == self.b,
    {
        self.b
    }

    /// The alpha byte.
    pub fn a(&self) -> (v: u8)
        ensures
            v == self.a,
    {
        self.a
    }

    /// The four bytes in the order red, green, blue, alpha.
    pub fn to_array(&self) -> (v: [u8; 4])
        ensures
            v@ == seq![self.r, self.g, self.b, self.a],
    {
        [self.r, self.g, self.b, self.a]
    }

    /// Whether this is the fully transparent colour.
    pub fn is_transparent(&self) -> (t: bool)
        ensures
            t == (*self == transparent()),
    {
        self.r == 0 && self.g == 0 && self.b == 0 && self.a == 0
    }
}

} // verus!
