use vstd::prelude::*;

verus! {

/// An 8-bit RGB color.
#[derive(Debug, Clone, Copy, PartialEq, Eq)]
pub struct Color {
    pub r: u8,
    pub g: u8,
    pub b: u8,
}

impl Color {
    /// The color with the given channels.
    pub fn new(r: u8, g: u8, b: u8) -> (c: Self)
        ensures
            c.r == r,
            c.g == g,
            c.b == b,
    {
        Color { r, g, b }
    }

    /// Pure white (255, 255, 255).
    pub fn white() -> (c: Self)
        ensures
            c.r == 255 && c.g == 255 && c.b == 255,
    {
        Color { r: 255, g: 255, b: 255 }
    }

    /// Mid gray (128, 128, 128).
    pub fn gray() -> (c: Self)
        ensures
            c.r == 128 && c.g == 128 && c.b == 128,
    {
        Color { r: 128, g: 128, b: 128 }
    }
}

/// A triangle given by three vertex indices.
#[derive(Debug, Clone, Copy, PartialEq, Eq)]
pub struct TriangleFace {
    pub indices: [usize; 3],
}

impl TriangleFace {
    /// The triangle (i0, i1, i2), in that order.
    pub fn new(i0: usize, i1: usize, i2: usize) -> (f: Self)
        ensures
            f.indices@ == seq![i0, i1, i2],
    {
        TriangleFace { indices: [i0, i1, i2] }
    }
}

} // verus!
