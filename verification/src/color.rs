use vstd::prelude::*;

verus! {

/// An opaque RGB color, one byte per channel.
#[derive(Debug, Clone, Copy, PartialEq, Eq, Structural)]
pub struct Color {
    pub r: u8,
    pub g: u8,
    pub b: u8,
}

impl Color {
    /// The color with the given channels.
    pub fn new(r: u8, g: u8, b: u8) -> (c: Self)
        ensures
            c == (Color { r, g, b }),
    {
        Self { r, g, b }
    }

    pub fn black() -> (c: Self)
        ensures
            c == (Color { r: 0, g: 0, b: 0 }),
    {
        Self { r: 0, g: 0, b: 0 }
    }

    pub fn white() -> (c: Self)
        ensures
            c == (Color { r: 255, g: 255, b: 255 }),
    {
        Self { r: 255, g: 255, b: 255 }
    }

    pub fn red() -> (c: Self)
        ensures
            c == (Color { r: 255, g: 0, b: 0 }),
    {
        Self { r: 255, g: 0, b: 0 }
    }

    pub fn green() -> (c: Self)
        ensures
            c == (Color { r: 0, g: 255, b: 0 }),
    {
        Self { r: 0, g: 255, b: 0 }
    }

    pub fn blue() -> (c: Self)
        ensures
            c == (Color { r: 0, g: 0, b: 255 }),
    {
        Self { r: 0, g: 0, b: 255 }
    }

    pub fn yellow() -> (c: Self)
        ensures
            c == (Color { r: 255, g: 255, b: 0 }),
    {
        Self { r: 255, g: 255, b: 0 }
    }

    pub fn cyan() -> (c: Self)
        ensures
            c == (Color { r: 0, g: 255, b: 255 }),
    {
        Self { r: 0, g: 255, b: 255 }
    }

    pub fn magenta() -> (c: Self)
        ensures
            c == (Color { r: 255, g: 0, b: 255 }),
    {
        Self { r: 255, g: 0, b: 255 }
    }
}

} // verus!
