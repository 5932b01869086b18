//! Plain RGB colors. A color is only a rendering hint carried by
//! entities and log messages; the core never branches on it.

use vstd::prelude::*;

verus! {

/// An RGB color triple.
#[derive(Clone, Copy, Debug, PartialEq, Eq, Structural)]
pub struct Color {
    pub r: u8,
    pub g: u8,
    pub b: u8,
}

pub fn white() -> (c: Color)
    ensures
        c == (Color { r: 255, g: 255, b: 255 }),
{
    Color { r: 255, g: 255, b: 255 }
}

pub fn red() -> (c: Color)
    ensures
        c == (Color { r: 255, g: 0, b: 0 }),
{
    Color { r: 255, g: 0, b: 0 }
}

pub fn dark_red() -> (c: Color)
    ensures
        c == (Color { r: 191, g: 0, b: 0 }),
{
    Color { r: 191, g: 0, b: 0 }
}

pub fn orange() -> (c: Color)
    ensures
        c == (Color { r: 255, g: 127, b: 0 }),
{
    Color { r: 255, g: 127, b: 0 }
}

pub fn yellow() -> (c: Color)
    ensures
        c == (Color { r: 255, g: 255, b: 0 }),
{
    Color { r: 255, g: 255, b: 0 }
}

pub fn light_yellow() -> (c: Color)
    ensures
        c == (Color { r: 255, g: 255, b: 114 }),
{
    Color { r: 255, g: 255, b: 114 }
}

pub fn green() -> (c: Color)
    ensures
        c == (Color { r: 0, g: 255, b: 0 }),
{
    Color { r: 0, g: 255, b: 0 }
}

pub fn light_green() -> (c: Color)
    ensures
        c == (Color { r: 114, g: 255, b: 114 }),
{
    Color { r: 114, g: 255, b: 114 }
}

pub fn desaturated_green() -> (c: Color)
    ensures
        c == (Color { r: 63, g: 127, b: 63 }),
{
    Color { r: 63, g: 127, b: 63 }
}

pub fn darker_green() -> (c: Color)
    ensures
        c == (Color { r: 0, g: 127, b: 0 }),
{
    Color { r: 0, g: 127, b: 0 }
}

pub fn violet() -> (c: Color)
    ensures
        c == (Color { r: 127, g: 0, b: 255 }),
{
    Color { r: 127, g: 0, b: 255 }
}

pub fn light_violet() -> (c: Color)
    ensures
        c == (Color { r: 184, g: 114, b: 255 }),
{
    Color { r: 184, g: 114, b: 255 }
}

pub fn sky() -> (c: Color)
    ensures
        c == (Color { r: 0, g: 191, b: 255 }),
{
    Color { r: 0, g: 191, b: 255 }
}

pub fn light_blue() -> (c: Color)
    ensures
        c == (Color { r: 114, g: 159, b: 255 }),
{
    Color { r: 114, g: 159, b: 255 }
}

pub fn light_cyan() -> (c: Color)
    ensures
        c == (Color { r: 114, g: 255, b: 255 }),
{
    Color { r: 114, g: 255, b: 255 }
}

} // verus!
