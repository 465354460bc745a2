//! Small drawing primitives the boot console hands around.

use vstd::prelude::*;

verus! {

/// A point on the screen.
#[derive(Clone, Copy, PartialEq, Eq, Structural, Debug)]
pub struct Location {
    pub x: isize,
    pub y: isize,
}

impl Location {
    /// The point as a coordinate pair.
    pub fn tuple(&self) -> (r: (isize, isize))
        ensures
            r.0 == self.x,
            r.1 == self.y,
    {
        (self.x, self.y)
    }
}

/// A width and height in pixels.
#[derive(Clone, Copy, PartialEq, Eq, Structural, Debug)]
pub struct Size {
    pub width: usize,
    pub height: usize,
}

impl Size {
    /// The size as a pair.
    pub fn tuple(&self) -> (r: (usize, usize))
        ensures
            r.0 == self.width,
            r.1 == self.height,
    {
        (self.width, self.height)
    }
}

/// A plain red-green-blue colour.
#[derive(Clone, Copy, PartialEq, Eq, Structural, Debug)]
pub struct Color {
    pub red: u8,
    pub green: u8,
    pub blue: u8,
}

impl Color {
    /// A colour from its three channels.
    pub fn new(red: u8, green: u8, blue: u8) -> (c: Color)
        ensures
            c.red == red,
            c.green == green,
            c.blue == blue,
    {
        Color { red, green, blue }
    }
}

/// How the frame buffer lays its channels out.
#[derive(Clone, Copy, PartialEq, Eq, Structural, Debug)]
pub enum PixelFormat {
    Rgb,
    Bgr,
    Bitmask,
    BltOnly,
}

/// A colour formatted for one frame-buffer pixel.
#[derive(Clone, Copy, PartialEq, Eq, Debug)]
pub struct Pixel {
    pub inner: [u8; 4],
}

impl Pixel {
    /// Formats a colour for the given pixel layout.  Only the two
    /// channel orders are supported; the other layouts carry no
    /// per-channel bytes to fill.
    pub fn new(c: Color, fmt: PixelFormat) -> (p: Pixel)
        requires
            fmt == PixelFormat::Rgb || fmt == PixelFormat::Bgr,
        ensures
            fmt == PixelFormat::Rgb ==> p.inner@ =~= seq![c.red, c.green, c.blue, 0u8],
            fmt == PixelFormat::Bgr ==> p.inner@ =~= seq![c.blue, c.green, c.red, 0u8],
    {
        match fmt {
            PixelFormat::Rgb => {
                let p = Pixel { inner: [c.red, c.green, c.blue, 0] };
                proof {
                    assert(p.inner@ =~= seq![c.red, c.green, c.blue, 0u8]);
                }
                p
            },
            PixelFormat::Bgr => {
                let p = Pixel { inner: [c.blue, c.green, c.red, 0] };
                proof {
                    assert(p.inner@ =~= seq![c.blue, c.green, c.red, 0u8]);
                }
                p
            },
            _ => {
                proof {
                    assert(false);
                }
                Pixel { inner: [0, 0, 0, 0] }
            },
        }
    }
}

} // verus!
