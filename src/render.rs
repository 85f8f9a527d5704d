use vstd::prelude::*;

verus! {

/// Byte layout of one pixel.
#[derive(Clone, Copy, Debug, PartialEq, Eq, Structural)]
pub enum PixelFormat {
    RGBA,
}

pub open spec fn spec_bytes_per_pixel(fmt: PixelFormat) -> nat {
    match fmt {
        PixelFormat::RGBA => 4,
    }
}

pub fn bytes_per_pixel(fmt: PixelFormat) -> (r: usize)
    ensures
        r == spec_bytes_per_pixel(fmt),
{
    match fmt {
        PixelFormat::RGBA => 4,
    }
}

pub const PIXEL_FORMAT: PixelFormat = PixelFormat::RGBA;

pub const BYTES_PER_PIXEL: usize = 4;

/// Color with four channels, each normalized to `0..=255`.
#[derive(Clone, Copy, Debug, PartialEq, Eq, Structural)]
pub struct Color {
    pub r: u8,
    pub g: u8,
    pub b: u8,
    pub a: u8,
}

impl Color {
    /// Color of a cell that holds no particle: fully transparent black.
    pub fn empty() -> (c: Self)
        ensures
            c == (Color { r: 0, g: 0, b: 0, a: 0 }),
    {
        Self { r: 0, g: 0, b: 0, a: 0 }
    }

    pub open spec fn spec_rgb(r: u8, g: u8, b: u8) -> Color {
        Color { r: r, g: g, b: b, a: 255 }
    }

    /// An opaque color.
    pub fn new_rgb(r: u8, g: u8, b: u8) -> (c: Self)
        ensures
            c == Self::spec_rgb(r, g, b),
    {
        Self::new_rgba(r, g, b, 255)
    }

    pub fn new_rgba(r: u8, g: u8, b: u8, a: u8) -> (c: Self)
        ensures
            c == (Color { r: r, g: g, b: b, a: a }),
    {
        Self { r: r, g: g, b: b, a: a }
    }

    pub open spec fn channels(&self) -> Seq<u8> {
        seq![self.r, self.g, self.b, self.a]
    }
}

/// A `width` x `height` image, `BYTES_PER_PIXEL` bytes per pixel, stored
/// row-fastest.
pub struct Pixels {
    pub data: Vec<u8>,
    pub width: usize,
    pub height: usize,
}

impl Pixels {
    /// Offset of the first byte of pixel `(x, y)`.
    pub fn ind(&self, x: usize, y: usize) -> (r: usize)
        requires
            x < self.width,
            y < self.height,
            BYTES_PER_PIXEL * (self.width * self.height) <= usize::MAX,
        ensures
            r == BYTES_PER_PIXEL * (y * self.width + x),
    {
        proof {
            let w = self.width as int;
            let h = self.height as int;
            assert(0 <= y * w + x < w * h) by (nonlinear_arith)
                requires
                    0 <= x < w,
                    0 <= y < h,
            ;
        }
        BYTES_PER_PIXEL * (y * self.width + x)
    }

    /// The pixel bytes in row-fastest order; pixel `i` is the
    /// `BYTES_PER_PIXEL` bytes starting at `i * BYTES_PER_PIXEL`.
    pub fn iter_row_col(&self) -> (r: &[u8])
        ensures
            r@ == self.data@,
    {
        self.data.as_slice()
    }

    /// The pixel bytes in row-fastest order, writable in place.
    pub fn iter_row_col_mut(&mut self) -> (r: &mut [u8])
        ensures
            r@ == old(self).data@,
            final(r)@ == final(self).data@,
            final(self).width == old(self).width,
            final(self).height == old(self).height,
    {
        self.data.as_mut_slice()
    }
}

/// Writes `color` into one pixel's bytes.
pub fn fill_pix(pix: &mut [u8], color: Color)
    requires
        old(pix)@.len() == BYTES_PER_PIXEL,
    ensures
        final(pix)@ == color.channels(),
{
    pix[0] = color.r;
    pix[1] = color.g;
    pix[2] = color.b;
    pix[3] = color.a;
    assert(pix@ =~= color.channels());
}

} // verus!
