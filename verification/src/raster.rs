//! Plain raster buffers: row-major pixel planes with their dimensions.

use vstd::prelude::*;

verus! {

/// One 8-bit RGB color.
#[derive(Clone, Copy, PartialEq, Eq, Structural, Debug)]
pub struct Rgb {
    pub r: u8,
    pub g: u8,
    pub b: u8,
}

/// A grayscale raster: one luma byte per pixel, row-major.
pub struct GrayImage {
    pub width: u32,
    pub height: u32,
    pub data: Vec<u8>,
}

impl GrayImage {
    /// The buffer holds exactly one byte per pixel.
    pub open spec fn wf(&self) -> bool {
        self.data.len() == self.width as int * self.height as int
    }

    /// Wraps a raw luma buffer, refusing one whose length does not match the
    /// dimensions.
    pub fn from_raw(width: u32, height: u32, data: Vec<u8>) -> (r: Option<GrayImage>)
        ensures
            match r {
                Some(img) => img.wf() && img.width == width && img.height == height
                    && img.data@ == data@,
                None => data.len() != width as int * height as int,
            },
    {
        proof {
            assert(width as int * height as int <= u64::MAX) by (nonlinear_arith);
        }
        let pixels: u64 = width as u64 * height as u64;
        if data.len() as u64 == pixels && pixels <= usize::MAX as u64 {
            Some(GrayImage { width, height, data })
        } else {
            None
        }
    }
}

/// An RGB raster: three bytes per pixel, row-major.
pub struct RgbImage {
    pub width: u32,
    pub height: u32,
    pub data: Vec<u8>,
}

impl RgbImage {
    /// The buffer holds exactly three bytes per pixel.
    pub open spec fn wf(&self) -> bool {
        self.data.len() == 3 * (self.width as int * self.height as int)
    }

    /// The color stored for the pixel with row-major index `p`.
    pub open spec fn pixel(&self, p: int) -> Rgb {
        Rgb { r: self.data[3 * p], g: self.data[3 * p + 1], b: self.data[3 * p + 2] }
    }

    /// The color stored for pixel (x, y).
    pub open spec fn pixel_at(&self, x: int, y: int) -> Rgb {
        self.pixel(y * self.width as int + x)
    }

    /// Wraps a raw RGB buffer, refusing one whose length does not match the
    /// dimensions.
    pub fn from_raw(width: u32, height: u32, data: Vec<u8>) -> (r: Option<RgbImage>)
        ensures
            match r {
                Some(img) => img.wf() && img.width == width && img.height == height
                    && img.data@ == data@,
                None => data.len() != 3 * (width as int * height as int),
            },
    {
        proof {
            assert(width as int * height as int <= u64::MAX) by (nonlinear_arith);
        }
        let pixels: u64 = width as u64 * height as u64;
        if pixels <= u64::MAX / 3 && data.len() as u64 == 3 * pixels && 3 * pixels
            <= usize::MAX as u64 {
            Some(RgbImage { width, height, data })
        } else {
            None
        }
    }

    /// Reads the color of pixel (x, y).
    pub fn get_pixel(&self, x: u32, y: u32) -> (c: Rgb)
        requires
            self.wf(),
            x < self.width,
            y < self.height,
        ensures
            c == self.pixel_at(x as int, y as int),
    {
        proof {
            lemma_pixel_index_in_range(
                self.width as int,
                self.height as int,
                x as int,
                y as int,
            );
        }
        let p: u64 = y as u64 * self.width as u64 + x as u64;
        let base: usize = (3 * p) as usize;
        Rgb { r: self.data[base], g: self.data[base + 1], b: self.data[base + 2] }
    }
}

/// A pixel index computed from in-bounds coordinates stays below the pixel
/// count.
proof fn lemma_pixel_index_in_range(w: int, h: int, x: int, y: int)
    by (nonlinear_arith)
    requires
        0 <= x < w,
        0 <= y < h,
    ensures
        0 <= y * w + x < w * h,
{
}

/// An RGBA raster: four bytes per pixel, row-major.
pub struct RgbaImage {
    pub width: u32,
    pub height: u32,
    pub data: Vec<u8>,
}

impl RgbaImage {
    /// The buffer holds exactly four bytes per pixel.
    pub open spec fn wf(&self) -> bool {
        self.data.len() == 4 * (self.width as int * self.height as int)
    }
}

} // verus!
