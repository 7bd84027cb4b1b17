//! The pixel buffer: raw RGBA bytes with their dimensions.

use vstd::prelude::*;

verus! {

/// The largest pixel buffer, in bytes, that the engine accepts. Within this
/// bound the number of channel samples of an image fits in 32 bits and every
/// total squared error fits in 64 bits.
pub const MAX_BYTES: usize = 0xffff_ffff;

/// The mathematical content of a pixel buffer.
pub struct PixelGrid {
    pub width: nat,
    pub height: nat,
    pub bytes: Seq<u8>,
}

impl PixelGrid {
    /// A grid has at least one pixel, four bytes for each pixel, and no more
    /// than `MAX_BYTES` bytes.
    pub open spec fn wf(self) -> bool {
        &&& self.width >= 1
        &&& self.height >= 1
        &&& self.bytes.len() == self.width * self.height * 4
        &&& self.bytes.len() <= MAX_BYTES
    }

    /// Index of the first byte of pixel `(x, y)` in row-major order.
    pub open spec fn offset(self, x: int, y: int) -> int {
        (y * self.width + x) * 4
    }

    /// The bytes of `count` consecutive pixels of row `y`, starting at column `x`.
    pub open spec fn run(self, x: int, y: int, count: int) -> Seq<u8> {
        self.bytes.subrange(self.offset(x, y), self.offset(x, y) + 4 * count)
    }
}

/// An image as a read-only buffer of RGBA pixels.
pub struct ImageData {
    width: u32,
    height: u32,
    pixels: Vec<u8>,
}

impl View for ImageData {
    type V = PixelGrid;

    closed spec fn view(&self) -> PixelGrid {
        PixelGrid { width: self.width as nat, height: self.height as nat, bytes: self.pixels@ }
    }
}

impl ImageData {
    /// Validity of the buffer: that of its content.
    pub open spec fn wf(&self) -> bool {
        self@.wf()
    }

    /// Wraps decoded pixel data. The buffer is accepted exactly when it is a
    /// valid grid of the given dimensions.
    pub fn new(width: u32, height: u32, pixels: Vec<u8>) -> (image: Option<ImageData>)
        ensures
            match image {
                Some(img) => {
                    &&& img.wf()
                    &&& img@ == (PixelGrid {
                        width: width as nat,
                        height: height as nat,
                        bytes: pixels@,
                    })
                },
                None => !(PixelGrid {
                    width: width as nat,
                    height: height as nat,
                    bytes: pixels@,
                }).wf(),
            },
    {
        if width == 0 || height == 0 {
            return None;
        }
        assert(0 < width * height <= 0xffff_ffff * 0xffff_ffff) by (nonlinear_arith)
            requires
                0 < width <= 0xffff_ffff,
                0 < height <= 0xffff_ffff,
        ;
        let area: u64 = width as u64 * height as u64;
        if area > (MAX_BYTES as u64) / 4 {
            return None;
        }
        if pixels.len() as u64 != area * 4 {
            return None;
        }
        Some(ImageData { width, height, pixels })
    }

    pub fn width(&self) -> (w: u32)
        ensures
            w == self@.width,
    {
        self.width
    }

    pub fn height(&self) -> (h: u32)
        ensures
            h == self@.height,
    {
        self.height
    }

    /// The number of channel samples of the image: four for each pixel. A
    /// total squared error against this image is divided by it for the mean.
    pub fn squared_errors_divisor(&self) -> (divisor: u32)
        requires
            self.wf(),
        ensures
            divisor == self@.bytes.len(),
            divisor == self@.width * self@.height * 4,
    {
        self.pixels.len() as u32
    }

    /// The bytes of `count` consecutive pixels of row `y`, starting at column `x`.
    /// The run has to lie within the row.
    pub fn get_pixels(&self, x: u32, y: u32, count: usize) -> (run: &[u8])
        requires
            self.wf(),
            x + count <= self@.width,
            y < self@.height,
        ensures
            run@ == self@.run(x as int, y as int, count as int),
            run@.len() == 4 * count,
    {
        proof {
            lemma_run_in_bounds(self@, x as int, y as int, count as int);
        }
        let index: usize = (y as usize * self.width as usize + x as usize) * 4;
        vstd::slice::slice_subrange(self.pixels.as_slice(), index, index + 4 * count)
    }
}

/// Each dimension of a valid grid fits in 32 bits, four bytes per pixel
/// included.
pub proof fn lemma_dimensions_bounded(grid: PixelGrid)
    requires
        grid.wf(),
    ensures
        4 * grid.width <= MAX_BYTES,
        4 * grid.height <= MAX_BYTES,
{
    let w = grid.width as int;
    let h = grid.height as int;
    assert(w <= w * h && h <= w * h) by (nonlinear_arith)
        requires
            1 <= w,
            1 <= h,
    ;
}

/// A run that lies within a row of a valid grid lies within its bytes.
pub proof fn lemma_run_in_bounds(grid: PixelGrid, x: int, y: int, count: int)
    requires
        grid.wf(),
        0 <= x,
        0 <= count,
        x + count <= grid.width,
        0 <= y < grid.height,
    ensures
        0 <= y * grid.width,
        0 <= grid.offset(x, y),
        grid.offset(x, y) + 4 * count <= grid.bytes.len(),
        grid.run(x, y, count).len() == 4 * count,
{
    let w = grid.width as int;
    let h = grid.height as int;
    assert(0 <= y * w && y * w + w <= h * w) by (nonlinear_arith)
        requires
            0 <= y < h,
            0 <= w,
    ;
    assert(h * w * 4 == grid.bytes.len()) by (nonlinear_arith)
        requires
            grid.bytes.len() == w * h * 4,
    ;
}

} // verus!
