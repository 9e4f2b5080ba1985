//! The raster image model: a flat, row-major grid of 8-bit RGB samples.

use vstd::prelude::*;

verus! {

/// One RGB sample.
#[derive(Clone, Copy, Debug, PartialEq, Eq, Structural)]
pub struct Rgb {
    pub r: u8,
    pub g: u8,
    pub b: u8,
}

/// A decoded image: `width * height` RGB pixels, row-major, three bytes
/// (red, green, blue) per pixel.
pub struct RasterImage {
    pub width: u32,
    pub height: u32,
    pub data: Vec<u8>,
}

impl RasterImage {
    /// The byte buffer holds exactly three bytes per pixel.
    pub open spec fn wf(self) -> bool {
        self.data@.len() == 3 * ((self.width as int) * (self.height as int))
    }

    /// Flat index of the first byte of pixel (x, y).
    pub open spec fn spec_index(self, x: int, y: int) -> int {
        3 * (y * (self.width as int) + x)
    }

    /// The pixel at (x, y), as an (r, g, b) triple.
    pub open spec fn spec_pixel(self, x: int, y: int) -> (u8, u8, u8) {
        (
            self.data@[self.spec_index(x, y)],
            self.data@[self.spec_index(x, y) + 1],
            self.data@[self.spec_index(x, y) + 2],
        )
    }

    /// The flat pixel index of (x, y) stays inside the byte buffer.
    pub proof fn lemma_index_in_bounds(self, x: int, y: int)
        requires
            self.wf(),
            0 <= x < self.width,
            0 <= y < self.height,
        ensures
            0 <= y * (self.width as int) + x < (self.width as int) * (self.height as int),
            0 <= self.spec_index(x, y),
            self.spec_index(x, y) + 2 < self.data@.len(),
    {
        let w = self.width as int;
        let h = self.height as int;
        assert(0 <= y * w + x < w * h) by (nonlinear_arith)
            requires
                0 <= x < w,
                0 <= y < h,
        ;
    }

    /// Reads the pixel at (x, y).
    pub fn get_pixel(&self, x: u32, y: u32) -> (p: (u8, u8, u8))
        requires
            self.wf(),
            x < self.width,
            y < self.height,
        ensures
            p == self.spec_pixel(x as int, y as int),
    {
        let n: usize = self.data.len();
        proof {
            self.lemma_index_in_bounds(x as int, y as int);
            assert(3 * ((y as int) * (self.width as int) + (x as int)) + 2 < n as int);
        }
        let idx: usize = 3 * ((y as usize) * (self.width as usize) + (x as usize));
        (self.data[idx], self.data[idx + 1], self.data[idx + 2])
    }

    /// Builds a width-by-height image with every pixel set to `color`.
    pub fn new_filled(width: u32, height: u32, color: Rgb) -> (img: RasterImage)
        requires
            3 * ((width as int) * (height as int)) <= usize::MAX,
        ensures
            img.wf(),
            img.width == width,
            img.height == height,
            forall|x: int, y: int|
                0 <= x < width && 0 <= y < height ==> img.spec_pixel(x, y) == (
                    color.r,
                    color.g,
                    color.b,
                ),
    {
        let total: usize = (width as usize) * (height as usize);
        let mut data: Vec<u8> = Vec::new();
        let mut i: usize = 0;
        while i < total
            invariant
                i <= total,
                total == (width as int) * (height as int),
                3 * total <= usize::MAX,
                data@.len() == 3 * i,
                forall|j: int|
                    0 <= j < i ==> #[trigger] data@[3 * j] == color.r && data@[3 * j + 1]
                        == color.g && data@[3 * j + 2] == color.b,
            decreases total - i,
        {
            let ghost prev = data@;
            data.push(color.r);
            data.push(color.g);
            data.push(color.b);
            proof {
                assert forall|j: int| 0 <= j < i + 1 implies #[trigger] data@[3 * j] == color.r
                    && data@[3 * j + 1] == color.g && data@[3 * j + 2] == color.b by {
                    if j < i {
                        assert(data@[3 * j] == prev[3 * j]);
                        assert(data@[3 * j + 1] == prev[3 * j + 1]);
                        assert(data@[3 * j + 2] == prev[3 * j + 2]);
                        assert(prev[3 * j] == color.r);
                    } else {
                        assert(data@[3 * j] == color.r);
                        assert(data@[3 * j + 1] == color.g);
                        assert(data@[3 * j + 2] == color.b);
                    }
                }
            }
            i = i + 1;
        }
        let img = RasterImage { width, height, data };
        proof {
            assert forall|x: int, y: int| 0 <= x < width && 0 <= y < height implies img.spec_pixel(
                x,
                y,
            ) == (color.r, color.g, color.b) by {
                img.lemma_index_in_bounds(x, y);
                let t = y * (width as int) + x;
                assert(data@[3 * t] == color.r && data@[3 * t + 1] == color.g && data@[3 * t + 2]
                    == color.b);
            }
        }
        img
    }
}

} // verus!
