//! Immutable single-channel rasters and nearest-neighbour resizing.

use vstd::prelude::*;
use crate::DetectError;

verus! {

/// Largest accepted width or height of an image. Keeps every index and
/// windowed sum comfortably inside `u64` arithmetic.
pub const MAX_IMAGE_DIM: usize = 65536;

/// Mathematical value of an [`Image`]: its dimensions and its pixel grid,
/// row-major.
pub struct ImageView {
    pub width: nat,
    pub height: nat,
    pub data: Seq<u8>,
}

impl ImageView {
    /// The pixel grid holds exactly `width * height` samples and the
    /// dimensions are within the supported range.
    pub open spec fn wf(self) -> bool {
        &&& self.data.len() == self.width * self.height
        &&& self.width <= MAX_IMAGE_DIM
        &&& self.height <= MAX_IMAGE_DIM
    }

    /// Intensity of the pixel in column `x`, row `y`.
    pub open spec fn at(self, x: int, y: int) -> u8 {
        self.data[y * self.width + x]
    }
}

/// An immutable single-channel raster: `pixels[y * width + x]` is the
/// intensity of the pixel in column `x`, row `y`.
#[derive(Clone, Debug)]
pub struct Image {
    pub width: usize,
    pub height: usize,
    pub pixels: Vec<u8>,
}

impl View for Image {
    type V = ImageView;

    open spec fn view(&self) -> ImageView {
        ImageView { width: self.width as nat, height: self.height as nat, data: self.pixels@ }
    }
}

impl Image {
    /// Builds an image from a row-major pixel buffer, rejecting a buffer
    /// that does not hold exactly `width * height` samples and dimensions
    /// beyond the supported range.
    pub fn new(width: usize, height: usize, pixels: Vec<u8>) -> (r: Result<Image, DetectError>)
        ensures
            r is Ok <==> (pixels@.len() == width * height && width <= MAX_IMAGE_DIM
                && height <= MAX_IMAGE_DIM),
            r matches Ok(img) ==> img@ == (ImageView {
                width: width as nat,
                height: height as nat,
                data: pixels@,
            }) && img@.wf(),
            r is Err ==> r == Result::<Image, DetectError>::Err(DetectError::BadDimensions),
    {
        if width > MAX_IMAGE_DIM || height > MAX_IMAGE_DIM {
            return Err(DetectError::BadDimensions);
        }
        proof {
            assert((width as u64) * (height as u64) <= 0x1_0000_0000) by (nonlinear_arith)
                requires
                    width <= 65536,
                    height <= 65536,
            ;
        }
        let area: u64 = (width as u64) * (height as u64);
        if (pixels.len() as u64) != area {
            return Err(DetectError::BadDimensions);
        }
        Ok(Image { width, height, pixels })
    }

    /// Reads the pixel in column `x`, row `y`.
    pub fn at(&self, x: usize, y: usize) -> (r: u8)
        requires
            self@.wf(),
            x < self@.width,
            y < self@.height,
        ensures
            r == self@.at(x as int, y as int),
    {
        proof {
            lemma_image_index(self@, x as int, y as int);
        }
        self.pixels[y * self.width + x]
    }
}

/// A row-major index formed from in-range coordinates stays inside a
/// `w`-by-`h` grid, and recovers its coordinates by division and
/// remainder.
pub proof fn lemma_grid_index(w: int, h: int, x: int, y: int)
    requires
        0 <= x < w,
        0 <= y < h,
        w <= MAX_IMAGE_DIM,
        h <= MAX_IMAGE_DIM,
    ensures
        0 <= y * w + x < w * h,
        w * h <= 0x1_0000_0000,
        (y * w + x) % w == x,
        (y * w + x) / w == y,
{
    assert(y * w + x < w * h && y * w + x >= 0 && w * h <= 0x1_0000_0000) by (nonlinear_arith)
        requires
            0 <= x < w,
            0 <= y < h,
            w <= 65536,
            h <= 65536,
    ;
    vstd::arithmetic::div_mod::lemma_fundamental_div_mod_converse(y * w + x, w, y, x);
}

/// A row-major index formed from in-range coordinates stays inside the
/// pixel grid, and recovers its coordinates by division and remainder.
pub proof fn lemma_image_index(v: ImageView, x: int, y: int)
    requires
        v.wf(),
        0 <= x < v.width,
        0 <= y < v.height,
    ensures
        0 <= y * v.width + x < v.data.len(),
        v.width * v.height <= 0x1_0000_0000,
        (y * v.width + x) % (v.width as int) == x,
        (y * v.width + x) / (v.width as int) == y,
{
    lemma_grid_index(v.width as int, v.height as int, x, y);
}

/// The nearest-neighbour rescale of `v` to `nw` by `nh`: the output pixel
/// at `(x, y)` samples the source pixel at `(x * width / nw, y * height / nh)`,
/// fractional coordinates truncating.
pub open spec fn spec_resize(v: ImageView, nw: nat, nh: nat) -> ImageView {
    ImageView {
        width: nw,
        height: nh,
        data: Seq::new(
            nw * nh,
            |i: int|
                v.at(
                    ((i % (nw as int)) * v.width) / (nw as int),
                    ((i / (nw as int)) * v.height) / (nh as int),
                ),
        ),
    }
}

impl Image {
    /// Resizes by nearest-neighbour sampling: the output pixel at
    /// `(x, y)` is the source pixel at `(x * width / nw, y * height / nh)`.
    pub fn resize_nearest(&self, nw: usize, nh: usize) -> (r: Image)
        requires
            self@.wf(),
            self@.width >= 1,
            self@.height >= 1,
            1 <= nw <= MAX_IMAGE_DIM,
            1 <= nh <= MAX_IMAGE_DIM,
        ensures
            r@ == spec_resize(self@, nw as nat, nh as nat),
            r@.wf(),
            r@.width == nw,
            r@.height == nh,
    {
        let w = self.width;
        let h = self.height;
        let mut pixels: Vec<u8> = Vec::new();
        let mut y: usize = 0;
        while y < nh
            invariant
                self@.wf(),
                1 <= w == self@.width,
                1 <= h == self@.height,
                1 <= nw <= MAX_IMAGE_DIM,
                1 <= nh <= MAX_IMAGE_DIM,
                0 <= y <= nh,
                pixels@.len() == y * nw,
                forall|i: int|
                    0 <= i < pixels@.len() ==> pixels@[i] == spec_resize(
                        self@,
                        nw as nat,
                        nh as nat,
                    ).data[i],
            decreases nh - y,
        {
            let mut x: usize = 0;
            proof {
                assert(y * nw + nw <= nh * nw) by (nonlinear_arith)
                    requires
                        0 <= y < nh,
                ;
            }
            while x < nw
                invariant
                    self@.wf(),
                    1 <= w == self@.width,
                    1 <= h == self@.height,
                    1 <= nw <= MAX_IMAGE_DIM,
                    1 <= nh <= MAX_IMAGE_DIM,
                    0 <= y < nh,
                    0 <= x <= nw,
                    pixels@.len() == y * nw + x,
                    forall|i: int|
                        0 <= i < pixels@.len() ==> pixels@[i] == spec_resize(
                            self@,
                            nw as nat,
                            nh as nat,
                        ).data[i],
                decreases nw - x,
            {
                proof {
                    lemma_grid_index(nw as int, nh as int, x as int, y as int);
                    assert(x * w < nw * w && y * h < nh * h && nw * w <= 0x1_0000_0000 && nh * h
                        <= 0x1_0000_0000) by (nonlinear_arith)
                        requires
                            0 <= x < nw <= 65536,
                            0 <= y < nh <= 65536,
                            1 <= w <= 65536,
                            1 <= h <= 65536,
                    ;
                    vstd::arithmetic::div_mod::lemma_multiply_divide_lt(
                        (x * w) as int,
                        nw as int,
                        w as int,
                    );
                    vstd::arithmetic::div_mod::lemma_multiply_divide_lt(
                        (y * h) as int,
                        nh as int,
                        h as int,
                    );
                }
                let sx = (x * w) / nw;
                let sy = (y * h) / nh;
                let p = self.at(sx, sy);
                pixels.push(p);
                x = x + 1;
            }
            proof {
                assert((y + 1) * nw == y * nw + nw) by (nonlinear_arith);
            }
            y = y + 1;
        }
        let r = Image { width: nw, height: nh, pixels };
        proof {
            assert(nh * nw == nw * nh) by (nonlinear_arith);
            assert(r@.data =~= spec_resize(self@, nw as nat, nh as nat).data);
        }
        r
    }
}

} // verus!
