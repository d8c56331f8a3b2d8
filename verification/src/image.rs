//! Decoded pictures: a width, a height, and one palette index for each
//! pixel, row after row.

use vstd::prelude::*;
use vstd::arithmetic::div_mod::{lemma_fundamental_div_mod, lemma_fundamental_div_mod_converse};
use vstd::arithmetic::mul::lemma_mul_is_commutative;

verus! {

/// Where the pixel of column `x` and row `y` stands in a buffer of rows of
/// `width` pixels.
pub open spec fn pixel_index(x: int, y: int, width: int) -> int {
    x + y * width
}

/// A picture as plain values.
pub struct Image {
    pub width: int,
    pub height: int,
    pub pixels: Seq<u8>,
}

impl Image {
    /// The buffer holds one index for each pixel.
    pub open spec fn wf(self) -> bool {
        0 <= self.width && 0 <= self.height && self.pixels.len() == self.width * self.height
    }

    /// The palette index of the pixel at column `x`, row `y`.
    pub open spec fn at(self, x: int, y: int) -> u8 {
        self.pixels[pixel_index(x, y, self.width)]
    }
}

/// A pixel inside the picture stands inside the buffer.
pub proof fn lemma_pixel_index_in_range(x: int, y: int, width: int, height: int)
    requires
        0 <= x < width,
        0 <= y < height,
    ensures
        0 <= pixel_index(x, y, width) < width * height,
{
    assert(0 <= y * width && (y + 1) * width <= height * width) by (nonlinear_arith)
        requires
            0 <= y < height,
            0 <= width,
    ;
    assert((y + 1) * width == y * width + width) by (nonlinear_arith);
    assert(height * width == width * height) by (nonlinear_arith);
}

/// Two pixels that stand at one place of the buffer are one pixel.
pub proof fn lemma_pixel_index_injective(x1: int, y1: int, x2: int, y2: int, width: int)
    requires
        0 <= x1 < width,
        0 <= x2 < width,
        pixel_index(x1, y1, width) == pixel_index(x2, y2, width),
    ensures
        x1 == x2,
        y1 == y2,
{
    assert(y1 == y2) by (nonlinear_arith)
        requires
            0 <= x1 < width,
            0 <= x2 < width,
            x1 + y1 * width == x2 + y2 * width,
    ;
}

/// Each place of the buffer holds the pixel of column `i % width`, row
/// `i / width`.
pub proof fn lemma_pixel_index_onto(i: int, width: int, height: int)
    requires
        0 <= i < width * height,
        0 <= height,
    ensures
        0 <= i % width < width,
        0 <= i / width < height,
        pixel_index(i % width, i / width, width) == i,
{
    assert(width > 0) by (nonlinear_arith)
        requires
            0 <= i < width * height,
            0 <= height,
    ;
    lemma_fundamental_div_mod(i, width);
    lemma_mul_is_commutative(width, i / width);
    let q = i / width;
    let r = i % width;
    assert(0 <= q < height) by (nonlinear_arith)
        requires
            i == q * width + r,
            0 <= r < width,
            0 <= i < width * height,
    ;
}

/// The place of a pixel in the buffer gives back its column and its row.
pub proof fn lemma_pixel_index_column_row(x: int, y: int, width: int)
    requires
        0 <= x < width,
    ensures
        pixel_index(x, y, width) % width == x,
        pixel_index(x, y, width) / width == y,
{
    lemma_fundamental_div_mod_converse(pixel_index(x, y, width), width, y, x);
}

/// A decoded picture. The buffer always holds `width * height` indices.
#[derive(Debug)]
pub struct DecodedImage {
    width: u32,
    height: u32,
    pixels: Vec<u8>,
}

impl View for DecodedImage {
    type V = Image;

    closed spec fn view(&self) -> Image {
        Image { width: self.width as int, height: self.height as int, pixels: self.pixels@ }
    }
}

impl Clone for DecodedImage {
    fn clone(&self) -> (copy: DecodedImage)
        ensures
            copy@ == self@,
    {
        proof {
            use_type_invariant(self);
        }
        let pixels: Vec<u8> = self.pixels.clone();
        DecodedImage { width: self.width, height: self.height, pixels }
    }
}

impl DecodedImage {
    #[verifier::type_invariant]
    spec fn filled(&self) -> bool {
        self.pixels@.len() == self.width * self.height
    }

    /// A picture of the given buffer, where it holds `width * height`
    /// indices.
    pub fn new(width: u32, height: u32, pixels: Vec<u8>) -> (r: Option<DecodedImage>)
        ensures
            pixels@.len() == width * height ==> r is Some && r->Some_0@ == (Image {
                width: width as int,
                height: height as int,
                pixels: pixels@,
            }),
            pixels@.len() != width * height ==> r is None,
    {
        assert((width as u64) * (height as u64) <= 0xffff_ffff * 0xffff_ffff) by (nonlinear_arith);
        if pixels.len() as u64 == (width as u64) * (height as u64) {
            Some(DecodedImage { width, height, pixels })
        } else {
            None
        }
    }

    /// A picture of a buffer that is known to hold `width * height`
    /// indices.
    pub(crate) fn assemble(width: u32, height: u32, pixels: Vec<u8>) -> (r: DecodedImage)
        requires
            pixels@.len() == width * height,
        ensures
            r@ == (Image { width: width as int, height: height as int, pixels: pixels@ }),
    {
        DecodedImage { width, height, pixels }
    }

    /// The number of columns.
    pub fn width(&self) -> (w: u32)
        ensures
            w == self@.width,
            self@.wf(),
    {
        proof {
            use_type_invariant(self);
        }
        self.width
    }

    /// The number of rows.
    pub fn height(&self) -> (h: u32)
        ensures
            h == self@.height,
            self@.wf(),
    {
        proof {
            use_type_invariant(self);
        }
        self.height
    }

    /// The palette indices, row after row.
    pub fn pixels(&self) -> (p: &[u8])
        ensures
            p@ == self@.pixels,
            self@.wf(),
    {
        proof {
            use_type_invariant(self);
        }
        self.pixels.as_slice()
    }

    /// The palette index at column `x`, row `y`; nothing outside the
    /// picture.
    pub fn pixel(&self, x: u32, y: u32) -> (r: Option<u8>)
        ensures
            x < self@.width && y < self@.height ==> r == Some(self@.at(x as int, y as int)),
            !(x < self@.width && y < self@.height) ==> r is None,
    {
        proof {
            use_type_invariant(self);
        }
        if x < self.width && y < self.height {
            proof {
                lemma_pixel_index_in_range(
                    x as int,
                    y as int,
                    self.width as int,
                    self.height as int,
                );
                assert(0 <= y * self.width) by (nonlinear_arith);
                assert(self.pixels.len() <= usize::MAX);
            }
            let row: usize = (y as usize) * (self.width as usize);
            Some(self.pixels[x as usize + row])
        } else {
            None
        }
    }
}

} // verus!
