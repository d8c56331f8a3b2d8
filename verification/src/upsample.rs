//! Scaling a picture to square pixels.
//!
//! The pictures were drawn for a screen of 320 by 200 pixels shown at four
//! to three, so a pixel is taller than it is wide. Repeating each pixel in
//! a block five wide and six high gives the same shape with square pixels.

use vstd::prelude::*;
use crate::error::WadError;
use crate::image::{
    lemma_pixel_index_column_row, lemma_pixel_index_in_range, pixel_index, DecodedImage, Image,
};

verus! {

/// How many columns each pixel is repeated over.
pub const SCALE_X: u32 = 5;

/// How many rows each pixel is repeated over.
pub const SCALE_Y: u32 = 6;

/// `source` with each pixel repeated in a block five wide and six high.
pub open spec fn scaled(source: Image) -> Image {
    let width = 5 * source.width;
    let height = 6 * source.height;
    Image {
        width,
        height,
        pixels: Seq::new(
            (width * height) as nat,
            |i: int| source.at((i % width) / 5, (i / width) / 6),
        ),
    }
}

/// The width and the height of `scaled(source)` fit the 32 bits that a
/// picture has for each, and its pixels can be counted on this machine.
pub open spec fn can_scale(source: Image) -> bool {
    &&& 5 * source.width <= u32::MAX
    &&& 6 * source.height <= u32::MAX
    &&& 30 * (source.width * source.height) <= usize::MAX
}

/// The pixel at column `x`, row `y` fills the block of the scaled picture
/// that begins at column `5 * x`, row `6 * y`.
pub proof fn lemma_scaled_block(source: Image, x: int, y: int, dx: int, dy: int)
    requires
        source.wf(),
        0 <= x < source.width,
        0 <= y < source.height,
        0 <= dx < 5,
        0 <= dy < 6,
    ensures
        scaled(source).wf(),
        0 <= pixel_index(5 * x + dx, 6 * y + dy, 5 * source.width) < scaled(source).pixels.len(),
        scaled(source).at(5 * x + dx, 6 * y + dy) == source.at(x, y),
{
    let width = 5 * source.width;
    let height = 6 * source.height;
    assert(0 <= width * height) by (nonlinear_arith)
        requires
            0 <= width,
            0 <= height,
    ;
    lemma_pixel_index_in_range(5 * x + dx, 6 * y + dy, width, height);
    lemma_pixel_index_column_row(5 * x + dx, 6 * y + dy, width);
}

/// Scales `image` by five across and six down, each pixel repeated with no
/// blending. The picture is refused where the scaled one would be too
/// large to hold.
pub fn upsample(image: &DecodedImage) -> (r: Result<DecodedImage, WadError>)
    ensures
        match r {
            Ok(big) => can_scale(image@) && big@ == scaled(image@),
            Err(e) => !can_scale(image@) && e == WadError::TooLarge,
        },
{
    let width: u32 = image.width();
    let height: u32 = image.height();
    let source: &[u8] = image.pixels();
    if width > u32::MAX / SCALE_X || height > u32::MAX / SCALE_Y {
        return Err(WadError::TooLarge);
    }
    let total: usize = match source.len().checked_mul(30) {
        Some(n) => n,
        None => {
            return Err(WadError::TooLarge);
        },
    };
    let big_width: u32 = SCALE_X * width;
    let big_height: u32 = SCALE_Y * height;
    let ghost target = scaled(image@);
    assert(big_width * big_height == 30 * (width * height)) by (nonlinear_arith)
        requires
            big_width == 5 * width,
            big_height == 6 * height,
    ;
    let mut pixels: Vec<u8> = Vec::with_capacity(total);
    let mut y: u32 = 0;
    while y < big_height
        invariant
            0 <= y <= big_height,
            big_width == 5 * width,
            big_height == 6 * height,
            image@.wf(),
            image@.width == width,
            image@.height == height,
            source@ == image@.pixels,
            source@.len() <= usize::MAX,
            target == scaled(image@),
            pixels@.len() == y * big_width,
            forall|i: int| 0 <= i < pixels@.len() ==> pixels@[i] == target.pixels[i],
        decreases big_height - y,
    {
        let from_row: u32 = y / SCALE_Y;
        let mut x: u32 = 0;
        while x < big_width
            invariant
                0 <= x <= big_width,
                0 <= y < big_height,
                from_row == y / 6,
                big_width == 5 * width,
                big_height == 6 * height,
                image@.wf(),
                image@.width == width,
                image@.height == height,
                source@ == image@.pixels,
                source@.len() <= usize::MAX,
                target == scaled(image@),
                pixels@.len() == y * big_width + x,
                forall|i: int| 0 <= i < pixels@.len() ==> pixels@[i] == target.pixels[i],
            decreases big_width - x,
        {
            let from_column: u32 = x / SCALE_X;
            proof {
                lemma_pixel_index_in_range(
                    from_column as int,
                    from_row as int,
                    width as int,
                    height as int,
                );
                assert(0 <= from_row * width) by (nonlinear_arith);
                lemma_pixel_index_in_range(
                    x as int,
                    y as int,
                    big_width as int,
                    big_height as int,
                );
                lemma_pixel_index_column_row(x as int, y as int, big_width as int);
            }
            let row: usize = (from_row as usize) * (width as usize);
            pixels.push(source[from_column as usize + row]);
            x = x + 1;
        }
        assert(y * big_width + big_width == (y + 1) * big_width) by (nonlinear_arith);
        y = y + 1;
    }
    assert(big_height * big_width == big_width * big_height) by (nonlinear_arith);
    assert(pixels@ =~= target.pixels);
    Ok(DecodedImage::assemble(big_width, big_height, pixels))
}

} // verus!
