//! Indexed PNG streams.

use vstd::prelude::*;
use crate::error::WadError;

verus! {

/// How many entries the transparency table has: one for each palette
/// index but the last, which a reader takes as opaque.
pub const ALPHA_LEN: usize = 255;

/// The transparency table that makes `index` transparent: one alpha value
/// for each palette index below 255, zero at `index` and 255 elsewhere.
pub open spec fn alpha_table(index: u8) -> Seq<u8> {
    Seq::new(
        255,
        |i: int|
            if i == index {
                0u8
            } else {
                255u8
            },
    )
}

/// The table has 255 entries, the one at `index` is zero, and every other
/// one is 255. The last palette index has no entry, so it cannot be made
/// transparent.
pub proof fn lemma_alpha_table(index: u8)
    requires
        index < 255,
    ensures
        alpha_table(index).len() == 255,
        alpha_table(index)[index as int] == 0,
        forall|i: int| 0 <= i < 255 && i != index ==> alpha_table(index)[i] == 255,
        forall|i: int| 0 <= i < 255 && alpha_table(index)[i] == 0 ==> i == index,
{
}

/// Builds the transparency table that makes `index` transparent.
pub fn transparency_table(index: u8) -> (table: Vec<u8>)
    ensures
        table@ == alpha_table(index),
{
    let mut table: Vec<u8> = Vec::with_capacity(ALPHA_LEN);
    let mut i: usize = 0;
    while i < ALPHA_LEN
        invariant
            0 <= i <= 255,
            table@.len() == i,
            forall|k: int| 0 <= k < i ==> table@[k] == alpha_table(index)[k],
        decreases 255 - i,
    {
        if i == index as usize {
            table.push(0);
        } else {
            table.push(255);
        }
        i = i + 1;
    }
    table
}

/// `png::EncodingError`, the error of the PNG encoder. Nothing is known
/// of a value of it.
#[verifier::external_type_specification]
#[verifier::external_body]
pub struct ExEncodingError(png::EncodingError);

/// The PNG stream that the encoder writes for an indexed picture of eight
/// bits a pixel with the given palette and transparency table, or nothing
/// where it refuses the picture.
pub uninterp spec fn png_stream(
    width: u32,
    height: u32,
    palette: Seq<u8>,
    alpha: Seq<u8>,
    pixels: Seq<u8>,
) -> Option<Seq<u8>>;

/// `png::Encoder` writing into memory. The encoder is made with
/// `Encoder::new` for the given width and height, set to colour type
/// indexed and bit depth eight with `set_color` and `set_depth`, and given
/// `palette` and `alpha` with `set_palette` and `set_trns`; then
/// `write_header`, `Writer::write_image_data` with `pixels`, and
/// `Writer::finish`. Nothing is claimed of the stream but that the same
/// picture gives the same one, and nothing of when the encoder refuses.
/// It is asked only for buffers of `width * height` bytes, so that its own
/// count of the bytes stays within `usize`.
#[verifier::external_body]
fn png_encode(width: u32, height: u32, palette: &[u8], alpha: &[u8], pixels: &[u8]) -> (r: Result<
    Vec<u8>,
    png::EncodingError,
>)
    requires
        pixels@.len() == width * height,
    ensures
        match r {
            Ok(stream) => png_stream(width, height, palette@, alpha@, pixels@) == Some(stream@),
            Err(_) => png_stream(width, height, palette@, alpha@, pixels@) is None,
        },
{
    let mut stream: Vec<u8> = Vec::new();
    let mut encoder = png::Encoder::new(&mut stream, width, height);
    encoder.set_color(png::ColorType::Indexed);
    encoder.set_depth(png::BitDepth::Eight);
    encoder.set_palette(palette.to_vec());
    encoder.set_trns(alpha.to_vec());
    let mut writer = encoder.write_header()?;
    writer.write_image_data(pixels)?;
    writer.finish()?;
    Ok(stream)
}

/// What the emitter returns for what the encoder returned: the stream, or
/// `WadError::Encode`.
pub fn encode_outcome(encoded: Result<Vec<u8>, png::EncodingError>) -> (r: Result<Vec<u8>, WadError>)
    ensures
        match encoded {
            Ok(stream) => r == Ok::<Vec<u8>, WadError>(stream),
            Err(_) => r == Err::<Vec<u8>, WadError>(WadError::Encode),
        },
{
    match encoded {
        Ok(stream) => Ok(stream),
        Err(_) => Err(WadError::Encode),
    }
}

/// The picture is one that a PNG stream can hold: it has a pixel, a
/// palette of 256 colours, and one palette index for each pixel.
pub open spec fn can_encode(width: u32, height: u32, palette: Seq<u8>, pixels: Seq<u8>) -> bool {
    width > 0 && height > 0 && palette.len() == 768 && pixels.len() == width * height
}

/// Encodes a picture as an indexed PNG stream of eight bits a pixel, not
/// interlaced, in which the palette index `transparent` is transparent and
/// every other one opaque.
pub fn encode_png(
    width: u32,
    height: u32,
    palette: &[u8],
    transparent: u8,
    pixels: &[u8],
) -> (r: Result<Vec<u8>, WadError>)
    ensures
        match r {
            Ok(stream) => can_encode(width, height, palette@, pixels@) && png_stream(
                width,
                height,
                palette@,
                alpha_table(transparent),
                pixels@,
            ) == Some(stream@),
            Err(e) => e == WadError::Encode && (!can_encode(width, height, palette@, pixels@)
                || png_stream(width, height, palette@, alpha_table(transparent), pixels@)
                is None),
        },
{
    assert((width as u64) * (height as u64) <= 0xffff_ffff * 0xffff_ffff) by (nonlinear_arith);
    if width == 0 || height == 0 || palette.len() != 768 || pixels.len() as u64 != (width as u64)
        * (height as u64) {
        return Err(WadError::Encode);
    }
    let alpha: Vec<u8> = transparency_table(transparent);
    encode_outcome(png_encode(width, height, palette, alpha.as_slice(), pixels))
}

} // verus!
