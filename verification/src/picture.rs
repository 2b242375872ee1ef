//! Pictures as files.

use crate::canvas::{rgb, rgb_bytes, RenderFrame};
use crate::error::{fails_as, BlitzError, ErrorModel, Result};
use crate::text::decimal;
use vstd::prelude::*;

verus! {

/// The file that `png::Encoder` makes of a picture of the given width and height
/// and of its red, green and blue bytes.
pub uninterp spec fn png_file(width: u32, height: u32, rgb: Seq<u8>) -> Seq<u8>;

/// What is wrong with a picture, if it cannot be a file.
pub open spec fn png_failure(width: u32, height: u32, len: int) -> Option<Seq<char>> {
    let expected = 3 * width * height;
    if width == 0 {
        Some("Zero width not allowed"@)
    } else if height == 0 {
        Some("Zero height not allowed"@)
    } else if len != expected {
        Some(
            "wrong data size, expected "@ + decimal(expected) + " got "@ + decimal(len),
        )
    } else {
        None
    }
}

/// The rows of a picture of this size, each with a byte before it, can be
/// counted twice over.
pub open spec fn png_fits(width: u32, height: u32) -> bool {
    2 * ((3 * width + 1) * height) <= usize::MAX
}

/// `png::Encoder` with `png::ColorType::Rgb` and `png::BitDepth::Eight`, writing
/// into memory. A picture without width or height is refused, and so are bytes
/// that are more or fewer than the picture has; the texts are those of
/// `png::EncodingError`. Any other picture becomes a file, which begins with the
/// signature of its kind and is otherwise named only.
#[verifier::external_body]
fn encode_png(width: u32, height: u32, rgb: &Vec<u8>) -> (file: std::result::Result<
    Vec<u8>,
    String,
>)
    requires
        png_fits(width, height),
    ensures
        file is Ok <==> png_failure(width, height, rgb@.len() as int) is None,
        file matches Ok(bytes) ==> bytes@ == png_file(width, height, rgb@) && bytes@.len() > 8
            && bytes@.take(8) == seq![137u8, 80, 78, 71, 13, 10, 26, 10],
        file matches Err(text) ==> Some(text@) == png_failure(width, height, rgb@.len() as int),
{
    let mut file = Vec::new();
    let mut encoder = png::Encoder::new(&mut file, width, height);
    encoder.set_color(png::ColorType::Rgb);
    encoder.set_depth(png::BitDepth::Eight);
    let mut writer = encoder.write_header().map_err(|error| error.to_string())?;
    writer.write_image_data(rgb).map_err(|error| error.to_string())?;
    drop(writer);
    Ok(file)
}

/// A file that was made, or the reason why it was not as an error.
pub fn accept_png(file: std::result::Result<Vec<u8>, String>) -> (result: Result<Vec<u8>>)
    ensures
        fails_as(
            result,
            match file {
                Ok(_) => None,
                Err(text) => Some(ErrorModel::Window(text@)),
            },
        ),
        result matches Ok(bytes) ==> file matches Ok(made) && bytes == made,
{
    match file {
        Ok(bytes) => Ok(bytes),
        Err(text) => Err(BlitzError::Window(text)),
    }
}

/// The file of a drawn picture.
pub fn png_bytes(frame: &RenderFrame) -> (result: Result<Vec<u8>>)
    requires
        frame.width <= u32::MAX,
        frame.height <= u32::MAX,
        png_fits(frame.width as u32, frame.height as u32),
    ensures
        fails_as(
            result,
            match png_failure(
                frame.width as u32,
                frame.height as u32,
                3 * frame.pixels@.len() as int,
            ) {
                None => None,
                Some(text) => Some(ErrorModel::Window(text)),
            },
        ),
        result matches Ok(bytes) ==> bytes@ == png_file(
            frame.width as u32,
            frame.height as u32,
            rgb(frame.pixels@),
        ) && bytes@.len() > 8 && bytes@.take(8) == seq![137u8, 80, 78, 71, 13, 10, 26, 10],
{
    let bytes = rgb_bytes(frame);
    proof {
        crate::canvas::lemma_rgb_len(frame.pixels@);
    }
    accept_png(encode_png(frame.width as u32, frame.height as u32, &bytes))
}

} // verus!
