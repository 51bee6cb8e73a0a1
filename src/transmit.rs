use vstd::prelude::*;
use crate::frame::{encode_frame, frame, FrameAction};
use crate::image::{decode_image, png_decoded, Image};
use crate::rotate::{remaining, Rot90, SizeMismatch};

verus! {

/// Why no transmission could be planned for an encoded image.
#[derive(Debug)]
pub enum LoadError {
    /// The file is not a valid png.
    Decode(png::DecodingError),
    /// The decoded buffer does not hold `width * height` samples.
    Size(SizeMismatch),
}

/// Every action that sends `img` to the display: its samples in rotated
/// order, framed. Fails when the buffer does not hold `width * height`
/// samples.
pub fn frame_image(img: Image) -> (r: Result<Vec<FrameAction>, SizeMismatch>)
    ensures
        r is Err <==> img.samples@.len() != img.width * img.height,
        r matches Ok(a) ==> a@ == frame(
            remaining(img.samples@, img.width as int, img.height as int, 0, 0),
        ),
        r matches Err(e) ==> e.len == img.samples@.len() && e.width == img.width && e.height
            == img.height,
{
    let view = Rot90::try_new(img.samples, (img.width, img.height));
    match view {
        Ok(v) => {
            let samples = v.into_samples();
            Ok(encode_frame(&samples))
        },
        Err(e) => Err(e),
    }
}

/// Decodes an encoded png file and plans its transmission.
pub fn plan_transmission(bytes: &[u8]) -> (r: Result<Vec<FrameAction>, LoadError>)
    ensures
        r matches Err(LoadError::Decode(_)) <==> png_decoded(bytes@) is None,
        r is Ok <==> (png_decoded(bytes@) matches Some(d) && d.0.len() == d.1 * d.2),
        r matches Ok(a) ==> (png_decoded(bytes@) matches Some(d) && a@ == frame(
            remaining(d.0, d.1 as int, d.2 as int, 0, 0),
        )),
        r matches Err(LoadError::Size(e)) ==> (png_decoded(bytes@) matches Some(d) && e.len
            == d.0.len() && e.width == d.1 && e.height == d.2),
{
    match decode_image(bytes) {
        Ok(img) => match frame_image(img) {
            Ok(a) => Ok(a),
            Err(e) => Err(LoadError::Size(e)),
        },
        Err(e) => Err(LoadError::Decode(e)),
    }
}

} // verus!
