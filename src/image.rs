use vstd::prelude::*;

verus! {

#[verifier::external_type_specification]
#[verifier::external_body]
pub struct ExDecodingError(png::DecodingError);

/// Samples, width and height that the png decoder produces for an encoded
/// file, with no transformations (samples as stored, row-major); `None`
/// where the decoder rejects the file.
pub uninterp spec fn png_decoded(bytes: Seq<u8>) -> Option<(Seq<u8>, u32, u32)>;

/// Relies on png's `Decoder::new(..).read_info()`, `Reader::output_buffer_size`,
/// `Reader::next_frame` and `Reader::info().size()`: the first frame's
/// samples and the image size, or the decoder's error, which depend on the
/// encoded bytes alone.
#[verifier::external_body]
fn decode_png(bytes: &[u8]) -> (r: Result<(Vec<u8>, u32, u32), png::DecodingError>)
    ensures
        r is Ok <==> png_decoded(bytes@) is Some,
        r matches Ok((v, w, h)) ==> png_decoded(bytes@) == Some((v@, w, h)),
{
    let mut reader = png::Decoder::new(bytes).read_info()?;
    let mut buf = vec![0; reader.output_buffer_size()];
    reader.next_frame(&mut buf)?;
    let (w, h) = reader.info().size();
    Ok((buf, w, h))
}

/// A decoded image: `samples` row-major, laid out as the png decoder
/// writes them (one byte per sample for 8-bit grayscale).
pub struct Image {
    pub samples: Vec<u8>,
    pub width: usize,
    pub height: usize,
}

/// Decodes an encoded png file into its samples and size.
pub fn decode_image(bytes: &[u8]) -> (r: Result<Image, png::DecodingError>)
    ensures
        r is Ok <==> png_decoded(bytes@) is Some,
        r matches Ok(img) ==> (png_decoded(bytes@) matches Some(d) && img.samples@ == d.0
            && img.width == d.1 && img.height == d.2),
{
    match decode_png(bytes) {
        Ok((samples, w, h)) => Ok(Image { samples, width: w as usize, height: h as usize }),
        Err(e) => Err(e),
    }
}

} // verus!
