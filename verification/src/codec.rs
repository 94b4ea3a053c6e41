//! Format normalization: decoding an image's bytes and re-encoding them
//! as JPEG, through the image codec.
//!
//! The codec works on in-memory bytes alone, so both whether it succeeds
//! and what it produces are functions of the input bytes; neither has a
//! short description, so they are named and the contracts are stated over
//! the names. The deletion of a converted source is gated here: only a
//! successful conversion allows it.

use vstd::prelude::*;

verus! {

/// Why converting one file's bytes failed.
#[derive(Clone, Copy, PartialEq, Eq, Debug, Structural)]
pub enum ConvertError {
    /// The bytes are not a decodable image.
    Decode,
    /// The decoded image could not be re-encoded as JPEG.
    Encode,
}

/// Whether the codec decodes `bytes`; a function of the bytes alone.
pub uninterp spec fn decode_ok(bytes: Seq<u8>) -> bool;

/// Whether the image decoded from `bytes` re-encodes as JPEG; meaningful
/// on bytes that decode, and a function of the bytes alone.
pub uninterp spec fn encode_ok(bytes: Seq<u8>) -> bool;

/// The JPEG bytes the codec produces for `bytes`, when it does; a
/// function of the bytes alone.
pub uninterp spec fn jpeg_of(bytes: Seq<u8>) -> Seq<u8>;

/// Whether the whole conversion succeeds: the bytes decode and the
/// picture re-encodes.
pub open spec fn convert_ok(bytes: Seq<u8>) -> bool {
    decode_ok(bytes) && encode_ok(bytes)
}

/// Relies on `image::load_from_memory`, `DynamicImage::to_rgb8` and
/// `DynamicImage::write_to` with the JPEG format: all three read nothing
/// but the bytes in memory, so the outcome and the produced JPEG are
/// functions of the input bytes; decoding fails exactly on bytes the
/// codec does not recognize.
#[verifier::external_body]
fn render_jpeg(bytes: &Vec<u8>) -> (r: Result<Vec<u8>, ConvertError>)
    ensures
        r is Ok <==> (decode_ok(bytes@) && encode_ok(bytes@)),
        (r matches Err(ConvertError::Decode)) <==> !decode_ok(bytes@),
        (r matches Ok(v) ==> v@ == jpeg_of(bytes@)),
{
    let img = match image::load_from_memory(bytes.as_slice()) {
        Ok(img) => img,
        Err(_) => {
            return Err(ConvertError::Decode);
        },
    };
    let rgb = image::DynamicImage::from(img.to_rgb8());
    let mut out = std::io::Cursor::new(Vec::new());
    match rgb.write_to(&mut out, image::ImageFormat::Jpeg) {
        Ok(()) => Ok(out.into_inner()),
        Err(_) => Err(ConvertError::Encode),
    }
}

/// Converts one image's bytes to JPEG bytes: decode, re-express as 8-bit
/// RGB, re-encode. Succeeds exactly when the codec decodes the bytes and
/// re-encodes the picture, and then returns exactly the codec's JPEG;
/// fails with `Decode` exactly on bytes the codec does not decode, and
/// with `Encode` otherwise.
pub fn convert_to_jpeg(bytes: &Vec<u8>) -> (r: Result<Vec<u8>, ConvertError>)
    ensures
        r is Ok <==> convert_ok(bytes@),
        (r matches Ok(v) ==> v@ == jpeg_of(bytes@)),
        (r matches Err(e) && e == ConvertError::Decode) <==> !decode_ok(bytes@),
        (r matches Err(e) && e == ConvertError::Encode) <==> decode_ok(bytes@) && !encode_ok(
            bytes@,
        ),
{
    render_jpeg(bytes)
}

/// The deletion gate: a conversion's source file may be removed exactly
/// when the conversion succeeded, so a failure never loses the source.
pub fn should_remove_source(outcome: &Result<Vec<u8>, ConvertError>) -> (r: bool)
    ensures
        r <==> outcome is Ok,
{
    match outcome {
        Ok(_) => true,
        Err(_) => false,
    }
}

} // verus!
