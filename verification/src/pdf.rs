//! Bundling a group's ordered JPEG byte buffers into one PDF, through the
//! PDF packer.
//!
//! The packer embeds the JPEG streams as pages without re-encoding them.
//! Whether it accepts a sequence of images is a function of the images
//! alone; the produced bytes also carry a fresh document id and the
//! current date, so nothing further is stated of them.

use crate::order::path_views;
use vstd::prelude::*;

verus! {

/// Why a bundle could not be packed.
#[derive(Clone, Copy, PartialEq, Eq, Debug, Structural)]
pub enum PackError {
    /// The packer rejected the image at this page index.
    Image(usize),
    /// The PDF stream could not be written out.
    Output,
}

#[verifier::external_type_specification]
#[verifier::external_body]
pub struct ExJpegToPdf(jpeg_to_pdf::JpegToPdf);

/// The images a packer holds, in page order.
pub uninterp spec fn packer_images(p: jpeg_to_pdf::JpegToPdf) -> Seq<Seq<u8>>;

/// Whether the packer accepts this image sequence; a function of the
/// images alone.
pub uninterp spec fn pack_ok(images: Seq<Seq<u8>>) -> bool;

/// The five bytes `%PDF-`, the marker every produced stream opens with.
pub open spec fn pdf_marker() -> Seq<u8> {
    seq![37u8, 80u8, 68u8, 70u8, 45u8]
}

/// Relies on `jpeg_to_pdf::JpegToPdf::new`: a fresh packer holds no
/// images.
#[verifier::external_body]
fn packer_new() -> (r: jpeg_to_pdf::JpegToPdf)
    ensures
        packer_images(r) == Seq::<Seq<u8>>::empty(),
{
    jpeg_to_pdf::JpegToPdf::new()
}

/// Relies on `jpeg_to_pdf::JpegToPdf::add_image`: appends one image to
/// the page list.
#[verifier::external_body]
fn packer_add(p: jpeg_to_pdf::JpegToPdf, image: &Vec<u8>) -> (r: jpeg_to_pdf::JpegToPdf)
    ensures
        packer_images(r) == packer_images(p).push(image@),
{
    p.add_image(image.clone())
}

/// Relies on `jpeg_to_pdf::JpegToPdf::create_pdf`, writing to an
/// in-memory buffer: it succeeds exactly when every page's bytes pass the
/// packer's JPEG reading, which reads nothing but the images; the bytes
/// it produces carry a fresh document id and date, but always open with
/// the PDF marker.
#[verifier::external_body]
fn packer_create(p: jpeg_to_pdf::JpegToPdf) -> (r: Result<Vec<u8>, PackError>)
    ensures
        r is Ok <==> pack_ok(packer_images(p)),
        (r matches Ok(v) ==> v@.len() >= 5 && v@.subrange(0, 5) == pdf_marker()),
{
    let mut w = std::io::BufWriter::new(Vec::new());
    match p.create_pdf(&mut w) {
        Err(e) => Err(match e.cause {
            jpeg_to_pdf::Cause::PdfWrite(_) => PackError::Output,
            jpeg_to_pdf::Cause::ImageInfo(_) => PackError::Image(e.index),
            jpeg_to_pdf::Cause::UnexpectedImageInfo => PackError::Image(e.index),
            jpeg_to_pdf::Cause::ImageSections(_) => PackError::Image(e.index),
        }),
        Ok(()) => match w.into_inner() {
            Ok(v) => Ok(v),
            Err(_) => Err(PackError::Output),
        },
    }
}

/// Packs a group's ordered images into one PDF byte stream. The packer is
/// handed exactly the given images in the given order, the call succeeds
/// exactly when the packer accepts them, and a produced stream is never
/// empty: it opens with the PDF marker.
pub fn assemble_pdf(images: &Vec<Vec<u8>>) -> (r: Result<Vec<u8>, PackError>)
    ensures
        r is Ok <==> pack_ok(path_views(images@)),
        (r matches Ok(v) ==> v@.len() >= 5 && v@.subrange(0, 5) == pdf_marker()),
{
    let mut p = packer_new();
    let mut i: usize = 0;
    while i < images.len()
        invariant
            i <= images.len(),
            packer_images(p) == path_views(images@).take(i as int),
        decreases images.len() - i,
    {
        p = packer_add(p, &images[i]);
        proof {
            assert(path_views(images@).take(i + 1 as int) =~= path_views(images@).take(
                i as int,
            ).push(images@[i as int]@));
        }
        i = i + 1;
    }
    proof {
        assert(path_views(images@).take(images@.len() as int) =~= path_views(images@));
    }
    packer_create(p)
}

} // verus!
