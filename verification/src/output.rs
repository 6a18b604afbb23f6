//! The bytes written for a converted image: the encoded file, with the
//! image's EXIF metadata embedded when it is kept and the format carries
//! it.
use vstd::prelude::*;
use crate::cli::Format;
use crate::convert::Picture;
use crate::encode::{encode, encoding_outcome, encoding_result, ico_encodable, step_view, ConvertError, ConvertStep};
use crate::exif::{embed_exif, embedding_outcome, exif_read_back, exif_read_from, lemma_exif_reads_back};

verus! {

/// A decoded HEIF image with its EXIF payload, if it has one.
#[derive(Debug)]
pub struct HeifImage {
    pub image: Picture,
    pub exif: Option<Vec<u8>>,
}

/// What encoding a picture can give.
pub open spec fn picture_encoding(
    pic: Picture,
    format: Format,
    quality: u8,
    r: Result<Seq<u8>, ConvertStep>,
) -> bool {
    encoding_outcome(pic.width, pic.height, pic.has_alpha, pic.pixels@, format, quality, r)
}

/// Whether a format has a container for EXIF metadata.
pub open spec fn carries_exif(format: Format) -> bool {
    format == Format::Jpg || format == Format::Png || format == Format::Webp
}

/// What writing an image gives: the encoded file, in which the EXIF payload
/// is embedded when `keep_exif` is set, the image has one and the format
/// carries it; a failed encoding or embedding gives its step.
pub open spec fn output_outcome(
    image: HeifImage,
    format: Format,
    quality: u8,
    keep_exif: bool,
    r: Result<Seq<u8>, ConvertStep>,
) -> bool {
    if keep_exif && image.exif is Some && carries_exif(format) {
        let pic = image.image;
        match encoding_result(pic.width, pic.height, pic.has_alpha, pic.pixels@, format, quality) {
            Err(step) => r == Err::<Seq<u8>, ConvertStep>(step),
            Ok(enc) => embedding_outcome(enc, format, image.exif->0@, r),
        }
    } else {
        picture_encoding(image.image, format, quality, r)
    }
}

/// What reading a written file back with `img-parts` gives, where its EXIF
/// was embedded (see [`exif_read_back`]).
pub open spec fn output_read_back(
    image: HeifImage,
    format: Format,
    quality: u8,
    keep_exif: bool,
    out: Seq<u8>,
) -> bool {
    let pic = image.image;
    keep_exif && image.exif is Some && carries_exif(format) ==> match encoding_result(
        pic.width,
        pic.height,
        pic.has_alpha,
        pic.pixels@,
        format,
        quality,
    ) {
        Ok(enc) => exif_read_back(enc, format, image.exif->0@, out),
        Err(_) => true,
    }
}

/// Encodes an image in the output format and embeds its EXIF payload when
/// it is kept and the format carries it.
pub fn encode_output(image: &HeifImage, format: Format, quality: u8, keep_exif: bool) -> (r: Result<
    Vec<u8>,
    ConvertError,
>)
    requires
        image.image.wf(),
        format == Format::Ico ==> ico_encodable(image.image.width, image.image.height),
    ensures
        output_outcome(*image, format, quality, keep_exif, step_view(r)),
        r matches Ok(out) ==> output_read_back(*image, format, quality, keep_exif, out@),
        r matches Ok(out) ==> (keep_exif && image.exif is Some && (format == Format::Jpg || format
            == Format::Png || format == Format::Webp) ==> exif_read_from(format, out@) == Some(
            image.exif->0@,
        )),
{
    let encoded = encode(&image.image, format, quality);
    match encoded {
        Err(e) => Err(e),
        Ok(bytes) => {
            let ghost enc = bytes@;
            let carries = match format {
                Format::Jpg | Format::Png | Format::Webp => true,
                _ => false,
            };
            match (keep_exif && carries, &image.exif) {
                (true, Some(exif)) => {
                    let r = embed_exif(bytes, format, exif.as_slice());
                    proof {
                        if let Ok(out) = &r {
                            lemma_exif_reads_back(enc, format, exif@, out@);
                        }
                    }
                    r
                },
                _ => Ok(bytes),
            }
        },
    }
}


/// When EXIF is not kept (`--no-exif`) or the image has none, the file
/// written is the plain encoding; GIF, TIFF, BMP and ICO files are the plain
/// encoding even when EXIF is kept.
pub proof fn lemma_exif_only_in_containers(
    image: HeifImage,
    format: Format,
    quality: u8,
    keep_exif: bool,
    bytes: Seq<u8>,
)
    requires
        output_outcome(image, format, quality, keep_exif, Ok(bytes)),
        !keep_exif || image.exif is None || !carries_exif(format),
    ensures
        picture_encoding(image.image, format, quality, Ok(bytes)),
{
}

/// JPEG, PNG and WebP carry EXIF: with EXIF kept and present, a file
/// written in one of them is the picture's encoding with that EXIF
/// embedded.
pub proof fn lemma_exif_is_embedded(image: HeifImage, format: Format, quality: u8, out: Seq<u8>)
    requires
        format == Format::Jpg || format == Format::Png || format == Format::Webp,
        image.exif is Some,
        output_outcome(image, format, quality, true, Ok(out)),
    ensures
        ({
            let pic = image.image;
            encoding_result(pic.width, pic.height, pic.has_alpha, pic.pixels@, format, quality) matches Ok(
                enc,
            ) && embedding_outcome(enc, format, image.exif->0@, Ok(out))
        }),
{
}

} // verus!
