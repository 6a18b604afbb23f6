//! Encoding a decoded picture in the output format: JPEG at a clamped
//! quality, multi-resolution ICO with the size list Pillow uses, and the
//! other formats through the `image` crate.
use vstd::prelude::*;
use crate::cli::{format_name, Format};
use crate::convert::Picture;
use crate::exif::{jpeg_layout_ok, jpeg_segments_read, segments_without_exif};

verus! {

#[verifier::external_type_specification]
#[verifier::external_body]
pub struct ExImageError(image::ImageError);

#[verifier::external_type_specification]
#[verifier::external_body]
pub struct ExIoError(std::io::Error);

#[verifier::external_type_specification]
#[verifier::external_body]
pub struct ExIconDir(ico::IconDir);

#[verifier::external_type_specification]
#[verifier::external_body]
pub struct ExIconDirEntry(ico::IconDirEntry);

/// The step of an encoding that failed.
#[derive(Clone, Copy, Debug, PartialEq, Eq, Structural)]
pub enum ConvertStep {
    EncodeJpeg,
    EncodeImage(Format),
    EncodeIcoEntry,
    WriteIco,
    ParseJpeg,
    ParsePng,
    ParseWebp,
    WriteExif,
}

/// A failed encoding: the step, and the explanation of the library that
/// failed.
#[derive(Debug)]
pub struct ConvertError {
    pub step: ConvertStep,
    pub detail: String,
}

/// What each failing step is called in messages.
pub open spec fn step_text(step: ConvertStep) -> Seq<char> {
    match step {
        ConvertStep::EncodeJpeg => "cannot encode JPEG image"@,
        ConvertStep::EncodeImage(f) => "cannot encode "@ + format_name(f) + " image"@,
        ConvertStep::EncodeIcoEntry => "cannot encode ICO entry"@,
        ConvertStep::WriteIco => "cannot write ICO image"@,
        ConvertStep::ParseJpeg => "cannot parse encoded JPEG image"@,
        ConvertStep::ParsePng => "cannot parse encoded PNG image"@,
        ConvertStep::ParseWebp => "cannot parse encoded WebP image"@,
        ConvertStep::WriteExif => "cannot write EXIF metadata"@,
    }
}

/// The message of a failed step: its description, a colon, and the
/// explanation.
pub open spec fn error_message(step: ConvertStep, detail: Seq<char>) -> Seq<char> {
    step_text(step) + ": "@ + detail
}

impl ConvertError {
    /// The message of the error, its step followed by the explanation.
    pub fn message(&self) -> (m: String)
        ensures
            m@ == error_message(self.step, self.detail@),
    {
        let mut m = match self.step {
            ConvertStep::EncodeJpeg => String::from_str("cannot encode JPEG image"),
            ConvertStep::EncodeImage(f) => {
                let mut s = String::from_str("cannot encode ");
                s.append(f.extension());
                s.append(" image");
                s
            },
            ConvertStep::EncodeIcoEntry => String::from_str("cannot encode ICO entry"),
            ConvertStep::WriteIco => String::from_str("cannot write ICO image"),
            ConvertStep::ParseJpeg => String::from_str("cannot parse encoded JPEG image"),
            ConvertStep::ParsePng => String::from_str("cannot parse encoded PNG image"),
            ConvertStep::ParseWebp => String::from_str("cannot parse encoded WebP image"),
            ConvertStep::WriteExif => String::from_str("cannot write EXIF metadata"),
        };
        m.append(": ");
        m.append(self.detail.as_str());
        m
    }
}

/// The explanation `image::ImageError` gives through `Display`; its wording
/// is the crate's own, so nothing is claimed of it.
#[verifier::external_body]
fn image_error_text(e: &image::ImageError) -> (text: String) {
    e.to_string()
}

/// The explanation `std::io::Error` gives through `Display`; its wording is
/// the standard library's own, so nothing is claimed of it.
#[verifier::external_body]
pub(crate) fn io_error_text(e: &std::io::Error) -> (text: String) {
    e.to_string()
}

/// The quality handed to the JPEG encoder: the requested one, clamped to
/// 1..=100.
pub open spec fn jpeg_quality(quality: u8) -> u8 {
    if quality < 1 {
        1
    } else if quality > 100 {
        100
    } else {
        quality
    }
}

/// Clamps a JPEG quality to 1..=100.
pub fn clamp_quality(quality: u8) -> (q: u8)
    ensures
        q == jpeg_quality(quality),
{
    if quality < 1 {
        1
    } else if quality > 100 {
        100
    } else {
        quality
    }
}

/// The RGB bytes of a picture: its own bytes, or with the alpha byte of
/// every pixel dropped, as `DynamicImage::to_rgb8` converts RGBA to RGB.
pub open spec fn rgb_bytes(pixels: Seq<u8>, has_alpha: bool) -> Seq<u8> {
    if has_alpha {
        Seq::new((pixels.len() / 4 * 3) as nat, |i: int| pixels[(i / 3) * 4 + i % 3])
    } else {
        pixels
    }
}

/// Drops the alpha channel of a picture: the RGB bytes JPEG is encoded
/// from.
pub fn rgb_of(pic: &Picture) -> (rgb: Vec<u8>)
    requires
        pic.wf(),
    ensures
        rgb@ == rgb_bytes(pic.pixels@, pic.has_alpha),
        rgb@.len() == 3 * pic.width as nat * pic.height as nat,
{
    if !pic.has_alpha {
        proof {
            assert(pic.pixels@.len() == 3 * pic.width as nat * pic.height as nat) by (nonlinear_arith)
                requires
                    pic.pixels@.len() == pic.width as nat * pic.height as nat * 3,
            ;
        }
        return pic.pixels.clone();
    }
    let n = pic.pixels.len();
    let ghost px = pic.pixels@;
    let ghost count = (n / 4) as nat;
    proof {
        assert(n == 4 * (pic.width as nat * pic.height as nat)) by (nonlinear_arith)
            requires
                n == pic.width as nat * pic.height as nat * 4,
        ;
    }
    let mut rgb: Vec<u8> = Vec::new();
    let mut k: usize = 0;
    while k < n
        invariant
            n == px.len(),
            px == pic.pixels@,
            n % 4 == 0,
            k % 4 == 0,
            k <= n,
            rgb@.len() == k / 4 * 3,
            forall|i: int| 0 <= i < rgb@.len() ==> rgb@[i] == px[(i / 3) * 4 + i % 3],
        decreases n - k,
    {
        let ghost before = rgb@;
        rgb.push(pic.pixels[k]);
        rgb.push(pic.pixels[k + 1]);
        rgb.push(pic.pixels[k + 2]);
        proof {
            let base = (k / 4 * 3) as int;
            assert forall|i: int| 0 <= i < rgb@.len() implies rgb@[i] == px[(i / 3) * 4 + i % 3] by {
                if i >= base {
                    assert((i / 3) * 4 == k as int) by (nonlinear_arith)
                        requires
                            base <= i < base + 3,
                            base == k / 4 * 3,
                            k % 4 == 0,
                    ;
                    assert(i % 3 == i - base) by (nonlinear_arith)
                        requires
                            base <= i < base + 3,
                            base % 3 == 0,
                    ;
                } else {
                    assert(rgb@[i] == before[i]);
                }
            }
        }
        k = k + 4;
    }
    proof {
        assert(k == n);
        assert(rgb@ =~= rgb_bytes(px, true));
        assert(rgb@.len() == 3 * pic.width as nat * pic.height as nat) by (nonlinear_arith)
            requires
                rgb@.len() == n / 4 * 3,
                n == 4 * (pic.width as nat * pic.height as nat),
        ;
    }
    rgb
}

/// The JPEG file the `image` crate writes for RGB bytes at a quality.
pub uninterp spec fn jpeg_encoding(width: u32, height: u32, rgb: Seq<u8>, quality: u8) -> Seq<u8>;

/// Whether `image::DynamicImage::write_to` encodes a picture in a format
/// (other than JPEG and ICO).
pub uninterp spec fn image_accepts(
    width: u32,
    height: u32,
    has_alpha: bool,
    pixels: Seq<u8>,
    format: Format,
) -> bool;

/// The file the `image` crate writes for a picture in a format other than
/// JPEG and ICO.
pub uninterp spec fn image_encoding(
    width: u32,
    height: u32,
    has_alpha: bool,
    pixels: Seq<u8>,
    format: Format,
) -> Seq<u8>;

/// Whether the JPEG encoder takes a picture of this size: both sides in
/// 1..=65535 (`JpegEncoder::encode_image` refuses any other size with
/// `InvalidSize`).
pub open spec fn jpeg_size_ok(width: u32, height: u32) -> bool {
    1 <= width <= 65535 && 1 <= height <= 65535
}

/// Encodes RGB bytes as JPEG with `image::codecs::jpeg::JpegEncoder`, at
/// the given quality, into a `Vec`.
///
/// The bytes are handed over as an `RgbImage` built with
/// `ImageBuffer::from_raw`, which accepts them since they hold exactly three
/// bytes per pixel.  Claimed: the encoder refuses exactly the sizes outside
/// 1..=65535 (writing into a `Vec` does not fail), and a success holds its
/// output, a function of the bytes and the quality.  That output is the
/// start of image, the APP0 (JFIF), SOF0, DQT and DHT segments, each with
/// its 16-bit length, and the SOS segment followed by the entropy-coded
/// data and the end of image, so `img-parts` reads it back as laid out by
/// `jpeg_layout_ok`, with more than three segments and none holding EXIF.
#[verifier::external_body]
fn encode_jpeg(width: u32, height: u32, rgb: Vec<u8>, quality: u8) -> (r: Result<Vec<u8>, image::ImageError>)
    requires
        rgb@.len() == 3 * width as nat * height as nat,
    ensures
        r is Ok <==> jpeg_size_ok(width, height),
        r matches Ok(bytes) ==> bytes@ == jpeg_encoding(width, height, rgb@, quality),
        r matches Ok(bytes) ==> (jpeg_segments_read(bytes@) matches Some(segs) && jpeg_layout_ok(segs)
            && segments_without_exif(segs).len() > 3),
{
    let image = image::RgbImage::from_raw(width, height, rgb).expect("exact buffer");
    let mut buffer = Vec::new();
    image::codecs::jpeg::JpegEncoder::new_with_quality(&mut buffer, quality).encode_image(&image).map(|()| buffer)
}

/// Encodes a picture with `image::DynamicImage::write_to` into an in-memory
/// `Cursor`, in the `image::ImageFormat` that corresponds to `format`.
///
/// The picture is handed over as an `RgbImage` or `RgbaImage` built with
/// `ImageBuffer::from_raw`, which accepts it since its buffer holds exactly
/// one byte per channel and pixel.  Claimed: whether the encoder succeeds,
/// and what it writes, are functions of the picture and the format.
#[verifier::external_body]
fn encode_in_format(pic: &Picture, format: Format) -> (r: Result<Vec<u8>, image::ImageError>)
    requires
        pic.wf(),
    ensures
        r is Ok <==> image_accepts(pic.width, pic.height, pic.has_alpha, pic.pixels@, format),
        r matches Ok(bytes) ==> bytes@ == image_encoding(
            pic.width,
            pic.height,
            pic.has_alpha,
            pic.pixels@,
            format,
        ),
{
    let image = if pic.has_alpha {
        image::DynamicImage::ImageRgba8(image::RgbaImage::from_raw(pic.width, pic.height, pic.pixels.clone()).expect("exact buffer"))
    } else {
        image::DynamicImage::ImageRgb8(image::RgbImage::from_raw(pic.width, pic.height, pic.pixels.clone()).expect("exact buffer"))
    };
    let target = match format {
        Format::Jpg => image::ImageFormat::Jpeg, Format::Png => image::ImageFormat::Png,
        Format::Webp => image::ImageFormat::WebP, Format::Gif => image::ImageFormat::Gif,
        Format::Tiff => image::ImageFormat::Tiff, Format::Bmp => image::ImageFormat::Bmp,
        Format::Ico => image::ImageFormat::Ico,
    };
    let mut buffer = std::io::Cursor::new(Vec::new());
    image.write_to(&mut buffer, target).map(|()| buffer.into_inner())
}


/// The sizes, largest first, at which Pillow writes an ICO file.
pub open spec fn ico_size_list() -> Seq<u32> {
    seq![256u32, 128u32, 64u32, 48u32, 32u32, 24u32, 16u32]
}

/// The sizes of `sizes` that fit in a `width` by `height` image, in order.
pub open spec fn fitting_sizes(sizes: Seq<u32>, width: u32, height: u32) -> Seq<u32>
    decreases sizes.len(),
{
    if sizes.len() == 0 {
        Seq::empty()
    } else {
        fitting_sizes(sizes.drop_last(), width, height) + if sizes.last() <= width && sizes.last()
            <= height {
            seq![sizes.last()]
        } else {
            Seq::empty()
        }
    }
}

/// The ICO sizes at which a `width` by `height` image is written.
pub fn ico_sizes(width: u32, height: u32) -> (sizes: Vec<u32>)
    ensures
        sizes@ == fitting_sizes(ico_size_list(), width, height),
{
    let all: Vec<u32> = vec![256, 128, 64, 48, 32, 24, 16];
    assert(all@ =~= ico_size_list());
    let mut sizes: Vec<u32> = Vec::new();
    let mut i: usize = 0;
    while i < all.len()
        invariant
            all@ == ico_size_list(),
            i <= all@.len(),
            sizes@ == fitting_sizes(all@.take(i as int), width, height),
        decreases all@.len() - i,
    {
        let s = all[i];
        assert(all@.take(i + 1).drop_last() =~= all@.take(i as int));
        let ghost before = sizes@;
        if s <= width && s <= height {
            sizes.push(s);
            assert(sizes@ =~= before + seq![s]);
        } else {
            assert(before + Seq::<u32>::empty() =~= before);
        }
        i = i + 1;
    }
    assert(all@.take(all@.len() as int) =~= all@);
    sizes
}

/// The RGBA bytes of a picture: its own bytes, or with an alpha byte of
/// 255 after every three, as `DynamicImage::to_rgba8` converts RGB to RGBA.
pub open spec fn rgba_bytes(pixels: Seq<u8>, has_alpha: bool) -> Seq<u8> {
    if has_alpha {
        pixels
    } else {
        Seq::new(
            (pixels.len() / 3 * 4) as nat,
            |i: int| if i % 4 == 3 { 255u8 } else { pixels[(i / 4) * 3 + i % 4] },
        )
    }
}

/// The RGBA bytes `DynamicImage::resize_exact(size, size, Lanczos3)`
/// followed by `to_rgba8` gives for a picture.
pub uninterp spec fn lanczos_rgba(
    pixels: Seq<u8>,
    width: u32,
    height: u32,
    has_alpha: bool,
    size: u32,
) -> Seq<u8>;

/// An ICO entry as plain values: width, height, number of colors, color
/// planes, bits per pixel, and its encoded data (the fields
/// `IconDir::write` writes).
pub type IconEntryView = (u32, u32, u8, u16, u16, Seq<u8>);

/// The entry `IconDirEntry::encode` makes of an RGBA image.
pub uninterp spec fn icon_entry_encoding(width: u32, height: u32, rgba: Seq<u8>) -> IconEntryView;

/// The fields of an ICO entry.
pub uninterp spec fn icon_entry_view(entry: ico::IconDirEntry) -> IconEntryView;

/// Whether an ICO entry is an icon (rather than a cursor).
pub uninterp spec fn icon_entry_is_icon(entry: ico::IconDirEntry) -> bool;

/// The entries of an ICO collection, in order.
pub uninterp spec fn icon_dir_entries(dir: ico::IconDir) -> Seq<IconEntryView>;

/// Whether an ICO collection holds icons (rather than cursors).
pub uninterp spec fn icon_dir_is_icon(dir: ico::IconDir) -> bool;

/// A number as two little-endian bytes.
pub open spec fn le16(v: nat) -> Seq<u8> {
    seq![(v % 256) as u8, (v / 256 % 256) as u8]
}

/// A number as four little-endian bytes.
pub open spec fn le32(v: nat) -> Seq<u8> {
    le16(v % 65536) + le16(v / 65536 % 65536)
}

/// The byte an ICO directory holds for a side: the side, or 0 for 256 and
/// more.
pub open spec fn side_byte(side: u32) -> u8 {
    if side > 255 { 0 } else { side as u8 }
}

/// The total length of the entries' data.
pub open spec fn entries_data_len(es: Seq<IconEntryView>) -> nat
    decreases es.len(),
{
    if es.len() == 0 { 0 } else { entries_data_len(es.drop_last()) + es.last().5.len() }
}

/// The entries' data, one after the other.
pub open spec fn entries_data(es: Seq<IconEntryView>) -> Seq<u8>
    decreases es.len(),
{
    if es.len() == 0 { Seq::empty() } else { es[0].5 + entries_data(es.drop_first()) }
}

/// The 16-byte directory records of the entries, whose data start at
/// `offset`.
pub open spec fn ico_records(es: Seq<IconEntryView>, offset: nat) -> Seq<u8>
    decreases es.len(),
{
    if es.len() == 0 {
        Seq::empty()
    } else {
        let e = es[0];
        seq![side_byte(e.0), side_byte(e.1), e.2, 0u8] + le16(e.3 as nat) + le16(e.4 as nat) + le32(
            e.5.len(),
        ) + le32(offset) + ico_records(es.drop_first(), offset + e.5.len())
    }
}

/// The ICO file `IconDir::write` writes for a collection of icons: the
/// header (reserved 0, type 1, count), one record per entry, then the data.
pub open spec fn ico_file_bytes(es: Seq<IconEntryView>) -> Seq<u8> {
    le16(0) + le16(1) + le16(es.len()) + ico_records(es, 6 + 16 * es.len()) + entries_data(es)
}

/// Whether the data offsets of a collection fit the 32-bit fields of its
/// directory.
pub open spec fn ico_fits(es: Seq<IconEntryView>) -> bool {
    6 + 16 * es.len() + entries_data_len(es) <= u32::MAX
}

/// The images an ICO file holds: the picture resized to each fitting size
/// of the list, or, when none fits, the picture's own RGBA bytes.
pub open spec fn ico_images(width: u32, height: u32, has_alpha: bool, pixels: Seq<u8>) -> Seq<
    (u32, u32, Seq<u8>),
> {
    let fit = fitting_sizes(ico_size_list(), width, height);
    if fit.len() == 0 {
        seq![(width, height, rgba_bytes(pixels, has_alpha))]
    } else {
        fit.map_values(|s: u32| (s, s, lanczos_rgba(pixels, width, height, has_alpha, s)))
    }
}

/// The entries of the ICO file of a picture.
pub open spec fn ico_entries(width: u32, height: u32, has_alpha: bool, pixels: Seq<u8>) -> Seq<
    IconEntryView,
> {
    ico_images(width, height, has_alpha, pixels).map_values(
        |im: (u32, u32, Seq<u8>)| icon_entry_encoding(im.0, im.1, im.2),
    )
}

/// The result of writing a picture as ICO: the file of its entries, or a
/// failure when their data overflow the 32-bit offsets of the directory.
pub open spec fn ico_outcome(width: u32, height: u32, has_alpha: bool, pixels: Seq<u8>) -> Result<
    Seq<u8>,
    ConvertStep,
> {
    let es = ico_entries(width, height, has_alpha, pixels);
    if ico_fits(es) {
        Ok(ico_file_bytes(es))
    } else {
        Err(ConvertStep::WriteIco)
    }
}

/// Scales a picture to `size` by `size` with
/// `image::DynamicImage::resize_exact` (Lanczos3 filter) and takes its RGBA
/// bytes with `to_rgba8`.
///
/// The picture is handed over as in [`encode_in_format`].  Claimed: the
/// result, a function of the picture and the size, with four bytes per
/// pixel of the new size (`resize_exact` builds a new buffer of exactly
/// that size).
#[verifier::external_body]
fn resized_rgba(pic: &Picture, size: u32) -> (rgba: Vec<u8>)
    requires
        pic.wf(),
    ensures
        rgba@ == lanczos_rgba(pic.pixels@, pic.width, pic.height, pic.has_alpha, size),
        rgba@.len() == 4 * size as nat * size as nat,
{
    let image = if pic.has_alpha {
        image::DynamicImage::ImageRgba8(image::RgbaImage::from_raw(pic.width, pic.height, pic.pixels.clone()).expect("exact buffer"))
    } else {
        image::DynamicImage::ImageRgb8(image::RgbImage::from_raw(pic.width, pic.height, pic.pixels.clone()).expect("exact buffer"))
    };
    image.resize_exact(size, size, image::imageops::FilterType::Lanczos3).to_rgba8().into_raw()
}

/// The RGBA bytes of a picture, through `image::DynamicImage::to_rgba8`.
///
/// The picture is handed over as in [`encode_in_format`].  Claimed: an RGBA
/// buffer is cloned, and an RGB one gets an alpha of 255 after each pixel
/// (`FromColor<Rgb> for Rgba`).
#[verifier::external_body]
fn rgba_pixels(pic: &Picture) -> (rgba: Vec<u8>)
    requires
        pic.wf(),
    ensures
        rgba@ == rgba_bytes(pic.pixels@, pic.has_alpha),
        rgba@.len() == 4 * pic.width as nat * pic.height as nat,
{
    let image = if pic.has_alpha {
        image::DynamicImage::ImageRgba8(image::RgbaImage::from_raw(pic.width, pic.height, pic.pixels.clone()).expect("exact buffer"))
    } else {
        image::DynamicImage::ImageRgb8(image::RgbImage::from_raw(pic.width, pic.height, pic.pixels.clone()).expect("exact buffer"))
    };
    image.to_rgba8().into_raw()
}

/// Encodes RGBA bytes as one ICO entry: `ico::IconImage::from_rgba_data`
/// (which panics unless both sizes are at least 1 and there are four bytes
/// per pixel) followed by `ico::IconDirEntry::encode` (which multiplies the
/// sizes as `u32`).
///
/// Claimed: the entry, a function of the size and the bytes, is an icon of
/// that size with no cursor hotspot; encoding does not fail (a BMP is
/// written into a `Vec`, and the PNG encoder only refuses a zero size or a
/// buffer of the wrong length, and splits its data into chunks).  An entry
/// of at most 256 by 256 pixels holds at most 4 MiB of data: as a BMP, at
/// most 271,424 bytes; as a PNG, a zlib stream of at most 262,400 bytes of
/// filtered rows, which deflate codes in at most 15 bits per byte and block
/// headers, with chunk headers around it.
#[verifier::external_body]
fn icon_entry(width: u32, height: u32, rgba: Vec<u8>) -> (r: Result<ico::IconDirEntry, std::io::Error>)
    requires
        width >= 1,
        height >= 1,
        width as nat * height as nat <= u32::MAX,
        rgba@.len() == 4 * width as nat * height as nat,
    ensures
        r is Ok,
        r matches Ok(entry) ==> icon_entry_view(entry) == icon_entry_encoding(width, height, rgba@),
        r matches Ok(entry) ==> icon_entry_view(entry).0 == width && icon_entry_view(entry).1 == height,
        r matches Ok(entry) ==> icon_entry_is_icon(entry),
        r matches Ok(entry) ==> (width <= 256 && height <= 256 ==> icon_entry_view(entry).5.len()
            <= 0x40_0000),
{
    ico::IconDirEntry::encode(&ico::IconImage::from_rgba_data(width, height, rgba))
}

/// The length of an entry's data: `ico::IconDirEntry::data().len()`.
#[verifier::external_body]
fn icon_entry_data_size(entry: &ico::IconDirEntry) -> (n: usize)
    ensures
        n == icon_entry_view(*entry).5.len(),
{
    entry.data().len()
}

/// A new, empty collection of icons: `ico::IconDir::new(ResourceType::Icon)`.
#[verifier::external_body]
fn new_icon_dir() -> (dir: ico::IconDir)
    ensures
        icon_dir_entries(dir) == Seq::<IconEntryView>::empty(),
        icon_dir_is_icon(dir),
{
    ico::IconDir::new(ico::ResourceType::Icon)
}

/// Appends an entry to a collection: `ico::IconDir::add_entry`, which
/// panics when the entry's resource type differs from the collection's.
#[verifier::external_body]
fn add_icon_entry(dir: &mut ico::IconDir, entry: ico::IconDirEntry)
    requires
        icon_dir_is_icon(*old(dir)),
        icon_entry_is_icon(entry),
    ensures
        icon_dir_entries(*final(dir)) == icon_dir_entries(*old(dir)).push(icon_entry_view(entry)),
        icon_dir_is_icon(*final(dir)),
{
    dir.add_entry(entry)
}

/// The number of entries of a collection: `ico::IconDir::entries().len()`.
#[verifier::external_body]
fn icon_entry_count(dir: &ico::IconDir) -> (n: usize)
    ensures
        n == icon_dir_entries(*dir).len(),
{
    dir.entries().len()
}

/// Writes a collection as an ICO file into memory: `ico::IconDir::write`
/// into a `Cursor<Vec<u8>>`, which refuses more than 65535 entries and adds
/// the data offsets as `u32` (hence the bound on them).
///
/// Claimed: writing into memory does not fail otherwise, and an icon
/// collection is written as [`ico_file_bytes`] says.
#[verifier::external_body]
fn write_icon_dir(dir: &ico::IconDir) -> (r: Result<Vec<u8>, std::io::Error>)
    requires
        icon_dir_entries(*dir).len() <= 65535 ==> ico_fits(icon_dir_entries(*dir)),
    ensures
        r is Err <==> icon_dir_entries(*dir).len() > 65535,
        r matches Ok(bytes) ==> (icon_dir_is_icon(*dir) ==> bytes@ == ico_file_bytes(
            icon_dir_entries(*dir),
        )),
{
    let mut buffer = std::io::Cursor::new(Vec::new());
    dir.write(&mut buffer).map(|()| buffer.into_inner())
}

/// The sizes an ICO file can be written for: both at least 1, and, when no
/// size of the list fits (one side under 16), an area that fits in a
/// `u32`, since the encoder of the single full-size entry multiplies the
/// sides as `u32`.
pub open spec fn ico_encodable(width: u32, height: u32) -> bool {
    &&& width >= 1
    &&& height >= 1
    &&& (width < 16 || height < 16) ==> width as nat * height as nat <= u32::MAX
}

proof fn lemma_large_images_fit_sizes(width: u32, height: u32)
    requires
        width >= 16,
        height >= 16,
    ensures
        fitting_sizes(ico_size_list(), width, height).len() > 0,
{
    let list = ico_size_list();
    assert(list.last() == 16u32);
}

/// Whether an ICO file is owed for a picture of this size: every entry is
/// at most 256 by 256 pixels (a picture of at least 16 by 16 gets only
/// entries of the list; a smaller one, a single entry of its own size).
pub open spec fn ico_success_owed(width: u32, height: u32) -> bool {
    (width <= 256 && height <= 256) || (width >= 16 && height >= 16)
}

/// A bound above every data length a directory can hold, at which running
/// sums stop.
pub open spec fn data_cap() -> nat {
    0x2_0000_0000
}

/// A running sum, stopped at [`data_cap`].
pub open spec fn capped(n: nat) -> nat {
    if n >= data_cap() { data_cap() } else { n }
}

fn add_capped(total: u64, d: usize) -> (t: u64)
    requires
        total <= data_cap(),
    ensures
        t == capped((total + d) as nat),
        t <= data_cap(),
{
    let cap: u64 = 0x2_0000_0000;
    let dd = d as u64;
    if dd >= cap || total + dd >= cap {
        cap
    } else {
        total + dd
    }
}

proof fn lemma_capped_add(a: nat, d: nat)
    ensures
        capped(capped(a) + d) == capped(a + d),
{
}

/// Encodes a picture as a multi-resolution ICO file, with the sizes Pillow
/// writes that fit in the picture, each entry the picture resized to that
/// size, or a single entry of the picture itself when no size fits.  Data
/// that overflow the directory's 32-bit offsets (where the `ico` crate
/// would overflow its sum) are refused.
pub fn encode_ico(pic: &Picture) -> (r: Result<Vec<u8>, ConvertError>)
    requires
        pic.wf(),
        ico_encodable(pic.width, pic.height),
    ensures
        step_view(r) == ico_outcome(pic.width, pic.height, pic.has_alpha, pic.pixels@),
        forall|k: int|
            0 <= k < ico_entries(pic.width, pic.height, pic.has_alpha, pic.pixels@).len() ==> (
            #[trigger] ico_entries(pic.width, pic.height, pic.has_alpha, pic.pixels@)[k]).0
                == ico_images(pic.width, pic.height, pic.has_alpha, pic.pixels@)[k].0 && ico_entries(
                pic.width,
                pic.height,
                pic.has_alpha,
                pic.pixels@,
            )[k].1 == ico_images(pic.width, pic.height, pic.has_alpha, pic.pixels@)[k].1,
        ico_success_owed(pic.width, pic.height) ==> r is Ok,
{
    let ghost images = ico_images(pic.width, pic.height, pic.has_alpha, pic.pixels@);
    let ghost entries = ico_entries(pic.width, pic.height, pic.has_alpha, pic.pixels@);
    let sizes = ico_sizes(pic.width, pic.height);
    proof {
        lemma_fitting_sizes_len(ico_size_list(), pic.width, pic.height);
    }
    let mut dir = new_icon_dir();
    let mut total: u64 = 0;
    let n = sizes.len();
    let mut i: usize = 0;
    assert(entries.take(0) =~= Seq::<IconEntryView>::empty());
    while i < n
        invariant
            pic.wf(),
            n == sizes@.len(),
            sizes@ == fitting_sizes(ico_size_list(), pic.width, pic.height),
            images == ico_images(pic.width, pic.height, pic.has_alpha, pic.pixels@),
            entries == ico_entries(pic.width, pic.height, pic.has_alpha, pic.pixels@),
            i <= n,
            n <= 7,
            icon_dir_is_icon(dir),
            n > 0 ==> icon_dir_entries(dir) == entries.take(i as int),
            n > 0 ==> forall|k: int| 0 <= k < i ==> (#[trigger] entries[k]).0 == images[k].0
                && entries[k].1 == images[k].1,
            n == 0 ==> icon_dir_entries(dir).len() == 0,
            total == capped(entries_data_len(icon_dir_entries(dir))),
            total <= i * 0x40_0000,
        decreases n - i,
    {
        let size = sizes[i];
        proof {
            lemma_fitting_sizes_bounded(ico_size_list(), pic.width, pic.height, i as int);
        }
        assert(size as nat * size as nat <= 65536) by (nonlinear_arith)
            requires
                size <= 256,
        ;
        let rgba = resized_rgba(pic, size);
        let ghost rv = rgba@;
        match icon_entry(size, size, rgba) {
            Err(e) => {
                return Err(ConvertError { step: ConvertStep::EncodeIcoEntry, detail: io_error_text(&e) });
            },
            Ok(entry) => {
                let ghost before = icon_dir_entries(dir);
                let d = icon_entry_data_size(&entry);
                proof {
                    lemma_capped_add(entries_data_len(before), d as nat);
                    assert(images[i as int] == (size, size, rv));
                    assert(entries[i as int] == icon_entry_encoding(size, size, rv));
                }
                total = add_capped(total, d);
                add_icon_entry(&mut dir, entry);
                proof {
                    let after = icon_dir_entries(dir);
                    assert(after.drop_last() =~= before);
                    assert(entries.take(i + 1) =~= before.push(entries[i as int]));
                }
            },
        }
        i = i + 1;
    }
    if n > 0 {
        assert(entries.take(n as int) =~= entries);
    }
    if icon_entry_count(&dir) == 0 {
        if pic.width >= 16 && pic.height >= 16 {
            proof {
                lemma_large_images_fit_sizes(pic.width, pic.height);
            }
        }
        let rgba = rgba_pixels(pic);
        let ghost rv = rgba@;
        match icon_entry(pic.width, pic.height, rgba) {
            Err(e) => {
                return Err(ConvertError { step: ConvertStep::EncodeIcoEntry, detail: io_error_text(&e) });
            },
            Ok(entry) => {
                let ghost before = icon_dir_entries(dir);
                let d = icon_entry_data_size(&entry);
                proof {
                    lemma_capped_add(entries_data_len(before), d as nat);
                }
                total = add_capped(total, d);
                add_icon_entry(&mut dir, entry);
                proof {
                    assert(icon_dir_entries(dir).drop_last() =~= before);
                    assert(entries =~= seq![icon_entry_encoding(pic.width, pic.height, rv)]);
                    assert(icon_dir_entries(dir) =~= entries);
                }
            },
        }
    }
    assert(icon_dir_entries(dir) == entries);
    let count = icon_entry_count(&dir);
    let header: u64 = 6 + 16 * count as u64;
    if header + total > 0xFFFF_FFFF {
        return Err(
            ConvertError {
                step: ConvertStep::WriteIco,
                detail: String::from_str("the entries' data overflow the ICO directory"),
            },
        );
    }
    match write_icon_dir(&dir) {
        Err(e) => Err(ConvertError { step: ConvertStep::WriteIco, detail: io_error_text(&e) }),
        Ok(bytes) => Ok(bytes),
    }
}

/// No more sizes fit than the list holds.
proof fn lemma_fitting_sizes_len(sizes: Seq<u32>, width: u32, height: u32)
    ensures
        fitting_sizes(sizes, width, height).len() <= sizes.len(),
    decreases sizes.len(),
{
    if sizes.len() > 0 {
        lemma_fitting_sizes_len(sizes.drop_last(), width, height);
    }
}

/// Every fitting size is one of the list's, hence between 16 and 256, and
/// fits in the image.
proof fn lemma_fitting_sizes_bounded(sizes: Seq<u32>, width: u32, height: u32, k: int)
    requires
        forall|j: int| 0 <= j < sizes.len() ==> 16 <= #[trigger] sizes[j] <= 256,
        0 <= k < fitting_sizes(sizes, width, height).len(),
    ensures
        16 <= fitting_sizes(sizes, width, height)[k] <= 256,
        fitting_sizes(sizes, width, height)[k] <= width,
        fitting_sizes(sizes, width, height)[k] <= height,
    decreases sizes.len(),
{
    let prev = fitting_sizes(sizes.drop_last(), width, height);
    if k < prev.len() {
        lemma_fitting_sizes_bounded(sizes.drop_last(), width, height, k);
    } else {
        assert(sizes.last() == sizes[sizes.len() - 1]);
    }
}

/// The result of a step, as bytes or the step that failed.
pub open spec fn step_view(r: Result<Vec<u8>, ConvertError>) -> Result<Seq<u8>, ConvertStep> {
    match r {
        Ok(bytes) => Ok(bytes@),
        Err(e) => Err(e.step),
    }
}

/// The result of encoding a picture in a format: for ICO, [`ico_outcome`];
/// for JPEG, the encoder's file for the RGB bytes at the clamped quality,
/// or a JPEG failure for a size it refuses; for the others, the `image`
/// crate's file, or a failure of that format where the crate refuses the
/// picture.
pub open spec fn encoding_result(
    width: u32,
    height: u32,
    has_alpha: bool,
    pixels: Seq<u8>,
    format: Format,
    quality: u8,
) -> Result<Seq<u8>, ConvertStep> {
    if format == Format::Ico {
        ico_outcome(width, height, has_alpha, pixels)
    } else if format == Format::Jpg {
        if jpeg_size_ok(width, height) {
            Ok(jpeg_encoding(width, height, rgb_bytes(pixels, has_alpha), jpeg_quality(quality)))
        } else {
            Err(ConvertStep::EncodeJpeg)
        }
    } else if image_accepts(width, height, has_alpha, pixels, format) {
        Ok(image_encoding(width, height, has_alpha, pixels, format))
    } else {
        Err(ConvertStep::EncodeImage(format))
    }
}

/// What encoding a picture in a format gives: exactly
/// [`encoding_result`].
pub open spec fn encoding_outcome(
    width: u32,
    height: u32,
    has_alpha: bool,
    pixels: Seq<u8>,
    format: Format,
    quality: u8,
    r: Result<Seq<u8>, ConvertStep>,
) -> bool {
    r == encoding_result(width, height, has_alpha, pixels, format, quality)
}

/// Encodes a picture in the output format: JPEG at the clamped quality,
/// ICO as [`encode_ico`] does, the others with the `image` crate.
pub fn encode(pic: &Picture, format: Format, quality: u8) -> (r: Result<Vec<u8>, ConvertError>)
    requires
        pic.wf(),
        format == Format::Ico ==> ico_encodable(pic.width, pic.height),
    ensures
        encoding_outcome(
            pic.width,
            pic.height,
            pic.has_alpha,
            pic.pixels@,
            format,
            quality,
            step_view(r),
        ),
        format == Format::Jpg ==> (r matches Ok(bytes) ==> (jpeg_segments_read(bytes@) matches Some(
            segs,
        ) && jpeg_layout_ok(segs) && segments_without_exif(segs).len() > 3)),
{
    match format {
        Format::Jpg => match encode_jpeg(pic.width, pic.height, rgb_of(pic), clamp_quality(quality)) {
            Ok(bytes) => Ok(bytes),
            Err(e) => Err(ConvertError { step: ConvertStep::EncodeJpeg, detail: image_error_text(&e) }),
        },
        Format::Ico => encode_ico(pic),
        other => match encode_in_format(pic, other) {
            Ok(bytes) => Ok(bytes),
            Err(e) => Err(
                ConvertError { step: ConvertStep::EncodeImage(other), detail: image_error_text(&e) },
            ),
        },
    }
}


/// The quality only affects JPEG: every other format gives the very same
/// result whatever quality is asked for.
pub proof fn lemma_quality_only_affects_jpeg(
    width: u32,
    height: u32,
    has_alpha: bool,
    pixels: Seq<u8>,
    format: Format,
    q1: u8,
    q2: u8,
    r1: Result<Seq<u8>, ConvertStep>,
    r2: Result<Seq<u8>, ConvertStep>,
)
    requires
        format != Format::Jpg,
    ensures
        encoding_outcome(width, height, has_alpha, pixels, format, q1, r1) && encoding_outcome(
            width,
            height,
            has_alpha,
            pixels,
            format,
            q2,
            r2,
        ) ==> r1 == r2,
{
}

/// Qualities outside 1..=100 are encoded as the nearest bound: quality 0
/// gives what quality 1 gives, and any quality above 100 what 100 gives.
pub proof fn lemma_out_of_range_quality_is_clamped(
    width: u32,
    height: u32,
    has_alpha: bool,
    pixels: Seq<u8>,
    q: u8,
    r1: Result<Seq<u8>, ConvertStep>,
    r2: Result<Seq<u8>, ConvertStep>,
)
    ensures
        q == 0 && encoding_outcome(width, height, has_alpha, pixels, Format::Jpg, q, r1)
            && encoding_outcome(width, height, has_alpha, pixels, Format::Jpg, 1, r2) ==> r1 == r2,
        q > 100 && encoding_outcome(width, height, has_alpha, pixels, Format::Jpg, q, r1)
            && encoding_outcome(width, height, has_alpha, pixels, Format::Jpg, 100, r2) ==> r1 == r2,
{
}

/// JPEG has no alpha channel: a picture with one is encoded as the picture
/// of its RGB bytes.
pub proof fn lemma_jpeg_drops_alpha(
    width: u32,
    height: u32,
    pixels: Seq<u8>,
    quality: u8,
    r: Result<Seq<u8>, ConvertStep>,
)
    ensures
        encoding_outcome(width, height, true, pixels, Format::Jpg, quality, r) == encoding_outcome(
            width,
            height,
            false,
            rgb_bytes(pixels, true),
            Format::Jpg,
            quality,
            r,
        ),
{
}

/// The quality asked for reaches the JPEG encoder unchanged when it lies
/// in 1..=100; 0 reaches it as 1 and anything above 100 as 100.
pub proof fn lemma_jpeg_quality_reaches_encoder(
    width: u32,
    height: u32,
    has_alpha: bool,
    pixels: Seq<u8>,
    quality: u8,
)
    requires
        1 <= width <= 65535,
        1 <= height <= 65535,
    ensures
        1 <= quality <= 100 ==> encoding_result(width, height, has_alpha, pixels, Format::Jpg, quality)
            == Ok::<Seq<u8>, ConvertStep>(
            jpeg_encoding(width, height, rgb_bytes(pixels, has_alpha), quality),
        ),
        quality == 0 ==> encoding_result(width, height, has_alpha, pixels, Format::Jpg, quality)
            == Ok::<Seq<u8>, ConvertStep>(
            jpeg_encoding(width, height, rgb_bytes(pixels, has_alpha), 1),
        ),
        quality > 100 ==> encoding_result(width, height, has_alpha, pixels, Format::Jpg, quality)
            == Ok::<Seq<u8>, ConvertStep>(
            jpeg_encoding(width, height, rgb_bytes(pixels, has_alpha), 100),
        ),
{
}

/// Clamping keeps every quality of 1..=100 and sends the others to the
/// nearest bound.
pub proof fn lemma_clamp_keeps_valid_qualities(quality: u8)
    ensures
        1 <= quality <= 100 ==> jpeg_quality(quality) == quality,
        quality == 0 ==> jpeg_quality(quality) == 1,
        quality > 100 ==> jpeg_quality(quality) == 100,
{
}

proof fn lemma_fitting_sizes_members(sizes: Seq<u32>, width: u32, height: u32)
    ensures
        forall|x: u32|
            fitting_sizes(sizes, width, height).contains(x) <==> sizes.contains(x) && x <= width && x
                <= height,
        (forall|i: int, j: int| 0 <= i < j < sizes.len() ==> sizes[i] > sizes[j]) ==> (forall|i: int, j: int|
            0 <= i < j < fitting_sizes(sizes, width, height).len() ==> fitting_sizes(sizes, width, height)[i]
                > fitting_sizes(sizes, width, height)[j]),
    decreases sizes.len(),
{
    if sizes.len() > 0 {
        let d = sizes.drop_last();
        lemma_fitting_sizes_members(d, width, height);
        let prev = fitting_sizes(d, width, height);
        let cur = fitting_sizes(sizes, width, height);
        let last = sizes.last();
        let fits = last <= width && last <= height;
        let tail = if fits { seq![last] } else { Seq::<u32>::empty() };
        assert(cur == prev + tail);
        assert(sizes == d.push(last));
        assert forall|x: u32| cur.contains(x) <==> sizes.contains(x) && x <= width && x <= height by {
            if cur.contains(x) {
                let i = choose|i: int| 0 <= i < cur.len() && cur[i] == x;
                if i < prev.len() {
                    assert(prev[i] == x);
                    assert(prev.contains(x));
                    assert(d.contains(x));
                    let j = choose|j: int| 0 <= j < d.len() && d[j] == x;
                    assert(sizes[j] == x);
                } else {
                    assert(tail[i - prev.len()] == x);
                    assert(sizes[sizes.len() - 1] == x);
                }
            }
            if sizes.contains(x) && x <= width && x <= height {
                let j = choose|j: int| 0 <= j < sizes.len() && sizes[j] == x;
                if j < d.len() {
                    assert(d[j] == x);
                    assert(d.contains(x));
                    assert(prev.contains(x));
                    let i = choose|i: int| 0 <= i < prev.len() && prev[i] == x;
                    assert(cur[i] == x);
                } else {
                    assert(last == x);
                    assert(cur[cur.len() - 1] == x);
                }
            }
        }
        if forall|i: int, j: int| 0 <= i < j < sizes.len() ==> sizes[i] > sizes[j] {
            assert forall|i: int, j: int| 0 <= i < j < d.len() implies d[i] > d[j] by {
                assert(d[i] == sizes[i] && d[j] == sizes[j]);
            }
            assert forall|i: int, j: int| 0 <= i < j < cur.len() implies cur[i] > cur[j] by {
                assert(cur[i] == prev[i]);
                if j < prev.len() {
                    assert(cur[j] == prev[j]);
                } else {
                    assert(cur[j] == last);
                    assert(prev.contains(prev[i]));
                    assert(d.contains(prev[i]));
                    let k = choose|k: int| 0 <= k < d.len() && d[k] == prev[i];
                    assert(sizes[k] == d[k]);
                    assert(sizes[k] > sizes[sizes.len() - 1]);
                }
            }
        }
    }
}

/// The ICO sizes of a picture are exactly the sizes of the list that fit
/// in both its sides, largest first.
pub proof fn lemma_ico_sizes_are_those_that_fit(width: u32, height: u32)
    ensures
        forall|x: u32|
            fitting_sizes(ico_size_list(), width, height).contains(x) <==> (x == 256 || x == 128 || x
                == 64 || x == 48 || x == 32 || x == 24 || x == 16) && x <= width && x <= height,
        forall|i: int, j: int|
            0 <= i < j < fitting_sizes(ico_size_list(), width, height).len() ==> fitting_sizes(
                ico_size_list(),
                width,
                height,
            )[i] > fitting_sizes(ico_size_list(), width, height)[j],
{
    let l = ico_size_list();
    assert forall|x: u32| l.contains(x) <==> (x == 256 || x == 128 || x == 64 || x == 48 || x == 32
        || x == 24 || x == 16) by {
        if x == 256 { assert(l[0] == x); }
        if x == 128 { assert(l[1] == x); }
        if x == 64 { assert(l[2] == x); }
        if x == 48 { assert(l[3] == x); }
        if x == 32 { assert(l[4] == x); }
        if x == 24 { assert(l[5] == x); }
        if x == 16 { assert(l[6] == x); }
        if l.contains(x) {
            let i = choose|i: int| 0 <= i < l.len() && l[i] == x;
            assert(i == 0 || i == 1 || i == 2 || i == 3 || i == 4 || i == 5 || i == 6);
        }
    }
    assert forall|i: int, j: int| 0 <= i < j < l.len() implies l[i] > l[j] by {}
    lemma_fitting_sizes_members(l, width, height);
    assert forall|x: u32|
        fitting_sizes(l, width, height).contains(x) <==> (x == 256 || x == 128 || x == 64 || x == 48
            || x == 32 || x == 24 || x == 16) && x <= width && x <= height by {
        assert(fitting_sizes(l, width, height).contains(x) <==> l.contains(x) && x <= width && x
            <= height);
    }
}

} // verus!
