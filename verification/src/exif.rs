//! Embedding EXIF metadata into encoded JPEG, PNG and WebP files with the
//! `img-parts` crate; GIF, TIFF, BMP and ICO files are written without it.
use vstd::prelude::*;
use crate::cli::Format;
use crate::encode::{io_error_text, ConvertError, ConvertStep};

verus! {

#[verifier::external_type_specification]
#[verifier::external_body]
pub struct ExPartsError(img_parts::Error);

#[verifier::external_type_specification]
#[verifier::external_body]
pub struct ExJpeg(img_parts::jpeg::Jpeg);

#[verifier::external_type_specification]
#[verifier::external_body]
pub struct ExPng(img_parts::png::Png);

#[verifier::external_type_specification]
#[verifier::external_body]
pub struct ExWebP(img_parts::webp::WebP);

/// The explanation `img_parts::Error` gives through `Display`; its wording
/// is the crate's own, so nothing is claimed of it.
#[verifier::external_body]
fn parts_error_text(e: &img_parts::Error) -> (text: String) {
    e.to_string()
}

/// A JPEG segment as plain values: marker, contents, and the entropy-coded
/// data that follows a start-of-scan segment.
pub type SegmentView = (u8, Seq<u8>, Seq<u8>);

/// The prefix of the contents of an EXIF segment or chunk: `Exif\0\0`.
pub open spec fn exif_prefix() -> Seq<u8> {
    seq![0x45u8, 0x78u8, 0x69u8, 0x66u8, 0u8, 0u8]
}

/// Whether a JPEG segment holds EXIF: an APP1 segment whose contents start
/// with `Exif\0\0`.
pub open spec fn is_exif_segment(s: SegmentView) -> bool {
    s.0 == 0xE1u8 && s.1.len() >= 6 && s.1.take(6) == exif_prefix()
}

/// The segments that hold no EXIF, in order.
pub open spec fn segments_without_exif(segs: Seq<SegmentView>) -> Seq<SegmentView>
    decreases segs.len(),
{
    if segs.len() == 0 {
        segs
    } else if is_exif_segment(segs.last()) {
        segments_without_exif(segs.drop_last())
    } else {
        segments_without_exif(segs.drop_last()).push(segs.last())
    }
}

/// The EXIF segment the crate builds for a payload.
pub open spec fn exif_segment(exif: Seq<u8>) -> SegmentView {
    (0xE1u8, exif_prefix() + exif, Seq::empty())
}

/// Whether a JPEG marker is followed by a length field
/// (`img_parts::jpeg::markers::has_length`): RST0..RST7, APP0..APP15,
/// SOF0..SOF15, SOS, COM, DQT and DRI.
pub open spec fn jpeg_has_length(m: u8) -> bool {
    (0xD0u8 <= m <= 0xD7u8) || (0xE0u8 <= m <= 0xEFu8) || (0xC0u8 <= m <= 0xCFu8) || m == 0xDAu8
        || m == 0xFEu8 || m == 0xDBu8 || m == 0xDDu8
}

/// Whether every segment fits its length field: at most 65533 bytes of
/// contents after a length, none without one.
pub open spec fn jpeg_segments_sized(segs: Seq<SegmentView>) -> bool {
    forall|i: int|
        0 <= i < segs.len() ==> (jpeg_has_length(#[trigger] segs[i].0) ==> segs[i].1.len() <= 65533)
            && (!jpeg_has_length(segs[i].0) ==> segs[i].1.len() == 0)
}

/// Whether every segment's contents fit a 16-bit length field.
pub open spec fn jpeg_segments_fit(segs: Seq<SegmentView>) -> bool {
    forall|i: int| 0 <= i < segs.len() ==> (#[trigger] segs[i]).1.len() <= 65533
}

/// The layout of a JPEG that `Jpeg::from_bytes` reads back exactly as it
/// was written: sized segments, no `0xFF` or end-of-image marker, and one
/// start-of-scan segment, the last, carrying the entropy-coded data (which
/// ends the file).
pub open spec fn jpeg_layout_ok(segs: Seq<SegmentView>) -> bool {
    &&& segs.len() > 0
    &&& jpeg_segments_sized(segs)
    &&& forall|i: int| 0 <= i < segs.len() ==> (#[trigger] segs[i]).0 != 0xFFu8 && segs[i].0 != 0xD9u8
    &&& forall|i: int|
        0 <= i < segs.len() - 1 ==> (#[trigger] segs[i]).0 != 0xDAu8 && segs[i].2.len() == 0
    &&& segs.last().0 == 0xDAu8
    &&& segs.last().2.len() > 0
}

/// The segments of a JPEG, in order (`Jpeg::segments`).
pub uninterp spec fn jpeg_segments(j: img_parts::jpeg::Jpeg) -> Seq<SegmentView>;

/// The segments `img_parts::jpeg::Jpeg::from_bytes` reads from bytes, if
/// they are a JPEG it can read.
pub uninterp spec fn jpeg_segments_read(bytes: Seq<u8>) -> Option<Seq<SegmentView>>;

/// The bytes `Jpeg::encoder().write_to` writes for a JPEG with these
/// segments.
pub uninterp spec fn jpeg_written(segs: Seq<SegmentView>) -> Seq<u8>;

/// Reads a JPEG with `img_parts::jpeg::Jpeg::from_bytes`; a segment with a
/// length field holds the 16-bit length minus 2 bytes, one without holds
/// nothing.
#[verifier::external_body]
fn parse_jpeg(bytes: Vec<u8>) -> (r: Result<img_parts::jpeg::Jpeg, img_parts::Error>)
    ensures
        (r is Ok) == (jpeg_segments_read(bytes@) is Some),
        r matches Ok(j) ==> jpeg_segments_read(bytes@) == Some(jpeg_segments(j)),
        r matches Ok(j) ==> jpeg_segments_sized(jpeg_segments(j)),
{
    img_parts::jpeg::Jpeg::from_bytes(img_parts::Bytes::from(bytes))
}

/// Removes the EXIF segments of a JPEG with `ImageEXIF::set_exif(None)`,
/// which retains the segments whose `exif()` is `None`.
#[verifier::external_body]
fn clear_jpeg_exif(j: &mut img_parts::jpeg::Jpeg)
    ensures
        jpeg_segments(*final(j)) == segments_without_exif(jpeg_segments(*old(j))),
{
    img_parts::ImageEXIF::set_exif(j, None)
}

/// Counts the segments of a JPEG: `Jpeg::segments().len()`.
#[verifier::external_body]
fn count_jpeg_segments(j: &img_parts::jpeg::Jpeg) -> (n: usize)
    ensures
        n == jpeg_segments(*j).len(),
{
    j.segments().len()
}

/// Sets the EXIF of a JPEG with `ImageEXIF::set_exif(Some(..))`, which
/// removes the EXIF segments and inserts the new EXIF segment at index 3,
/// panicking when fewer than three segments are left.
#[verifier::external_body]
fn set_jpeg_exif(j: &mut img_parts::jpeg::Jpeg, exif: &[u8])
    requires
        segments_without_exif(jpeg_segments(*old(j))).len() >= 3,
    ensures
        jpeg_segments(*final(j)) == segments_without_exif(jpeg_segments(*old(j))).insert(
            3,
            exif_segment(exif@),
        ),
{
    img_parts::ImageEXIF::set_exif(j, Some(img_parts::Bytes::copy_from_slice(exif)))
}

/// Writes a JPEG into memory with `Jpeg::encoder().write_to`: the start of
/// image, then each segment as marker, 16-bit length (which panics above
/// 65535, hence the bound on the contents), contents and entropy-coded
/// data.  Writing into a `Vec` does not fail, and `Jpeg::from_bytes` reads
/// back the segments of a JPEG laid out as `jpeg_layout_ok` says.
#[verifier::external_body]
fn jpeg_to_bytes(j: img_parts::jpeg::Jpeg) -> (r: Result<Vec<u8>, std::io::Error>)
    requires
        jpeg_segments_fit(jpeg_segments(j)),
    ensures
        r is Ok,
        r matches Ok(bytes) ==> bytes@ == jpeg_written(jpeg_segments(j)),
        r matches Ok(bytes) ==> (jpeg_layout_ok(jpeg_segments(j)) ==> jpeg_segments_read(bytes@)
            == Some(jpeg_segments(j))),
{
    let mut out = Vec::new();
    j.encoder().write_to(&mut out).map(|_| out)
}

/// A PNG chunk as plain values: its four-byte type and its contents.
pub type ChunkView = (Seq<u8>, Seq<u8>);

/// The type of the PNG chunk that holds EXIF: `eXIf`.
pub open spec fn exif_chunk_type() -> Seq<u8> {
    seq![0x65u8, 0x58u8, 0x49u8, 0x66u8]
}

/// Whether a PNG chunk holds EXIF.
pub open spec fn is_exif_chunk(c: ChunkView) -> bool {
    c.0 == exif_chunk_type()
}

/// The chunks that are not `eXIf` chunks, in order.
pub open spec fn chunks_without_exif(chunks: Seq<ChunkView>) -> Seq<ChunkView>
    decreases chunks.len(),
{
    if chunks.len() == 0 {
        chunks
    } else if is_exif_chunk(chunks.last()) {
        chunks_without_exif(chunks.drop_last())
    } else {
        chunks_without_exif(chunks.drop_last()).push(chunks.last())
    }
}

/// The type of the PNG chunk that ends the image: `IEND`.
pub open spec fn end_chunk_type() -> Seq<u8> {
    seq![0x49u8, 0x45u8, 0x4Eu8, 0x44u8]
}

/// The layout of PNG chunks that `Png::from_bytes` reads back exactly as
/// they were written: four-byte types, contents whose length fits 32 bits,
/// and no `IEND` chunk but the last.
pub open spec fn png_layout_ok(chunks: Seq<ChunkView>) -> bool {
    forall|i: int|
        0 <= i < chunks.len() ==> (#[trigger] chunks[i]).0.len() == 4 && chunks[i].1.len()
            <= 0xFFFF_FFFF && (i < chunks.len() - 1 ==> chunks[i].0 != end_chunk_type())
}

/// The chunks of a PNG, in order (`Png::chunks`).
pub uninterp spec fn png_chunks(p: img_parts::png::Png) -> Seq<ChunkView>;

/// The chunks `img_parts::png::Png::from_bytes` reads from bytes, if they
/// are a PNG it can read.
pub uninterp spec fn png_chunks_read(bytes: Seq<u8>) -> Option<Seq<ChunkView>>;

/// The bytes `Png::encoder().write_to` writes for a PNG with these chunks.
pub uninterp spec fn png_written(chunks: Seq<ChunkView>) -> Seq<u8>;

/// Reads a PNG with `img_parts::png::Png::from_bytes`, which stops after
/// an `IEND` chunk and reads 32-bit chunk lengths.
#[verifier::external_body]
fn parse_png(bytes: Vec<u8>) -> (r: Result<img_parts::png::Png, img_parts::Error>)
    ensures
        (r is Ok) == (png_chunks_read(bytes@) is Some),
        r matches Ok(p) ==> png_chunks_read(bytes@) == Some(png_chunks(p)),
        r matches Ok(p) ==> png_layout_ok(png_chunks(p)),
{
    img_parts::png::Png::from_bytes(img_parts::Bytes::from(bytes))
}

/// Removes the `eXIf` chunks of a PNG with `ImageEXIF::set_exif(None)`.
#[verifier::external_body]
fn clear_png_exif(p: &mut img_parts::png::Png)
    ensures
        png_chunks(*final(p)) == chunks_without_exif(png_chunks(*old(p))),
{
    img_parts::ImageEXIF::set_exif(p, None)
}

/// Counts the chunks of a PNG: `Png::chunks().len()`.
#[verifier::external_body]
fn count_png_chunks(p: &img_parts::png::Png) -> (n: usize)
    ensures
        n == png_chunks(*p).len(),
{
    p.chunks().len()
}

/// Sets the EXIF of a PNG with `ImageEXIF::set_exif(Some(..))`, which
/// removes the `eXIf` chunks and inserts an `eXIf` chunk holding the
/// payload before the last chunk, panicking when no chunk is left.
#[verifier::external_body]
fn set_png_exif(p: &mut img_parts::png::Png, exif: &[u8])
    requires
        chunks_without_exif(png_chunks(*old(p))).len() >= 1,
    ensures
        ({
            let kept = chunks_without_exif(png_chunks(*old(p)));
            png_chunks(*final(p)) == kept.insert(kept.len() - 1, (exif_chunk_type(), exif@))
        }),
{
    img_parts::ImageEXIF::set_exif(p, Some(img_parts::Bytes::copy_from_slice(exif)))
}

/// Writes a PNG into memory with `Png::encoder().write_to`: the signature,
/// then each chunk as 32-bit length (which panics above `u32::MAX`), type,
/// contents and CRC (every chunk of the crate carries the CRC of its type
/// and contents).  Writing into a `Vec` does not fail, and `Png::from_bytes`
/// reads back the chunks of a PNG laid out as `png_layout_ok` says.
#[verifier::external_body]
fn png_to_bytes(p: img_parts::png::Png) -> (r: Result<Vec<u8>, std::io::Error>)
    requires
        png_layout_ok(png_chunks(p)),
    ensures
        r is Ok,
        r matches Ok(bytes) ==> bytes@ == png_written(png_chunks(p)),
        r matches Ok(bytes) ==> png_chunks_read(bytes@) == Some(png_chunks(p)),
{
    let mut out = Vec::new();
    p.encoder().write_to(&mut out).map(|_| out)
}

proof fn lemma_segments_without_exif_idempotent(segs: Seq<SegmentView>)
    ensures
        segments_without_exif(segments_without_exif(segs)) == segments_without_exif(segs),
    decreases segs.len(),
{
    if segs.len() > 0 {
        lemma_segments_without_exif_idempotent(segs.drop_last());
        let prev = segments_without_exif(segs.drop_last());
        if !is_exif_segment(segs.last()) {
            assert(prev.push(segs.last()).drop_last() =~= prev);
        }
    }
}

proof fn lemma_chunks_without_exif_idempotent(chunks: Seq<ChunkView>)
    ensures
        chunks_without_exif(chunks_without_exif(chunks)) == chunks_without_exif(chunks),
    decreases chunks.len(),
{
    if chunks.len() > 0 {
        lemma_chunks_without_exif_idempotent(chunks.drop_last());
        let prev = chunks_without_exif(chunks.drop_last());
        if !is_exif_chunk(chunks.last()) {
            assert(prev.push(chunks.last()).drop_last() =~= prev);
        }
    }
}

/// The WebP `img_parts::webp::WebP::from_bytes` reads from bytes, if any.
///
/// A WebP is kept whole: its RIFF chunks may nest, so they are not
/// spelled out as plain values.
pub uninterp spec fn parsed_webp(bytes: Seq<u8>) -> Option<img_parts::webp::WebP>;

/// Whether a WebP has a `VP8X` chunk.
pub uninterp spec fn webp_has_vp8x(w: img_parts::webp::WebP) -> bool;

/// Whether a WebP has a lossy `VP8 ` chunk.
pub uninterp spec fn webp_has_vp8(w: img_parts::webp::WebP) -> bool;

/// The size `WebP::dimensions` reads from a WebP's chunks, if any.
pub uninterp spec fn webp_size(w: img_parts::webp::WebP) -> Option<(u32, u32)>;

/// The data of the first lossy `VP8 ` chunk of a WebP, if it has one that
/// holds data.
pub uninterp spec fn webp_vp8_data(w: img_parts::webp::WebP) -> Option<Seq<u8>>;

/// The length of a WebP's RIFF contents as `RiffContent::len` adds it up
/// when writing: every subchunk with its 8-byte header and padding.
pub uninterp spec fn webp_riff_size(w: img_parts::webp::WebP) -> nat;

/// A WebP after `ImageEXIF::set_exif(Some(exif))`.
pub uninterp spec fn webp_with_exif(w: img_parts::webp::WebP, exif: Seq<u8>) -> img_parts::webp::WebP;

/// The EXIF payload `ImageEXIF::exif` reads from a WebP: the data of its
/// first `EXIF` chunk after `Exif\0\0`, if it starts so.
pub uninterp spec fn webp_exif(w: img_parts::webp::WebP) -> Option<Seq<u8>>;

/// The bytes `WebP::encoder().write_to` writes for a WebP.
pub uninterp spec fn webp_bytes(w: img_parts::webp::WebP) -> Seq<u8>;

/// Reads a WebP with `img_parts::webp::WebP::from_bytes`; the RIFF contents
/// it reads lie within the bytes after the 8-byte RIFF header, a `VP8 `
/// chunk always holds data, and writing the WebP read gives bytes that read
/// back as the same WebP (`RIFF`, `LIST` and `seqt` chunks are read as lists
/// and every other chunk as data, each written back with its length and
/// padding).
#[verifier::external_body]
fn parse_webp(bytes: Vec<u8>) -> (r: Result<img_parts::webp::WebP, img_parts::Error>)
    ensures
        (r is Ok) == (parsed_webp(bytes@) is Some),
        r matches Ok(w) ==> parsed_webp(bytes@) == Some(w),
        r matches Ok(w) ==> webp_riff_size(w) + 8 <= bytes@.len(),
        r matches Ok(w) ==> (webp_has_vp8(w) <==> webp_vp8_data(w) is Some),
        r matches Ok(w) ==> parsed_webp(webp_bytes(w)) == Some(w),
{
    img_parts::webp::WebP::from_bytes(img_parts::Bytes::from(bytes))
}

/// Whether a WebP has a `VP8X` chunk: `WebP::has_chunk(CHUNK_VP8X)`.
#[verifier::external_body]
fn webp_has_extended_header(w: &img_parts::webp::WebP) -> (b: bool)
    ensures
        b == webp_has_vp8x(*w),
{
    w.has_chunk(img_parts::webp::CHUNK_VP8X)
}

/// Whether a WebP has a lossy chunk: `WebP::has_chunk(CHUNK_VP8)`.
#[verifier::external_body]
fn webp_has_lossy_chunk(w: &img_parts::webp::WebP) -> (b: bool)
    ensures
        b == webp_has_vp8(*w),
{
    w.has_chunk(img_parts::webp::CHUNK_VP8)
}

/// The data of the first `VP8 ` chunk of a WebP:
/// `WebP::chunk_by_id(CHUNK_VP8)` and `RiffContent::data`.
#[verifier::external_body]
fn webp_lossy_data(w: &img_parts::webp::WebP) -> (d: Option<Vec<u8>>)
    ensures
        d is Some <==> webp_vp8_data(*w) is Some,
        d matches Some(v) ==> webp_vp8_data(*w) == Some(v@),
{
    match w.chunk_by_id(img_parts::webp::CHUNK_VP8) {
        Some(chunk) => match chunk.content().data() {
            Some(data) => Some(data.to_vec()),
            None => None,
        },
        None => None,
    }
}

/// Reads the size of a WebP with `WebP::dimensions`, which may panic on the
/// header of a malformed lossy chunk, hence only asked of a WebP without
/// one.
#[verifier::external_body]
fn webp_dimensions(w: &img_parts::webp::WebP) -> (size: Option<(u32, u32)>)
    requires
        !webp_has_vp8(*w),
    ensures
        size == webp_size(*w),
{
    w.dimensions()
}

/// Sets the EXIF of a WebP with `ImageEXIF::set_exif(Some(..))`: the
/// `EXIF` chunks are replaced by one data chunk holding `Exif\0\0` and the
/// payload, which `ImageEXIF::exif` then reads; the chunks added are data
/// chunks, so a WebP that read back as itself still does.
/// Unless the WebP already has a `VP8X` chunk, the crate adds one of 18
/// bytes and unwraps `WebP::dimensions` for it, which reads the header of
/// the `VP8 ` chunk if there is one (panicking on a malformed one, and
/// subtracting 1 from its width and height) and else the lossless size.
#[verifier::external_body]
fn set_webp_exif(w: &mut img_parts::webp::WebP, exif: &[u8])
    requires
        webp_accepts_exif(*old(w)),
    ensures
        *final(w) == webp_with_exif(*old(w), exif@),
        webp_riff_size(*final(w)) <= webp_riff_size(*old(w)) + exif@.len() + 40,
        webp_exif(*final(w)) == Some(exif@),
        parsed_webp(webp_bytes(*old(w))) == Some(*old(w)) ==> parsed_webp(webp_bytes(*final(w)))
            == Some(*final(w)),
{
    img_parts::ImageEXIF::set_exif(w, Some(img_parts::Bytes::copy_from_slice(exif)))
}

/// Writes a WebP into memory with `WebP::encoder().write_to`, which adds
/// up the RIFF lengths in 32 bits; writing into a `Vec` does not fail.
#[verifier::external_body]
fn webp_to_bytes(w: img_parts::webp::WebP) -> (r: Result<Vec<u8>, std::io::Error>)
    requires
        webp_riff_size(w) <= 0xFFFF_FFFF,
    ensures
        r is Ok,
        r matches Ok(bytes) ==> bytes@ == webp_bytes(w),
{
    let mut out = Vec::new();
    w.encoder().write_to(&mut out).map(|_| out)
}

/// Whether the data of a lossy `VP8 ` chunk starts with a well-formed key
/// frame header: at least 10 bytes, the key frame bit clear, the start code
/// `9d 01 2a`, and a 14-bit width and height that are not zero.
pub open spec fn vp8_header_ok(d: Seq<u8>) -> bool {
    &&& d.len() >= 10
    &&& d[0] % 2 == 0
    &&& d[3] == 0x9Du8 && d[4] == 0x01u8 && d[5] == 0x2Au8
    &&& d[6] + 256 * (d[7] % 64) > 0
    &&& d[8] + 256 * (d[9] % 64) > 0
}

/// Whether a WebP can take EXIF metadata: it has a `VP8X` chunk, or a
/// lossy chunk with a well-formed header, or no lossy chunk and a readable
/// lossless size.
pub open spec fn webp_accepts_exif(w: img_parts::webp::WebP) -> bool {
    ||| webp_has_vp8x(w)
    ||| (webp_has_vp8(w) && (webp_vp8_data(w) matches Some(d) && vp8_header_ok(d)))
    ||| (!webp_has_vp8(w) && webp_size(w) is Some)
}

/// Checks the key frame header of a lossy `VP8 ` chunk's data.
pub fn vp8_header_valid(d: &[u8]) -> (ok: bool)
    ensures
        ok == vp8_header_ok(d@),
{
    if d.len() < 10 {
        return false;
    }
    let width: u32 = d[6] as u32 + 256 * (d[7] % 64) as u32;
    let height: u32 = d[8] as u32 + 256 * (d[9] % 64) as u32;
    d[0] % 2 == 0 && d[3] == 0x9D && d[4] == 0x01 && d[5] == 0x2A && width > 0 && height > 0
}

/// Whether a payload fits the container of `format`: an APP1 segment of a
/// JPEG holds at most 65527 bytes after `Exif\0\0`, a PNG chunk at most
/// `u32::MAX` bytes, and a WebP's RIFF lengths are 32-bit.
pub open spec fn exif_fits(encoded: Seq<u8>, format: Format, exif: Seq<u8>) -> bool {
    match format {
        Format::Jpg => exif.len() <= 65527,
        Format::Png => exif.len() <= 0xFFFF_FFFF,
        Format::Webp => encoded.len() + exif.len() <= 0xFFFF_FF00,
        _ => true,
    }
}

/// The result of embedding EXIF metadata into an encoded file: for JPEG,
/// PNG and WebP, the file read back, its EXIF replaced, and written again;
/// the file unchanged for the other formats.  A file that has no place for
/// EXIF (a JPEG with fewer than three segments or a PNG with no chunk once
/// their EXIF is removed, a WebP without `VP8X` chunk whose size cannot be
/// read) is refused, and so is a payload too large for the container.
pub open spec fn embedding_outcome(
    encoded: Seq<u8>,
    format: Format,
    exif: Seq<u8>,
    r: Result<Seq<u8>, ConvertStep>,
) -> bool {
    match format {
        Format::Jpg => match jpeg_segments_read(encoded) {
            None => r == Err::<Seq<u8>, ConvertStep>(ConvertStep::ParseJpeg),
            Some(segs) => {
                let kept = segments_without_exif(segs);
                if kept.len() < 3 || !exif_fits(encoded, format, exif) {
                    r == Err::<Seq<u8>, ConvertStep>(ConvertStep::WriteExif)
                } else {
                    r == Ok::<Seq<u8>, ConvertStep>(jpeg_written(kept.insert(3, exif_segment(exif))))
                }
            },
        },
        Format::Png => match png_chunks_read(encoded) {
            None => r == Err::<Seq<u8>, ConvertStep>(ConvertStep::ParsePng),
            Some(chunks) => {
                let kept = chunks_without_exif(chunks);
                if kept.len() < 1 || !exif_fits(encoded, format, exif) {
                    r == Err::<Seq<u8>, ConvertStep>(ConvertStep::WriteExif)
                } else {
                    r == Ok::<Seq<u8>, ConvertStep>(
                        png_written(kept.insert(kept.len() - 1, (exif_chunk_type(), exif))),
                    )
                }
            },
        },
        Format::Webp => match parsed_webp(encoded) {
            None => r == Err::<Seq<u8>, ConvertStep>(ConvertStep::ParseWebp),
            Some(w) => if !webp_accepts_exif(w) || !exif_fits(encoded, format, exif) {
                r == Err::<Seq<u8>, ConvertStep>(ConvertStep::WriteExif)
            } else {
                r == Ok::<Seq<u8>, ConvertStep>(webp_bytes(webp_with_exif(w, exif)))
            },
        },
        _ => r == Ok::<Seq<u8>, ConvertStep>(encoded),
    }
}

/// What reading the embedded file back with `img-parts` gives: for a PNG,
/// the chunks written; for a WebP, the WebP written, whose EXIF is the
/// payload; for a JPEG laid out as `jpeg_layout_ok` says with its start of
/// scan after the new EXIF segment, the segments written.
pub open spec fn exif_read_back(encoded: Seq<u8>, format: Format, exif: Seq<u8>, out: Seq<u8>) -> bool {
    match format {
        Format::Jpg => match jpeg_segments_read(encoded) {
            Some(segs) => {
                let kept = segments_without_exif(segs);
                jpeg_layout_ok(segs) && kept.len() > 3 ==> jpeg_segments_read(out) == Some(
                    kept.insert(3, exif_segment(exif)),
                )
            },
            None => true,
        },
        Format::Png => match png_chunks_read(encoded) {
            Some(chunks) => {
                let kept = chunks_without_exif(chunks);
                png_chunks_read(out) == Some(kept.insert(kept.len() - 1, (exif_chunk_type(), exif)))
            },
            None => true,
        },
        Format::Webp => match parsed_webp(encoded) {
            Some(w) => parsed_webp(out) == Some(webp_with_exif(w, exif)) && webp_exif(
                webp_with_exif(w, exif),
            ) == Some(exif),
            None => true,
        },
        _ => true,
    }
}

/// The view of an embedding result: the bytes, or the failed step.
pub open spec fn embedding_view(r: Result<Vec<u8>, ConvertError>) -> Result<Seq<u8>, ConvertStep> {
    match r {
        Ok(bytes) => Ok(bytes@),
        Err(e) => Err(e.step),
    }
}

/// Embeds EXIF metadata into a file encoded in `format`; GIF, TIFF, BMP and
/// ICO carry no EXIF container and are returned unchanged.
pub fn embed_exif(encoded: Vec<u8>, format: Format, exif: &[u8]) -> (r: Result<Vec<u8>, ConvertError>)
    ensures
        embedding_outcome(encoded@, format, exif@, embedding_view(r)),
        r matches Ok(out) ==> exif_read_back(encoded@, format, exif@, out@),
{
    match format {
        Format::Jpg => {
            match parse_jpeg(encoded.clone()) {
                Err(e) => Err(ConvertError { step: ConvertStep::ParseJpeg, detail: parts_error_text(&e) }),
                Ok(jpeg) => {
                    let mut jpeg = jpeg;
                    let ghost read = jpeg_segments(jpeg);
                    clear_jpeg_exif(&mut jpeg);
                    if exif.len() > 65527 {
                        return Err(
                            ConvertError {
                                step: ConvertStep::WriteExif,
                                detail: String::from_str("the EXIF metadata is too large for a JPEG segment"),
                            },
                        );
                    }
                    if count_jpeg_segments(&jpeg) < 3 {
                        return Err(
                            ConvertError {
                                step: ConvertStep::WriteExif,
                                detail: String::from_str("the JPEG image has too few segments"),
                            },
                        );
                    }
                    proof {
                        lemma_segments_without_exif_idempotent(read);
                        lemma_without_exif_sized(read);
                    }
                    set_jpeg_exif(&mut jpeg, exif);
                    proof {
                        let kept = segments_without_exif(read);
                        lemma_insert_exif_fits(kept, exif@);
                        if jpeg_layout_ok(read) && kept.len() > 3 {
                            lemma_insert_exif_layout(read, exif@);
                        }
                    }
                    match jpeg_to_bytes(jpeg) {
                        Ok(bytes) => Ok(bytes),
                        Err(e) => Err(ConvertError { step: ConvertStep::WriteExif, detail: io_error_text(&e) }),
                    }
                },
            }
        },
        Format::Png => {
            match parse_png(encoded.clone()) {
                Err(e) => Err(ConvertError { step: ConvertStep::ParsePng, detail: parts_error_text(&e) }),
                Ok(png) => {
                    let mut png = png;
                    let ghost read = png_chunks(png);
                    clear_png_exif(&mut png);
                    if exif.len() as u64 > 0xFFFF_FFFF {
                        return Err(
                            ConvertError {
                                step: ConvertStep::WriteExif,
                                detail: String::from_str("the EXIF metadata is too large for a PNG chunk"),
                            },
                        );
                    }
                    if count_png_chunks(&png) < 1 {
                        return Err(
                            ConvertError {
                                step: ConvertStep::WriteExif,
                                detail: String::from_str("the PNG image has no chunk"),
                            },
                        );
                    }
                    proof {
                        lemma_chunks_without_exif_idempotent(read);
                        lemma_png_insert_layout(read, exif@);
                    }
                    set_png_exif(&mut png, exif);
                    match png_to_bytes(png) {
                        Ok(bytes) => Ok(bytes),
                        Err(e) => Err(ConvertError { step: ConvertStep::WriteExif, detail: io_error_text(&e) }),
                    }
                },
            }
        },
        Format::Webp => {
            match parse_webp(encoded.clone()) {
                Err(e) => Err(ConvertError { step: ConvertStep::ParseWebp, detail: parts_error_text(&e) }),
                Ok(webp) => {
                    let mut webp = webp;
                    let ready = if webp_has_extended_header(&webp) {
                        true
                    } else if webp_has_lossy_chunk(&webp) {
                        match webp_lossy_data(&webp) {
                            Some(data) => vp8_header_valid(data.as_slice()),
                            None => false,
                        }
                    } else {
                        webp_dimensions(&webp).is_some()
                    };
                    if exif.len() > 0xFFFF_FF00 || encoded.len() > 0xFFFF_FF00 - exif.len() {
                        return Err(
                            ConvertError {
                                step: ConvertStep::WriteExif,
                                detail: String::from_str("the EXIF metadata is too large for a WebP image"),
                            },
                        );
                    }
                    if !ready {
                        return Err(
                            ConvertError {
                                step: ConvertStep::WriteExif,
                                detail: String::from_str("the size of the WebP image cannot be read"),
                            },
                        );
                    }
                    set_webp_exif(&mut webp, exif);
                    match webp_to_bytes(webp) {
                        Ok(bytes) => Ok(bytes),
                        Err(e) => Err(ConvertError { step: ConvertStep::WriteExif, detail: io_error_text(&e) }),
                    }
                },
            }
        },
        _ => Ok(encoded),
    }
}

/// Removing EXIF segments keeps the segments sized.
proof fn lemma_without_exif_sized(segs: Seq<SegmentView>)
    requires
        jpeg_segments_sized(segs),
    ensures
        jpeg_segments_sized(segments_without_exif(segs)),
        forall|i: int| 0 <= i < segments_without_exif(segs).len() ==> exists|j: int|
            0 <= j < segs.len() && #[trigger] segments_without_exif(segs)[i] == segs[j] && (j
                == segs.len() - 1 ==> i == segments_without_exif(segs).len() - 1),
    decreases segs.len(),
{
    if segs.len() > 0 {
        let d = segs.drop_last();
        assert forall|i: int| 0 <= i < d.len() implies (jpeg_has_length(#[trigger] d[i].0) ==> d[i].1.len()
            <= 65533) && (!jpeg_has_length(d[i].0) ==> d[i].1.len() == 0) by {
            assert(d[i] == segs[i]);
        }
        lemma_without_exif_sized(d);
        let prev = segments_without_exif(d);
        let cur = segments_without_exif(segs);
        assert forall|i: int| 0 <= i < cur.len() implies exists|j: int|
            0 <= j < segs.len() && #[trigger] cur[i] == segs[j] && (j == segs.len() - 1 ==> i == cur.len()
                - 1) by {
            if i < prev.len() {
                assert(cur[i] == prev[i]);
                let j = choose|j: int|
                    0 <= j < d.len() && #[trigger] prev[i] == d[j] && (j == d.len() - 1 ==> i == prev.len()
                        - 1);
                assert(d[j] == segs[j]);
            } else {
                assert(cur[i] == segs[segs.len() - 1]);
            }
        }
        assert forall|i: int| 0 <= i < cur.len() implies (jpeg_has_length(#[trigger] cur[i].0) ==> cur[i].1.len()
            <= 65533) && (!jpeg_has_length(cur[i].0) ==> cur[i].1.len() == 0) by {
            let j = choose|j: int|
                0 <= j < segs.len() && #[trigger] cur[i] == segs[j] && (j == segs.len() - 1 ==> i == cur.len()
                    - 1);
            assert(jpeg_has_length(segs[j].0) ==> segs[j].1.len() <= 65533);
        }
    }
}

/// A new EXIF segment with a payload of at most 65527 bytes keeps every
/// segment within a 16-bit length.
proof fn lemma_insert_exif_fits(kept: Seq<SegmentView>, exif: Seq<u8>)
    requires
        jpeg_segments_sized(kept),
        kept.len() >= 3,
        exif.len() <= 65527,
    ensures
        jpeg_segments_fit(kept.insert(3, exif_segment(exif))),
{
    let out = kept.insert(3, exif_segment(exif));
    assert forall|i: int| 0 <= i < out.len() implies (#[trigger] out[i]).1.len() <= 65533 by {
        if i < 3 {
            assert(out[i] == kept[i]);
            assert(jpeg_has_length(kept[i].0) ==> kept[i].1.len() <= 65533);
        } else if i > 3 {
            assert(out[i] == kept[i - 1]);
            assert(jpeg_has_length(kept[i - 1].0) ==> kept[i - 1].1.len() <= 65533);
        } else {
            assert(out[i].1 == exif_prefix() + exif);
        }
    }
}

/// A JPEG laid out for reading back keeps its layout when its EXIF
/// segments are replaced by a new one at index 3 before the start of scan.
proof fn lemma_insert_exif_layout(segs: Seq<SegmentView>, exif: Seq<u8>)
    requires
        jpeg_layout_ok(segs),
        segments_without_exif(segs).len() > 3,
        exif.len() <= 65527,
    ensures
        jpeg_layout_ok(segments_without_exif(segs).insert(3, exif_segment(exif))),
{
    let kept = segments_without_exif(segs);
    let e = exif_segment(exif);
    let out = kept.insert(3, e);
    lemma_without_exif_sized(segs);
    assert(!is_exif_segment(segs.last()));
    assert(kept == segments_without_exif(segs.drop_last()).push(segs.last()));
    assert(kept.last() == segs.last());
    assert(out.last() == kept.last());
    assert forall|i: int| 0 <= i < out.len() implies (jpeg_has_length(#[trigger] out[i].0) ==> out[i].1.len()
        <= 65533) && (!jpeg_has_length(out[i].0) ==> out[i].1.len() == 0) && out[i].0 != 0xFFu8
        && out[i].0 != 0xD9u8 && (i < out.len() - 1 ==> out[i].0 != 0xDAu8 && out[i].2.len() == 0) by {
        if i != 3 {
            let k = if i < 3 { i } else { i - 1 };
            assert(out[i] == kept[k]);
            let j = choose|j: int|
                0 <= j < segs.len() && #[trigger] kept[k] == segs[j] && (j == segs.len() - 1 ==> k
                    == kept.len() - 1);
            assert(segs[j].0 != 0xFFu8 && segs[j].0 != 0xD9u8);
            assert(jpeg_has_length(segs[j].0) ==> segs[j].1.len() <= 65533);
            if i < out.len() - 1 {
                assert(j < segs.len() - 1);
                assert(segs[j].0 != 0xDAu8 && segs[j].2.len() == 0);
            }
        }
    }
}

/// Removing `eXIf` chunks keeps each chunk that stays, and the last one
/// only last.
proof fn lemma_chunks_origin(chunks: Seq<ChunkView>)
    ensures
        forall|i: int| 0 <= i < chunks_without_exif(chunks).len() ==> exists|j: int|
            0 <= j < chunks.len() && #[trigger] chunks_without_exif(chunks)[i] == chunks[j] && (j
                == chunks.len() - 1 ==> i == chunks_without_exif(chunks).len() - 1),
    decreases chunks.len(),
{
    if chunks.len() > 0 {
        let d = chunks.drop_last();
        lemma_chunks_origin(d);
        let prev = chunks_without_exif(d);
        let cur = chunks_without_exif(chunks);
        assert forall|i: int| 0 <= i < cur.len() implies exists|j: int|
            0 <= j < chunks.len() && #[trigger] cur[i] == chunks[j] && (j == chunks.len() - 1 ==> i
                == cur.len() - 1) by {
            if i < prev.len() {
                assert(cur[i] == prev[i]);
                let j = choose|j: int|
                    0 <= j < d.len() && #[trigger] prev[i] == d[j] && (j == d.len() - 1 ==> i == prev.len()
                        - 1);
                assert(d[j] == chunks[j]);
            } else {
                assert(cur[i] == chunks[chunks.len() - 1]);
            }
        }
    }
}

/// A PNG read by the crate keeps its layout when its `eXIf` chunks are
/// replaced by one before its last chunk.
proof fn lemma_png_insert_layout(chunks: Seq<ChunkView>, exif: Seq<u8>)
    requires
        png_layout_ok(chunks),
        chunks_without_exif(chunks).len() >= 1,
        exif.len() <= 0xFFFF_FFFF,
    ensures
        ({
            let kept = chunks_without_exif(chunks);
            png_layout_ok(kept.insert(kept.len() - 1, (exif_chunk_type(), exif)))
        }),
{
    let kept = chunks_without_exif(chunks);
    let k = kept.len() - 1;
    let e = (exif_chunk_type(), exif);
    let out = kept.insert(k, e);
    lemma_chunks_origin(chunks);
    assert(exif_chunk_type() != end_chunk_type()) by {
        assert(exif_chunk_type()[0] != end_chunk_type()[0]);
    }
    assert forall|i: int| 0 <= i < out.len() implies (#[trigger] out[i]).0.len() == 4 && out[i].1.len()
        <= 0xFFFF_FFFF && (i < out.len() - 1 ==> out[i].0 != end_chunk_type()) by {
        if i != k {
            let m = if i < k { i } else { i - 1 };
            assert(out[i] == kept[m]);
            let j = choose|j: int|
                0 <= j < chunks.len() && #[trigger] kept[m] == chunks[j] && (j == chunks.len() - 1 ==> m
                    == kept.len() - 1);
            assert(chunks[j].0.len() == 4 && chunks[j].1.len() <= 0xFFFF_FFFF);
            if i < out.len() - 1 {
                assert(j < chunks.len() - 1);
            }
        }
    }
}

proof fn lemma_without_exif_clean(segs: Seq<SegmentView>)
    ensures
        forall|i: int|
            0 <= i < segments_without_exif(segs).len() ==> !is_exif_segment(
                #[trigger] segments_without_exif(segs)[i],
            ),
    decreases segs.len(),
{
    if segs.len() > 0 {
        lemma_without_exif_clean(segs.drop_last());
        let prev = segments_without_exif(segs.drop_last());
        let cur = segments_without_exif(segs);
        assert forall|i: int| 0 <= i < cur.len() implies !is_exif_segment(#[trigger] cur[i]) by {
            if i < prev.len() {
                assert(cur[i] == prev[i]);
            }
        }
    }
}

proof fn lemma_without_exif_keeps_clean(segs: Seq<SegmentView>)
    requires
        forall|i: int| 0 <= i < segs.len() ==> !is_exif_segment(#[trigger] segs[i]),
    ensures
        segments_without_exif(segs) == segs,
    decreases segs.len(),
{
    if segs.len() > 0 {
        let prev = segs.drop_last();
        assert forall|i: int| 0 <= i < prev.len() implies !is_exif_segment(#[trigger] prev[i]) by {
            assert(prev[i] == segs[i]);
        }
        lemma_without_exif_keeps_clean(prev);
        assert(!is_exif_segment(segs[segs.len() - 1]));
        assert(prev.push(segs.last()) =~= segs);
    }
}

proof fn lemma_without_exif_concat(a: Seq<SegmentView>, b: Seq<SegmentView>)
    ensures
        segments_without_exif(a + b) == segments_without_exif(a) + segments_without_exif(b),
    decreases b.len(),
{
    if b.len() == 0 {
        assert(a + b =~= a);
        assert(segments_without_exif(a) + segments_without_exif(b) =~= segments_without_exif(a));
    } else {
        lemma_without_exif_concat(a, b.drop_last());
        assert((a + b).drop_last() =~= a + b.drop_last());
        assert((a + b).last() == b.last());
        if !is_exif_segment(b.last()) {
            assert(segments_without_exif(a) + segments_without_exif(b.drop_last()).push(b.last())
                =~= (segments_without_exif(a) + segments_without_exif(b.drop_last())).push(
                b.last(),
            ));
        }
    }
}

/// Embedding EXIF into a JPEG leaves exactly one EXIF segment, the new one
/// at index 3 holding the payload, and keeps every other segment of the
/// encoded file in order: removing the EXIF again gives back the encoded
/// file's segments without EXIF.
pub proof fn lemma_jpeg_exif_replaced(segs: Seq<SegmentView>, exif: Seq<u8>)
    requires
        segments_without_exif(segs).len() >= 3,
    ensures
        ({
            let kept = segments_without_exif(segs);
            let out = kept.insert(3, exif_segment(exif));
            &&& out[3] == exif_segment(exif)
            &&& forall|i: int| 0 <= i < out.len() ==> (is_exif_segment(#[trigger] out[i]) <==> i == 3)
            &&& segments_without_exif(out) == kept
        }),
{
    let kept = segments_without_exif(segs);
    let e = exif_segment(exif);
    let out = kept.insert(3, e);
    lemma_without_exif_clean(segs);
    assert((exif_prefix() + exif).take(6) =~= exif_prefix());
    assert(is_exif_segment(e));
    assert forall|i: int| 0 <= i < out.len() implies (is_exif_segment(#[trigger] out[i]) <==> i == 3) by {
        if i < 3 {
            assert(out[i] == kept[i]);
        } else if i > 3 {
            assert(out[i] == kept[i - 1]);
        }
    }
    let a = kept.take(3);
    let b = kept.skip(3);
    assert(out =~= a + seq![e] + b);
    assert forall|i: int| 0 <= i < a.len() implies !is_exif_segment(#[trigger] a[i]) by {
        assert(a[i] == kept[i]);
    }
    assert forall|i: int| 0 <= i < b.len() implies !is_exif_segment(#[trigger] b[i]) by {
        assert(b[i] == kept[i + 3]);
    }
    lemma_without_exif_keeps_clean(a);
    lemma_without_exif_keeps_clean(b);
    lemma_without_exif_concat(a + seq![e], b);
    lemma_without_exif_concat(a, seq![e]);
    assert(seq![e].drop_last() =~= Seq::<SegmentView>::empty());
    assert(seq![e].last() == e);
    assert(segments_without_exif(Seq::<SegmentView>::empty()) == Seq::<SegmentView>::empty());
    assert(segments_without_exif(seq![e]) =~= Seq::<SegmentView>::empty());
    assert(a + Seq::<SegmentView>::empty() =~= a);
    assert(a + b =~= kept);
}


proof fn lemma_chunks_without_exif_clean(chunks: Seq<ChunkView>)
    ensures
        forall|i: int|
            0 <= i < chunks_without_exif(chunks).len() ==> !is_exif_chunk(
                #[trigger] chunks_without_exif(chunks)[i],
            ),
    decreases chunks.len(),
{
    if chunks.len() > 0 {
        lemma_chunks_without_exif_clean(chunks.drop_last());
        let prev = chunks_without_exif(chunks.drop_last());
        let cur = chunks_without_exif(chunks);
        assert forall|i: int| 0 <= i < cur.len() implies !is_exif_chunk(#[trigger] cur[i]) by {
            if i < prev.len() {
                assert(cur[i] == prev[i]);
            }
        }
    }
}

proof fn lemma_chunks_without_exif_keeps_clean(chunks: Seq<ChunkView>)
    requires
        forall|i: int| 0 <= i < chunks.len() ==> !is_exif_chunk(#[trigger] chunks[i]),
    ensures
        chunks_without_exif(chunks) == chunks,
    decreases chunks.len(),
{
    if chunks.len() > 0 {
        let prev = chunks.drop_last();
        assert forall|i: int| 0 <= i < prev.len() implies !is_exif_chunk(#[trigger] prev[i]) by {
            assert(prev[i] == chunks[i]);
        }
        lemma_chunks_without_exif_keeps_clean(prev);
        assert(!is_exif_chunk(chunks[chunks.len() - 1]));
        assert(prev.push(chunks.last()) =~= chunks);
    }
}

proof fn lemma_chunks_without_exif_concat(a: Seq<ChunkView>, b: Seq<ChunkView>)
    ensures
        chunks_without_exif(a + b) == chunks_without_exif(a) + chunks_without_exif(b),
    decreases b.len(),
{
    if b.len() == 0 {
        assert(a + b =~= a);
        assert(chunks_without_exif(a) + chunks_without_exif(b) =~= chunks_without_exif(a));
    } else {
        lemma_chunks_without_exif_concat(a, b.drop_last());
        assert((a + b).drop_last() =~= a + b.drop_last());
        assert((a + b).last() == b.last());
        if !is_exif_chunk(b.last()) {
            assert(chunks_without_exif(a) + chunks_without_exif(b.drop_last()).push(b.last())
                =~= (chunks_without_exif(a) + chunks_without_exif(b.drop_last())).push(b.last()));
        }
    }
}

/// Embedding EXIF into a PNG leaves exactly one `eXIf` chunk, holding the
/// payload, just before the last chunk, and keeps every other chunk of the
/// encoded file in order.
pub proof fn lemma_png_exif_replaced(chunks: Seq<ChunkView>, exif: Seq<u8>)
    requires
        chunks_without_exif(chunks).len() >= 1,
    ensures
        ({
            let kept = chunks_without_exif(chunks);
            let out = kept.insert(kept.len() - 1, (exif_chunk_type(), exif));
            &&& out[out.len() - 2] == (exif_chunk_type(), exif)
            &&& forall|i: int|
                0 <= i < out.len() ==> (is_exif_chunk(#[trigger] out[i]) <==> i == out.len() - 2)
            &&& chunks_without_exif(out) == kept
        }),
{
    let kept = chunks_without_exif(chunks);
    let k = kept.len() - 1;
    let e = (exif_chunk_type(), exif);
    let out = kept.insert(k, e);
    lemma_chunks_without_exif_clean(chunks);
    assert forall|i: int| 0 <= i < out.len() implies (is_exif_chunk(#[trigger] out[i]) <==> i
        == out.len() - 2) by {
        if i < k {
            assert(out[i] == kept[i]);
        } else if i > k {
            assert(out[i] == kept[i - 1]);
        }
    }
    let a = kept.take(k);
    let b = kept.skip(k);
    assert(out =~= a + seq![e] + b);
    assert forall|i: int| 0 <= i < a.len() implies !is_exif_chunk(#[trigger] a[i]) by {
        assert(a[i] == kept[i]);
    }
    assert forall|i: int| 0 <= i < b.len() implies !is_exif_chunk(#[trigger] b[i]) by {
        assert(b[i] == kept[i + k]);
    }
    lemma_chunks_without_exif_keeps_clean(a);
    lemma_chunks_without_exif_keeps_clean(b);
    lemma_chunks_without_exif_concat(a + seq![e], b);
    lemma_chunks_without_exif_concat(a, seq![e]);
    assert(seq![e].drop_last() =~= Seq::<ChunkView>::empty());
    assert(seq![e].last() == e);
    assert(chunks_without_exif(Seq::<ChunkView>::empty()) == Seq::<ChunkView>::empty());
    assert(chunks_without_exif(seq![e]) =~= Seq::<ChunkView>::empty());
    assert(a + Seq::<ChunkView>::empty() =~= a);
    assert(a + b =~= kept);
}

/// The EXIF payload `img-parts` reads from JPEG segments (`Jpeg::exif`):
/// that of the first EXIF segment, after its `Exif\0\0` prefix.
pub open spec fn jpeg_exif_of(segs: Seq<SegmentView>) -> Option<Seq<u8>>
    decreases segs.len(),
{
    if segs.len() == 0 {
        None
    } else if is_exif_segment(segs[0]) {
        Some(segs[0].1.skip(6))
    } else {
        jpeg_exif_of(segs.drop_first())
    }
}

/// The EXIF payload `img-parts` reads from PNG chunks (`Png::exif`): the
/// contents of the first `eXIf` chunk.
pub open spec fn png_exif_of(chunks: Seq<ChunkView>) -> Option<Seq<u8>>
    decreases chunks.len(),
{
    if chunks.len() == 0 {
        None
    } else if is_exif_chunk(chunks[0]) {
        Some(chunks[0].1)
    } else {
        png_exif_of(chunks.drop_first())
    }
}

proof fn lemma_first_exif_segment(segs: Seq<SegmentView>, k: int)
    requires
        0 <= k < segs.len(),
        is_exif_segment(segs[k]),
        forall|i: int| 0 <= i < k ==> !is_exif_segment(#[trigger] segs[i]),
    ensures
        jpeg_exif_of(segs) == Some(segs[k].1.skip(6)),
    decreases k,
{
    if k > 0 {
        let rest = segs.drop_first();
        assert forall|i: int| 0 <= i < k - 1 implies !is_exif_segment(#[trigger] rest[i]) by {
            assert(rest[i] == segs[i + 1]);
        }
        assert(!is_exif_segment(segs[0]));
        lemma_first_exif_segment(rest, k - 1);
    }
}

proof fn lemma_first_exif_chunk(chunks: Seq<ChunkView>, k: int)
    requires
        0 <= k < chunks.len(),
        is_exif_chunk(chunks[k]),
        forall|i: int| 0 <= i < k ==> !is_exif_chunk(#[trigger] chunks[i]),
    ensures
        png_exif_of(chunks) == Some(chunks[k].1),
    decreases k,
{
    if k > 0 {
        let rest = chunks.drop_first();
        assert forall|i: int| 0 <= i < k - 1 implies !is_exif_chunk(#[trigger] rest[i]) by {
            assert(rest[i] == chunks[i + 1]);
        }
        assert(!is_exif_chunk(chunks[0]));
        lemma_first_exif_chunk(rest, k - 1);
    }
}

/// Reading back a PNG that EXIF was embedded into gives that EXIF payload.
pub proof fn lemma_png_exif_reads_back(encoded: Seq<u8>, exif: Seq<u8>, out: Seq<u8>)
    requires
        embedding_outcome(encoded, Format::Png, exif, Ok(out)),
        exif_read_back(encoded, Format::Png, exif, out),
    ensures
        png_chunks_read(out) matches Some(chunks) && png_exif_of(chunks) == Some(exif),
{
    let chunks = png_chunks_read(encoded)->0;
    lemma_png_exif_replaced(chunks, exif);
    let kept = chunks_without_exif(chunks);
    let written = kept.insert(kept.len() - 1, (exif_chunk_type(), exif));
    assert forall|i: int| 0 <= i < written.len() - 2 implies !is_exif_chunk(#[trigger] written[i]) by {}
    lemma_first_exif_chunk(written, written.len() - 2);
}

/// Reading back a JPEG that EXIF was embedded into gives that EXIF payload,
/// when the encoded file is laid out for reading back and its start of
/// scan comes after the new segment.
pub proof fn lemma_jpeg_exif_reads_back(encoded: Seq<u8>, exif: Seq<u8>, out: Seq<u8>)
    requires
        embedding_outcome(encoded, Format::Jpg, exif, Ok(out)),
        exif_read_back(encoded, Format::Jpg, exif, out),
        jpeg_segments_read(encoded) matches Some(segs) && jpeg_layout_ok(segs)
            && segments_without_exif(segs).len() > 3,
    ensures
        jpeg_segments_read(out) matches Some(segs) && jpeg_exif_of(segs) == Some(exif),
{
    let segs = jpeg_segments_read(encoded)->0;
    lemma_jpeg_exif_replaced(segs, exif);
    let kept = segments_without_exif(segs);
    let written = kept.insert(3, exif_segment(exif));
    assert forall|i: int| 0 <= i < 3 implies !is_exif_segment(#[trigger] written[i]) by {}
    lemma_first_exif_segment(written, 3);
    assert((exif_prefix() + exif).skip(6) =~= exif);
}

/// The EXIF payload `img-parts` reads from a file of a format: that of the
/// JPEG segments, PNG chunks or WebP read, if the file reads.
pub open spec fn exif_read_from(format: Format, bytes: Seq<u8>) -> Option<Seq<u8>> {
    match format {
        Format::Jpg => match jpeg_segments_read(bytes) {
            Some(segs) => jpeg_exif_of(segs),
            None => None,
        },
        Format::Png => match png_chunks_read(bytes) {
            Some(chunks) => png_exif_of(chunks),
            None => None,
        },
        Format::Webp => match parsed_webp(bytes) {
            Some(w) => webp_exif(w),
            None => None,
        },
        _ => None,
    }
}

/// Reading back a file of JPEG, PNG or WebP that EXIF was embedded into
/// gives that EXIF payload (a JPEG laid out for reading back, with its
/// start of scan after the new segment).
pub proof fn lemma_exif_reads_back(encoded: Seq<u8>, format: Format, exif: Seq<u8>, out: Seq<u8>)
    requires
        format == Format::Jpg || format == Format::Png || format == Format::Webp,
        embedding_outcome(encoded, format, exif, Ok(out)),
        exif_read_back(encoded, format, exif, out),
        format == Format::Jpg ==> (jpeg_segments_read(encoded) matches Some(segs) && jpeg_layout_ok(
            segs,
        ) && segments_without_exif(segs).len() > 3),
    ensures
        exif_read_from(format, out) == Some(exif),
{
    if format == Format::Jpg {
        lemma_jpeg_exif_reads_back(encoded, exif, out);
    } else if format == Format::Png {
        lemma_png_exif_reads_back(encoded, exif, out);
    }
}

} // verus!
