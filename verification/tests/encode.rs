use img_parts::ImageEXIF;
use heif_convert::cli::Format;
use heif_convert::convert::Picture;
use heif_convert::encode::{clamp_quality, encode, encode_ico, ico_sizes, rgb_of, ConvertError, ConvertStep};
use heif_convert::exif::{embed_exif, vp8_header_valid};
use heif_convert::output::{encode_output, HeifImage};

fn picture(width: u32, height: u32, has_alpha: bool) -> Picture {
    let channels = if has_alpha { 4 } else { 3 };
    let mut pixels = Vec::new();
    for i in 0..(width * height * channels) {
        pixels.push((i * 7 % 251) as u8);
    }
    Picture { width, height, has_alpha, pixels }
}

#[test]
fn ico_sizes_follow_pillow() {
    assert_eq!(ico_sizes(1000, 1000), vec![256, 128, 64, 48, 32, 24, 16]);
    assert_eq!(ico_sizes(100, 40), vec![32, 24, 16]);
    assert_eq!(ico_sizes(15, 300), Vec::<u32>::new());
    assert_eq!(ico_sizes(16, 16), vec![16]);
}

#[test]
fn quality_is_clamped() {
    assert_eq!(clamp_quality(0), 1);
    assert_eq!(clamp_quality(1), 1);
    assert_eq!(clamp_quality(90), 90);
    assert_eq!(clamp_quality(100), 100);
    assert_eq!(clamp_quality(200), 100);
}

fn ico_entries(bytes: &[u8]) -> Vec<(u8, u8)> {
    assert_eq!(&bytes[0..4], &[0, 0, 1, 0]);
    let count = u16::from_le_bytes([bytes[4], bytes[5]]) as usize;
    (0..count).map(|i| (bytes[6 + 16 * i], bytes[7 + 16 * i])).collect()
}

#[test]
fn ico_holds_fitting_sizes_or_the_full_image() {
    let bytes = encode_ico(&picture(40, 33, false)).unwrap();
    assert_eq!(ico_entries(&bytes), vec![(32, 32), (24, 24), (16, 16)]);
    let small = encode_ico(&picture(10, 20, true)).unwrap();
    assert_eq!(ico_entries(&small), vec![(10, 20)]);
}

#[test]
fn each_format_has_its_signature() {
    let pic = picture(20, 17, false);
    let jpg = encode(&pic, Format::Jpg, 90).unwrap();
    assert_eq!(&jpg[0..2], &[0xFF, 0xD8]);
    let png = encode(&pic, Format::Png, 90).unwrap();
    assert_eq!(&png[1..4], b"PNG");
    let webp = encode(&pic, Format::Webp, 90).unwrap();
    assert_eq!(&webp[8..12], b"WEBP");
    let gif = encode(&pic, Format::Gif, 90).unwrap();
    assert_eq!(&gif[0..3], b"GIF");
    let tiff = encode(&pic, Format::Tiff, 90).unwrap();
    assert!(&tiff[0..2] == b"II" || &tiff[0..2] == b"MM");
    let bmp = encode(&pic, Format::Bmp, 90).unwrap();
    assert_eq!(&bmp[0..2], b"BM");
    let ico = encode(&pic, Format::Ico, 90).unwrap();
    assert_eq!(ico_entries(&ico), vec![(16, 16)]);
}

#[test]
fn quality_changes_the_jpeg() {
    let pic = picture(32, 32, true);
    let low = encode(&pic, Format::Jpg, 5).unwrap();
    let high = encode(&pic, Format::Jpg, 100).unwrap();
    assert_ne!(low, high);
    assert_eq!(encode(&pic, Format::Jpg, 0).unwrap(), encode(&pic, Format::Jpg, 1).unwrap());
}

#[test]
fn quality_does_not_change_other_formats() {
    let pic = picture(12, 9, true);
    for format in [Format::Png, Format::Webp, Format::Gif, Format::Tiff, Format::Bmp, Format::Ico] {
        assert_eq!(encode(&pic, format, 5).unwrap(), encode(&pic, format, 100).unwrap(), "{:?}", format);
    }
}

fn contains(haystack: &[u8], needle: &[u8]) -> bool {
    haystack.windows(needle.len()).any(|w| w == needle)
}

const EXIF: &[u8] = b"MM\0*\0\0\0\x08marker-exif";

#[test]
fn exif_is_embedded_in_jpeg_png_and_webp() {
    let pic = picture(8, 8, false);
    for format in [Format::Jpg, Format::Png, Format::Webp] {
        let encoded = encode(&pic, format, 90).unwrap();
        assert!(!contains(&encoded, b"marker-exif"));
        let with_exif = embed_exif(encoded.clone(), format, EXIF).unwrap();
        assert!(contains(&with_exif, b"marker-exif"), "{:?}", format);
        assert!(with_exif.len() > encoded.len());
    }
}

#[test]
fn exif_is_not_carried_by_other_formats() {
    let pic = picture(8, 8, false);
    for format in [Format::Gif, Format::Tiff, Format::Bmp, Format::Ico] {
        let encoded = encode(&pic, format, 90).unwrap();
        assert_eq!(embed_exif(encoded.clone(), format, EXIF).unwrap(), encoded);
    }
}

#[test]
fn unreadable_files_are_reported() {
    let err = embed_exif(vec![1, 2, 3], Format::Jpg, EXIF).err().unwrap();
    assert_eq!(err.step, ConvertStep::ParseJpeg);
    assert!(err.message().starts_with("cannot parse encoded JPEG image: "));
    assert_eq!(embed_exif(vec![1, 2, 3], Format::Png, EXIF).err().unwrap().step, ConvertStep::ParsePng);
    assert_eq!(embed_exif(vec![1, 2, 3], Format::Webp, EXIF).err().unwrap().step, ConvertStep::ParseWebp);
}

#[test]
fn error_messages_name_the_step() {
    let e = ConvertError { step: ConvertStep::EncodeImage(Format::Webp), detail: "boom".to_string() };
    assert_eq!(e.message(), "cannot encode webp image: boom");
    let e = ConvertError { step: ConvertStep::WriteIco, detail: "x".to_string() };
    assert_eq!(e.message(), "cannot write ICO image: x");
    let e = ConvertError { step: ConvertStep::WriteExif, detail: "y".to_string() };
    assert_eq!(e.message(), "cannot write EXIF metadata: y");
}

#[test]
fn output_keeps_exif_only_when_asked() {
    let image = HeifImage { image: picture(8, 8, false), exif: Some(EXIF.to_vec()) };
    let kept = encode_output(&image, Format::Png, 90, true).unwrap();
    assert!(contains(&kept, b"marker-exif"));
    let dropped = encode_output(&image, Format::Png, 90, false).unwrap();
    assert!(!contains(&dropped, b"marker-exif"));
    assert_eq!(dropped, encode(&image.image, Format::Png, 90).unwrap());
    let none = HeifImage { image: picture(8, 8, false), exif: None };
    assert_eq!(encode_output(&none, Format::Jpg, 90, true).unwrap(), encode(&none.image, Format::Jpg, 90).unwrap());
}

#[test]
fn jpeg_encodes_the_rgb_of_a_picture_with_alpha() {
    let rgba = picture(8, 8, true);
    let rgb = Picture { width: 8, height: 8, has_alpha: false, pixels: rgb_of(&rgba) };
    assert_eq!(rgb.pixels.len(), 8 * 8 * 3);
    assert_eq!(&rgb.pixels[0..3], &rgba.pixels[0..3]);
    assert_eq!(&rgb.pixels[3..6], &rgba.pixels[4..7]);
    assert_eq!(encode(&rgba, Format::Jpg, 80).unwrap(), encode(&rgb, Format::Jpg, 80).unwrap());
}

#[test]
fn jpeg_refuses_an_empty_picture() {
    let empty = Picture { width: 0, height: 5, has_alpha: false, pixels: Vec::new() };
    assert_eq!(encode(&empty, Format::Jpg, 90).err().unwrap().step, ConvertStep::EncodeJpeg);
}

#[test]
fn files_without_room_for_exif_are_refused() {
    // A JPEG of a start of image, one comment segment and the end of image.
    let tiny_jpeg = vec![0xFF, 0xD8, 0xFF, 0xFE, 0x00, 0x03, b'x', 0xFF, 0xD9];
    assert_eq!(embed_exif(tiny_jpeg, Format::Jpg, EXIF).err().unwrap().step, ConvertStep::WriteExif);
    // A PNG with its signature only.
    let bare_png = vec![0x89, b'P', b'N', b'G', 0x0D, 0x0A, 0x1A, 0x0A];
    assert_eq!(embed_exif(bare_png, Format::Png, EXIF).err().unwrap().step, ConvertStep::WriteExif);
}

#[test]
fn oversized_exif_does_not_fit_a_jpeg_segment() {
    let pic = picture(4, 4, false);
    let encoded = encode(&pic, Format::Jpg, 90).unwrap();
    let big = vec![7u8; 65528];
    assert_eq!(embed_exif(encoded.clone(), Format::Jpg, &big).err().unwrap().step, ConvertStep::WriteExif);
    let fits = vec![7u8; 65527];
    assert!(embed_exif(encoded, Format::Jpg, &fits).is_ok());
}

#[test]
fn vp8_headers_are_checked() {
    let good = [0x10, 0x02, 0x00, 0x9D, 0x01, 0x2A, 0x08, 0x00, 0x04, 0x00];
    assert!(vp8_header_valid(&good));
    let mut inter = good;
    inter[0] = 0x11;
    assert!(!vp8_header_valid(&inter));
    let mut magic = good;
    magic[4] = 0x02;
    assert!(!vp8_header_valid(&magic));
    let mut zero = good;
    zero[6] = 0;
    assert!(!vp8_header_valid(&zero));
    assert!(!vp8_header_valid(&good[..9]));
}

#[test]
fn exif_reads_back_from_every_container() {
    let pic = picture(20, 12, false);
    let jpg = embed_exif(encode(&pic, Format::Jpg, 90).unwrap(), Format::Jpg, EXIF).unwrap();
    let jpeg = img_parts::jpeg::Jpeg::from_bytes(img_parts::Bytes::from(jpg)).unwrap();
    assert_eq!(jpeg.exif().unwrap().as_ref(), EXIF);
    let png = embed_exif(encode(&pic, Format::Png, 90).unwrap(), Format::Png, EXIF).unwrap();
    let png = img_parts::png::Png::from_bytes(img_parts::Bytes::from(png)).unwrap();
    assert_eq!(png.exif().unwrap().as_ref(), EXIF);
    let webp = embed_exif(encode(&pic, Format::Webp, 90).unwrap(), Format::Webp, EXIF).unwrap();
    let webp = img_parts::webp::WebP::from_bytes(img_parts::Bytes::from(webp)).unwrap();
    assert_eq!(webp.exif().unwrap().as_ref(), EXIF);
}

#[test]
fn quality_does_not_change_an_ico() {
    let pic = picture(40, 100, true);
    assert_eq!(encode(&pic, Format::Ico, 3).unwrap(), encode(&pic, Format::Ico, 99).unwrap());
    let small = picture(10, 20, false);
    assert_eq!(encode(&small, Format::Ico, 0).unwrap(), encode(&small, Format::Ico, 100).unwrap());
}

#[test]
fn ico_directory_points_at_the_entries_data() {
    let bytes = encode_ico(&picture(40, 100, false)).unwrap();
    let count = u16::from_le_bytes([bytes[4], bytes[5]]) as usize;
    assert_eq!(count, 3);
    let mut expected_offset = 6 + 16 * count as u32;
    for k in 0..count {
        let record = &bytes[6 + 16 * k..6 + 16 * (k + 1)];
        let size = u32::from_le_bytes([record[8], record[9], record[10], record[11]]);
        let offset = u32::from_le_bytes([record[12], record[13], record[14], record[15]]);
        assert_eq!(offset, expected_offset);
        expected_offset += size;
    }
    assert_eq!(expected_offset as usize, bytes.len());
}
