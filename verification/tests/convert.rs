use heif_convert::convert::{decoded_picture, exif_of, exif_payload_of, pack_rows, MetadataItem};

#[test]
fn rows_are_packed_without_stride_padding() {
    let data = [1u8, 2, 3, 0, 0, 4, 5, 6, 0, 0];
    assert_eq!(pack_rows(&data, 3, 5, 2), vec![1, 2, 3, 4, 5, 6]);
    assert_eq!(pack_rows(&data, 3, 5, 0), Vec::<u8>::new());
    // The last row need not be padded.
    assert_eq!(pack_rows(&data[..8], 3, 5, 2), vec![1, 2, 3, 4, 5, 6]);
}

#[test]
fn decoded_picture_holds_exact_rows() {
    // 2x2 RGB with a stride of 8 bytes.
    let data = [1u8, 1, 1, 2, 2, 2, 9, 9, 3, 3, 3, 4, 4, 4];
    let pic = decoded_picture(&data, 2, 2, 8, false);
    assert_eq!(pic.pixels, vec![1, 1, 1, 2, 2, 2, 3, 3, 3, 4, 4, 4]);
    assert_eq!((pic.width, pic.height, pic.has_alpha), (2, 2, false));
    let rgba = decoded_picture(&[7u8, 7, 7, 255], 1, 1, 4, true);
    assert_eq!(rgba.pixels, vec![7, 7, 7, 255]);
}

#[test]
fn exif_payload_skips_the_offset() {
    assert_eq!(exif_payload_of(&[0, 0, 0, 0, b'M', b'M', 0, 42]), Some(vec![b'M', b'M', 0, 42]));
    assert_eq!(exif_payload_of(&[0, 0, 0, 2, 9, 9, b'I', b'I']), Some(vec![b'I', b'I']));
    assert_eq!(exif_payload_of(&[0, 0, 0]), None);
    assert_eq!(exif_payload_of(&[0, 0, 0, 0]), None);
    assert_eq!(exif_payload_of(&[0, 0, 0, 4, 1, 2, 3, 4]), None);
    assert_eq!(exif_payload_of(&[255, 255, 255, 255, 1]), None);
    assert_eq!(exif_payload_of(&[1, 0, 0, 0, 1]), None);
}

fn item(kind: &str, data: &[u8]) -> MetadataItem {
    MetadataItem { item_type: kind.to_string(), raw_data: data.to_vec() }
}

#[test]
fn first_exif_item_is_used() {
    let items = vec![item("mime", &[0, 0, 0, 0, 7]), item("Exif", &[0, 0, 0, 1, 9, 5, 6]), item("Exif", &[0, 0, 0, 0, 1])];
    assert_eq!(exif_of(&items), Some(vec![5, 6]));
    let broken_first = vec![item("Exif", &[0, 0]), item("Exif", &[0, 0, 0, 0, 1])];
    assert_eq!(exif_of(&broken_first), None);
    assert_eq!(exif_of(&[item("mime", &[0, 0, 0, 0, 1])]), None);
    assert_eq!(exif_of(&[]), None);
}
