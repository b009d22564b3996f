use crew_admission::{decode_data_url, DecodedImage, ImageError, ImageFormat};

#[test]
fn png_data_url_decodes() {
    let r = decode_data_url("data:image/png;base64,aGk=");
    assert_eq!(
        r,
        Ok(DecodedImage {
            format: ImageFormat::Png,
            bytes: vec![104, 105],
        })
    );
}

#[test]
fn jpeg_data_url_decodes_under_both_spellings() {
    let a = decode_data_url("data:image/jpeg;base64,AAE=").unwrap();
    assert_eq!(a.format, ImageFormat::Jpeg);
    assert_eq!(a.bytes, vec![0, 1]);
    let b = decode_data_url("data:image/jpg;base64,AAE=").unwrap();
    assert_eq!(b.format, ImageFormat::Jpeg);
    assert_eq!(b.bytes, vec![0, 1]);
}

#[test]
fn empty_payload_decodes_to_no_bytes() {
    let r = decode_data_url("data:image/png;base64,").unwrap();
    assert_eq!(r.bytes, Vec::<u8>::new());
}

#[test]
fn data_url_needs_exactly_one_comma() {
    assert_eq!(decode_data_url("data:image/png;base64"), Err(ImageError::InvalidFormat));
    assert_eq!(decode_data_url("data:image/png;base64,aGk=,aGk="), Err(ImageError::InvalidFormat));
    assert_eq!(decode_data_url(""), Err(ImageError::InvalidFormat));
}

#[test]
fn other_image_types_are_unsupported() {
    assert_eq!(decode_data_url("data:image/gif;base64,aGk="), Err(ImageError::UnsupportedType));
    assert_eq!(decode_data_url(",aGk="), Err(ImageError::UnsupportedType));
}

#[test]
fn bad_base64_is_rejected() {
    assert_eq!(decode_data_url("data:image/png;base64,a*k="), Err(ImageError::InvalidBase64));
}

#[test]
fn extensions_follow_format() {
    assert_eq!(ImageFormat::Png.extension(), "png");
    assert_eq!(ImageFormat::Jpeg.extension(), "jpg");
}
