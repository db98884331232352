use fox_cull::jpeg::{embedded_thumbnail_jpeg, icc_from_jpeg, largest_embedded_jpeg, splice_icc};

fn jpeg_bytes(w: u32, h: u32) -> Vec<u8> {
    let img = image::DynamicImage::ImageRgb8(image::RgbImage::from_pixel(w, h, image::Rgb([200, 90, 30])));
    let mut out = std::io::Cursor::new(Vec::new());
    img.write_to(&mut out, image::ImageFormat::Jpeg).unwrap();
    out.into_inner()
}

#[test]
fn largest_embedded_jpeg_picks_longest_stream() {
    let data: Vec<u8> = vec![
        0x00, 0x01, 0xFF, 0xD8, 0x11, 0xFF, 0xD9, 0x42, 0xFF, 0xD8, 0x01, 0x02, 0x03, 0x04, 0xFF,
        0xD9, 0x07,
    ];
    let found = largest_embedded_jpeg(&data).unwrap();
    assert_eq!(found, &data[8..16]);
    assert_eq!(&found[..2], &[0xFF, 0xD8]);
    assert_eq!(&found[found.len() - 2..], &[0xFF, 0xD9]);
}

#[test]
fn largest_embedded_jpeg_keeps_first_of_equal_length() {
    let data: Vec<u8> = vec![0xFF, 0xD8, 0x01, 0xFF, 0xD9, 0xFF, 0xD8, 0x02, 0xFF, 0xD9];
    assert_eq!(largest_embedded_jpeg(&data), Some(&data[0..5]));
}

#[test]
fn largest_embedded_jpeg_none_without_end() {
    assert_eq!(largest_embedded_jpeg(&[0xFF, 0xD8, 0x00, 0x01]), None);
    assert_eq!(largest_embedded_jpeg(&[]), None);
    assert_eq!(largest_embedded_jpeg(&[0xFF]), None);
}

#[test]
fn embedded_thumbnail_skips_main_soi() {
    let data: Vec<u8> = vec![
        0xFF, 0xD8, 0xFF, 0xE1, 0x00, 0xFF, 0xD8, 0x05, 0x06, 0xFF, 0xD9, 0x00, 0xFF, 0xD9,
    ];
    assert_eq!(embedded_thumbnail_jpeg(&data), Some(&data[5..11]));
    assert_eq!(embedded_thumbnail_jpeg(&[0xFF, 0xD8, 0x00, 0xFF, 0xD9]), None);
    assert_eq!(embedded_thumbnail_jpeg(&[0xFF, 0xD8, 0xFF, 0xD8, 0x00]), None);
}

#[test]
fn icc_embed_roundtrip() {
    let bytes = jpeg_bytes(8, 8);
    let profile: Vec<u8> = (0u8..255).cycle().take(200_000).collect();
    let spliced = splice_icc(&bytes, &profile).expect("a JPEG the splicer understands");
    let got = icc_from_jpeg(&spliced).expect("profile back out");
    assert_eq!(got, profile);
    image::load_from_memory(&spliced).expect("JPEG still decodes after splice");
}

#[test]
fn icc_small_profile_roundtrip() {
    let bytes = jpeg_bytes(4, 4);
    let profile: Vec<u8> = vec![1, 2, 3, 4, 5];
    let spliced = splice_icc(&bytes, &profile).unwrap();
    assert_eq!(spliced.len(), bytes.len() + 18 + profile.len());
    assert_eq!(icc_from_jpeg(&spliced), Some(profile));
}

#[test]
fn icc_absent_and_not_jpeg() {
    let bytes = jpeg_bytes(4, 4);
    assert_eq!(icc_from_jpeg(&bytes), None);
    assert_eq!(splice_icc(&[0x00, 0x01, 0x02, 0x03], &[1, 2]), None);
    assert_eq!(splice_icc(&[0xFF, 0xD8], &[1, 2]), None);
    // An APP1 segment whose length runs past the end leaves the file untouched.
    assert_eq!(splice_icc(&[0xFF, 0xD8, 0xFF, 0xE1, 0x10, 0x00], &[1]), None);
}

#[test]
fn icc_spliced_after_app_segments() {
    let data: Vec<u8> = vec![0xFF, 0xD8, 0xFF, 0xE0, 0x00, 0x04, 0xAA, 0xBB, 0xFF, 0xDA, 0x01];
    let spliced = splice_icc(&data, &[9, 8]).unwrap();
    let mut expected: Vec<u8> = data[..8].to_vec();
    expected.extend_from_slice(&[0xFF, 0xE2, 0x00, 0x12]);
    expected.extend_from_slice(b"ICC_PROFILE\0");
    expected.extend_from_slice(&[1, 1, 9, 8]);
    expected.extend_from_slice(&data[8..]);
    assert_eq!(spliced, expected);
}
