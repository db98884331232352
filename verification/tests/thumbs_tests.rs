use fox_cull::jpeg::icc_from_jpeg;
use fox_cull::media::Kind;
use fox_cull::thumbs::{
    apply_orientation, decode_jpeg_file, decode_jpeg_scaled, decode_raw, is_heic_ext, is_jpeg_ext,
    loupe_uses_preview, shape_thumbnail, thumb_from_head, thumbnail_jpeg, thumbnail_kind_ok,
    use_embedded_fast_path, thumb_route, ThumbRoute,
};

fn sample_jpeg(w: u32, h: u32) -> Vec<u8> {
    let img = image::DynamicImage::ImageRgb8(image::RgbImage::from_pixel(w, h, image::Rgb([10, 120, 240])));
    let mut out = std::io::Cursor::new(Vec::new());
    img.write_to(&mut out, image::ImageFormat::Jpeg).unwrap();
    out.into_inner()
}

#[test]
fn decode_and_orient() {
    let bytes = sample_jpeg(40, 20);
    let (p, icc) = decode_jpeg_file(&bytes, 320).unwrap();
    assert!(icc.is_none());
    assert_eq!((p.width(), p.height()), (40, 20));
    let r = apply_orientation(p, 6);
    assert_eq!((r.width(), r.height()), (20, 40));
    let r = apply_orientation(r, 3);
    assert_eq!((r.width(), r.height()), (20, 40));
    let r = apply_orientation(r, 8);
    assert_eq!((r.width(), r.height()), (40, 20));
}

#[test]
fn scaled_decode_covers_target() {
    let bytes = sample_jpeg(400, 200);
    let p = decode_jpeg_scaled(&bytes, 100).unwrap();
    assert!(p.width() >= 100 && p.width() <= 400);
    assert!(decode_jpeg_scaled(&[1, 2, 3], 100).is_none());
}

#[test]
fn thumbnails_fit_the_box() {
    let bytes = sample_jpeg(40, 20);
    let (p, _) = decode_jpeg_file(&bytes, 320).unwrap();
    let t = shape_thumbnail(p, 10, 6);
    assert_eq!((t.width(), t.height()), (5, 10));
}

#[test]
fn thumbnail_keeps_profile() {
    let bytes = sample_jpeg(16, 16);
    let (p, _) = decode_jpeg_file(&bytes, 320).unwrap();
    let profile: Vec<u8> = (0u8..200).collect();
    let out = thumbnail_jpeg(p, Some(profile.clone()), 8, 1).unwrap();
    assert_eq!(icc_from_jpeg(&out), Some(profile));
    let decoded = image::load_from_memory(&out).unwrap();
    assert_eq!((decoded.width(), decoded.height()), (8, 8));
}

#[test]
fn raw_previews() {
    assert_eq!(decode_raw(&[1, 2, 3], 320).err(), Some("no embedded JPEG preview found in RAW file".to_string()));
    let mut raw = vec![0u8; 10];
    raw.extend_from_slice(&sample_jpeg(32, 24));
    raw.extend_from_slice(&[0, 0, 0]);
    let (p, icc) = decode_raw(&raw, 320).unwrap();
    assert_eq!((p.width(), p.height()), (32, 24));
    assert!(icc.is_none());
}

#[test]
fn embedded_thumbnail_fast_path() {
    let mut head = vec![0xFF, 0xD8, 0x00];
    head.extend_from_slice(&sample_jpeg(300, 200));
    let (p, _) = thumb_from_head(&head, 320).unwrap();
    assert_eq!(p.width(), 300);
    assert!(thumb_from_head(&head, 512).is_none());
    assert!(thumb_from_head(&[0xFF, 0xD8, 0x00], 320).is_none());
}

#[test]
fn routing_decisions() {
    assert_eq!(thumbnail_kind_ok(Kind::Video), Err("no thumbnail for this kind".to_string()));
    assert_eq!(thumbnail_kind_ok(Kind::Other), Err("no thumbnail for this kind".to_string()));
    assert_eq!(thumbnail_kind_ok(Kind::Raw), Ok(()));
    assert!(loupe_uses_preview(Kind::Image));
    assert!(loupe_uses_preview(Kind::Raw));
    assert!(!loupe_uses_preview(Kind::Video));
    assert!(is_heic_ext("heic") && is_heic_ext("heif") && !is_heic_ext("HEIC"));
    assert!(is_jpeg_ext("jpg") && is_jpeg_ext("jpeg") && !is_jpeg_ext("png"));
    assert!(use_embedded_fast_path(320, Kind::Image, true));
    assert!(!use_embedded_fast_path(1920, Kind::Image, true));
    assert!(!use_embedded_fast_path(320, Kind::Raw, true));
    assert!(!use_embedded_fast_path(320, Kind::Image, false));
}

#[test]
fn thumbnail_routes() {
    assert_eq!(thumb_route(true, "heic", 320, Kind::Image), ThumbRoute::Cached);
    assert_eq!(thumb_route(false, "heic", 320, Kind::Other), ThumbRoute::Ffmpeg);
    assert_eq!(thumb_route(false, "heif", 1920, Kind::Other), ThumbRoute::Ffmpeg);
    assert_eq!(thumb_route(false, "jpg", 320, Kind::Image), ThumbRoute::EmbeddedFirst);
    assert_eq!(thumb_route(false, "jpeg", 512, Kind::Image), ThumbRoute::EmbeddedFirst);
    assert_eq!(thumb_route(false, "jpg", 1920, Kind::Image), ThumbRoute::Full);
    assert_eq!(thumb_route(false, "png", 320, Kind::Image), ThumbRoute::Full);
    assert_eq!(thumb_route(false, "nef", 320, Kind::Raw), ThumbRoute::Full);
}

#[test]
fn thumbnail_long_edge_reaches_the_box() {
    let bytes = sample_jpeg(40, 20);
    let (p, _) = decode_jpeg_file(&bytes, 320).unwrap();
    let t = shape_thumbnail(p, 100, 1);
    assert_eq!((t.width(), t.height()), (100, 50));
    let img = t.into_image();
    assert_eq!((img.width(), img.height()), (100, 50));
}

#[test]
fn picture_wraps_the_image() {
    let img = image::DynamicImage::ImageRgb8(image::RgbImage::from_pixel(7, 3, image::Rgb([1, 2, 3])));
    let p = fox_cull::thumbs::picture_of(img);
    assert_eq!((p.width(), p.height()), (7, 3));
    let back = p.into_image();
    assert_eq!(back.to_rgb8().get_pixel(6, 2).0, [1, 2, 3]);
}

#[test]
fn orientation_outside_range_keeps_the_picture() {
    let img = image::DynamicImage::ImageRgb8(image::RgbImage::from_fn(3, 2, |x, y| image::Rgb([x as u8, y as u8, 7])));
    let p = fox_cull::thumbs::picture_of(img.clone());
    let same = apply_orientation(p, 9).into_image();
    assert_eq!(same, img);
    let turned = apply_orientation(fox_cull::thumbs::picture_of(img.clone()), 6).into_image();
    assert_eq!(turned, img.rotate90());
}

#[test]
fn scaled_decode_and_previews() {
    let bytes = sample_jpeg(64, 32);
    let p = decode_jpeg_scaled(&bytes, 16).unwrap();
    assert_eq!((p.width(), p.height()), (16, 8));
    let mut raw = vec![1u8, 2, 3];
    raw.extend_from_slice(&bytes);
    let (q, _) = decode_raw(&raw, 16).unwrap();
    let direct = decode_jpeg_scaled(&bytes, 16).unwrap();
    assert_eq!(q.into_image(), direct.into_image());
    assert!(fox_cull::thumbs::decode_jpeg_file(&[0, 1, 2], 16).is_none());
}

#[test]
fn source_routes() {
    assert_eq!(fox_cull::thumbs::source_route(Kind::Raw, true), fox_cull::thumbs::SourceRoute::RawPreview);
    assert_eq!(fox_cull::thumbs::source_route(Kind::Image, true), fox_cull::thumbs::SourceRoute::JpegBytes);
    assert_eq!(fox_cull::thumbs::source_route(Kind::Image, false), fox_cull::thumbs::SourceRoute::ByPath);
    assert_eq!(fox_cull::thumbs::source_route(Kind::Video, false), fox_cull::thumbs::SourceRoute::ByPath);
}
