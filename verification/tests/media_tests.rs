use fox_cull::calendar::civil_to_unix;
use fox_cull::media::{
    capture_date_from_values, classify, ext_lower, is_media, orientation_from_value,
    parse_exif_datetime, Kind,
};

#[test]
fn kind_names() {
    assert_eq!(Kind::Image.as_str(), "image");
    assert_eq!(Kind::Raw.as_str(), "raw");
    assert_eq!(Kind::Video.as_str(), "video");
    assert_eq!(Kind::Other.as_str(), "other");
}

#[test]
fn ext_lower_cases() {
    assert_eq!(ext_lower("/photos/IMG_0001.JPG", false), "jpg");
    assert_eq!(ext_lower("/photos/archive.tar.GZ", false), "gz");
    assert_eq!(ext_lower("/photos/.hidden", false), "");
    assert_eq!(ext_lower("/photos/noext", false), "");
    assert_eq!(ext_lower("/photos/dir/", false), "");
    assert_eq!(ext_lower("/photos/clip.MoV/", false), "mov");
    assert_eq!(ext_lower("", false), "");
}

#[test]
fn classify_by_extension() {
    assert_eq!(classify("/a/b.jpeg", false), Kind::Image);
    assert_eq!(classify("/a/b.PNG", false), Kind::Image);
    assert_eq!(classify("/a/b.tiff", false), Kind::Image);
    assert_eq!(classify("/a/DSC_1.NEF", false), Kind::Raw);
    assert_eq!(classify("/a/b.cr3", false), Kind::Raw);
    assert_eq!(classify("/a/b.mp4", false), Kind::Video);
    assert_eq!(classify("/a/b.3gp", false), Kind::Video);
    assert_eq!(classify("/a/b.heic", false), Kind::Other);
    assert_eq!(classify("/a/notes.txt", false), Kind::Other);
    assert_eq!(classify("/a/jpg", false), Kind::Other);
}

#[test]
fn is_media_matches_classify() {
    assert!(is_media("/a/b.webp", false));
    assert!(is_media("/a/b.arw", false));
    assert!(is_media("/a/b.mkv", false));
    assert!(!is_media("/a/b.xmp", false));
    assert!(!is_media("/a/.jpg", false));
}

#[test]
fn civil_to_unix_values() {
    assert_eq!(civil_to_unix(1970, 1, 1, 0, 0, 0), 0);
    assert_eq!(civil_to_unix(2024, 5, 1, 12, 34, 56), 1714566896);
    assert_eq!(civil_to_unix(2000, 3, 1, 0, 0, 0), 951868800);
    assert_eq!(civil_to_unix(2000, 2, 29, 0, 0, 0), 951782400);
    assert_eq!(civil_to_unix(1969, 12, 31, 23, 59, 59), -1);
    assert_eq!(civil_to_unix(100_000_000_000, 1, 1, 0, 0, 0), 3155695137832780800);
    assert_eq!(civil_to_unix(-100_000_000_000, 6, 15, 12, 0, 0), -3155695262152833600);
}

#[test]
fn civil_next_day_is_one_day_later() {
    let a = civil_to_unix(2023, 12, 31, 0, 0, 0);
    let b = civil_to_unix(2024, 1, 1, 0, 0, 0);
    assert_eq!(b - a, 86400);
    let c = civil_to_unix(2024, 2, 28, 0, 0, 0);
    let d = civil_to_unix(2024, 2, 29, 0, 0, 0);
    assert_eq!(d - c, 86400);
}

#[test]
fn parse_exif_datetime_cases() {
    assert_eq!(parse_exif_datetime(b"2024:05:01 12:34:56"), Some(1714566896));
    assert_eq!(parse_exif_datetime(b"  2024:05:01 12:34:56  "), Some(1714566896));
    assert_eq!(parse_exif_datetime(b"2024:05:01 12:34:56\0"), Some(1714566896));
    assert_eq!(
        parse_exif_datetime(b"2024: 5: 1  1: 2: 3"),
        Some(civil_to_unix(2024, 5, 1, 1, 2, 3))
    );
    assert_eq!(parse_exif_datetime(b"1969:12:31 23:59:59"), None);
    assert_eq!(parse_exif_datetime(b"2024:13:01 00:00:00"), None);
    assert_eq!(parse_exif_datetime(b"2024:00:01 00:00:00"), None);
    assert_eq!(parse_exif_datetime(b"2024:05:32 00:00:00"), None);
    assert_eq!(parse_exif_datetime(b"2024:05:01 12:34"), None);
    assert_eq!(parse_exif_datetime(b"    :  :     :  :  "), None);
    assert_eq!(parse_exif_datetime(&[0xFF, 0xFE, 0x00]), None);
    assert_eq!(parse_exif_datetime(b""), None);
}

#[test]
fn orientation_values() {
    assert_eq!(orientation_from_value(Some(6)), 6);
    assert_eq!(orientation_from_value(Some(1)), 1);
    assert_eq!(orientation_from_value(Some(8)), 8);
    assert_eq!(orientation_from_value(Some(0)), 1);
    assert_eq!(orientation_from_value(Some(9)), 1);
    assert_eq!(orientation_from_value(Some(65542)), 6);
    assert_eq!(orientation_from_value(None), 1);
}

#[test]
fn capture_date_takes_first_parsable_field() {
    let vals = vec![None, Some(b"garbage".to_vec()), Some(b"2024:05:01 12:34:56".to_vec())];
    assert_eq!(capture_date_from_values(&vals), Some(1714566896));
    let first = vec![Some(b"2000:03:01 00:00:00".to_vec()), Some(b"2024:05:01 12:34:56".to_vec())];
    assert_eq!(capture_date_from_values(&first), Some(951868800));
    let none: Vec<Option<Vec<u8>>> = vec![None, Some(b"1900:01:01 00:00:00".to_vec()), None];
    assert_eq!(capture_date_from_values(&none), None);
    assert_eq!(capture_date_from_values(&Vec::new()), None);
}

fn tiff_with_exif() -> Vec<u8> {
    let mut t: Vec<u8> = vec![0x49, 0x49, 0x2A, 0x00, 0x08, 0x00, 0x00, 0x00, 0x02, 0x00];
    t.extend_from_slice(&[0x12, 0x01, 0x03, 0x00, 0x01, 0x00, 0x00, 0x00, 0x06, 0x00, 0x00, 0x00]);
    t.extend_from_slice(&[0x32, 0x01, 0x02, 0x00, 0x14, 0x00, 0x00, 0x00, 0x26, 0x00, 0x00, 0x00]);
    t.extend_from_slice(&[0x00, 0x00, 0x00, 0x00]);
    t.extend_from_slice(b"2024:05:01 12:34:56\0");
    t
}

#[test]
fn exif_from_file_bytes() {
    let t = tiff_with_exif();
    assert_eq!(fox_cull::media::orientation(&t), 6);
    assert_eq!(fox_cull::media::capture_date(&t), Some(1714566896));
    assert_eq!(fox_cull::media::orientation(b"not an image"), 1);
    assert_eq!(fox_cull::media::capture_date(b"not an image"), None);
}

#[test]
fn windows_paths_split_at_both_separators() {
    assert_eq!(ext_lower("a.b\\c", true), "");
    assert_eq!(ext_lower("a.b\\c", false), "b\\c");
    assert_eq!(classify("a\\.jpg", true), Kind::Other);
    assert_eq!(classify("a\\.jpg", false), Kind::Image);
    assert_eq!(classify("E:\\DCIM\\IMG_1.JPG", true), Kind::Image);
    assert_eq!(ext_lower("C:x.NEF", true), "nef");
    assert!(is_media("D:/clips\\a.MP4", true));
}
