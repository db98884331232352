use std::hash::{Hash, Hasher};

use fox_cull::naming::{
    cache_files_for, cache_key, cache_path, decimal, filmstrip_meta_path, filmstrip_path, hex16, join,
    poster_path, proxy_path, GRID_MAX, LOUPE_MAX,
};

fn key4(abs: &str, mtime: i64, size: u64, max: u32) -> String {
    let mut h = std::collections::hash_map::DefaultHasher::new();
    abs.hash(&mut h);
    mtime.hash(&mut h);
    size.hash(&mut h);
    max.hash(&mut h);
    format!("{:016x}", h.finish())
}

fn key3(abs: &str, mtime: i64, size: u64) -> String {
    let mut h = std::collections::hash_map::DefaultHasher::new();
    abs.hash(&mut h);
    mtime.hash(&mut h);
    size.hash(&mut h);
    format!("{:016x}", h.finish())
}

#[test]
fn cache_key_is_hash_of_path_mtime_size_max() {
    let k = cache_key("/Volumes/SSD/a.jpg", 1714566896, 123456, 320);
    assert_eq!(k, key4("/Volumes/SSD/a.jpg", 1714566896, 123456, 320));
    assert_eq!(k.len(), 16);
    assert_ne!(k, cache_key("/Volumes/SSD/a.jpg", 1714566896, 123456, 1920));
    assert_eq!(cache_key("", -5, 0, 0), key4("", -5, 0, 0));
}

#[test]
fn hex16_pads_to_sixteen() {
    assert_eq!(hex16(0), "0000000000000000");
    assert_eq!(hex16(255), "00000000000000ff");
    assert_eq!(hex16(u64::MAX), "ffffffffffffffff");
}

#[test]
fn cache_paths() {
    let p = cache_path("/cache", "/p/a.jpg", 10, 20, 320, false);
    assert_eq!(p, format!("/cache/{}.jpg", key4("/p/a.jpg", 10, 20, 320)));
    let p2 = cache_path("/cache/", "/p/a.jpg", 10, 20, 320, false);
    assert_eq!(p2, p);
}

#[test]
fn video_paths_are_prefixed() {
    let k = key3("/v/clip.mp4", 7, 9);
    assert_eq!(poster_path("/c", "/v/clip.mp4", 7, 9, false), format!("/c/v{k}.jpg"));
    assert_eq!(proxy_path("/c", "/v/clip.mp4", 7, 9, false), format!("/c/p{k}.mp4"));
    assert_eq!(filmstrip_path("/c", "/v/clip.mp4", 7, 9, false), format!("/c/f{k}.jpg"));
    assert_eq!(filmstrip_meta_path("/c", "/v/clip.mp4", 7, 9, false), format!("/c/f{k}.json"));
    assert_ne!(cache_path("/c", "/v/clip.mp4", 7, 9, 320, false), poster_path("/c", "/v/clip.mp4", 7, 9, false));
}

#[test]
fn join_paths() {
    assert_eq!(join("/a", "b", false), "/a/b");
    assert_eq!(join("/a/", "b", false), "/a/b");
    assert_eq!(join("", "b", false), "b");
    assert_eq!(join("/a", "/abs", false), "/abs");
    assert_eq!(join("/a", "", false), "/a/");
}

#[test]
fn decimal_values() {
    assert_eq!(decimal(0), "0");
    assert_eq!(decimal(7), "7");
    assert_eq!(decimal(10), "10");
    assert_eq!(decimal(1234567890), "1234567890");
    assert_eq!(decimal(u64::MAX), "18446744073709551615");
}

#[test]
fn cache_files_for_with_and_without_metadata() {
    let v = cache_files_for("/c", "/p/a.jpg", Some((5, 6)), false);
    assert_eq!(GRID_MAX, 320);
    assert_eq!(LOUPE_MAX, 1920);
    let k = key3("/p/a.jpg", 5, 6);
    assert_eq!(
        v,
        vec![
            format!("/c/{}.jpg", key4("/p/a.jpg", 5, 6, 320)),
            format!("/c/{}.jpg", key4("/p/a.jpg", 5, 6, 1920)),
            format!("/c/v{k}.jpg"),
            format!("/c/f{k}.json"),
            format!("/c/f{k}.jpg"),
        ]
    );
    let w = cache_files_for("/c", "/p/gone.mp4", None, false);
    let k0 = key3("/p/gone.mp4", 0, 0);
    assert_eq!(w, vec![format!("/c/v{k0}.jpg"), format!("/c/f{k0}.json"), format!("/c/f{k0}.jpg")]);
}

#[test]
fn windows_joins() {
    assert_eq!(join("D:\\", "_FoxCull", true), "D:\\_FoxCull");
    assert_eq!(join("C:\\a", "b", true), "C:\\a\\b");
    assert_eq!(join("C:\\a/", "b", true), "C:\\a/b");
    assert_eq!(join("C:", "b", true), "C:b");
    assert_eq!(join("C:\\a", "\\b", true), "C:\\b");
    assert_eq!(join("C:\\a", "D:\\x", true), "D:\\x");
    assert_eq!(join("", "b", true), "b");
}
