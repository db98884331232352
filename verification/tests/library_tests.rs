use fox_cull::library::{
    cut_name, drive_id, drive_root, library_paths, numbered_name, plan_library_switch, rel_from_stripped,
    rel_of, rels_for, LibrarySwitch, Seed, LIB_DIRNAME,
};

#[test]
fn drive_roots_unix() {
    assert_eq!(drive_root("/Volumes/SSD/photos/a.jpg", false), "/Volumes/SSD");
    assert_eq!(drive_root("/Volumes/SSD", false), "/Volumes/SSD");
    assert_eq!(drive_root("/Volumes/", false), "/");
    assert_eq!(drive_root("/home/u/a.jpg", false), "/");
    assert_eq!(drive_root("relative/a.jpg", false), "/");
}

#[test]
fn drive_roots_windows() {
    assert_eq!(drive_root("E:\\photos\\a.jpg", true), "E:\\");
    assert_eq!(drive_root("d:/photos", true), "d:\\");
    assert_eq!(drive_root("E:", true), "C:\\");
    assert_eq!(drive_root("\\\\server\\share", true), "C:\\");
}

#[test]
fn drive_ids() {
    assert_eq!(drive_id("/Volumes/SSD"), "Volumes_SSD");
    assert_eq!(drive_id("/"), "root");
    assert_eq!(drive_id("C:\\"), "C");
    assert_eq!(drive_id(""), "root");
    assert_eq!(drive_id("/Volumes/My Disk_"), "Volumes_My_Disk");
    assert_eq!(drive_id("/Volumes/Ünï"), "Volumes__n");
}

#[test]
fn library_paths_on_drive_and_fallback() {
    assert_eq!(LIB_DIRNAME, "_FoxCull");
    let l = library_paths("/data", "/Volumes/SSD", true, false);
    assert_eq!(l.dir, "/Volumes/SSD/_FoxCull");
    assert_eq!(l.catalog, "/Volumes/SSD/_FoxCull/catalog.sqlite");
    assert_eq!(l.cache, "/Volumes/SSD/_FoxCull/thumbs");
    assert_eq!(l.recycle, "/Volumes/SSD/_FoxCull/recycle");
    assert!(l.on_drive);
    let f = library_paths("/data", "/Volumes/SSD", false, false);
    assert_eq!(f.dir, "/data/libraries/Volumes_SSD");
    assert_eq!(f.catalog, "/data/libraries/Volumes_SSD/catalog.sqlite");
    assert!(!f.on_drive);
    let r = library_paths("/data", "/", true, false);
    assert_eq!(r.dir, "/_FoxCull");
}

#[test]
fn library_switch_plans() {
    assert_eq!(plan_library_switch(true, false, true, true, true), LibrarySwitch::Stay);
    assert_eq!(plan_library_switch(false, true, true, true, true), LibrarySwitch::Switch(Seed::Nothing));
    assert_eq!(plan_library_switch(false, false, true, true, true), LibrarySwitch::Switch(Seed::AdoptLegacy));
    assert_eq!(plan_library_switch(false, false, false, true, true), LibrarySwitch::Switch(Seed::CopyCurrent));
    assert_eq!(plan_library_switch(false, false, true, false, true), LibrarySwitch::Switch(Seed::CopyCurrent));
    assert_eq!(plan_library_switch(false, false, true, false, false), LibrarySwitch::Switch(Seed::Nothing));
}

#[test]
fn catalog_keys() {
    assert_eq!(rel_of(&None, "C:\\a\\b.jpg"), "C:/a/b.jpg");
    assert_eq!(rel_of(&Some("/Volumes/SSD".to_string()), "/Volumes/SSD/a/b.jpg"), "a/b.jpg");
    assert_eq!(rel_of(&Some("/Volumes/SSD".to_string()), "/Volumes/SSD"), "");
    assert_eq!(rel_of(&Some("/Volumes/SSD".to_string()), "/Volumes/Other/x.jpg"), "/Volumes/Other/x.jpg");
    assert_eq!(rel_of(&Some("/".to_string()), "/home/u/x.jpg"), "home/u/x.jpg");
    assert_eq!(rel_from_stripped("C:\\x", Some("a\\b".to_string())), "a/b");
    assert_eq!(rel_from_stripped("C:\\x", None), "C:/x");
}

#[test]
fn rels_for_many() {
    let v = rels_for(&Some("/V".to_string()), &vec!["/V/a.jpg".to_string(), "/V/d/b.jpg".to_string()]);
    assert_eq!(v, vec!["a.jpg".to_string(), "d/b.jpg".to_string()]);
    assert_eq!(rels_for(&None, &vec!["a\\b".to_string()]), vec!["a/b".to_string()]);
}

#[test]
fn numbered_names() {
    assert_eq!(numbered_name("photo.jpg", 2), "photo (2).jpg");
    assert_eq!(numbered_name("photo.tar.gz", 3), "photo.tar (3).gz");
    assert_eq!(numbered_name("README", 3), "README (3)");
    assert_eq!(numbered_name(".bashrc", 2), ".bashrc (2)");
    assert_eq!(numbered_name("x.", 12), "x (12).");
    assert_ne!(numbered_name("a.jpg", 2), numbered_name("a.jpg", 3));
    assert_ne!(numbered_name("a.jpg", 2), "a.jpg");
}

#[test]
fn cut_names() {
    assert_eq!(cut_name("/v/clip.mp4", None, false), "clip_cut.mp4");
    assert_eq!(cut_name("/v/clip.MOV", Some(2), false), "clip_cut2.MOV");
    assert_eq!(cut_name("/v/noext", None, false), "noext_cut.mp4");
    assert_eq!(cut_name("/", None, false), "clip_cut.mp4");
    assert_eq!(cut_name("/v/clip.mp4", Some(10), false), "clip_cut10.mp4");
    assert_ne!(cut_name("/v/clip.mp4", None, false), cut_name("/v/clip.mp4", Some(2), false));
    assert_ne!(cut_name("/v/clip.mp4", Some(2), false), cut_name("/v/clip.mp4", Some(3), false));
}

#[test]
fn library_paths_on_windows() {
    let l = library_paths("C:\\Users\\u\\AppData", "D:\\", true, true);
    assert_eq!(l.dir, "D:\\_FoxCull");
    assert_eq!(l.catalog, "D:\\_FoxCull\\catalog.sqlite");
    let f = library_paths("C:\\data", "D:\\", false, true);
    assert_eq!(f.dir, "C:\\data\\libraries\\D");
}
