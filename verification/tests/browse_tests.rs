use fox_cull::browse::{
    skip_subdir, sort_key, split_counts, tree_listing, tree_visible, warm_threads, warm_work, WARM_CAP,
};

#[test]
fn tree_visibility() {
    assert!(!tree_visible(".git"));
    assert!(!tree_visible("_FoxCull"));
    assert!(!tree_visible("_foxcull"));
    assert!(!tree_visible("_FOXCULL"));
    assert!(tree_visible("_foxcull2"));
    assert!(tree_visible("Photos"));
    assert!(tree_visible(""));
}

#[test]
fn tree_listing_filters_and_sorts_case_insensitively() {
    let entries = vec![
        ("b".to_string(), "/r/b".to_string()),
        ("A".to_string(), "/r/A".to_string()),
        (".h".to_string(), "/r/.h".to_string()),
        ("_FoxCull".to_string(), "/r/_FoxCull".to_string()),
        ("a".to_string(), "/r/a".to_string()),
    ];
    let out = tree_listing(entries);
    let names: Vec<&str> = out.iter().map(|t| t.name.as_str()).collect();
    assert_eq!(names, vec!["A", "a", "b"]);
    let paths: Vec<&str> = out.iter().map(|t| t.path.as_str()).collect();
    assert_eq!(paths, vec!["/r/A", "/r/a", "/r/b"]);
    assert!(out.iter().all(|t| t.has_children));
    assert!(tree_listing(Vec::new()).is_empty());
}

#[test]
fn sort_key_is_unicode_lowercase() {
    assert_eq!(sort_key("ÄBC"), "äbc".chars().collect::<Vec<char>>());
    assert_eq!(sort_key("x"), vec!['x']);
}

#[test]
fn walk_skips() {
    assert!(skip_subdir("photos", false));
    assert!(skip_subdir(".cache", true));
    assert!(skip_subdir("_FoxCull", true));
    assert!(skip_subdir("_FOXCULL_old", true));
    assert!(!skip_subdir("_foxcul", true));
    assert!(!skip_subdir("photos", true));
    assert!(!skip_subdir("", true));
}

#[test]
fn warm_thread_counts() {
    assert_eq!(warm_threads(0), 1);
    assert_eq!(warm_threads(4), 1);
    assert_eq!(warm_threads(7), 1);
    assert_eq!(warm_threads(8), 2);
    assert_eq!(warm_threads(12), 2);
    assert_eq!(warm_threads(64), 2);
}

#[test]
fn warm_work_takes_only_images_up_to_cap() {
    let paths = vec![
        "/a/1.jpg".to_string(),
        "/a/2.NEF".to_string(),
        "/a/3.mp4".to_string(),
        "/a/4.png".to_string(),
        "/a/5.txt".to_string(),
    ];
    assert_eq!(warm_work(&paths, false), vec!["/a/1.jpg".to_string(), "/a/4.png".to_string()]);
    assert_eq!(WARM_CAP, 600);
    let many: Vec<String> = (0..700).map(|i| format!("/a/{i}.jpg")).collect();
    let w = warm_work(&many, false);
    assert_eq!(w.len(), 600);
    assert_eq!(w[599], "/a/599.jpg");
}

#[test]
fn folder_count_split() {
    let cached = vec![("/b".to_string(), 7), ("/c".to_string(), 1), ("/b".to_string(), 9)];
    let (have, need) = split_counts(vec!["/a".to_string(), "/b".to_string(), "/d".to_string()], &cached);
    assert_eq!(have.len(), 1);
    assert_eq!(have[0].path, "/b");
    assert_eq!(have[0].count, 9);
    assert_eq!(need, vec!["/a".to_string(), "/d".to_string()]);
    let (h2, n2) = split_counts(vec!["/b".to_string()], &Vec::new());
    assert!(h2.is_empty());
    assert_eq!(n2, vec!["/b".to_string()]);
}
