use fox_cull::catalog::{group_tags, Decision, TagGroup};
use fox_cull::listing::{attach_tags, list_folder_media, new_item};

fn d(rel: &str, rating: i64, label: Option<&str>, flag: Option<&str>) -> Decision {
    Decision {
        rel: rel.to_string(),
        rating,
        label: label.map(|s| s.to_string()),
        flag: flag.map(|s| s.to_string()),
    }
}

#[test]
fn fresh_item_fields() {
    let it = new_item("/V/p/IMG_1.JPG".to_string(), "p/IMG_1.JPG".to_string(), 5, 6, false);
    assert_eq!(it.name, "IMG_1.JPG");
    assert_eq!(it.path, "/V/p/IMG_1.JPG");
    assert_eq!(it.rel, "p/IMG_1.JPG");
    assert_eq!(it.kind, "image");
    assert_eq!(it.ext, "jpg");
    assert_eq!((it.mtime, it.size, it.rating), (5, 6, 0));
    assert!(it.label.is_none() && it.flag.is_none() && it.tags.is_empty());
}

#[test]
fn folder_listing_sorted_with_decisions_and_tags() {
    let root = Some("/Volumes/SSD".to_string());
    let found = vec![
        ("/Volumes/SSD/p/B.jpg".to_string(), 10, 100),
        ("/Volumes/SSD/p/a.NEF".to_string(), 20, 200),
        ("/Volumes/SSD/p/c.mp4".to_string(), 30, 300),
    ];
    let decisions = vec![
        d("p/a.NEF", 3, Some("red"), Some("pick")),
        d("p/B.jpg", 1, None, Some("reject")),
        d("p/a.NEF", 5, Some("blue"), None),
    ];
    let tags = vec![
        ("p/c.mp4".to_string(), "diwali".to_string()),
        ("p/a.NEF".to_string(), "x".to_string()),
        ("p/c.mp4".to_string(), "family".to_string()),
    ];
    let out = list_folder_media(&root, found, &decisions, &tags, false);
    let names: Vec<&str> = out.iter().map(|m| m.name.as_str()).collect();
    assert_eq!(names, vec!["a.NEF", "B.jpg", "c.mp4"]);
    assert_eq!(out[0].rel, "p/a.NEF");
    assert_eq!(out[0].kind, "raw");
    assert_eq!(out[0].ext, "nef");
    assert_eq!(out[0].rating, 5);
    assert_eq!(out[0].label.as_deref(), Some("blue"));
    assert_eq!(out[0].flag, None);
    assert_eq!(out[0].tags, vec!["x".to_string()]);
    assert_eq!(out[1].rating, 1);
    assert_eq!(out[1].flag.as_deref(), Some("reject"));
    assert!(out[1].tags.is_empty());
    assert_eq!(out[2].kind, "video");
    assert_eq!(out[2].rating, 0);
    assert_eq!(out[2].tags, vec!["diwali".to_string(), "family".to_string()]);
    assert_eq!((out[2].mtime, out[2].size), (30, 300));
}

#[test]
fn folder_listing_without_root_uses_slash_paths() {
    let out = list_folder_media(&None, vec![("C:\\p\\x.png".to_string(), 1, 2)], &Vec::new(), &Vec::new(), false);
    assert_eq!(out.len(), 1);
    assert_eq!(out[0].rel, "C:/p/x.png");
    assert_eq!(out[0].name, "C:\\p\\x.png");
    assert!(list_folder_media(&None, Vec::new(), &Vec::new(), &Vec::new(), false).is_empty());
}

#[test]
fn tags_go_to_first_record_with_the_key() {
    let a = new_item("/x/1.jpg".to_string(), "k".to_string(), 0, 0, false);
    let b = new_item("/y/1.jpg".to_string(), "k".to_string(), 0, 0, false);
    let groups = vec![TagGroup { rel: "k".to_string(), tags: vec!["t".to_string()] }];
    let out = attach_tags(vec![a, b], groups);
    assert_eq!(out[0].tags, vec!["t".to_string()]);
    assert!(out[1].tags.is_empty());
}

#[test]
fn tag_rows_grouped_in_first_appearance_order() {
    let rows = vec![
        ("b".to_string(), "t1".to_string()),
        ("a".to_string(), "t2".to_string()),
        ("b".to_string(), "t3".to_string()),
    ];
    let g = group_tags(&rows);
    assert_eq!(g.len(), 2);
    assert_eq!(g[0].rel, "b");
    assert_eq!(g[0].tags, vec!["t1".to_string(), "t3".to_string()]);
    assert_eq!(g[1].rel, "a");
    assert_eq!(g[1].tags, vec!["t2".to_string()]);
}

#[test]
fn windows_listing_names() {
    let out = list_folder_media(&None, vec![("C:\\p\\x.png".to_string(), 1, 2)], &Vec::new(), &Vec::new(), true);
    assert_eq!(out[0].name, "x.png");
    assert_eq!(out[0].ext, "png");
    let it = new_item("C:a.jpg".to_string(), "a.jpg".to_string(), 0, 0, true);
    assert_eq!(it.name, "a.jpg");
}
