use fox_cull::catalog::TrashRow;
use fox_cull::recycle::{
    is_folder_mode, list_trash, rejected_paths, rel_from_drive, restore_moves, restore_origin, stored_name,
    trash_item, trash_path, RestoreOutcome, Sweep,
};

fn row(stored: &str, orig: &str, name: &str, at: i64) -> TrashRow {
    TrashRow { stored: stored.to_string(), orig: orig.to_string(), name: name.to_string(), deleted_at: at }
}

#[test]
fn dispose_modes() {
    assert!(is_folder_mode("folder"));
    assert!(!is_folder_mode("recycle"));
    assert!(!is_folder_mode("Folder"));
}

#[test]
fn recycle_relative_paths() {
    assert_eq!(rel_from_drive("/Volumes/SSD/a/b.jpg", false), "a/b.jpg");
    assert_eq!(rel_from_drive("/home/u/x.jpg", false), "home/u/x.jpg");
    assert_eq!(stored_name("/rec", "/rec/a/b (2).jpg", "a/b.jpg"), "a/b (2).jpg");
    assert_eq!(stored_name("/rec", "/elsewhere/b.jpg", "a\\b.jpg"), "a/b.jpg");
}

#[test]
fn sweep_records_successes_and_failures() {
    let mut s = Sweep::new();
    s.succeeded(&Some("/V".to_string()), "/V/a/x.jpg", Some(("a/x.jpg".to_string(), "a/x.jpg".to_string())), 99, false);
    s.succeeded(&Some("/V".to_string()), "/V/y.jpg", None, 100, false);
    s.failed("/V/z.jpg".to_string(), "denied".to_string());
    assert_eq!(s.outcome.deleted, 2);
    assert_eq!(s.outcome.failed, vec!["/V/z.jpg".to_string()]);
    assert_eq!(s.outcome.errors, vec!["denied".to_string()]);
    assert_eq!(s.forget, vec!["a/x.jpg".to_string(), "y.jpg".to_string()]);
    assert_eq!(
        s.trash_rows,
        vec![("a/x.jpg".to_string(), "a/x.jpg".to_string(), "x.jpg".to_string(), 99)]
    );
}

#[test]
fn trash_view() {
    assert_eq!(trash_path("/rec", "a/b.NEF", false), "/rec/a/b.NEF");
    let it = trash_item("/rec", row("a/b.NEF", "a/b.NEF", "b.NEF", 5), false);
    assert_eq!(it.path, "/rec/a/b.NEF");
    assert_eq!(it.kind, "raw");
    assert_eq!(it.ext, "nef");
    assert_eq!(it.name, "b.NEF");
    assert_eq!(it.deleted_at, 5);
    let rows = vec![row("1.jpg", "o/1.jpg", "1.jpg", 3), row("2.mp4", "o/2.mp4", "2.mp4", 2), row("3.png", "3.png", "3.png", 1)];
    let (items, stale) = list_trash("/rec", rows, &vec![true, false, true], false);
    let stored: Vec<&str> = items.iter().map(|i| i.stored.as_str()).collect();
    assert_eq!(stored, vec!["1.jpg", "3.png"]);
    assert_eq!(items[0].orig, "o/1.jpg");
    assert_eq!(stale, vec!["2.mp4".to_string()]);
    assert_eq!(items.len() + stale.len(), 3);
}

#[test]
fn restore_targets() {
    let rows = vec![row("a.jpg", "old/a.jpg", "a.jpg", 1), row("a.jpg", "new/a.jpg", "a.jpg", 2)];
    assert_eq!(restore_origin(&rows, "a.jpg"), "new/a.jpg");
    assert_eq!(restore_origin(&rows, "zz.jpg"), "zz.jpg");
    let stored = vec!["a.jpg".to_string(), "b.jpg".to_string()];
    assert!(restore_moves("/rec", &None, &rows, &stored, false).is_none());
    let m = restore_moves("/rec", &Some("/V".to_string()), &rows, &stored, false).unwrap();
    assert_eq!(
        m,
        vec![
            ("/rec/a.jpg".to_string(), "/V/new/a.jpg".to_string()),
            ("/rec/b.jpg".to_string(), "/V/b.jpg".to_string()),
        ]
    );
}

#[test]
fn restore_outcomes() {
    let mut o = RestoreOutcome::new();
    o.record("a".to_string(), true);
    o.record("b".to_string(), false);
    assert_eq!(o.restored, 1);
    assert_eq!(o.failed, vec!["b".to_string()]);
    let n = RestoreOutcome::none_restored(vec!["x".to_string()]);
    assert_eq!(n.restored, 0);
    assert_eq!(n.failed, vec!["x".to_string()]);
}

#[test]
fn rejected_absolute_paths() {
    let rels = vec!["a/b.jpg".to_string(), "c.jpg".to_string()];
    assert_eq!(
        rejected_paths(&Some("/V".to_string()), rels.clone(), false),
        vec!["/V/a/b.jpg".to_string(), "/V/c.jpg".to_string()]
    );
    assert_eq!(rejected_paths(&None, rels.clone(), false), rels);
}
