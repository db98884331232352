use fox_cull::capture::{finish_capture, plan_captures, Pending};
use fox_cull::media::Kind;

#[test]
fn captures_split_by_cache_validity() {
    let files = vec![
        ("/p/a.jpg".to_string(), 10, 100),
        ("/p/b.jpg".to_string(), 20, 200),
        ("/p/c.mp4".to_string(), 30, 300),
    ];
    let cached = vec![
        ("/p/a.jpg".to_string(), 111, 10, 100),
        ("/p/b.jpg".to_string(), 222, 21, 200),
    ];
    let (done, todo) = plan_captures(&None, files, &cached, false);
    assert_eq!(done.len(), 1);
    assert_eq!(done[0].path, "/p/a.jpg");
    assert_eq!(done[0].captured, 111);
    assert_eq!(todo.len(), 2);
    assert_eq!(todo[0].path, "/p/b.jpg");
    assert_eq!(todo[0].rel, "/p/b.jpg");
    assert_eq!((todo[0].mtime, todo[0].size), (20, 200));
    assert_eq!(todo[0].kind, Kind::Image);
    assert_eq!(todo[1].path, "/p/c.mp4");
    assert_eq!(todo[1].kind, Kind::Video);
}

#[test]
fn captures_keyed_below_root() {
    let files = vec![("/V/d/a.jpg".to_string(), 1, 2)];
    let cached = vec![("d/a.jpg".to_string(), 5, 1, 2)];
    let (done, todo) = plan_captures(&Some("/V".to_string()), files, &cached, false);
    assert_eq!(done.len(), 1);
    assert_eq!(done[0].captured, 5);
    assert!(todo.is_empty());
}

#[test]
fn capture_values() {
    let p = Pending { path: "/p/c.mp4".to_string(), rel: "c.mp4".to_string(), mtime: 30, size: 300, kind: Kind::Video };
    let (cd, row) = finish_capture(&p, Some(1), Some(5));
    assert_eq!(cd.path, "/p/c.mp4");
    assert_eq!(cd.captured, 5);
    assert_eq!(row, ("c.mp4".to_string(), 5, 30, 300));
    let (cd2, _) = finish_capture(&p, Some(1), None);
    assert_eq!(cd2.captured, 30);
    let img = Pending { path: "/p/a.jpg".to_string(), rel: "a.jpg".to_string(), mtime: 9, size: 1, kind: Kind::Raw };
    assert_eq!(finish_capture(&img, Some(77), Some(5)).0.captured, 77);
    assert_eq!(finish_capture(&img, None, Some(5)).0.captured, 9);
    let other = Pending { path: "/p/x".to_string(), rel: "x".to_string(), mtime: 4, size: 1, kind: Kind::Other };
    assert_eq!(finish_capture(&other, Some(77), Some(5)).0.captured, 4);
}
