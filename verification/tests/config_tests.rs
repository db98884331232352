use fox_cull::catalog::{normalize_tag, subtree_pattern};
use fox_cull::clock::{now, now_ms, stamp};
use fox_cull::config::{cache_dir_for, cache_dir_in, config_file, startup_catalog, Config};

#[test]
fn config_defaults_and_paths() {
    let c = Config::default();
    assert!(c.catalog_path.is_none());
    assert_eq!(config_file("/data", false), "/data/config.json");
    let moved = Config { catalog_path: Some("/x/c.sqlite".to_string()) };
    assert_eq!(startup_catalog("/data", &moved, true, false), "/x/c.sqlite");
    assert_eq!(startup_catalog("/data", &moved, false, false), "/data/catalog.sqlite");
    assert_eq!(startup_catalog("/data", &c, true, false), "/data/catalog.sqlite");
}

#[test]
fn cache_dirs_beside_catalog() {
    assert_eq!(cache_dir_in(Some("/x".to_string()), false), "/x/thumbs");
    assert_eq!(cache_dir_in(None, false), "thumbs");
    assert_eq!(cache_dir_for("/x/catalog.sqlite", false), "/x/thumbs");
    assert_eq!(cache_dir_for("catalog.sqlite", false), "thumbs");
    assert_eq!(cache_dir_for("/", false), "thumbs");
}

#[test]
fn subtree_patterns() {
    assert_eq!(subtree_pattern(""), None);
    assert_eq!(subtree_pattern("a/b"), Some("a/b/%".to_string()));
}

#[test]
fn tags_normalized() {
    assert_eq!(normalize_tag("  Diwali \n"), Some("Diwali".to_string()));
    assert_eq!(normalize_tag("   "), None);
    assert_eq!(normalize_tag(""), None);
    assert_eq!(normalize_tag("a b"), Some("a b".to_string()));
}

#[test]
fn clock_readings() {
    assert!(now() > 1_600_000_000);
    assert!(now_ms() > 1_600_000_000_000);
    assert_eq!(stamp(Some(5)), 5);
    assert_eq!(stamp(None), 0);
    assert_eq!(stamp(Some(u64::MAX)), -1);
    assert_eq!(stamp(Some(1u64 << 63)), i64::MIN);
}
