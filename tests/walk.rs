use indexer::config::join_path;
use indexer::display::truncate;
use indexer::metrics::{compute_loc, merge_last_edited, MetricsAccumulator};
use indexer::scan::{is_globally_ignored, path_within};
use indexer::{AppConfig, ConfigStore, RootScan, SizeMode};

#[test]
fn nested_project_is_not_probed_after_claim() {
    let mut c = indexer::Catalog::new();
    let mut scan = RootScan::new();
    let f = indexer::FoundProject {
        name: "outer".to_string(),
        path: "/r/outer".to_string(),
        project_type: indexer::detect::ProjectType::Rust,
        is_git_repo: true,
        metrics: MetricsAccumulator::new().finish(SizeMode::Skip, None),
        git: None,
        languages: None,
    };
    scan.record(&mut c, f, indexer::ScanOptions { dry_run: false }, 0).unwrap();
    let none: Vec<String> = vec![];
    assert!(!scan.should_probe("/r/outer/vendor/inner", Some("inner"), &none));
    assert!(!scan.should_probe("/r/outer", Some("outer"), &none));
    assert!(scan.should_probe("/r/outer2", Some("outer2"), &none));
    assert!(scan.should_probe("/r/other", Some("other"), &none));
    assert_eq!(c.count_projects(None), 1);
}

#[test]
fn globally_ignored_names_are_not_probed() {
    let cfg = AppConfig::default();
    let scan = RootScan::new();
    assert!(!scan.should_probe("/r/node_modules", Some("node_modules"), &cfg.global_ignores));
    assert!(scan.should_probe("/r/node_modules2", Some("node_modules2"), &cfg.global_ignores));
    assert!(scan.should_probe("/", None, &cfg.global_ignores));
    assert!(is_globally_ignored("target", &cfg.global_ignores));
    assert!(!is_globally_ignored("Target", &cfg.global_ignores));
}

#[test]
fn path_containment_is_by_component() {
    assert!(path_within("/a/b", "/a/b"));
    assert!(path_within("/a/b/c", "/a/b"));
    assert!(path_within("/a/b/c", "/a/b/"));
    assert!(!path_within("/a/bc", "/a/b"));
    assert!(!path_within("/a", "/a/b"));
}

#[test]
fn accumulator_sums_and_tracks_latest() {
    let mut acc = MetricsAccumulator::new();
    acc.add_file(Some(100), Some(50));
    acc.add_file(None, None);
    acc.add_file(Some(23), Some(40));
    let m = acc.finish(SizeMode::ExactCached, Some(7));
    assert_eq!(m.size_bytes, Some(123));
    assert_eq!(m.files_count, Some(3));
    assert_eq!(m.last_edited_at, Some(50));
    assert_eq!(m.loc, Some(7));
    assert_eq!(acc.finish(SizeMode::Skip, None).size_bytes, None);
}

#[test]
fn accumulator_empty_and_saturating() {
    let acc = MetricsAccumulator::new();
    let m = acc.finish(SizeMode::ExactCached, None);
    assert_eq!((m.size_bytes, m.files_count, m.last_edited_at), (Some(0), Some(0), None));
    let mut big = MetricsAccumulator::new();
    big.add_file(Some(u64::MAX), Some(u64::MAX));
    big.add_file(Some(5), None);
    assert_eq!(big.total_size, i64::MAX);
    assert_eq!(big.latest_mtime, i64::MAX);
}

#[test]
fn commit_time_supersedes_older_edit() {
    assert_eq!(merge_last_edited(Some(10), Some(20)), Some(20));
    assert_eq!(merge_last_edited(Some(30), Some(20)), Some(30));
    assert_eq!(merge_last_edited(None, Some(20)), Some(20));
    assert_eq!(merge_last_edited(Some(10), None), Some(10));
    assert_eq!(merge_last_edited(None, None), None);
}

#[test]
fn loc_total_from_breakdown() {
    let b = Some((42, vec![("Rust".to_string(), 40), ("TOML".to_string(), 2)]));
    assert_eq!(compute_loc(&b), Some(42));
    assert_eq!(compute_loc(&None), None);
}

#[test]
fn default_config() {
    let cfg = AppConfig::default();
    assert_eq!(cfg.roots.len(), 1);
    assert!(cfg.roots[0].ends_with("/Code"));
    if dirs_next::home_dir().is_some() {
        assert_ne!(cfg.roots[0], "~/Code");
    }
    assert_eq!(cfg.global_ignores.len(), 9);
    assert_eq!(cfg.global_ignores[1], "node_modules");
    assert_eq!(cfg.size_mode, SizeMode::ExactCached);
    assert_eq!(cfg.concurrency, 8);
    assert!(!cfg.git.use_cli_fallback);
}

#[test]
fn joins_paths() {
    assert_eq!(join_path("/etc", "x"), "/etc/x");
    assert_eq!(join_path("/etc/", "x"), "/etc/x");
    assert_eq!(join_path("", "x"), "x");
}

#[test]
fn settings_locations() {
    if let Ok(p) = ConfigStore::config_path() {
        assert!(p.ends_with("/config.json"));
        assert!(p.len() > "/config.json".len());
    }
    if let Ok(p) = ConfigStore::app_ignore_path() {
        assert!(p.ends_with("/ignore"));
    }
    if let Ok(p) = ConfigStore::catalog_path() {
        assert!(p.ends_with("/projects.sqlite"));
    }
    let legacy = ConfigStore::user_ignore_path_legacy();
    assert!(legacy.ends_with("/.config/project-browser/ignore"));
    if dirs_next::home_dir().is_some() {
        assert!(!legacy.starts_with("~/"));
    }
}

#[test]
fn truncates_long_names() {
    assert_eq!(truncate("short", 24), "short");
    assert_eq!(truncate("abcdef", 6), "abcdef");
    assert_eq!(truncate("abcdefg", 6), "abcde\u{2026}");
    assert_eq!(truncate("abc", 0), "\u{2026}");
    assert_eq!(truncate("\u{e9}\u{e9}\u{e9}", 5), "\u{e9}\u{e9}\u{e9}\u{2026}");
}
