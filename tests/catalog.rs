use indexer::catalog::CatalogError;
use indexer::vcs::GitInfo;
use indexer::{Catalog, FoundProject, Metrics, ProjectRecord, RootScan, ScanOptions, SortKey};
use indexer::detect::ProjectType;

fn metrics(size: Option<i64>, last: Option<i64>, loc: Option<i64>) -> Metrics {
    Metrics { size_bytes: size, files_count: Some(1), last_edited_at: last, loc }
}

fn found(name: &str, path: &str, m: Metrics) -> FoundProject {
    FoundProject {
        name: name.to_string(),
        path: path.to_string(),
        project_type: ProjectType::NodeJs,
        is_git_repo: false,
        metrics: m,
        git: None,
        languages: None,
    }
}

fn scan_once(catalog: &mut Catalog, dry_run: bool) -> usize {
    let mut scan = RootScan::new();
    let items = [("a", "/r/a"), ("b", "/r/b"), ("c", "/r/c")];
    for (name, path) in items {
        if scan.should_probe(path, Some(name), &vec![]) {
            scan.record(catalog, found(name, path, metrics(Some(1), Some(2), None)), ScanOptions { dry_run }, 5)
                .unwrap();
        }
    }
    scan.count
}

#[test]
fn rescanning_keeps_ids_and_count() {
    let mut c = Catalog::new();
    assert_eq!(scan_once(&mut c, false), 3);
    let first: Vec<(String, i64)> = c.records().into_iter().map(|r| (r.path, r.id)).collect();
    assert_eq!(scan_once(&mut c, false), 3);
    let second: Vec<(String, i64)> = c.records().into_iter().map(|r| (r.path, r.id)).collect();
    assert_eq!(first, second);
    assert_eq!(c.count_projects(None), 3);
}

#[test]
fn upsert_refreshes_existing_row() {
    let mut c = Catalog::new();
    let id = c.upsert_project("old", "/p", Some("rust"), false, 1).unwrap();
    let again = c.upsert_project("new", "/p", Some("node"), true, 7).unwrap();
    assert_eq!(id, again);
    assert_eq!(c.len(), 1);
    let row = &c.entries[0].project;
    assert_eq!(row.name, "new");
    assert_eq!(row.project_type.as_deref(), Some("node"));
    assert!(row.is_git_repo);
    assert_eq!((row.created_at, row.updated_at), (1, 7));
    let other = c.upsert_project("q", "/q", None, false, 8).unwrap();
    assert_eq!(other, id + 1);
}

#[test]
fn metrics_replace_wholesale() {
    let mut c = Catalog::new();
    let id = c.upsert_project("p", "/p", Some("go"), false, 1).unwrap();
    c.upsert_metrics(id, metrics(Some(10), Some(20), Some(30))).unwrap();
    c.upsert_metrics(id, metrics(None, Some(21), None)).unwrap();
    let r = &c.records()[0];
    assert_eq!((r.size_bytes, r.last_edited_at, r.loc), (None, Some(21), None));
}

#[test]
fn unknown_project_is_refused() {
    let mut c = Catalog::new();
    assert_eq!(c.upsert_metrics(4, metrics(None, None, None)), Err(CatalogError::UnknownProject));
    let info = GitInfo { last_commit_at: None, branch: None, remote_url: None };
    assert_eq!(c.upsert_git_info(4, info), Err(CatalogError::UnknownProject));
    assert_eq!(c.replace_loc_breakdown(4, vec![]), Err(CatalogError::UnknownProject));
}

#[test]
fn ids_run_out() {
    let mut c = Catalog { entries: vec![], next_id: i64::MAX };
    assert_eq!(c.upsert_project("p", "/p", None, false, 0), Err(CatalogError::IdsExhausted));
    assert_eq!(c.len(), 0);
}

#[test]
fn restoring_checks_rows() {
    let mut c = Catalog::new();
    c.upsert_project("a", "/a", None, false, 0).unwrap();
    c.upsert_project("b", "/b", None, false, 0).unwrap();
    let entries = c.entries.clone();
    let restored = Catalog::from_entries(entries.clone()).unwrap();
    assert_eq!(restored.next_id, 3);
    let mut dup = entries.clone();
    dup[1].project.path = "/a".to_string();
    assert_eq!(Catalog::from_entries(dup).err(), Some(CatalogError::Inconsistent));
    let mut swapped = entries;
    swapped.swap(0, 1);
    assert_eq!(Catalog::from_entries(swapped).err(), Some(CatalogError::Inconsistent));
}

#[test]
fn language_breakdown_is_replaced() {
    let mut c = Catalog::new();
    let id = c.upsert_project("p", "/p", None, false, 0).unwrap();
    c.replace_loc_breakdown(id, vec![("Rust".to_string(), 10), ("TOML".to_string(), 2)]).unwrap();
    c.replace_loc_breakdown(id, vec![("Python".to_string(), 5)]).unwrap();
    assert_eq!(c.entries[0].languages, vec![("Python".to_string(), 5)]);
    c.replace_loc_breakdown(id, vec![]).unwrap();
    assert!(c.entries[0].languages.is_empty());
}

#[test]
fn version_control_info_is_stored() {
    let mut c = Catalog::new();
    let id = c.upsert_project("p", "/p", None, true, 0).unwrap();
    let info = GitInfo { last_commit_at: Some(9), branch: Some("main".to_string()), remote_url: None };
    c.upsert_git_info(id, info).unwrap();
    let g = c.entries[0].git.as_ref().unwrap();
    assert_eq!((g.last_commit_at, g.branch.as_deref(), g.remote_url.as_deref()), (Some(9), Some("main"), None));
}

fn catalog_with(metrics_list: &[(&str, Option<i64>)]) -> Catalog {
    let mut c = Catalog::new();
    for (i, (name, v)) in metrics_list.iter().enumerate() {
        let id = c.upsert_project(name, &format!("/r/{name}"), Some("rust"), false, i as i64).unwrap();
        c.upsert_metrics(id, metrics(*v, *v, *v)).unwrap();
    }
    c
}

fn names_of(rows: &[ProjectRecord]) -> Vec<String> {
    rows.iter().map(|r| r.name.clone()).collect()
}

#[test]
fn nulls_sort_last_both_ways() {
    let c = catalog_with(&[("a", None), ("b", Some(5)), ("c", Some(1)), ("d", None), ("e", Some(3))]);
    for key in [SortKey::Recent, SortKey::Size, SortKey::Loc] {
        let asc = c.query_projects(None, key, true, 0, 10);
        assert_eq!(names_of(&asc), ["c", "e", "b", "a", "d"]);
        let desc = c.query_projects(None, key, false, 0, 10);
        assert_eq!(names_of(&desc), ["b", "e", "c", "a", "d"]);
    }
    assert_eq!(names_of(&c.list_projects(SortKey::Size, 10)), ["b", "e", "c", "a", "d"]);
}

#[test]
fn list_respects_limit_and_keys() {
    let c = catalog_with(&[("zeta", Some(1)), ("alpha", Some(2)), ("mid", None)]);
    assert_eq!(names_of(&c.list_projects(SortKey::Name, 2)), ["alpha", "mid"]);
    assert_eq!(names_of(&c.list_projects(SortKey::Recent, 1)), ["alpha"]);
    assert_eq!(c.list_projects(SortKey::Loc, 0).len(), 0);
    assert_eq!(names_of(&c.list_projects(SortKey::Type, 10)), ["alpha", "mid", "zeta"]);
}

#[test]
fn type_sort_then_name() {
    let mut c = Catalog::new();
    c.upsert_project("b", "/b", Some("rust"), false, 0).unwrap();
    c.upsert_project("a", "/a", Some("rust"), false, 0).unwrap();
    c.upsert_project("c", "/c", Some("go"), false, 0).unwrap();
    c.upsert_project("d", "/d", None, false, 0).unwrap();
    assert_eq!(names_of(&c.query_projects(None, SortKey::Type, true, 0, 10)), ["d", "c", "a", "b"]);
    assert_eq!(names_of(&c.query_projects(None, SortKey::Type, false, 0, 10)), ["b", "a", "c", "d"]);
}

#[test]
fn search_counts_and_pages() {
    let mut c = Catalog::new();
    let all = [
        "node-api", "alpha", "beta", "my-node", "gamma", "delta", "epsilon", "zeta", "eta", "anode",
    ];
    for (i, name) in all.iter().enumerate() {
        c.upsert_project(name, &format!("/code/{name}"), None, false, i as i64).unwrap();
    }
    assert_eq!(c.count_projects(Some("node")), 3);
    assert_eq!(c.count_projects(None), 10);
    let rows = c.query_projects(Some("node"), SortKey::Name, true, 0, 10);
    assert_eq!(names_of(&rows), ["anode", "my-node", "node-api"]);
    let page = c.query_projects(Some("node"), SortKey::Name, true, 1, 2);
    assert_eq!(names_of(&page), ["node-api"]);
    assert!(c.query_projects(Some("node"), SortKey::Name, true, 5, 2).is_empty());
}

#[test]
fn search_matches_path_and_ignores_ascii_case() {
    let mut c = Catalog::new();
    c.upsert_project("web", "/Work/Client/web", None, false, 0).unwrap();
    c.upsert_project("tool", "/home/tool", None, false, 0).unwrap();
    assert_eq!(c.count_projects(Some("client")), 1);
    assert_eq!(c.count_projects(Some("WEB")), 1);
    assert_eq!(c.count_projects(Some("")), 2);
    assert_eq!(c.count_projects(Some("xyz")), 0);
}

#[test]
fn dry_run_leaves_catalog_alone() {
    let mut c = Catalog::new();
    c.upsert_project("x", "/x", None, false, 0).unwrap();
    let n = scan_once(&mut c, true);
    assert_eq!(n, 3);
    assert_eq!(c.count_projects(None), 1);
    assert_eq!(c.next_id, 2);
}

#[test]
fn record_writes_everything_found() {
    let mut c = Catalog::new();
    let mut scan = RootScan::new();
    let mut f = found("p", "/p", metrics(Some(4), Some(6), Some(8)));
    f.git = Some(GitInfo { last_commit_at: Some(6), branch: None, remote_url: Some("u".to_string()) });
    f.languages = Some(vec![("Rust".to_string(), 8)]);
    let id = scan.record(&mut c, f, ScanOptions::default(), 3).unwrap().unwrap();
    let e = &c.entries[0];
    assert_eq!(e.project.id, id);
    assert_eq!(e.project.project_type.as_deref(), Some("node"));
    assert_eq!(e.metrics, Some(metrics(Some(4), Some(6), Some(8))));
    assert_eq!(e.git.as_ref().unwrap().remote_url.as_deref(), Some("u"));
    assert_eq!(e.languages, vec![("Rust".to_string(), 8)]);
    assert_eq!(scan.claimed, vec!["/p".to_string()]);
}
