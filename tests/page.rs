use indexer::page::{normalize_search, sort_key_named};
use indexer::{Catalog, Metrics, SortKey};

fn sample() -> Catalog {
    let mut c = Catalog::new();
    let rows = [("node-b", Some(5)), ("other", Some(9)), ("node-a", None), ("node-c", Some(1))];
    for (i, (name, size)) in rows.iter().enumerate() {
        let id = c.upsert_project(name, &format!("/src/{name}"), Some("node"), false, i as i64).unwrap();
        let m = Metrics { size_bytes: *size, files_count: Some(1), last_edited_at: None, loc: None };
        c.upsert_metrics(id, m).unwrap();
    }
    c
}

#[test]
fn sort_names_map_to_keys() {
    assert_eq!(sort_key_named(Some("size")), SortKey::Size);
    assert_eq!(sort_key_named(Some("name")), SortKey::Name);
    assert_eq!(sort_key_named(Some("type")), SortKey::Type);
    assert_eq!(sort_key_named(Some("loc")), SortKey::Loc);
    assert_eq!(sort_key_named(Some("Size")), SortKey::Recent);
    assert_eq!(sort_key_named(None), SortKey::Recent);
}

#[test]
fn blank_search_means_none() {
    assert_eq!(normalize_search(Some("  \t")), None);
    assert_eq!(normalize_search(Some("")), None);
    assert_eq!(normalize_search(Some(" x ")), Some(" x "));
    assert_eq!(normalize_search(None), None);
}

#[test]
fn page_query_counts_and_sorts() {
    let c = sample();
    let p = c.query_page(Some("node"), Some("size"), Some("asc"), 0, 2);
    assert_eq!(p.total_count, 3);
    assert_eq!((p.page, p.page_size), (0, 2));
    let names: Vec<&str> = p.items.iter().map(|r| r.name.as_str()).collect();
    assert_eq!(names, ["node-c", "node-b"]);
    let p = c.query_page(Some(" "), Some("size"), None, 0, 10);
    assert_eq!(p.total_count, 4);
    let names: Vec<&str> = p.items.iter().map(|r| r.name.as_str()).collect();
    assert_eq!(names, ["other", "node-b", "node-c", "node-a"]);
}
