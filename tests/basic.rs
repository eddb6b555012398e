use indexer::detect::{detect_project_type, is_git_repo, ProjectType};
use indexer::metrics::MetricsAccumulator;
use indexer::{Catalog, FoundProject, RootScan, ScanOptions, SizeMode, SortKey};

fn names(v: &[&str]) -> Vec<String> {
    v.iter().map(|s| s.to_string()).collect()
}

#[test]
fn scans_minimal_node_project() {
    // Root holds `my-node/` with `package.json` and `index.js`.
    let root = "/tmp/root";
    let proj = "/tmp/root/my-node";
    let ignores = indexer::AppConfig::default().global_ignores;
    let mut catalog = Catalog::new();
    let mut scan = RootScan::new();

    assert!(scan.should_probe(root, Some("root"), &ignores));
    assert_eq!(detect_project_type(&names(&[]), None), None);

    assert!(scan.should_probe(proj, Some("my-node"), &ignores));
    let listing = names(&["package.json", "index.js"]);
    let ty = detect_project_type(&listing, None).unwrap();
    let mut acc = MetricsAccumulator::new();
    acc.add_file(Some("{\"name\":\"x\"}".len() as u64), Some(1_700_000_000));
    acc.add_file(Some("console.log('hi');\n".len() as u64), Some(1_700_000_100));
    let found = FoundProject {
        name: "my-node".to_string(),
        path: proj.to_string(),
        project_type: ty,
        is_git_repo: false,
        metrics: acc.finish(SizeMode::ExactCached, None),
        git: None,
        languages: None,
    };
    scan.record(&mut catalog, found, ScanOptions { dry_run: false }, 10).unwrap();
    assert!(!scan.should_probe("/tmp/root/my-node/lib", Some("lib"), &ignores));
    let n = scan.count;
    assert_eq!(n, 1);

    let rows = catalog.list_projects(SortKey::Recent, 10);
    assert_eq!(rows.len(), 1);
    assert_eq!(rows[0].name, "my-node");
    assert_eq!(rows[0].project_type.as_deref(), Some("node"));
    assert!(rows[0].size_bytes.unwrap_or(0) > 0);
}

#[test]
fn detects_terraform_project() {
    let project_type = detect_project_type(&names(&["main.tf"]), None);
    assert_eq!(project_type, Some(ProjectType::Terraform));
}

#[test]
fn detects_ansible_project() {
    let sub = names(&["playbook.yml"]);
    let project_type = detect_project_type(&names(&["ansible"]), Some(&sub));
    assert_eq!(project_type, Some(ProjectType::Ansible));
}

#[test]
fn earlier_rule_wins_over_later_one() {
    let listing = names(&["package.json", "Cargo.toml", "go.mod"]);
    for _ in 0..3 {
        assert_eq!(detect_project_type(&listing, None), Some(ProjectType::Rust));
    }
    let listing = names(&["main.tf", "requirements.txt"]);
    assert_eq!(detect_project_type(&listing, None), Some(ProjectType::Python));
    let sub = names(&["site.yml"]);
    assert_eq!(detect_project_type(&names(&["ansible", "outputs.tf"]), Some(&sub)), Some(ProjectType::Terraform));
}

#[test]
fn detects_each_marker() {
    let cases: [(&str, ProjectType); 12] = [
        ("Cargo.toml", ProjectType::Rust),
        ("package.json", ProjectType::NodeJs),
        ("pyproject.toml", ProjectType::Python),
        ("requirements.txt", ProjectType::Python),
        ("go.mod", ProjectType::Go),
        ("pom.xml", ProjectType::Java),
        ("build.gradle", ProjectType::Java),
        ("gradlew", ProjectType::Java),
        ("global.json", ProjectType::DotNet),
        ("App.csproj", ProjectType::DotNet),
        ("variables.tf", ProjectType::Terraform),
        ("outputs.tf", ProjectType::Terraform),
    ];
    for (marker, ty) in cases {
        assert_eq!(detect_project_type(&names(&[marker, "README.md"]), None), Some(ty));
    }
}

#[test]
fn extension_rules_follow_file_name_extensions() {
    assert_eq!(detect_project_type(&names(&[".csproj"]), None), None);
    assert_eq!(detect_project_type(&names(&["x.csproj.bak"]), None), None);
    let sub = names(&["deploy.yaml"]);
    assert_eq!(detect_project_type(&names(&["ansible"]), Some(&sub)), Some(ProjectType::Ansible));
    let sub = names(&["notes.txt", ".yml"]);
    assert_eq!(detect_project_type(&names(&["ansible"]), Some(&sub)), None);
    assert_eq!(detect_project_type(&names(&["playbook.yml"]), None), None);
}

#[test]
fn type_labels() {
    assert_eq!(ProjectType::NodeJs.as_str(), "node");
    assert_eq!(ProjectType::DotNet.as_str(), ".net");
    assert_eq!(ProjectType::Terraform.as_str(), "terraform");
    assert_eq!(ProjectType::Other.as_str(), "other");
}

#[test]
fn version_control_marker() {
    assert!(is_git_repo(&names(&["src", ".git"])));
    assert!(!is_git_repo(&names(&["src", ".github"])));
    let info = indexer::vcs::read_git_info();
    assert!(info.last_commit_at.is_none() && info.branch.is_none() && info.remote_url.is_none());
}
