use local_lore::collectors::cargo_lock::{
    collect_dependencies as collect_cargo, DependencyKind, NodeDependency, ResolvedNode,
    ResolvedPackage, WorkspaceMetadata,
};
use local_lore::collectors::package_lock::{collect_dependencies as collect_npm, engine_lists_are_strings};
use local_lore::collectors::{aggregate_dependencies, dedup_packages};
use local_lore::models::{CollectorDependency, InsertDependency, ProjectLanguage};

fn package(id: &str, name: &str, version: &str) -> ResolvedPackage {
    ResolvedPackage { id: id.to_string(), name: name.to_string(), version: version.to_string() }
}

fn node(id: &str, deps: &[(&str, &[DependencyKind])]) -> ResolvedNode {
    ResolvedNode {
        id: id.to_string(),
        deps: deps
            .iter()
            .map(|(pkg, kinds)| NodeDependency { pkg: pkg.to_string(), kinds: kinds.to_vec() })
            .collect(),
    }
}

fn pairs(deps: &[CollectorDependency]) -> Vec<(String, String)> {
    let mut v: Vec<(String, String)> = deps.iter().map(|d| (d.name.clone(), d.version.clone())).collect();
    v.sort();
    v
}

#[test]
fn dedup_keeps_first_occurrences_in_order() {
    let entries = vec![
        ("a".to_string(), "1".to_string()),
        ("b".to_string(), "1".to_string()),
        ("a".to_string(), "1".to_string()),
        ("a".to_string(), "2".to_string()),
    ];
    let out = dedup_packages(&entries, ProjectLanguage::JavaScript);
    let got: Vec<(String, String)> = out.iter().map(|d| (d.name.clone(), d.version.clone())).collect();
    assert_eq!(
        got,
        vec![
            ("a".to_string(), "1".to_string()),
            ("b".to_string(), "1".to_string()),
            ("a".to_string(), "2".to_string())
        ]
    );
    assert!(out.iter().all(|d| d.language == ProjectLanguage::JavaScript));
}

#[test]
fn dedup_of_nothing_is_empty() {
    assert!(dedup_packages(&Vec::new(), ProjectLanguage::Rust).is_empty());
}

#[test]
fn aggregate_concatenates() {
    let a = vec![CollectorDependency::new("x".to_string(), "1".to_string(), ProjectLanguage::Rust)];
    let b = vec![CollectorDependency::new("x".to_string(), "1".to_string(), ProjectLanguage::JavaScript)];
    let all = aggregate_dependencies(a, b);
    assert_eq!(all.len(), 2);
    assert_eq!(all[0].language, ProjectLanguage::Rust);
    assert_eq!(all[1].language, ProjectLanguage::JavaScript);
}

fn sample_workspace() -> WorkspaceMetadata {
    WorkspaceMetadata {
        packages: vec![
            package("app", "app", "0.1.0"),
            package("serde", "serde", "1.0.0"),
            package("serde_derive", "serde_derive", "1.0.0"),
            package("cc", "cc", "1.0.0"),
            package("jobserver", "jobserver", "0.1.0"),
            package("tempfile", "tempfile", "3.0.0"),
            package("quickcheck", "quickcheck", "1.0.0"),
        ],
        workspace_members: vec!["app".to_string()],
        nodes: vec![
            node("app", &[("serde", &[DependencyKind::Normal]), ("cc", &[DependencyKind::Build]), ("tempfile", &[DependencyKind::Development])]),
            node("serde", &[("serde_derive", &[DependencyKind::Normal]), ("quickcheck", &[DependencyKind::Development])]),
            node("serde_derive", &[]),
            node("cc", &[("jobserver", &[DependencyKind::Normal])]),
            node("jobserver", &[]),
            node("tempfile", &[]),
            node("quickcheck", &[]),
        ],
    }
}

#[test]
fn cargo_collects_transitive_runtime_dependencies() {
    let out = collect_cargo(&sample_workspace());
    assert_eq!(
        pairs(&out),
        vec![
            ("serde".to_string(), "1.0.0".to_string()),
            ("serde_derive".to_string(), "1.0.0".to_string()),
            ("tempfile".to_string(), "3.0.0".to_string()),
        ]
    );
    assert!(out.iter().all(|d| d.language == ProjectLanguage::Rust));
}

#[test]
fn cargo_excludes_build_only_packages() {
    let out = collect_cargo(&sample_workspace());
    assert!(out.iter().all(|d| d.name != "cc" && d.name != "jobserver"));
}

#[test]
fn cargo_ignores_development_edges_of_non_members() {
    let out = collect_cargo(&sample_workspace());
    assert!(out.iter().all(|d| d.name != "quickcheck"));
}

#[test]
fn cargo_build_only_version_stays_out_beside_runtime_version() {
    let m = WorkspaceMetadata {
        packages: vec![
            package("app", "app", "0.1.0"),
            package("cc 1.0", "cc", "1.0.0"),
            package("cc 1.1", "cc", "1.1.0"),
            package("libfoo", "libfoo", "0.2.0"),
        ],
        workspace_members: vec!["app".to_string()],
        nodes: vec![
            node("app", &[("cc 1.0", &[DependencyKind::Build]), ("libfoo", &[DependencyKind::Normal])]),
            node("libfoo", &[("cc 1.1", &[DependencyKind::Normal])]),
            node("cc 1.0", &[]),
            node("cc 1.1", &[]),
        ],
    };
    let out = collect_cargo(&m);
    assert_eq!(
        pairs(&out),
        vec![("cc".to_string(), "1.1.0".to_string()), ("libfoo".to_string(), "0.2.0".to_string())]
    );
}

#[test]
fn cargo_edge_with_build_and_normal_kinds_counts() {
    let m = WorkspaceMetadata {
        packages: vec![package("app", "app", "0.1.0"), package("log", "log", "0.4.0")],
        workspace_members: vec!["app".to_string()],
        nodes: vec![node("app", &[("log", &[DependencyKind::Build, DependencyKind::Normal])]), node("log", &[])],
    };
    assert_eq!(pairs(&collect_cargo(&m)), vec![("log".to_string(), "0.4.0".to_string())]);
}

#[test]
fn cargo_keeps_two_versions_of_one_name() {
    let m = WorkspaceMetadata {
        packages: vec![
            package("a", "a", "0.1.0"),
            package("rand 0.7", "rand", "0.7.3"),
            package("rand 0.8", "rand", "0.8.5"),
        ],
        workspace_members: vec!["a".to_string()],
        nodes: vec![node("a", &[("rand 0.7", &[DependencyKind::Normal]), ("rand 0.8", &[DependencyKind::Normal])])],
    };
    let out = collect_cargo(&m);
    assert_eq!(
        pairs(&out),
        vec![("rand".to_string(), "0.7.3".to_string()), ("rand".to_string(), "0.8.5".to_string())]
    );
}

#[test]
fn cargo_unions_members_and_dedups() {
    let m = WorkspaceMetadata {
        packages: vec![
            package("a", "a", "0.1.0"),
            package("b", "b", "0.1.0"),
            package("log", "log", "0.4.0"),
        ],
        workspace_members: vec!["a".to_string(), "b".to_string()],
        nodes: vec![
            node("a", &[("log", &[DependencyKind::Normal])]),
            node("b", &[("log", &[DependencyKind::Normal]), ("a", &[DependencyKind::Normal])]),
            node("log", &[]),
        ],
    };
    let out = collect_cargo(&m);
    assert_eq!(
        pairs(&out),
        vec![("a".to_string(), "0.1.0".to_string()), ("log".to_string(), "0.4.0".to_string())]
    );
}

#[test]
fn cargo_without_members_collects_nothing() {
    let mut m = sample_workspace();
    m.workspace_members.clear();
    assert!(collect_cargo(&m).is_empty());
}

#[test]
fn cargo_without_resolved_graph_collects_nothing() {
    let mut m = sample_workspace();
    m.nodes.clear();
    assert!(collect_cargo(&m).is_empty());
}

#[test]
fn npm_lockfile_v1_is_read() {
    let text = r#"{
  "name": "demo",
  "version": "1.0.0",
  "lockfileVersion": 1,
  "dependencies": {
    "left-pad": { "version": "1.3.0" },
    "is-odd": { "version": "3.0.1", "dev": true }
  }
}"#;
    let out = collect_npm(text);
    assert_eq!(
        pairs(&out),
        vec![("is-odd".to_string(), "3.0.1".to_string()), ("left-pad".to_string(), "1.3.0".to_string())]
    );
    assert!(out.iter().all(|d| d.language == ProjectLanguage::JavaScript));
}

#[test]
fn npm_lockfile_v3_is_read() {
    let text = r#"{
  "name": "demo",
  "lockfileVersion": 3,
  "packages": {
    "": { "name": "demo", "version": "1.0.0" },
    "node_modules/left-pad": { "version": "1.3.0", "engines": { "node": ">=4" } },
    "node_modules/yaml": { "version": "2.3.1", "engines": [ "node >= 14" ] }
  }
}"#;
    let out = collect_npm(text);
    assert_eq!(
        pairs(&out),
        vec![("left-pad".to_string(), "1.3.0".to_string()), ("yaml".to_string(), "2.3.1".to_string())]
    );
}

#[test]
fn npm_malformed_lockfile_yields_nothing() {
    assert!(collect_npm("{ not json").is_empty());
    assert!(collect_npm("").is_empty());
}

#[test]
fn npm_engines_array_with_number_yields_nothing() {
    let text = r#"{
  "name": "demo",
  "lockfileVersion": 3,
  "packages": {
    "node_modules/a": { "version": "1.0.0", "engines": [ 14 ] }
  }
}"#;
    assert!(collect_npm(text).is_empty());
}

fn chars(text: &str) -> Vec<char> {
    text.chars().collect()
}

#[test]
fn engines_check_accepts_string_arrays_and_objects() {
    let ok = r#"{"packages": {"node_modules/a": {"engines": ["node >= 14", "npm \"7\""]}, "node_modules/b": {"engines": {"node": "1"}}}}"#;
    assert!(engine_lists_are_strings(&chars(ok)));
    let bad = r#"{"packages": {"node_modules/a": {"version": "1", "engines": ["node", 3]}}}"#;
    assert!(!engine_lists_are_strings(&chars(bad)));
}

#[test]
fn engines_check_decodes_escaped_keys() {
    let bad = r#"{"p\u0061ckages": {"node_modules/a": {"engin\u0065s": [3]}}}"#;
    assert!(!engine_lists_are_strings(&chars(bad)));
}

#[test]
fn engines_check_covers_root_array_form() {
    let bad = r#"["demo", null, 3, null, {"node_modules/a": {"engines": [1]}}]"#;
    assert!(!engine_lists_are_strings(&chars(bad)));
    let other_element = r#"["demo", null, 3, {"node_modules/a": {"engines": [1]}}, null]"#;
    assert!(engine_lists_are_strings(&chars(other_element)));
}

#[test]
fn engines_check_ignores_places_the_parser_leaves_alone() {
    let root_entry = r#"{"packages": {"": {"engines": [1]}, "node_modules/a": {"engines": ["x"]}}}"#;
    assert!(engine_lists_are_strings(&chars(root_entry)));
    let v1 = r#"{"dependencies": {"a": {"version": "1", "engines": [1]}}}"#;
    assert!(engine_lists_are_strings(&chars(v1)));
    let in_string = r#"{"packages": {"node_modules/a": {"description": "\"engines\": [1]"}}}"#;
    assert!(engine_lists_are_strings(&chars(in_string)));
    let nested = r#"{"packages": {"node_modules/a": {"x": {"engines": [1]}}}}"#;
    assert!(engine_lists_are_strings(&chars(nested)));
}

#[test]
fn npm_lockfile_with_escapes_and_ignored_engines_is_read() {
    let text = r#"{
  "name": "demo",
  "lockfileVersion": 3,
  "packages": {
    "": { "name": "demo", "version": "1.0.0", "engines": [ 14 ] },
    "node_modules/left-pad": { "version": "1.3.0", "resolved": "file:C:\\up\\pkg" },
    "node_modules/caf\u00e9": { "version": "0.1.0" }
  }
}"#;
    let out = collect_npm(text);
    assert_eq!(
        pairs(&out),
        vec![("café".to_string(), "0.1.0".to_string()), ("left-pad".to_string(), "1.3.0".to_string())]
    );
}

#[test]
fn record_key_joins_language_name_and_version() {
    let d = InsertDependency::new("left-pad".to_string(), "1.3.0".to_string(), ProjectLanguage::JavaScript);
    assert_eq!(d.id.table, "dependency");
    assert_eq!(d.id.key, "javascript:left-pad:1.3.0");
    assert_eq!(ProjectLanguage::Rust.label(), "rust");
}
