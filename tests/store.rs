use local_lore::models::{CollectorDependency, ProjectLanguage};
use local_lore::store::DependencyStore;

fn project() -> String {
    "/work/demo".to_string()
}

fn dep(name: &str, version: &str, language: ProjectLanguage) -> CollectorDependency {
    CollectorDependency::new(name.to_string(), version.to_string(), language)
}

#[test]
fn single_manifest_inserts_one_unindexed_record() {
    let mut store = DependencyStore::new();
    let rust = vec![dep("left-pad", "1.3.0", ProjectLanguage::Rust)];
    let javascript: Vec<CollectorDependency> = Vec::new();
    let all = local_lore::collectors::aggregate_dependencies(rust, javascript);
    let n = store.reconcile(&project(), &all, 100);
    assert_eq!(n, 1);
    assert_eq!(store.len(), 1);
    let r = &store.records()[0];
    assert_eq!(r.language, ProjectLanguage::Rust);
    assert_eq!(r.name, "left-pad");
    assert_eq!(r.version, "1.3.0");
    assert_eq!(r.first_seen_at, 100);
    assert_eq!(r.last_seen_at, 100);
    assert_eq!(r.last_indexed_at, None);
}

#[test]
fn rescan_keeps_count_and_first_seen() {
    let mut store = DependencyStore::new();
    let deps = vec![
        dep("left-pad", "1.3.0", ProjectLanguage::JavaScript),
        dep("serde", "1.0.0", ProjectLanguage::Rust),
    ];
    assert_eq!(store.reconcile(&project(), &deps, 100), 2);
    assert_eq!(store.reconcile(&project(), &deps, 250), 2);
    assert_eq!(store.len(), 2);
    for r in store.records() {
        assert_eq!(r.first_seen_at, 100);
        assert_eq!(r.last_seen_at, 250);
        assert_eq!(r.last_indexed_at, None);
    }
}

#[test]
fn rescan_leaves_indexed_marker() {
    let mut store = DependencyStore::new();
    let deps = vec![dep("left-pad", "1.3.0", ProjectLanguage::JavaScript)];
    store.reconcile(&project(), &deps, 100);
    assert!(store.mark_indexed(
        ProjectLanguage::JavaScript,
        &"left-pad".to_string(),
        &"1.3.0".to_string(),
        150
    ));
    store.reconcile(&project(), &deps, 200);
    assert_eq!(store.len(), 1);
    let r = &store.records()[0];
    assert_eq!(r.last_indexed_at, Some(150));
    assert_eq!(r.first_seen_at, 100);
    assert_eq!(r.last_seen_at, 200);
}

#[test]
fn find_unindexed_returns_only_unindexed() {
    let mut store = DependencyStore::new();
    let deps = vec![
        dep("left-pad", "1.3.0", ProjectLanguage::JavaScript),
        dep("serde", "1.0.0", ProjectLanguage::Rust),
    ];
    store.reconcile(&project(), &deps, 10);
    assert!(store.mark_indexed(ProjectLanguage::Rust, &"serde".to_string(), &"1.0.0".to_string(), 20));
    let stale = store.find_unindexed();
    assert_eq!(stale.len(), 1);
    assert_eq!(stale[0].name, "left-pad");
    assert_eq!(stale[0].language, ProjectLanguage::JavaScript);
}

#[test]
fn find_unindexed_on_empty_store_is_empty() {
    let store = DependencyStore::new();
    assert!(store.find_unindexed().is_empty());
}

#[test]
fn mark_indexed_of_unknown_identity_changes_nothing() {
    let mut store = DependencyStore::new();
    store.reconcile(&project(), &vec![dep("a", "1", ProjectLanguage::Rust)], 5);
    assert!(!store.mark_indexed(ProjectLanguage::JavaScript, &"a".to_string(), &"1".to_string(), 9));
    assert_eq!(store.records()[0].last_indexed_at, None);
}

#[test]
fn same_name_and_version_in_two_ecosystems_gives_two_records() {
    let mut store = DependencyStore::new();
    let deps = vec![
        dep("uuid", "1.0.0", ProjectLanguage::Rust),
        dep("uuid", "1.0.0", ProjectLanguage::JavaScript),
    ];
    store.reconcile(&project(), &deps, 1);
    assert_eq!(store.len(), 2);
    assert_ne!(store.records()[0].language, store.records()[1].language);
}

#[test]
fn record_count_is_number_of_distinct_identities_over_scans() {
    let mut store = DependencyStore::new();
    store.reconcile(
        &project(),
        &vec![dep("a", "1", ProjectLanguage::Rust), dep("b", "1", ProjectLanguage::Rust)],
        1,
    );
    store.reconcile(
        &project(),
        &vec![dep("b", "1", ProjectLanguage::Rust), dep("a", "2", ProjectLanguage::Rust)],
        2,
    );
    store.reconcile(&project(), &vec![dep("a", "1", ProjectLanguage::JavaScript)], 3);
    assert_eq!(store.len(), 4);
}

#[test]
fn duplicate_in_one_list_gives_one_record() {
    let mut store = DependencyStore::new();
    let deps = vec![dep("a", "1", ProjectLanguage::Rust), dep("a", "1", ProjectLanguage::Rust)];
    assert_eq!(store.reconcile(&project(), &deps, 7), 2);
    assert_eq!(store.len(), 1);
}

#[test]
fn earlier_scan_time_does_not_move_last_seen_back() {
    let mut store = DependencyStore::new();
    let deps = vec![dep("a", "1", ProjectLanguage::Rust)];
    store.reconcile(&project(), &deps, 50);
    store.reconcile(&project(), &deps, 40);
    let r = &store.records()[0];
    assert_eq!(r.first_seen_at, 50);
    assert_eq!(r.last_seen_at, 50);
}

#[test]
fn reconcile_over_several_batches_upserts_all() {
    let mut store = DependencyStore::new();
    let mut deps = Vec::new();
    for k in 0..25 {
        deps.push(dep("pkg", &format!("1.0.{}", k), ProjectLanguage::Rust));
    }
    assert_eq!(store.reconcile(&project(), &deps, 3), 25);
    assert_eq!(store.len(), 25);
    assert_eq!(store.records()[24].version, "1.0.24");
}

#[test]
fn reconcile_links_project_to_each_dependency_once() {
    let mut store = DependencyStore::new();
    let deps = vec![
        dep("a", "1", ProjectLanguage::Rust),
        dep("b", "2", ProjectLanguage::JavaScript),
    ];
    store.reconcile(&project(), &deps, 10);
    store.reconcile(&project(), &deps, 20);
    store.reconcile(&"/work/other".to_string(), &vec![dep("a", "1", ProjectLanguage::Rust)], 30);
    assert_eq!(store.len(), 2);
    let links = store.links();
    assert_eq!(links.len(), 3);
    assert_eq!(links[0].path, "/work/demo");
    assert_eq!(links[0].name, "a");
    assert_eq!(links[0].first_seen_at, 10);
    assert_eq!(links[0].last_seen_at, 20);
    assert_eq!(links[2].path, "/work/other");
    assert_eq!(links[2].first_seen_at, 30);
    assert_eq!(store.records()[0].last_seen_at, 30);
    assert_eq!(store.records()[1].last_seen_at, 20);
}
