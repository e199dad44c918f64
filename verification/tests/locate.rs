use source_drift::locate::{
    candidate_root, containing_directory, find_crate, join_path, locate_source_root,
    names_package, wants_manifest, NotFound, ScanEntry,
};

fn names(path: &[&str]) -> Vec<String> {
    path.iter().map(|c| c.to_string()).collect()
}

fn entry(path: &[&str], declared_name: Option<&str>) -> ScanEntry {
    ScanEntry { components: names(path), declared_name: declared_name.map(|n| n.to_string()) }
}

fn walk() -> Vec<ScanEntry> {
    vec![
        entry(&[], None),
        entry(&[".git"], None),
        entry(&[".git", "Cargo.toml"], Some("wanted")),
        entry(&["Cargo.toml"], Some("workspace")),
        entry(&["README.md"], Some("wanted")),
        entry(&["crates"], None),
        entry(&["crates", "other", "Cargo.toml"], Some("other")),
        entry(&["crates", "broken", "Cargo.toml"], None),
        entry(&["crates", "wanted", "Cargo.toml"], Some("wanted")),
        entry(&["vendor", "wanted", "Cargo.toml"], Some("wanted")),
    ]
}

#[test]
fn hinted_directory_is_taken_when_it_declares_the_package() {
    assert_eq!(
        locate_source_root("/tmp/clone", Some("crates/wanted"), "wanted", Some("wanted"), &walk()),
        Ok("/tmp/clone/crates/wanted".to_string())
    );
    assert_eq!(
        locate_source_root("/tmp/clone", Some("crates/wanted"), "wanted", Some("wanted"), &vec![]),
        Ok("/tmp/clone/crates/wanted".to_string())
    );
    assert_eq!(
        locate_source_root("/tmp/clone", None, "workspace", Some("workspace"), &vec![]),
        Ok("/tmp/clone".to_string())
    );
}

#[test]
fn scan_finds_the_first_declaring_manifest() {
    assert_eq!(
        locate_source_root("/tmp/clone", Some("old/place"), "wanted", None, &walk()),
        Ok("/tmp/clone/crates/wanted".to_string())
    );
    assert_eq!(
        locate_source_root("/tmp/clone", None, "wanted", Some("workspace"), &walk()),
        Ok("/tmp/clone/crates/wanted".to_string())
    );
    assert_eq!(
        find_crate("/tmp/clone", &walk(), "other"),
        Some("/tmp/clone/crates/other".to_string())
    );
    assert_eq!(find_crate("/tmp/clone", &walk(), "workspace"), Some("/tmp/clone".to_string()));
}

#[test]
fn package_that_nothing_declares_is_not_found() {
    assert_eq!(
        locate_source_root("/tmp/clone", Some("crates/wanted"), "missing", Some("wanted"), &walk()),
        Err(NotFound)
    );
    assert_eq!(locate_source_root("/tmp/clone", None, "missing", None, &vec![]), Err(NotFound));
    assert_eq!(find_crate("/tmp/clone", &walk(), "missing"), None);
    assert_eq!(find_crate("/tmp/clone", &walk(), "broken"), None);
}

#[test]
fn manifests_below_the_metadata_directory_do_not_count() {
    let only_metadata = vec![
        entry(&[".git", "Cargo.toml"], Some("wanted")),
        entry(&["vendor", "x", ".git", "Cargo.toml"], Some("wanted")),
        entry(&["vendor", ".git", "sub", "Cargo.toml"], Some("wanted")),
    ];
    assert_eq!(find_crate("/r", &only_metadata, "wanted"), None);
    assert_eq!(locate_source_root("/r", None, "wanted", None, &only_metadata), Err(NotFound));
    let not_a_manifest = vec![entry(&["Cargo.lock"], Some("wanted"))];
    assert_eq!(find_crate("/r", &not_a_manifest, "wanted"), None);
}

#[test]
fn manifests_are_named_cargo_toml() {
    assert!(wants_manifest(&names(&["Cargo.toml"])));
    assert!(wants_manifest(&names(&["a", "b", "Cargo.toml"])));
    assert!(!wants_manifest(&names(&["a", "cargo.toml"])));
    assert!(!wants_manifest(&names(&["Cargo.toml", "x"])));
    assert!(!wants_manifest(&names(&[".git", "Cargo.toml"])));
    assert!(!wants_manifest(&names(&["a", ".git", "Cargo.toml"])));
    assert!(!wants_manifest(&names(&["a", ".git", "b", "Cargo.toml"])));
    assert!(wants_manifest(&names(&[".github", "Cargo.toml"])));
    assert!(!wants_manifest(&names(&[])));
}

#[test]
fn declared_name_must_equal_the_package_name() {
    assert!(names_package(Some("serde"), "serde"));
    assert!(!names_package(Some("serde_json"), "serde"));
    assert!(!names_package(None, "serde"));
}

#[test]
fn paths_are_joined_with_one_separator() {
    assert_eq!(join_path("/tmp/clone", "sub/dir"), "/tmp/clone/sub/dir");
    assert_eq!(join_path("/tmp/clone/", "sub"), "/tmp/clone/sub");
    assert_eq!(candidate_root("/tmp/clone", Some("a")), "/tmp/clone/a");
    assert_eq!(candidate_root("/tmp/clone", None), "/tmp/clone");
    assert_eq!(containing_directory("/r", &names(&["a", "b", "Cargo.toml"])), "/r/a/b");
    assert_eq!(containing_directory("/r", &names(&["Cargo.toml"])), "/r");
    assert_eq!(containing_directory("/r", &names(&[])), "/r");
}
