use source_drift::cargo_toml::{parse_cargo_toml, with_repository, CargoToml, ManifestError, Package};
use source_drift::crates_io::{
    archive_root, download_url, get_expected_sha1_from_crate, CargoVcsInfoJson,
    CargoVcsInfoJsonGit,
};
use source_drift::repository_url::{CanonicalRepo, InvalidUrl};

fn manifest(repository: Option<&str>, subpath: Option<&str>, build: Option<&str>) -> CargoToml {
    CargoToml {
        package: Package {
            name: "wanted".to_string(),
            repository: repository.map(|r| r.to_string()),
            repository_subpath: subpath.map(|s| s.to_string()),
            build: build.map(|b| b.to_string()),
        },
    }
}

#[test]
fn manifest_repository_is_normalized() {
    assert_eq!(
        parse_cargo_toml(manifest(
            Some("https://github.com/org/repo/tree/main/crates/wanted"),
            None,
            Some("build.rs")
        )),
        Ok(manifest(
            Some("https://github.com/org/repo.git"),
            Some("crates/wanted"),
            Some("build.rs")
        ))
    );
}

#[test]
fn manifest_subpath_comes_from_the_url() {
    assert_eq!(
        parse_cargo_toml(manifest(Some("https://github.com/org/repo"), Some("stale"), None)),
        Ok(manifest(Some("https://github.com/org/repo.git"), None, None))
    );
}

#[test]
fn manifest_without_repository_is_refused() {
    assert_eq!(
        parse_cargo_toml(manifest(None, Some("x"), None)),
        Err(ManifestError::MissingRepository)
    );
}

#[test]
fn manifest_with_invalid_repository_is_refused() {
    assert_eq!(
        parse_cargo_toml(manifest(Some("no url at all"), None, None)),
        Err(ManifestError::InvalidRepository(InvalidUrl::Unparseable))
    );
    assert_eq!(
        parse_cargo_toml(manifest(Some("https://github.com/org"), None, None)),
        Err(ManifestError::InvalidRepository(InvalidUrl::MissingRepository))
    );
    assert_eq!(
        parse_cargo_toml(manifest(Some("data:text/plain,x"), None, None)),
        Err(ManifestError::InvalidRepository(InvalidUrl::MissingHost))
    );
}

#[test]
fn canonical_repository_replaces_what_the_manifest_held() {
    let repo = CanonicalRepo { clone_url: "u.git".to_string(), subpath: Some("p".to_string()) };
    assert_eq!(
        with_repository(manifest(Some("typed"), Some("old"), Some("b.rs")), repo),
        manifest(Some("u.git"), Some("p"), Some("b.rs"))
    );
}

#[test]
fn announced_commit_is_read_from_the_record() {
    let info = CargoVcsInfoJson {
        git: CargoVcsInfoJsonGit { sha1: "0123456789abcdef0123456789abcdef01234567".to_string() },
    };
    assert_eq!(
        get_expected_sha1_from_crate(Some(&info)),
        Some("0123456789abcdef0123456789abcdef01234567".to_string())
    );
    assert_eq!(get_expected_sha1_from_crate(None), None);
}

#[test]
fn registry_paths() {
    assert_eq!(
        download_url("serde", "1.0.200"),
        "https://crates.io/api/v1/crates/serde/1.0.200/download"
    );
    assert_eq!(archive_root("serde", "1.0.200"), "serde-1.0.200");
}
