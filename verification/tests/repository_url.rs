use source_drift::repository_url::{
    canonicalize, get_repository_from_repository_url, get_subpath_from_repository_url, normalize,
    CanonicalRepo, InvalidUrl, RepositoryUrl,
};

fn url(raw: &str, scheme: &str, host: Option<&str>, path: &str) -> RepositoryUrl {
    RepositoryUrl {
        raw: raw.to_string(),
        scheme: scheme.to_string(),
        host: host.map(|h| h.to_string()),
        path: path.to_string(),
    }
}

fn repo(clone_url: &str, subpath: Option<&str>) -> CanonicalRepo {
    CanonicalRepo { clone_url: clone_url.to_string(), subpath: subpath.map(|s| s.to_string()) }
}

#[test]
fn landing_page_gets_git_suffix() {
    assert_eq!(
        normalize("https://github.com/org/repo"),
        Ok(repo("https://github.com/org/repo.git", None))
    );
}

#[test]
fn deep_link_yields_subpath() {
    assert_eq!(
        normalize("https://github.com/org/repo/tree/main/sub/dir"),
        Ok(repo("https://github.com/org/repo.git", Some("sub/dir")))
    );
}

#[test]
fn clone_url_is_kept_verbatim() {
    assert_eq!(
        normalize("https://github.com/org/repo.git"),
        Ok(repo("https://github.com/org/repo.git", None))
    );
    assert_eq!(
        normalize("https://example.org/some/where.git"),
        Ok(repo("https://example.org/some/where.git", None))
    );
    assert_eq!(
        normalize("HTTPS://GitHub.com/Org/Repo.git"),
        Ok(repo("HTTPS://GitHub.com/Org/Repo.git", None))
    );
}

#[test]
fn normalize_is_repeatable() {
    let first = normalize("https://github.com/org/repo/tree/main/a");
    let second = normalize("https://github.com/org/repo/tree/main/a");
    assert_eq!(first, second);
    assert_eq!(first, Ok(repo("https://github.com/org/repo.git", Some("a"))));
}

#[test]
fn text_that_is_no_url_is_unparseable() {
    assert_eq!(normalize("not a url"), Err(InvalidUrl::Unparseable));
    assert_eq!(normalize("org/repo"), Err(InvalidUrl::Unparseable));
    assert_eq!(normalize(""), Err(InvalidUrl::Unparseable));
    assert_eq!(normalize("git@github.com:org/repo.git"), Err(InvalidUrl::Unparseable));
}

#[test]
fn url_without_host_is_refused() {
    assert_eq!(normalize("mailto:someone@example.org"), Err(InvalidUrl::MissingHost));
    assert_eq!(normalize("file:///srv/repo"), Err(InvalidUrl::MissingHost));
}

#[test]
fn github_url_without_repository_is_refused() {
    assert_eq!(normalize("https://github.com"), Err(InvalidUrl::MissingRepository));
    assert_eq!(normalize("https://github.com/"), Err(InvalidUrl::MissingRepository));
    assert_eq!(normalize("https://github.com/org"), Err(InvalidUrl::MissingRepository));
}

#[test]
fn other_host_gets_git_suffix() {
    assert_eq!(
        normalize("https://gitlab.com/group/project"),
        Ok(repo("https://gitlab.com/group/project.git", None))
    );
    assert_eq!(
        normalize("https://gitlab.com/group/project/tree/main/sub/dir"),
        Ok(repo("https://gitlab.com/group/project/tree/main/sub/dir.git", None))
    );
}

#[test]
fn parsing_lowers_scheme_and_host() {
    assert_eq!(
        normalize("HTTPS://GITHUB.COM/org/repo"),
        Ok(repo("https://github.com/org/repo.git", None))
    );
}

#[test]
fn github_repository_segment_with_suffix_is_not_suffixed_again() {
    assert_eq!(
        normalize("https://github.com/org/repo.git/tree/main/x/y/z"),
        Ok(repo("https://github.com/org/repo.git", Some("x/y/z")))
    );
}

#[test]
fn github_link_to_a_branch_has_no_subpath() {
    assert_eq!(
        normalize("https://github.com/org/repo/tree/main"),
        Ok(repo("https://github.com/org/repo.git", None))
    );
    assert_eq!(
        normalize("https://github.com/org/repo/tree/main/"),
        Ok(repo("https://github.com/org/repo.git", Some("")))
    );
}

#[test]
fn canonicalize_on_given_components() {
    let u = url("whatever", "https", Some("github.com"), "/o/r/tree/b/p/q");
    assert_eq!(canonicalize(&u), Ok(repo("https://github.com/o/r.git", Some("p/q"))));
    assert_eq!(
        get_repository_from_repository_url(&u),
        Ok("https://github.com/o/r.git".to_string())
    );
    assert_eq!(get_subpath_from_repository_url(&u), Ok(Some("p/q".to_string())));
}

#[test]
fn canonicalize_keeps_the_text_that_ends_in_git() {
    let u = url("anything at all.git", "x", None, "");
    assert_eq!(canonicalize(&u), Ok(repo("anything at all.git", None)));
    assert_eq!(get_subpath_from_repository_url(&u), Ok(None));
}

#[test]
fn canonicalize_reports_each_failure() {
    let no_host = url("x:y", "x", None, "y");
    assert_eq!(canonicalize(&no_host), Err(InvalidUrl::MissingHost));
    assert_eq!(get_repository_from_repository_url(&no_host), Err(InvalidUrl::MissingHost));
    assert_eq!(get_subpath_from_repository_url(&no_host), Err(InvalidUrl::MissingHost));
    let short = url("https://github.com/o", "https", Some("github.com"), "/o");
    assert_eq!(canonicalize(&short), Err(InvalidUrl::MissingRepository));
    assert_eq!(get_repository_from_repository_url(&short), Err(InvalidUrl::MissingRepository));
    assert_eq!(get_subpath_from_repository_url(&short), Ok(None));
}

#[test]
fn canonicalize_on_another_host_uses_scheme_host_and_path() {
    let u = url("ssh://git.example.org/a/b?x=1", "ssh", Some("git.example.org"), "/a/b");
    assert_eq!(canonicalize(&u), Ok(repo("ssh://git.example.org/a/b.git", None)));
    let suffixed = url("https://h/a/b.git#readme", "https", Some("h"), "/a/b.git");
    assert_eq!(canonicalize(&suffixed), Ok(repo("https://h/a/b.git", None)));
}
