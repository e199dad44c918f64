use source_drift::git::{
    after_ancestry, belongs_to_history, after_announced, after_tag_target, after_tagged, after_tags,
    find_announced_commit, find_commit_from_git_tag, first_step, first_step_for_announced,
    has_commit_id_length, holds_name, is_commit_head_or_head_ancestor, resolve_commit,
    tag_name_for, tag_reference_for, CommitMeta, CommitRef, ResolutionFailure, Scope, Step,
};

const HEAD: &str = "1111111111111111111111111111111111111111";
const OLDER: &str = "2222222222222222222222222222222222222222";

fn meta(message: &str, timestamp: i64) -> CommitMeta {
    CommitMeta { message: message.to_string(), timestamp }
}

fn commit(id: &str, message: &str, timestamp: i64) -> CommitRef {
    CommitRef { id: id.to_string(), message: message.to_string(), timestamp }
}

fn names(list: &[&str]) -> Vec<String> {
    list.iter().map(|n| n.to_string()).collect()
}

struct Fixture {
    _dir: tempfile::TempDir,
    repository: git2::Repository,
    first: String,
    second: String,
    head: String,
    stray: String,
}

fn make_commit(
    repository: &git2::Repository,
    update: Option<&str>,
    message: &str,
    seconds: i64,
    parents: &[git2::Oid],
) -> git2::Oid {
    let signature =
        git2::Signature::new("someone", "someone@example.org", &git2::Time::new(seconds, 0))
            .unwrap();
    let tree_id = repository.treebuilder(None).unwrap().write().unwrap();
    let tree = repository.find_tree(tree_id).unwrap();
    let loaded: Vec<git2::Commit> =
        parents.iter().map(|p| repository.find_commit(*p).unwrap()).collect();
    let borrowed: Vec<&git2::Commit> = loaded.iter().collect();
    repository.commit(update, &signature, &signature, message, &tree, &borrowed).unwrap()
}

fn fixture() -> Fixture {
    let dir = tempfile::tempdir().unwrap();
    let repository = git2::Repository::init(dir.path()).unwrap();
    let first = make_commit(&repository, Some("HEAD"), "first", 1_700_000_000, &[]);
    let second = make_commit(&repository, Some("HEAD"), "second", 1_700_000_100, &[first]);
    let head = make_commit(&repository, Some("HEAD"), "third", 1_700_000_200, &[second]);
    let stray = make_commit(&repository, None, "stray", 1_700_000_300, &[first]);
    {
        let tagged = repository.find_object(first, None).unwrap();
        repository.tag_lightweight("v1.2.3", &tagged, false).unwrap();
        let plain = repository.find_object(second, None).unwrap();
        repository.tag_lightweight("2.0.0", &plain, false).unwrap();
        let near = repository.find_object(head, None).unwrap();
        repository.tag_lightweight("v2.0.0", &near, false).unwrap();
        repository.tag_lightweight("3.0.0-rc1", &near, false).unwrap();
        let signature =
            git2::Signature::new("someone", "someone@example.org", &git2::Time::new(5, 0))
                .unwrap();
        repository.tag("v4.0.0", &plain, &signature, "annotated", false).unwrap();
    }
    Fixture {
        _dir: dir,
        repository,
        first: first.to_string(),
        second: second.to_string(),
        head: head.to_string(),
        stray: stray.to_string(),
    }
}

#[test]
fn announced_head_is_loaded_at_once() {
    assert_eq!(first_step(HEAD, Some(HEAD)), Step::LoadAnnounced { commit: HEAD.to_string() });
    assert_eq!(
        after_announced(Scope::Both, HEAD.to_string(), Some(meta("tip", 7))),
        Step::Done(Ok(commit(HEAD, "tip", 7)))
    );
}

#[test]
fn announced_ancestor_is_checked_then_loaded() {
    assert_eq!(first_step(HEAD, Some(OLDER)), Step::CheckAncestry { commit: OLDER.to_string() });
    assert_eq!(
        after_ancestry(Scope::Both, OLDER.to_string(), true),
        Step::LoadAnnounced { commit: OLDER.to_string() }
    );
    assert_eq!(
        after_announced(Scope::Both, OLDER.to_string(), Some(meta("older", 3))),
        Step::Done(Ok(commit(OLDER, "older", 3)))
    );
}

#[test]
fn tag_with_prefix_leads_to_its_commit() {
    assert_eq!(first_step(HEAD, None), Step::ListTags { prefixed: false });
    assert_eq!(
        after_tags(Scope::Both, "1.2.3", false, &names(&[])),
        Step::ListTags { prefixed: true }
    );
    assert_eq!(
        after_tags(Scope::Both, "1.2.3", true, &names(&["v1.2.3"])),
        Step::ResolveTag { name: "v1.2.3".to_string() }
    );
    assert_eq!(tag_reference_for("v1.2.3"), "refs/tags/v1.2.3");
    assert_eq!(
        after_tag_target(Some(OLDER.to_string())),
        Step::LoadTagged { commit: OLDER.to_string() }
    );
    assert_eq!(
        after_tagged(OLDER.to_string(), Some(meta("release", 9))),
        Step::Done(Ok(commit(OLDER, "release", 9)))
    );
}

#[test]
fn tag_must_have_exactly_the_wanted_name() {
    assert_eq!(
        after_tags(Scope::Both, "1.2.3", false, &names(&["1.2.30", "x1.2.3", "v1.2.3"])),
        Step::ListTags { prefixed: true }
    );
    assert_eq!(
        after_tags(Scope::Both, "1.2.3", false, &names(&["0.1.0", "1.2.3"])),
        Step::ResolveTag { name: "1.2.3".to_string() }
    );
    assert!(holds_name(&names(&["a", "b"]), "b"));
    assert!(!holds_name(&names(&["a", "b"]), "c"));
    assert_eq!(tag_name_for("1.2.3", true), "v1.2.3");
    assert_eq!(tag_name_for("1.2.3", false), "1.2.3");
}

#[test]
fn rejected_announced_commit_falls_back_to_tags() {
    assert_eq!(
        after_ancestry(Scope::Both, OLDER.to_string(), false),
        Step::ListTags { prefixed: false }
    );
    assert_eq!(
        after_announced(Scope::Both, OLDER.to_string(), None),
        Step::ListTags { prefixed: false }
    );
    assert_eq!(first_step(HEAD, Some("abc")), Step::ListTags { prefixed: false });
    assert_eq!(first_step(HEAD, Some("")), Step::ListTags { prefixed: false });
}

#[test]
fn each_failure_has_its_step() {
    assert_eq!(
        after_ancestry(Scope::Announced, OLDER.to_string(), false),
        Step::Done(Err(ResolutionFailure::NotInHistory))
    );
    assert_eq!(
        first_step_for_announced(Scope::Announced, HEAD, "too short"),
        Step::Done(Err(ResolutionFailure::NotInHistory))
    );
    assert_eq!(
        after_announced(Scope::Announced, OLDER.to_string(), None),
        Step::Done(Err(ResolutionFailure::Unresolvable))
    );
    assert_eq!(
        after_tags(Scope::Tags, "1.0.0", true, &names(&["v1.0.1"])),
        Step::Done(Err(ResolutionFailure::NoMatchingTag))
    );
    assert_eq!(
        after_tags(Scope::Both, "1.0.0", true, &names(&[])),
        Step::Done(Err(ResolutionFailure::Unresolvable))
    );
    assert_eq!(after_tag_target(None), Step::Done(Err(ResolutionFailure::Unresolvable)));
    assert_eq!(
        after_tag_target(Some("abc".to_string())),
        Step::Done(Err(ResolutionFailure::Unresolvable))
    );
    assert_eq!(
        after_tagged(OLDER.to_string(), None),
        Step::Done(Err(ResolutionFailure::Unresolvable))
    );
}

#[test]
fn history_holds_the_head_and_what_the_repository_confirms() {
    assert!(belongs_to_history(HEAD, HEAD, None));
    assert!(belongs_to_history(HEAD, HEAD, Some(false)));
    assert!(belongs_to_history(HEAD, OLDER, Some(true)));
    assert!(!belongs_to_history(HEAD, OLDER, Some(false)));
    assert!(!belongs_to_history(HEAD, OLDER, None));
}

#[test]
fn commit_ids_have_forty_characters() {
    assert!(has_commit_id_length(HEAD));
    assert!(!has_commit_id_length("111111111111111111111111111111111111111"));
    assert!(!has_commit_id_length("11111111111111111111111111111111111111111"));
    assert!(!has_commit_id_length(""));
}

#[test]
fn repository_resolves_announced_head() {
    let f = fixture();
    assert_eq!(
        resolve_commit(&f.repository, &f.head, Some(&f.head), "9.9.9"),
        Ok(commit(&f.head, "third", 1_700_000_200))
    );
    assert!(is_commit_head_or_head_ancestor(&f.repository, &f.head, &f.head));
}

#[test]
fn repository_resolves_announced_ancestor() {
    let f = fixture();
    assert_eq!(
        resolve_commit(&f.repository, &f.head, Some(&f.second), "9.9.9"),
        Ok(commit(&f.second, "second", 1_700_000_100))
    );
    assert!(is_commit_head_or_head_ancestor(&f.repository, &f.head, &f.first));
    assert!(is_commit_head_or_head_ancestor(&f.repository, &f.head, &f.second));
    assert_eq!(
        find_announced_commit(&f.repository, &f.head, &f.first),
        Ok(commit(&f.first, "first", 1_700_000_000))
    );
}

#[test]
fn repository_resolves_by_tag_without_announced_commit() {
    let f = fixture();
    assert_eq!(
        resolve_commit(&f.repository, &f.head, None, "1.2.3"),
        Ok(commit(&f.first, "first", 1_700_000_000))
    );
    assert_eq!(
        find_commit_from_git_tag("1.2.3", &f.repository),
        Ok(commit(&f.first, "first", 1_700_000_000))
    );
}

#[test]
fn repository_prefers_the_tag_without_prefix() {
    let f = fixture();
    assert_eq!(
        find_commit_from_git_tag("2.0.0", &f.repository),
        Ok(commit(&f.second, "second", 1_700_000_100))
    );
}

#[test]
fn repository_resolves_annotated_tag_to_its_commit() {
    let f = fixture();
    assert_eq!(
        find_commit_from_git_tag("4.0.0", &f.repository),
        Ok(commit(&f.second, "second", 1_700_000_100))
    );
}

#[test]
fn repository_commit_outside_history_falls_back_to_tag() {
    let f = fixture();
    assert!(!is_commit_head_or_head_ancestor(&f.repository, &f.head, &f.stray));
    assert_eq!(
        find_announced_commit(&f.repository, &f.head, &f.stray),
        Err(ResolutionFailure::NotInHistory)
    );
    assert_eq!(
        resolve_commit(&f.repository, &f.head, Some(&f.stray), "1.2.3"),
        Ok(commit(&f.first, "first", 1_700_000_000))
    );
    assert_eq!(
        resolve_commit(&f.repository, &f.head, Some(&f.stray), "7.7.7"),
        Err(ResolutionFailure::Unresolvable)
    );
}

#[test]
fn repository_without_matching_tag() {
    let f = fixture();
    assert_eq!(
        find_commit_from_git_tag("7.7.7", &f.repository),
        Err(ResolutionFailure::NoMatchingTag)
    );
    assert_eq!(
        find_commit_from_git_tag("3.0.0", &f.repository),
        Err(ResolutionFailure::NoMatchingTag)
    );
    assert_eq!(
        find_commit_from_git_tag("*", &f.repository),
        Err(ResolutionFailure::NoMatchingTag)
    );
    assert_eq!(
        resolve_commit(&f.repository, &f.head, None, "7.7.7"),
        Err(ResolutionFailure::Unresolvable)
    );
}

#[test]
fn repository_unknown_or_malformed_announced_commit() {
    let f = fixture();
    let unknown = "0123456789abcdef0123456789abcdef01234567";
    assert!(!is_commit_head_or_head_ancestor(&f.repository, &f.head, unknown));
    assert!(!is_commit_head_or_head_ancestor(&f.repository, &f.head, "not hexadecimal"));
    assert_eq!(
        find_announced_commit(&f.repository, &f.head, unknown),
        Err(ResolutionFailure::NotInHistory)
    );
    assert_eq!(
        find_announced_commit(&f.repository, &f.head, "zzzzzzzzzzzzzzzzzzzzzzzzzzzzzzzzzzzzzzzz"),
        Err(ResolutionFailure::NotInHistory)
    );
    assert_eq!(
        find_announced_commit(&f.repository, &f.head, &f.head[..7]),
        Err(ResolutionFailure::NotInHistory)
    );
    assert_eq!(
        resolve_commit(&f.repository, &f.head, Some(unknown), "2.0.0"),
        Ok(commit(&f.second, "second", 1_700_000_100))
    );
}
