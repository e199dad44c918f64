//! Finding the directory of a package inside a cloned repository: the
//! directory that the repository URL hinted at if its manifest declares the
//! package, and else the first directory of the repository whose manifest does.

use crate::diff_directories::{in_metadata_directory, lies_in_metadata_directory, relative_path};
use crate::text::{append_chars, chars_end_with, ends_with, join, same_text, texts, to_chars, to_text};
use vstd::prelude::*;

verus! {

/// No manifest of the repository declares the package.
#[derive(Clone, Copy, Debug, PartialEq, Eq, Structural)]
pub struct NotFound;

/// An entry met while walking a repository: the components of its path
/// below the root and, where it was read as a manifest, the package name
/// that it declares.
#[derive(Clone, Debug, PartialEq, Eq)]
pub struct ScanEntry {
    pub components: Vec<String>,
    pub declared_name: Option<String>,
}

pub struct ScanEntryView {
    pub components: Seq<Seq<char>>,
    pub declared_name: Option<Seq<char>>,
}

impl View for ScanEntry {
    type V = ScanEntryView;

    open spec fn view(&self) -> ScanEntryView {
        ScanEntryView {
            components: texts(self.components@),
            declared_name: match self.declared_name {
                Some(n) => Some(n@),
                None => None,
            },
        }
    }
}

/// `relative` below `directory`.
pub open spec fn joined(directory: Seq<char>, relative: Seq<char>) -> Seq<char> {
    if ends_with(directory, "/"@) {
        directory + relative
    } else {
        directory + "/"@ + relative
    }
}

/// The directory that the URL hinted at: the subpath below the root, or the
/// root where there is no subpath.
pub open spec fn candidate_of(repo_root: Seq<char>, announced_subpath: Option<Seq<char>>) -> Seq<
    char,
> {
    match announced_subpath {
        Some(subpath) => joined(repo_root, subpath),
        None => repo_root,
    }
}

/// Whether an entry is a manifest outside every version-control metadata
/// directory.
pub open spec fn is_manifest(components: Seq<Seq<char>>) -> bool {
    components.len() > 0 && components.last() == "Cargo.toml"@ && !in_metadata_directory(
        components,
    )
}

/// Whether an entry is a manifest that declares the package.
pub open spec fn declares(entry: ScanEntryView, package_name: Seq<char>) -> bool {
    is_manifest(entry.components) && entry.declared_name == Some(package_name)
}

/// The directory that holds an entry.
pub open spec fn directory_of(repo_root: Seq<char>, components: Seq<Seq<char>>) -> Seq<char> {
    if components.len() <= 1 {
        repo_root
    } else {
        joined(repo_root, join(components.drop_last(), '/'))
    }
}

/// The index of the first entry that is a manifest declaring the package.
pub open spec fn first_declaring(entries: Seq<ScanEntryView>, package_name: Seq<char>) -> Option<
    int,
>
    decreases entries.len(),
{
    if entries.len() == 0 {
        None
    } else {
        match first_declaring(entries.drop_last(), package_name) {
            Some(k) => Some(k),
            None => if declares(entries.last(), package_name) {
                Some(entries.len() - 1)
            } else {
                None
            },
        }
    }
}

/// The directory of the first manifest of a walk that declares the package.
pub open spec fn scanned(
    repo_root: Seq<char>,
    entries: Seq<ScanEntryView>,
    package_name: Seq<char>,
) -> Option<Seq<char>> {
    match first_declaring(entries, package_name) {
        Some(k) => Some(directory_of(repo_root, entries[k].components)),
        None => None,
    }
}

/// Where the package lies: in the hinted directory if the manifest there
/// declares it, else where the walk finds it first.
pub open spec fn located(
    repo_root: Seq<char>,
    announced_subpath: Option<Seq<char>>,
    package_name: Seq<char>,
    hinted_name: Option<Seq<char>>,
    entries: Seq<ScanEntryView>,
) -> Result<Seq<char>, NotFound> {
    if hinted_name == Some(package_name) {
        Ok(candidate_of(repo_root, announced_subpath))
    } else {
        match scanned(repo_root, entries, package_name) {
            Some(directory) => Ok(directory),
            None => Err(NotFound),
        }
    }
}

/// The first declaring entry declares, and none before it does.
pub proof fn lemma_first_declaring(entries: Seq<ScanEntryView>, package_name: Seq<char>)
    ensures
        first_declaring(entries, package_name) matches Some(k) ==> 0 <= k < entries.len()
            && declares(entries[k], package_name) && forall|j: int|
            0 <= j < k ==> !declares(entries[j], package_name),
        first_declaring(entries, package_name) is None ==> forall|j: int|
            0 <= j < entries.len() ==> !declares(entries[j], package_name),
    decreases entries.len(),
{
    if entries.len() > 0 {
        let init = entries.drop_last();
        lemma_first_declaring(init, package_name);
        assert(forall|j: int| 0 <= j < init.len() ==> init[j] == entries[j]);
    }
}

/// Where the manifest in the hinted directory declares the package, that
/// directory is the answer whatever the repository holds besides: the walk
/// has no say, so it need not be made.
pub proof fn lemma_hint_needs_no_scan(
    repo_root: Seq<char>,
    announced_subpath: Option<Seq<char>>,
    package_name: Seq<char>,
    entries: Seq<ScanEntryView>,
)
    ensures
        located(repo_root, announced_subpath, package_name, Some(package_name), entries) == Ok::<
            Seq<char>,
            NotFound,
        >(candidate_of(repo_root, announced_subpath)),
{
}

/// Where no manifest declares the package, neither the hinted one nor any
/// of the walk, the package is not found.
pub proof fn lemma_undeclared_is_not_found(
    repo_root: Seq<char>,
    announced_subpath: Option<Seq<char>>,
    package_name: Seq<char>,
    hinted_name: Option<Seq<char>>,
    entries: Seq<ScanEntryView>,
)
    requires
        hinted_name != Some(package_name),
        forall|j: int| 0 <= j < entries.len() ==> !declares(#[trigger] entries[j], package_name),
    ensures
        located(repo_root, announced_subpath, package_name, hinted_name, entries) == Err::<
            Seq<char>,
            NotFound,
        >(NotFound),
{
    lemma_first_declaring(entries, package_name);
}

/// Where some manifest of the walk declares the package, the package is found.
pub proof fn lemma_declared_is_found(
    repo_root: Seq<char>,
    announced_subpath: Option<Seq<char>>,
    package_name: Seq<char>,
    hinted_name: Option<Seq<char>>,
    entries: Seq<ScanEntryView>,
    k: int,
)
    requires
        0 <= k < entries.len(),
        declares(entries[k], package_name),
    ensures
        located(repo_root, announced_subpath, package_name, hinted_name, entries) is Ok,
{
    lemma_first_declaring(entries, package_name);
}

/// `relative` below `directory`.
pub fn join_path(directory: &str, relative: &str) -> (path: String)
    ensures
        path@ == joined(directory@, relative@),
{
    let mut path = to_chars(directory);
    if !chars_end_with(&path, &to_chars("/")) {
        append_chars(&mut path, &to_chars("/"));
    }
    append_chars(&mut path, &to_chars(relative));
    to_text(&path)
}

/// The directory that the URL hinted at.
pub fn candidate_root(repo_root: &str, announced_subpath: Option<&str>) -> (candidate: String)
    ensures
        candidate@ == candidate_of(
            repo_root@,
            match announced_subpath {
                Some(s) => Some(s@),
                None => None,
            },
        ),
{
    match announced_subpath {
        Some(subpath) => join_path(repo_root, subpath),
        None => repo_root.to_owned(),
    }
}

/// Whether an entry of a walk is to be read as a manifest.
pub fn wants_manifest(components: &Vec<String>) -> (yes: bool)
    ensures
        yes == is_manifest(texts(components@)),
{
    if components.len() == 0 {
        return false;
    }
    assert(texts(components@).last() == components@[components.len() - 1]@);
    same_text(components[components.len() - 1].as_str(), "Cargo.toml")
        && !lies_in_metadata_directory(components)
}

/// Whether a manifest that was read declares the package.
pub fn names_package(declared_name: Option<&str>, package_name: &str) -> (yes: bool)
    ensures
        yes == (match declared_name {
            Some(n) => n@ == package_name@,
            None => false,
        }),
{
    match declared_name {
        Some(n) => same_text(n, package_name),
        None => false,
    }
}

/// The directory that holds an entry of a walk.
pub fn containing_directory(repo_root: &str, components: &Vec<String>) -> (directory: String)
    ensures
        directory@ == directory_of(repo_root@, texts(components@)),
{
    if components.len() <= 1 {
        return repo_root.to_owned();
    }
    let mut parents: Vec<String> = Vec::new();
    let mut i: usize = 0;
    while i < components.len() - 1
        invariant
            components.len() > 1,
            i <= components.len() - 1,
            texts(parents@) == texts(components@).take(i as int),
        decreases components.len() - i,
    {
        parents.push(components[i].clone());
        assert(texts(parents@) == texts(components@).take(i as int).push(components@[i as int]@));
        assert(texts(components@).take(i + 1) == texts(components@).take(i as int).push(
            components@[i as int]@,
        ));
        i += 1;
    }
    assert(texts(components@).take(components.len() - 1) == texts(components@).drop_last());
    let below = relative_path(&parents);
    join_path(repo_root, below.as_str())
}

/// The directory of the first manifest of a walk that declares the
/// package. Entries below the version-control metadata are passed over.
pub fn find_crate(git_path: &str, entries: &Vec<ScanEntry>, crate_name: &str) -> (found: Option<
    String,
>)
    ensures
        match found {
            Some(directory) => scanned(
                git_path@,
                entries@.map_values(|e: ScanEntry| e@),
                crate_name@,
            ) == Some(directory@),
            None => scanned(git_path@, entries@.map_values(|e: ScanEntry| e@), crate_name@)
                is None,
        },
{
    let ghost all = entries@.map_values(|e: ScanEntry| e@);
    let mut i: usize = 0;
    proof {
        assert(all.take(0).len() == 0);
    }
    while i < entries.len()
        invariant
            i <= entries.len(),
            all == entries@.map_values(|e: ScanEntry| e@),
            first_declaring(all.take(i as int), crate_name@) is None,
        decreases entries.len() - i,
    {
        proof {
            let now = all.take(i + 1);
            assert(now.drop_last() == all.take(i as int));
            assert(now.last() == entries@[i as int]@);
        }
        let entry = &entries[i];
        let declared: Option<&str> = match &entry.declared_name {
            Some(n) => Some(n.as_str()),
            None => None,
        };
        if wants_manifest(&entry.components) && names_package(declared, crate_name) {
            proof {
                assert(declares(all[i as int], crate_name@));
                assert(first_declaring(all.take(i + 1), crate_name@) == Some(i as int));
                lemma_first_declaring_extends(all, crate_name@, i + 1);
            }
            return Some(containing_directory(git_path, &entry.components));
        }
        i += 1;
    }
    assert(all.take(entries.len() as int) == all);
    None
}

/// What was found first in a part of a walk is what is found first in the whole.
proof fn lemma_first_declaring_extends(
    entries: Seq<ScanEntryView>,
    package_name: Seq<char>,
    n: int,
)
    requires
        0 <= n <= entries.len(),
        first_declaring(entries.take(n), package_name) is Some,
    ensures
        first_declaring(entries, package_name) == first_declaring(entries.take(n), package_name),
    decreases entries.len() - n,
{
    if n < entries.len() {
        assert(entries.take(n + 1).drop_last() == entries.take(n));
        lemma_first_declaring_extends(entries, package_name, n + 1);
    } else {
        assert(entries.take(n) == entries);
    }
}

/// Where the package lies in a cloned repository. `hinted_name` is the name
/// that the manifest in the hinted directory declares, if there is one;
/// `entries` is the walk of the repository, in the order in which it was made.
pub fn locate_source_root(
    repo_root: &str,
    announced_subpath: Option<&str>,
    package_name: &str,
    hinted_name: Option<&str>,
    entries: &Vec<ScanEntry>,
) -> (r: Result<String, NotFound>)
    ensures
        match r {
            Ok(directory) => located(
                repo_root@,
                match announced_subpath {
                    Some(s) => Some(s@),
                    None => None,
                },
                package_name@,
                match hinted_name {
                    Some(n) => Some(n@),
                    None => None,
                },
                entries@.map_values(|e: ScanEntry| e@),
            ) == Ok::<Seq<char>, NotFound>(directory@),
            Err(e) => located(
                repo_root@,
                match announced_subpath {
                    Some(s) => Some(s@),
                    None => None,
                },
                package_name@,
                match hinted_name {
                    Some(n) => Some(n@),
                    None => None,
                },
                entries@.map_values(|e: ScanEntry| e@),
            ) == Err::<Seq<char>, NotFound>(e),
        },
{
    if names_package(hinted_name, package_name) {
        return Ok(candidate_root(repo_root, announced_subpath));
    }
    match find_crate(repo_root, entries, package_name) {
        Some(directory) => Ok(directory),
        None => Err(NotFound),
    }
}

} // verus!
