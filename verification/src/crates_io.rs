//! What the registry says about a published version: where its archive is
//! downloaded from, how the archive unpacks, and which commit it announces.

use crate::text::{append_chars, to_chars, to_text};
use vstd::prelude::*;

verus! {

/// The version-control record that packaging leaves in an archive.
#[derive(Clone, Debug, PartialEq, Eq)]
pub struct CargoVcsInfoJson {
    pub git: CargoVcsInfoJsonGit,
}

/// The commit that the package was made from.
#[derive(Clone, Debug, PartialEq, Eq)]
pub struct CargoVcsInfoJsonGit {
    pub sha1: String,
}

impl View for CargoVcsInfoJson {
    type V = Seq<char>;

    open spec fn view(&self) -> Seq<char> {
        self.git.sha1@
    }
}

/// The commit that an archive announces: the one of its version-control
/// record, and none where the archive holds no such record, as happens
/// when a package is made from a working tree with uncommitted changes.
pub fn get_expected_sha1_from_crate(vcs_info: Option<&CargoVcsInfoJson>) -> (sha1: Option<String>)
    ensures
        match vcs_info {
            Some(info) => sha1 matches Some(s) && s@ == info@,
            None => sha1 is None,
        },
{
    match vcs_info {
        Some(info) => Some(info.git.sha1.clone()),
        None => None,
    }
}

/// Where the registry serves the archive of a version.
pub open spec fn download_url_of(name: Seq<char>, version: Seq<char>) -> Seq<char> {
    "https://crates.io/api/v1/crates/"@ + name + "/"@ + version + "/download"@
}

/// The directory that the archive of a version unpacks to.
pub open spec fn archive_root_of(name: Seq<char>, version: Seq<char>) -> Seq<char> {
    name + "-"@ + version
}

/// Where the registry serves the archive of a version.
pub fn download_url(name: &str, version: &str) -> (url: String)
    ensures
        url@ == download_url_of(name@, version@),
{
    let mut url = to_chars("https://crates.io/api/v1/crates/");
    append_chars(&mut url, &to_chars(name));
    append_chars(&mut url, &to_chars("/"));
    append_chars(&mut url, &to_chars(version));
    append_chars(&mut url, &to_chars("/download"));
    to_text(&url)
}

/// The directory that the archive of a version unpacks to.
pub fn archive_root(name: &str, version: &str) -> (directory: String)
    ensures
        directory@ == archive_root_of(name@, version@),
{
    let mut directory = to_chars(name);
    append_chars(&mut directory, &to_chars("-"));
    append_chars(&mut directory, &to_chars(version));
    to_text(&directory)
}

} // verus!
