//! Turning the repository URL that a maintainer typed into something a
//! version-control client can clone, plus the directory inside the repository
//! that the URL pointed at, if it pointed at one.

use crate::text::{
    append_chars, chars_end_with, ends_with, join, join_chars, rows, same_chars, split,
    split_chars, to_chars, to_text,
};
use vstd::prelude::*;

verus! {

/// Why a repository URL cannot be turned into a clone URL.
#[derive(Clone, Copy, Debug, PartialEq, Eq, Structural)]
pub enum InvalidUrl {
    /// The text is not an absolute URL.
    Unparseable,
    /// The URL names no host.
    MissingHost,
    /// The URL is on the code-hosting host but its path names no
    /// organization and repository.
    MissingRepository,
}

/// A parsed repository URL: the text as it was written and the three
/// components that the rules below look at.
#[derive(Clone, Debug, PartialEq, Eq)]
pub struct RepositoryUrl {
    pub raw: String,
    pub scheme: String,
    pub host: Option<String>,
    pub path: String,
}

pub struct RepositoryUrlView {
    pub raw: Seq<char>,
    pub scheme: Seq<char>,
    pub host: Option<Seq<char>>,
    pub path: Seq<char>,
}

impl View for RepositoryUrl {
    type V = RepositoryUrlView;

    open spec fn view(&self) -> RepositoryUrlView {
        RepositoryUrlView {
            raw: self.raw@,
            scheme: self.scheme@,
            host: match self.host {
                Some(h) => Some(h@),
                None => None,
            },
            path: self.path@,
        }
    }
}

/// A clonable endpoint and, where the URL was a deep link, the path inside
/// the repository that it led to.
#[derive(Clone, Debug, PartialEq, Eq)]
pub struct CanonicalRepo {
    pub clone_url: String,
    pub subpath: Option<String>,
}

pub struct CanonicalRepoView {
    pub clone_url: Seq<char>,
    pub subpath: Option<Seq<char>>,
}

impl View for CanonicalRepo {
    type V = CanonicalRepoView;

    open spec fn view(&self) -> CanonicalRepoView {
        CanonicalRepoView {
            clone_url: self.clone_url@,
            subpath: match self.subpath {
                Some(s) => Some(s@),
                None => None,
            },
        }
    }
}

/// `s`, with `.git` appended unless it already ends so.
pub open spec fn with_git_suffix(s: Seq<char>) -> Seq<char> {
    if ends_with(s, ".git"@) {
        s
    } else {
        s + ".git"@
    }
}

/// The clone URL that a parsed URL stands for.
///
/// A URL that already ends in `.git` is its own clone URL. On `github.com`
/// the clone URL is made of the first two path segments after the root. On
/// any other host it is scheme, host and path.
pub open spec fn clone_url_of(url: RepositoryUrlView) -> Result<Seq<char>, InvalidUrl> {
    if ends_with(url.raw, ".git"@) {
        Ok(url.raw)
    } else {
        match url.host {
            None => Err(InvalidUrl::MissingHost),
            Some(host) => {
                if host == "github.com"@ {
                    let segments = split(url.path, '/');
                    if segments.len() < 3 {
                        Err(InvalidUrl::MissingRepository)
                    } else {
                        Ok(
                            url.scheme + "://"@ + host + "/"@ + segments[1] + "/"@
                                + with_git_suffix(segments[2]),
                        )
                    }
                } else {
                    Ok(with_git_suffix(url.scheme + "://"@ + host + url.path))
                }
            },
        }
    }
}

/// The path inside the repository that a parsed URL points at: on
/// `github.com`, what follows `/org/repo/tree/<ref>/`.
pub open spec fn subpath_of(url: RepositoryUrlView) -> Result<Option<Seq<char>>, InvalidUrl> {
    if ends_with(url.raw, ".git"@) {
        Ok(None)
    } else {
        match url.host {
            None => Err(InvalidUrl::MissingHost),
            Some(host) => {
                if host == "github.com"@ {
                    let segments = split(url.path, '/');
                    if segments.len() >= 6 {
                        Ok(Some(join(segments.skip(5), '/')))
                    } else {
                        Ok(None)
                    }
                } else {
                    Ok(None)
                }
            },
        }
    }
}

/// Clone URL and subpath together.
pub open spec fn canonical_of(url: RepositoryUrlView) -> Result<CanonicalRepoView, InvalidUrl> {
    match clone_url_of(url) {
        Err(e) => Err(e),
        Ok(clone_url) => match subpath_of(url) {
            Err(e) => Err(e),
            Ok(subpath) => Ok(CanonicalRepoView { clone_url, subpath }),
        },
    }
}

/// Scheme, host and path of the URL that a text parses to, or `None` where
/// the text is not an absolute URL.
pub uninterp spec fn url_components(raw: Seq<char>) -> Option<
    (Seq<char>, Option<Seq<char>>, Seq<char>),
>;

/// The parsed form of a text: its components beside the text itself.
pub open spec fn parsed(raw: Seq<char>) -> Option<RepositoryUrlView> {
    match url_components(raw) {
        None => None,
        Some(c) => Some(RepositoryUrlView { raw, scheme: c.0, host: c.1, path: c.2 }),
    }
}

/// What a raw URL normalizes to.
pub open spec fn normalized(raw: Seq<char>) -> Result<CanonicalRepoView, InvalidUrl> {
    match parsed(raw) {
        None => Err(InvalidUrl::Unparseable),
        Some(url) => canonical_of(url),
    }
}

/// `url::Url::parse`, then `Url::scheme`, `Url::host_str` and `Url::path` on
/// the result. Nothing is claimed about how a text is parsed, only that the
/// outcome is determined by the text, and that the text itself is kept
/// beside the components.
#[verifier::external_body]
fn parse_url(raw: &str) -> (url: Option<RepositoryUrl>)
    ensures
        match url_components(raw@) {
            None => url is None,
            Some(c) => url is Some && url->0@ == (RepositoryUrlView {
                raw: raw@,
                scheme: c.0,
                host: c.1,
                path: c.2,
            }),
        },
{
    match url::Url::parse(raw) {
        Ok(u) => Some(
            RepositoryUrl {
                raw: raw.to_string(),
                scheme: u.scheme().to_string(),
                host: u.host_str().map(|h| h.to_string()),
                path: u.path().to_string(),
            },
        ),
        Err(_) => None,
    }
}

/// Appends `.git` unless it is there already.
fn ensure_git_suffix(s: &mut Vec<char>)
    ensures
        final(s)@ == with_git_suffix(old(s)@),
{
    let suffix = to_chars(".git");
    if !chars_end_with(s, &suffix) {
        append_chars(s, &suffix);
    }
}

/// The clone URL of a repository URL.
pub fn get_repository_from_repository_url(url: &RepositoryUrl) -> (r: Result<String, InvalidUrl>)
    ensures
        match r {
            Ok(s) => clone_url_of(url@) == Ok::<Seq<char>, InvalidUrl>(s@),
            Err(e) => clone_url_of(url@) == Err::<Seq<char>, InvalidUrl>(e),
        },
{
    let raw = to_chars(url.raw.as_str());
    let suffix = to_chars(".git");
    if chars_end_with(&raw, &suffix) {
        return Ok(url.raw.clone());
    }
    let host = match &url.host {
        None => {
            return Err(InvalidUrl::MissingHost);
        },
        Some(h) => to_chars(h.as_str()),
    };
    let mut out = to_chars(url.scheme.as_str());
    append_chars(&mut out, &to_chars("://"));
    append_chars(&mut out, &host);
    if same_chars(&host, &to_chars("github.com")) {
        let segments = split_chars(&to_chars(url.path.as_str()), '/');
        if segments.len() < 3 {
            return Err(InvalidUrl::MissingRepository);
        }
        assert(rows(segments@)[1] == segments@[1]@);
        assert(rows(segments@)[2] == segments@[2]@);
        append_chars(&mut out, &to_chars("/"));
        append_chars(&mut out, &segments[1]);
        append_chars(&mut out, &to_chars("/"));
        let mut name = segments[2].clone();
        ensure_git_suffix(&mut name);
        append_chars(&mut out, &name);
    } else {
        append_chars(&mut out, &to_chars(url.path.as_str()));
        ensure_git_suffix(&mut out);
    }
    Ok(to_text(&out))
}

/// The path inside the repository that a repository URL points at.
pub fn get_subpath_from_repository_url(url: &RepositoryUrl) -> (r: Result<
    Option<String>,
    InvalidUrl,
>)
    ensures
        match r {
            Ok(Some(s)) => subpath_of(url@) == Ok::<Option<Seq<char>>, InvalidUrl>(Some(s@)),
            Ok(None) => subpath_of(url@) == Ok::<Option<Seq<char>>, InvalidUrl>(None),
            Err(e) => subpath_of(url@) == Err::<Option<Seq<char>>, InvalidUrl>(e),
        },
{
    let raw = to_chars(url.raw.as_str());
    if chars_end_with(&raw, &to_chars(".git")) {
        return Ok(None);
    }
    let host = match &url.host {
        None => {
            return Err(InvalidUrl::MissingHost);
        },
        Some(h) => to_chars(h.as_str()),
    };
    if same_chars(&host, &to_chars("github.com")) {
        let segments = split_chars(&to_chars(url.path.as_str()), '/');
        // A link such as https://github.com/org/repo/tree/branch-name/some/path/here
        if segments.len() >= 6 {
            let joined = join_chars(&segments, 5, '/');
            return Ok(Some(to_text(&joined)));
        }
        return Ok(None);
    }
    Ok(None)
}

/// Clone URL and subpath of a parsed URL.
pub fn canonicalize(url: &RepositoryUrl) -> (r: Result<CanonicalRepo, InvalidUrl>)
    ensures
        match r {
            Ok(repo) => canonical_of(url@) == Ok::<CanonicalRepoView, InvalidUrl>(repo@),
            Err(e) => canonical_of(url@) == Err::<CanonicalRepoView, InvalidUrl>(e),
        },
{
    let clone_url = match get_repository_from_repository_url(url) {
        Ok(c) => c,
        Err(e) => {
            return Err(e);
        },
    };
    let subpath = match get_subpath_from_repository_url(url) {
        Ok(s) => s,
        Err(e) => {
            return Err(e);
        },
    };
    Ok(CanonicalRepo { clone_url, subpath })
}

/// Normalizes a repository URL as a maintainer may have typed it: a bare
/// clone URL, a repository landing page, or a link into a subdirectory at a
/// branch.
pub fn normalize(raw_url: &str) -> (r: Result<CanonicalRepo, InvalidUrl>)
    ensures
        match r {
            Ok(repo) => normalized(raw_url@) == Ok::<CanonicalRepoView, InvalidUrl>(repo@),
            Err(e) => normalized(raw_url@) == Err::<CanonicalRepoView, InvalidUrl>(e),
        },
{
    match parse_url(raw_url) {
        None => Err(InvalidUrl::Unparseable),
        Some(url) => canonicalize(&url),
    }
}

/// Normalizing is a function of the text: the same text gives the same
/// outcome, whenever and wherever it is normalized.
pub proof fn lemma_normalize_deterministic(first: Seq<char>, second: Seq<char>)
    requires
        first == second,
    ensures
        normalized(first) == normalized(second),
{
}

/// A URL that already ends in `.git` normalizes to itself, with no subpath.
pub proof fn lemma_git_suffix_kept(raw: Seq<char>)
    requires
        parsed(raw) is Some,
        ends_with(raw, ".git"@),
    ensures
        normalized(raw) == Ok::<CanonicalRepoView, InvalidUrl>(
            CanonicalRepoView { clone_url: raw, subpath: None },
        ),
{
}

/// Whatever `with_git_suffix` returns ends in `.git`.
pub proof fn lemma_with_git_suffix_ends(s: Seq<char>)
    ensures
        ends_with(with_git_suffix(s), ".git"@),
{
    if !ends_with(s, ".git"@) {
        assert((s + ".git"@).skip(s.len() as int) == ".git"@);
    }
}

/// Every clone URL ends in `.git`, whether it was kept or derived.
pub proof fn lemma_clone_url_has_git_suffix(url: RepositoryUrlView)
    ensures
        clone_url_of(url) matches Ok(c) ==> ends_with(c, ".git"@),
{
    if !ends_with(url.raw, ".git"@) && url.host is Some {
        let host = url.host->0;
        if host == "github.com"@ {
            let segments = split(url.path, '/');
            if segments.len() >= 3 {
                let head = url.scheme + "://"@ + host + "/"@ + segments[1] + "/"@;
                lemma_with_git_suffix_ends(segments[2]);
                lemma_suffix_of_concat(head, with_git_suffix(segments[2]), ".git"@);
            }
        } else {
            lemma_with_git_suffix_ends(url.scheme + "://"@ + host + url.path);
        }
    }
}

/// A suffix of the second part is a suffix of the whole.
pub proof fn lemma_suffix_of_concat(head: Seq<char>, tail: Seq<char>, suffix: Seq<char>)
    requires
        ends_with(tail, suffix),
    ensures
        ends_with(head + tail, suffix),
{
    assert((head + tail).skip((head + tail).len() - suffix.len()) == tail.skip(
        tail.len() - suffix.len(),
    ));
}

} // verus!
