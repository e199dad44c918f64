//! The package manifest, as far as the comparison reads it, and the step
//! that replaces the repository URL that the maintainer typed by a clone URL
//! and a subpath.

use crate::repository_url::{normalize, normalized, CanonicalRepo, CanonicalRepoView, InvalidUrl};
use vstd::prelude::*;

verus! {

/// A manifest: its `package` table.
#[derive(Clone, Debug, PartialEq, Eq)]
pub struct CargoToml {
    pub package: Package,
}

/// The fields of the `package` table that the comparison reads.
#[derive(Clone, Debug, PartialEq, Eq)]
pub struct Package {
    pub name: String,
    pub repository: Option<String>,
    pub repository_subpath: Option<String>,
    pub build: Option<String>,
}

pub struct PackageView {
    pub name: Seq<char>,
    pub repository: Option<Seq<char>>,
    pub repository_subpath: Option<Seq<char>>,
    pub build: Option<Seq<char>>,
}

pub open spec fn text_of(s: Option<String>) -> Option<Seq<char>> {
    match s {
        Some(t) => Some(t@),
        None => None,
    }
}

impl View for Package {
    type V = PackageView;

    open spec fn view(&self) -> PackageView {
        PackageView {
            name: self.name@,
            repository: text_of(self.repository),
            repository_subpath: text_of(self.repository_subpath),
            build: text_of(self.build),
        }
    }
}

impl View for CargoToml {
    type V = PackageView;

    open spec fn view(&self) -> PackageView {
        self.package@
    }
}

/// Why a manifest cannot be used.
#[derive(Clone, Copy, Debug, PartialEq, Eq, Structural)]
pub enum ManifestError {
    /// The manifest names no repository.
    MissingRepository,
    /// The repository URL cannot be turned into a clone URL.
    InvalidRepository(InvalidUrl),
}

/// The package with its repository replaced by the canonical one: name and
/// build script stay, the clone URL becomes the repository, and the subpath
/// is the one that the URL held, whatever the manifest said before.
pub open spec fn with_canonical(package: PackageView, repo: CanonicalRepoView) -> PackageView {
    PackageView {
        name: package.name,
        repository: Some(repo.clone_url),
        repository_subpath: repo.subpath,
        build: package.build,
    }
}

/// What a manifest resolves to, given what its repository URL normalizes to.
pub open spec fn resolved(package: PackageView) -> Result<PackageView, ManifestError> {
    match package.repository {
        None => Err(ManifestError::MissingRepository),
        Some(url) => match normalized(url) {
            Err(e) => Err(ManifestError::InvalidRepository(e)),
            Ok(repo) => Ok(with_canonical(package, repo)),
        },
    }
}

/// Puts a canonical repository into a manifest.
pub fn with_repository(config: CargoToml, repo: CanonicalRepo) -> (out: CargoToml)
    ensures
        out@ == with_canonical(config@, repo@),
{
    CargoToml {
        package: Package {
            name: config.package.name,
            repository: Some(repo.clone_url),
            repository_subpath: repo.subpath,
            build: config.package.build,
        },
    }
}

/// Resolves the repository of a manifest that was read from a package: the
/// URL is normalized, and clone URL and subpath take the place of what the
/// manifest held. A manifest without a repository, or with a URL that cannot
/// be normalized, is refused.
pub fn parse_cargo_toml(config: CargoToml) -> (r: Result<CargoToml, ManifestError>)
    ensures
        match r {
            Ok(out) => resolved(config@) == Ok::<PackageView, ManifestError>(out@),
            Err(e) => resolved(config@) == Err::<PackageView, ManifestError>(e),
        },
{
    let canonical = match &config.package.repository {
        None => {
            return Err(ManifestError::MissingRepository);
        },
        Some(url) => normalize(url.as_str()),
    };
    match canonical {
        Err(e) => Err(ManifestError::InvalidRepository(e)),
        Ok(repo) => Ok(with_repository(config, repo)),
    }
}

} // verus!
