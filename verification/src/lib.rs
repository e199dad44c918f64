//! Checks that the archive of a published package matches the source that
//! its repository holds at the commit the package was made from.
//!
//! The pieces, in the order in which a comparison uses them: the repository
//! URL of the manifest is normalized (`repository_url`, `cargo_toml`), the
//! commit behind the published version is resolved (`crates_io`, `git`), the
//! directory of the package inside the clone is located (`locate`), and the
//! two file trees are compared by digest (`digest`, `diff_directories`).

pub mod cargo_toml;
pub mod crates_io;
pub mod diff_directories;
pub mod digest;
pub mod git;
pub mod locate;
pub mod repository_url;
pub mod text;
