//! Counting how often a string occurs in the files of a git history, commit by commit.
//!
//! The library holds the logic: how matches are counted in a blob (`search`, `text`),
//! how a commit's tree changes move the count and which code owners they are credited to
//! (`delta`, `owners`, `syntax`, `tally`), how the per-commit results become a timeline of
//! running totals (`timeline`), and how a whole-history scan adds up (`scan`). Properties
//! that relate several of these are proved in `laws`. Reading the repository is left to
//! the caller, which hands over plain values: changes with the bytes of their blobs, the
//! CODEOWNERS files found in a commit, and commit metadata.

pub mod delta;
pub mod laws;
pub mod owners;
pub mod scan;
pub mod search;
pub mod syntax;
pub mod tally;
pub mod text;
pub mod timeline;
