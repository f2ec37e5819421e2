//! Turns a directory tree and a repository's history into text: include and
//! exclude rules decide which files count, a walker builds the tree and the file
//! records, and the diff and log renderers produce the version-control text.
mod text;

pub mod filter;
pub mod dates;
pub mod git;
pub mod path;
pub mod template;
