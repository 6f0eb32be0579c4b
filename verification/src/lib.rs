//! Reader for the index files and package archives of a game installation.
//!
//! An index file lists, for one package file, the names of the archived
//! files, how those names nest into directories, and where each payload lies in
//! the package. This library decodes index files, merges them into one
//! directory tree, resolves path and pattern queries against that tree, and
//! turns the bytes of a package into the files they hold. Reading and writing
//! the filesystem is left to the caller: every function here works on values in
//! memory.

pub mod cursor;
pub mod directory_browser;
pub mod discovery;
pub mod extract;
pub mod game;
pub mod game_unpack;
pub mod idx;
pub mod lang_unpack;
pub mod query;
pub mod text;
pub mod tree;
pub mod types;
