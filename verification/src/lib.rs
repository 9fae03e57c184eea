//! Keeps a multi-project workspace's dependencies consistent: resolves
//! registry metadata into concrete name, version and feature triples, and
//! holds every member's references to the single shared dependency table in
//! the root document.
pub mod add;
pub mod alist;
pub mod cli;
pub mod error;
pub mod laws;
pub mod list;
pub mod registry;
pub mod remove;
pub mod sync;
pub mod text;
pub mod version;
pub mod workspace;
