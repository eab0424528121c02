//! Verified core of a collaborative code-editing backend: documents with an
//! edit history, projects with a file tree and access rules, the session
//! protocol, request authentication and the plans of the commands run in containers.

pub mod text;
pub mod crdt;
pub mod document;
pub mod path;
pub mod assoc;
pub mod file_tree;
pub mod project;
pub mod ids;
pub mod protocol;
pub mod auth;
pub mod runner;
pub mod laws;
