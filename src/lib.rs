//! Storage core of a container-image registry: content-addressed blobs,
//! resumable upload sessions and mutable references, kept in a tree of files
//! under a configured root.

pub mod db;
pub mod digest;
pub mod layout;
pub mod tree;
pub mod laws;
pub mod params;
