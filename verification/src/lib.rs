//! Build-artifact cache keyed by version-control history.
//!
//! A compressed bundle of files is stored under a key derived from the
//! current commit. On retrieval a short, deterministically ordered list of
//! fallback keys is probed: ancestor commits first, then a caller-supplied
//! fallback, then the tip of the trunk branch.

pub mod archive;
pub mod config;
pub mod digest;
pub mod error;
pub mod folder_backend;
pub mod key;
pub mod orchestrator;
pub mod path;
pub mod resolver;
pub mod storage_backend;
pub mod text;
