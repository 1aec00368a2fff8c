//! Content-addressed artifact distribution: the verified core.
//!
//! A producer builds a directory tree into a repository of compressed,
//! hash-named chunks and a manifest; a consumer installs a named artifact
//! into a store. This crate holds the rules of both; it reads and writes no
//! file itself.

pub mod artifacts;
pub mod builder;
pub mod compression;
pub mod error;
pub mod hash;
pub mod installer;
pub mod layout;
pub mod manifest;
pub mod network;
pub mod publish;
pub mod resolver;
pub mod text;
pub mod world;

pub use crate::artifacts::{add_artifact, get_artifact};
pub use crate::builder::build;
pub use crate::hash::{hash, hash_manifest};
pub use crate::installer::install_artifact;
pub use crate::layout::{create_repo, create_store, RepoType, Store, StoreDirs};
pub use crate::manifest::Manifest;
pub use crate::network::download_file;
