//! Bookmarks for filesystem paths.
//!
//! A favorite is a normalized path with a durable identifier; an alias is a
//! unique name bound to exactly one favorite. The crate holds the two
//! relations, the rules that keep them consistent, the normalization of
//! paths and the resolution of an alias to the path it stands for.

pub mod cli;
pub mod config;
pub mod db;
pub mod error;
pub mod laws;
pub mod path;
pub mod relations;
pub mod state;
