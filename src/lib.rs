//! Catalog and browser logic for recorded conversation sessions.

pub mod browser;
pub mod catalog;
pub mod cli;
pub mod commands;
pub mod export;
pub mod key;
pub mod paths;
pub mod shard;
pub mod stamp;
pub mod summary;
pub mod text;
