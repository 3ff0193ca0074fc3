//! Block-level model of markdown documents for a windowed editor.

pub mod blockstore;
pub mod fts;
pub mod indexer;
pub mod listing;
pub mod models;
pub mod navigation;
pub mod registry;
pub mod schema;
pub mod text;
pub mod utils;
pub mod watcher;
pub mod write_tracker;
