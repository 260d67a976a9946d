//! Clipboard history core: a content model for captured clipboard snapshots,
//! a polling change-watcher state machine with structural deduplication, and
//! a durable storage engine over an embedded key-value store.

pub mod backend;
pub mod codec;
pub mod config;
pub mod content;
pub mod error;
pub mod order;
pub mod retention;
pub mod storage;
pub mod text;
pub mod ui;
pub mod watcher;
