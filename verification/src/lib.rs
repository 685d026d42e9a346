//! clipd: clipboard history with rich metadata. This library holds the
//! rules: content-type detection, content hashing and change detection,
//! the configuration and its ignore list, the ordering, eviction and
//! tagging rules of the history store, the daemon loop's decisions, and the
//! panel's view of a clip.
pub mod clipboard;
pub mod config;
pub mod daemon;
pub mod models;
pub mod panel;
pub mod report;
pub mod store;
pub mod text;

pub use config::Config;
pub use models::{ClipEntry, ContentType};
