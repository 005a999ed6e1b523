//! Clipboard history with pinning: a deduplicated store of clipboard
//! contents, a bounded most-recent-first history, and a list of pinned
//! entries that outlive eviction from the history.

pub mod clipboard_files;
pub mod clipboard_manager;
pub mod contents;
pub mod hook_manager;
pub mod laws;
pub mod model;
pub mod pinned;
pub mod position_window;
pub mod store;
pub mod thumbnail;
