pub mod text;
pub mod search;
pub mod plan;
pub mod watcher;
pub mod clipboard;
pub mod daemon;
