//! Workspace tracking for a Discord Rich Presence integration of the Zed editor.
pub mod text;
pub mod path;
pub mod workspace;
pub mod logscan;
pub mod git;
pub mod places;
pub mod language;
pub mod daemon;
pub mod ordering;
pub mod monitor;
pub mod extension;
pub mod watcher;
