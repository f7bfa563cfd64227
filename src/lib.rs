//! Keeps DNS zone files in step with the files they include: classifies
//! file-system notifications, coalesces them, decides when a zone changed and
//! advances its SOA serial, and converts snapshots to and from stored rows.

pub mod changes;
pub mod config;
pub mod db;
pub mod event_analyzer;
pub mod event_processor;
pub mod reloader;
pub mod watcher;
pub mod zone_file;
pub mod zone_text;
