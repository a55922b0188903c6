//! Filtering and selection engine of a terminal launcher for local projects.
//!
//! The crate holds the session's data model and every decision the launcher
//! takes: which projects are listed and in what order, how the query text is
//! edited, how the two cursors move, and what each key does. Drawing, reading
//! keys, walking the disk and starting the editor are left to the caller.

pub mod app;
pub mod crawl;
pub mod cursor;
pub mod filter;
pub mod input;
pub mod manifest;
pub mod prags;
pub mod tags;
pub mod text;
