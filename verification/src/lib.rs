//! A recoverable file-removal library: files are moved into a trash store
//! rather than deleted, and can later be restored or purged by pattern.
//!
//! The heart of the library is the restore-conflict engine: a pattern
//! compiler and matcher select trashed entries, a classifier groups them by
//! their original path, and prompt state machines resolve the two conflict
//! classes (several trashed versions of one path, and a live file now
//! occupying a restore destination), consulting a naming scheme for
//! collision-free destination names.

pub mod chars;
pub mod classify;
pub mod display;
pub mod matcher;
pub mod naming;
pub mod pattern;
pub mod removal;
pub mod resolver;
pub mod selection;
pub mod session;
pub mod store;
