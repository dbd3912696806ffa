//! Resolves a shared Google Drive folder into a tree of entries with local
//! paths, and walks such a tree to write its files, with checksums verified
//! and one retry on a mismatch.
//!
//! Nothing here touches the network or the file system. The resolution and
//! the walk are state machines: each says what it needs next, and takes what
//! its surroundings report back.

pub mod checksum;
pub mod downloader;
pub mod google_drive;
pub mod laws;
pub mod model;
pub mod progress;
pub mod resolver;
pub mod web;
