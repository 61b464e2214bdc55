//! A demand-paged, cache-backed byte-addressable file core, layered over
//! pluggable on-disk backends, with a FAT32 directory-entry reconstruction
//! algorithm as the concrete backend.

pub mod config;
pub mod console;
pub mod fat32;
pub mod inode;
pub mod error;
pub mod page_cache;
pub mod thread;
pub mod time;
