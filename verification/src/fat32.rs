//! The FAT32 backend: the allocation table and block device it reads, the raw
//! on-disk directory records, and the reconstruction of logical directory
//! entries from them.

pub mod dir;
pub mod dir_entry;
pub mod fat;
pub mod file;
