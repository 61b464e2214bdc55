//! The FAT32 bytes capability: a regular file's content laid out over its
//! cluster chain.

use vstd::prelude::*;
use crate::error::{KError, KResult};
use crate::inode::{backing_byte, clamp_count, BytesInodeBackend, Inode, InodeMeta, InodeMode,
    InoCounter};
use crate::fat32::dir_entry::DirEntry;
use crate::fat32::fat::{chain_byte, chain_from, cluster_list, ClusterList, FatView, FileAllocTable};

verus! {

/// A regular file on a FAT32 volume: its resolved cluster chain and its byte
/// size. The volume itself is the backend's medium.
pub struct FatFile {
    clusters: ClusterList,
    size: u32,
}

impl FatFile {
    /// The cluster chain holding the content.
    pub closed spec fn chain(&self) -> Seq<u32> {
        cluster_list(self.clusters)
    }

    /// The byte size of the content.
    pub closed spec fn size_spec(&self) -> u32 {
        self.size
    }
}

impl BytesInodeBackend for FatFile {
    type Medium = FileAllocTable;

    /// The first `size` bytes laid out over the cluster chain.
    open spec fn backing_view(&self, m: &FileAllocTable) -> Seq<u8> {
        Seq::new(self.size_spec() as nat, |i: int| chain_byte(m@, self.chain(), i))
    }

    #[verifier::loop_isolation(false)]
    fn read_inode_at(&self, m: &FileAllocTable, buf: &mut Vec<u8>, offset: u64) -> (r: KResult<
        usize,
    >) {
        let size = self.size;
        let buf_len = buf.len();
        let mut j: usize = 0;
        let mut inside: usize = 0;
        while j < buf_len
            invariant
                j <= buf_len,
                buf_len == buf@.len(),
                size == self.size_spec(),
                offset + buf_len <= u64::MAX,
                forall|k: int|
                    0 <= k < j ==> buf@[k] == backing_byte(self.backing_view(m), offset + k),
                inside == clamp_count(size as int, offset as int, j as int),
            decreases buf_len - j,
        {
            let pos: u64 = offset + j as u64;
            if pos < size as u64 {
                let b = m.chain_read_byte(&self.clusters, pos);
                buf[j] = b;
                inside = inside + 1;
            } else {
                buf[j] = 0;
            }
            j += 1;
        }
        Ok(inside)
    }

    /// Write-back to the volume is outside this core's scope.
    fn write_inode_at(&self, m: &mut FileAllocTable, buf: &Vec<u8>, offset: u64) -> (r: KResult<
        usize,
    >) {
        Err(KError::Unsupported)
    }
}

impl FatFile {
    /// Builds the regular-file node a directory entry describes: fresh inode
    /// number, the entry's name, size and stamps, and the cluster chain
    /// resolved from the entry's first cluster.
    pub fn from_dir_entry(fat: &FileAllocTable, dir_entry: DirEntry, counter: &mut InoCounter) -> (r:
        Inode<FatFile>)
        requires
            old(counter)@ < usize::MAX,
        ensures
            final(counter)@ == old(counter)@ + 1,
            r.wf(),
            r@.ino == old(counter)@,
            r@.mode == InodeMode::Regular,
            r@.name == dir_entry@.name,
            r@.data_len == dir_entry@.size,
            r@.access_time == dir_entry@.access_time,
            r@.change_time == dir_entry@.create_time,
            r@.modify_time == dir_entry@.modify_time,
            (r@.cache =~= Map::<u64, crate::page_cache::PageView>::empty()),
            r.backend().size_spec() == dir_entry@.size,
            r.backend().chain() == chain_from(fat@.table, dir_entry@.first_cluster, fat@.table.len() + 1),
    {
        let mut dir_entry = dir_entry;
        let access_time = dir_entry.access_time();
        let create_time = dir_entry.create_time();
        let modify_time = dir_entry.modify_time();
        let size = dir_entry.size();
        let first = dir_entry.first_cluster_id();
        let mut meta = InodeMeta::new(InodeMode::Regular, dir_entry.take_name(), counter);
        // FAT32 keeps no separate metadata-change stamp; the creation stamp
        // is carried in its place.
        meta.update_inner(size as u64, access_time, modify_time, create_time);
        let file = FatFile { clusters: fat.cluster_chain(first), size };
        Inode::new(meta, file)
    }
}

} // verus!
