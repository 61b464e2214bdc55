//! The block device, the file-allocation table, and cluster chains.
//!
//! Cluster lists are held in `smallvec::SmallVec`, as most chains are short;
//! the vector is an outside collection, so its contents are named by
//! `cluster_list` and reached through the trusted wrappers below.

use vstd::prelude::*;
use smallvec::SmallVec;
use crate::config::SECTOR_SIZE;
use crate::inode::backing_byte;

verus! {

/// A resolved cluster chain, held in the outside collection
/// `smallvec::SmallVec` (most chains are short and stay inline). Verus does
/// not read the field; what the list holds is named by `cluster_list`, and
/// the trusted methods below state how each operation the logic uses acts on
/// it.
#[verifier::external_body]
pub struct ClusterList {
    items: SmallVec<[u32; 4]>,
}

/// What a cluster list holds, in order.
pub uninterp spec fn cluster_list(v: ClusterList) -> Seq<u32>;

impl ClusterList {
    /// Relies on smallvec::SmallVec::new: constructs an empty vector.
    #[verifier::external_body]
    pub fn new() -> (r: ClusterList)
        ensures
            cluster_list(r) == Seq::<u32>::empty(),
    {
        ClusterList { items: SmallVec::new() }
    }

    /// Relies on smallvec::SmallVec::push: appends one item at the end.
    #[verifier::external_body]
    pub fn push(&mut self, x: u32)
        ensures
            cluster_list(*final(self)) == cluster_list(*old(self)).push(x),
    {
        self.items.push(x);
    }

    /// Relies on smallvec::SmallVec::len: the number of items stored.
    #[verifier::external_body]
    pub fn len(&self) -> (r: usize)
        ensures
            r == cluster_list(*self).len(),
    {
        self.items.len()
    }

    /// Relies on smallvec::SmallVec's Index (through Deref to a slice): the
    /// item at position `i`.
    #[verifier::external_body]
    pub fn get(&self, i: usize) -> (r: u32)
        requires
            i < cluster_list(*self).len(),
        ensures
            r == cluster_list(*self)[i as int],
    {
        self.items[i]
    }
}

/// A memory-backed block device: the whole disk image as one byte vector.
pub struct RamDisk {
    image: Vec<u8>,
}

impl RamDisk {
    /// The raw image.
    pub closed spec fn view(&self) -> Seq<u8> {
        self.image@
    }

    /// Wraps a disk image.
    pub fn new(image: Vec<u8>) -> (r: RamDisk)
        ensures
            r@ == image@,
    {
        RamDisk { image }
    }

    /// One byte of the image, zero past its end.
    pub fn byte(&self, addr: u64) -> (r: u8)
        ensures
            r == backing_byte(self@, addr as int),
    {
        let n = self.image.len();
        if addr < n as u64 {
            self.image[addr as usize]
        } else {
            0
        }
    }

    /// Reads one whole sector into `buf`, zero-extended past the image's end.
    #[verifier::loop_isolation(false)]
    pub fn read_blocks_cached(&self, sector_id: u64, buf: &mut Vec<u8>)
        requires
            old(buf)@.len() == SECTOR_SIZE,
            sector_id < 0xFFFF_FFFF,
        ensures
            final(buf)@.len() == old(buf)@.len(),
            forall|j: int|
                0 <= j < SECTOR_SIZE ==> final(buf)@[j] == backing_byte(
                    self@,
                    sector_id * (SECTOR_SIZE as int) + j,
                ),
    {
        let base: u64 = sector_id * SECTOR_SIZE;
        let mut j: usize = 0;
        while j < 512
            invariant
                j <= 512,
                buf@.len() == old(buf)@.len(),
                old(buf)@.len() == SECTOR_SIZE,
                base == sector_id * (SECTOR_SIZE as int),
                base + SECTOR_SIZE <= u64::MAX,
                forall|k: int|
                    0 <= k < j ==> buf@[k] == backing_byte(self@, base + k),
            decreases 512 - j,
        {
            let b = self.byte(base + j as u64);
            buf[j] = b;
            j += 1;
        }
    }
}

/// The mathematical model of a mounted FAT32 volume: the disk image, the
/// allocation table, and the geometry that places clusters on the disk.
pub struct FatView {
    pub disk: Seq<u8>,
    pub table: Seq<u32>,
    pub spc: int,
    pub data_start: int,
}

/// First successor value that marks end-of-chain.
pub const FAT_EOC: u32 = 0x0FFF_FFF8;

/// Whether the chain continues after cluster `c`: the table has an entry for
/// it, and that entry names an ordinary data cluster.
pub open spec fn chain_continues(table: Seq<u32>, c: u32) -> bool {
    c < table.len() && 2 <= table[c as int] && table[c as int] < FAT_EOC
}

/// The cluster chain starting at `c`, reading successors from the table,
/// cut off after `fuel` clusters so that a corrupt, cyclic table still gives
/// a finite chain.
pub open spec fn chain_from(table: Seq<u32>, c: u32, fuel: nat) -> Seq<u32>
    decreases fuel,
{
    if fuel == 0 {
        Seq::empty()
    } else if chain_continues(table, c) {
        seq![c] + chain_from(table, table[c as int], (fuel - 1) as nat)
    } else {
        seq![c]
    }
}

/// Bytes per cluster.
pub open spec fn cluster_bytes(f: FatView) -> int {
    f.spc * (SECTOR_SIZE as int)
}

/// The byte address on disk where data cluster `c` starts.
pub open spec fn cluster_start_byte(f: FatView, c: u32) -> int {
    (f.data_start + (c - 2) * f.spc) * (SECTOR_SIZE as int)
}

/// Byte `i` of the content laid out over `clusters` on the volume: each
/// cluster contributes `cluster_bytes` consecutive disk bytes. A position in
/// a cluster that is not an ordinary data cluster reads as zero.
pub open spec fn chain_byte(f: FatView, clusters: Seq<u32>, i: int) -> u8 {
    let cb = cluster_bytes(f);
    let ci = i / cb;
    if 0 <= i && ci < clusters.len() && clusters[ci] >= 2 {
        backing_byte(f.disk, cluster_start_byte(f, clusters[ci]) + i % cb)
    } else {
        0u8
    }
}

/// A mounted FAT32 volume: the disk, the allocation table read from it, and
/// the placement of the data area.
pub struct FileAllocTable {
    disk: RamDisk,
    table: Vec<u32>,
    sector_per_cluster: u32,
    data_start_sector: u32,
}

impl FileAllocTable {
    pub closed spec fn view(&self) -> FatView {
        FatView {
            disk: self.disk@,
            table: self.table@,
            spc: self.sector_per_cluster as int,
            data_start: self.data_start_sector as int,
        }
    }

    /// The geometry stays in the ranges FAT32 allows, so that all byte
    /// addresses fit comfortably in 64 bits. Every constructed volume
    /// satisfies this.
    #[verifier::type_invariant]
    pub closed spec fn wf(&self) -> bool {
        &&& 1 <= self.sector_per_cluster <= 128
        &&& self.table@.len() <= 0x0FFF_FFF8
    }

    /// Mounts a volume: a disk image, the allocation table, and the geometry.
    pub fn new(disk: RamDisk, table: Vec<u32>, sector_per_cluster: u32, data_start_sector: u32) -> (r:
        FileAllocTable)
        requires
            1 <= sector_per_cluster <= 128,
            table@.len() <= 0x0FFF_FFF8,
        ensures
            r.wf(),
            r@.disk == disk@,
            r@.table == table@,
            r@.spc == sector_per_cluster as int,
            r@.data_start == data_start_sector as int,
    {
        FileAllocTable { disk, table, sector_per_cluster, data_start_sector }
    }

    /// Every mounted volume's geometry obeys the FAT32 bounds.
    pub fn geometry_bounds(&self)
        ensures
            1 <= self@.spc <= 128,
            self@.table.len() <= 0x0FFF_FFF8,
    {
        proof {
            use_type_invariant(self);
        }
    }

    /// Sectors per cluster.
    pub fn sector_per_cluster(&self) -> (r: u32)
        ensures
            r == self@.spc,
    {
        self.sector_per_cluster
    }

    /// Walks the allocation table from `start` and returns the cluster chain,
    /// cut off after one more cluster than the table has entries, so a
    /// corrupt cyclic table cannot make it spin forever.
    #[verifier::loop_isolation(false)]
    pub fn cluster_chain(&self, start: u32) -> (r: ClusterList)
        ensures
            cluster_list(r) == chain_from(self@.table, start, self@.table.len() + 1),
    {
        proof {
            use_type_invariant(self);
        }
        let table_len = self.table.len();
        let ghost total = chain_from(self@.table, start, self@.table.len() + 1);
        let mut out = ClusterList::new();
        let mut cur: u32 = start;
        let mut fuel: usize = table_len + 1;
        let mut done: bool = false;
        while fuel > 0 && !done
            invariant
                table_len == self@.table.len(),
                fuel <= table_len + 1,
                done ==> cluster_list(out) == total,
                !done ==> cluster_list(out) + chain_from(self@.table, cur, fuel as nat) == total,
            decreases fuel, (if done { 0int } else { 1int }),
        {
            out.push(cur);
            let cont = (cur as usize) < table_len && {
                let nx = self.table[cur as usize];
                2 <= nx && nx < FAT_EOC
            };
            if cont {
                let nx = self.table[cur as usize];
                proof {
                    assert(chain_from(self@.table, cur, fuel as nat) == seq![cur] + chain_from(
                        self@.table,
                        nx,
                        (fuel - 1) as nat,
                    ));
                    assert(cluster_list(out) + chain_from(self@.table, nx, (fuel - 1) as nat)
                        =~= total);
                }
                cur = nx;
                fuel = fuel - 1;
            } else {
                proof {
                    assert(chain_from(self@.table, cur, fuel as nat) == seq![cur]);
                    assert(cluster_list(out) =~= total);
                }
                done = true;
            }
        }
        out
    }

    /// One byte of the content laid out over `clusters`, as `chain_byte`
    /// defines it.
    pub fn chain_read_byte(&self, clusters: &ClusterList, i: u64) -> (r: u8)
        ensures
            r == chain_byte(self@, cluster_list(*clusters), i as int),
    {
        proof {
            use_type_invariant(self);
        }
        let cb: u64 = self.sector_per_cluster as u64 * SECTOR_SIZE;
        let ci: u64 = i / cb;
        let n = clusters.len();
        if ci < n as u64 {
            let c = clusters.get(ci as usize);
            if c >= 2 {
                proof {
                    assert((c as int - 2) * (self.sector_per_cluster as int) <= 0xFFFF_FFFF
                        * 128) by (nonlinear_arith)
                        requires
                            2 <= c <= 0xFFFF_FFFFu32,
                            self.sector_per_cluster <= 128,
                    ;
                    assert((c as int - 2) * (self.sector_per_cluster as int) >= 0)
                        by (nonlinear_arith)
                        requires
                            2 <= c,
                            1 <= self.sector_per_cluster,
                    ;
                }
                let addr: u64 = (self.data_start_sector as u64 + (c as u64 - 2)
                    * self.sector_per_cluster as u64) * SECTOR_SIZE + i % cb;
                self.disk.byte(addr)
            } else {
                0
            }
        } else {
            0
        }
    }
}

} // verus!
