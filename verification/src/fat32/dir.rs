//! The FAT32 directory capability: enumerating a directory's raw records,
//! reconstructing its logical entries, and the lookup and listing built on
//! that.

use vstd::prelude::*;
use vstd::string::StringExecFns;
use crate::config::DIR_ENTRY_SIZE;
use crate::error::{KError, KResult};
use crate::fat32::dir_entry::{step, BuildSt, DirEntry, DirEntryBuilder, DirEntryBuilderResult,
    EntryV, ATTR_DIR};
use crate::fat32::fat::{chain_byte, chain_from, cluster_bytes, cluster_list, ClusterList,
    FatView, FileAllocTable};
use crate::fat32::file::FatFile;
use crate::inode::{InodeMeta, InodeMode, InoCounter, Inode};
use crate::time::TimeSpec;

verus! {

/// A directory on a FAT32 volume: the resolved cluster chain holding its
/// record list. The volume is passed into each operation.
pub struct FatDir {
    clusters: ClusterList,
}

/// The number of 32-byte record slots the chain holds.
pub open spec fn dir_slots(f: FatView, clusters: Seq<u32>) -> int {
    clusters.len() * cluster_bytes(f) / (DIR_ENTRY_SIZE as int)
}

/// The raw 32-byte record in slot `k`.
pub open spec fn record_at(f: FatView, clusters: Seq<u32>, k: int) -> Seq<u8> {
    Seq::new(
        DIR_ENTRY_SIZE as nat,
        |j: int| chain_byte(f, clusters, k * (DIR_ENTRY_SIZE as int) + j),
    )
}

/// The logical entries reconstructed from slot `slot` onward, starting in
/// builder state `st`: a free slot is skipped, the end sentinel stops
/// enumeration even mid-chain, and every other record advances the builder,
/// emitting a finished entry (`Some`) or a corrupt one (`None`).
pub open spec fn entries_from(f: FatView, clusters: Seq<u32>, slot: int, st: BuildSt) -> Seq<
    Option<EntryV>,
>
    decreases dir_slots(f, clusters) - slot,
{
    if slot < 0 || slot >= dir_slots(f, clusters) {
        Seq::empty()
    } else {
        let r = record_at(f, clusters, slot);
        if r[0] == 0u8 {
            Seq::empty()
        } else if r[0] == 0xE5u8 {
            entries_from(f, clusters, slot + 1, st)
        } else {
            let s = step(st, r);
            match s.1 {
                Option::None => entries_from(f, clusters, slot + 1, s.0),
                Option::Some(e) => seq![e] + entries_from(f, clusters, slot + 1, s.0),
            }
        }
    }
}

/// All logical entries of the directory, in on-disk order.
pub open spec fn dir_entries(f: FatView, clusters: Seq<u32>) -> Seq<Option<EntryV>> {
    entries_from(f, clusters, 0, BuildSt::Idle)
}

/// A chain cut off at `fuel` clusters is no longer than that.
pub proof fn lemma_chain_len(table: Seq<u32>, c: u32, fuel: nat)
    ensures
        chain_from(table, c, fuel).len() <= fuel + 1,
    decreases fuel,
{
    if fuel > 0 {
        lemma_chain_len(table, table[c as int], (fuel - 1) as nat)
    }
}

impl FatDir {
    /// The record area's cluster chain.
    pub closed spec fn chain(&self) -> Seq<u32> {
        cluster_list(self.clusters)
    }

    /// Chains come from the allocation table, whose size FAT32 bounds, so
    /// slot arithmetic stays comfortably inside 64 bits.
    #[verifier::type_invariant]
    pub closed spec fn wf(&self) -> bool {
        self.chain().len() <= 0x1000_0000
    }

    /// The directory's entries on the given volume.
    pub open spec fn entries(&self, f: FatView) -> Seq<Option<EntryV>> {
        dir_entries(f, self.chain())
    }

    /// The record slots this directory's chain holds.
    fn num_slots(&self, fat: &FileAllocTable) -> (r: u64)
        ensures
            r == dir_slots(fat@, self.chain()),
    {
        fat.geometry_bounds();
        proof {
            use_type_invariant(self);
        }
        let len = self.clusters.len() as u64;
        let cb: u64 = fat.sector_per_cluster() as u64 * 512;
        proof {
            assert(len * cb <= 0x1000_0000 * (128 * 512)) by (nonlinear_arith)
                requires
                    len <= 0x1000_0000,
                    cb <= 128 * 512,
            ;
            assert(len * cb >= 0) by (nonlinear_arith)
                requires
                    0 <= len && 0 <= cb,
            ;
        }
        len * cb / 32
    }

    /// The on-disk footprint of the directory's record area, used to seed
    /// its `data_len`.
    pub fn disk_space(&self, fat: &FileAllocTable) -> (r: u64)
        ensures
            r == self.chain().len() * cluster_bytes(fat@),
    {
        fat.geometry_bounds();
        proof {
            use_type_invariant(self);
        }
        let len = self.clusters.len() as u64;
        let cb: u64 = fat.sector_per_cluster() as u64 * 512;
        proof {
            assert(len * cb <= 0x1000_0000 * (128 * 512) && len * cb >= 0) by (nonlinear_arith)
                requires
                    len <= 0x1000_0000,
                    0 <= cb <= 128 * 512,
            ;
        }
        len * cb
    }

    /// The root directory node of a volume: the chain resolved from the
    /// root's first cluster, named `/`, its size seeded from its footprint.
    pub fn new_root(fat: &FileAllocTable, first_root_cluster_id: u32, counter: &mut InoCounter) -> (r:
        Inode<FatDir>)
        requires
            first_root_cluster_id >= 2,
            old(counter)@ < usize::MAX,
        ensures
            final(counter)@ == old(counter)@ + 1,
            r.wf(),
            r@.ino == old(counter)@,
            r@.mode == InodeMode::Dir,
            r@.name == "/"@,
            r.backend().chain() == chain_from(
                fat@.table,
                first_root_cluster_id,
                fat@.table.len() + 1,
            ),
            r@.data_len == r.backend().chain().len() * cluster_bytes(fat@),
    {
        fat.geometry_bounds();
        proof {
            lemma_chain_len(fat@.table, first_root_cluster_id, fat@.table.len() + 1);
        }
        let clusters = fat.cluster_chain(first_root_cluster_id);
        let root_dir = FatDir { clusters };
        let mut meta = InodeMeta::new(InodeMode::Dir, ("/").to_owned(), counter);
        let space = root_dir.disk_space(fat);
        meta.update_inner(space, TimeSpec::zero(), TimeSpec::zero(), TimeSpec::zero());
        Inode::new(meta, root_dir)
    }

    /// The directory node a directory entry describes: fresh inode number,
    /// the entry's name and stamps, the chain resolved from its first
    /// cluster, and its size seeded from that chain's footprint.
    pub fn from_dir_entry(fat: &FileAllocTable, dir_entry: DirEntry, counter: &mut InoCounter) -> (r:
        Inode<FatDir>)
        requires
            old(counter)@ < usize::MAX,
        ensures
            final(counter)@ == old(counter)@ + 1,
            r.wf(),
            r@.ino == old(counter)@,
            r@.mode == InodeMode::Dir,
            r@.name == dir_entry@.name,
            r@.access_time == dir_entry@.access_time,
            r@.change_time == dir_entry@.create_time,
            r@.modify_time == dir_entry@.modify_time,
            r.backend().chain() == chain_from(
                fat@.table,
                dir_entry@.first_cluster,
                fat@.table.len() + 1,
            ),
            r@.data_len == r.backend().chain().len() * cluster_bytes(fat@),
    {
        fat.geometry_bounds();
        proof {
            lemma_chain_len(fat@.table, dir_entry@.first_cluster, fat@.table.len() + 1);
        }
        let mut dir_entry = dir_entry;
        let access_time = dir_entry.access_time();
        let create_time = dir_entry.create_time();
        let modify_time = dir_entry.modify_time();
        let first = dir_entry.first_cluster_id();
        let mut meta = InodeMeta::new(InodeMode::Dir, dir_entry.take_name(), counter);
        let fat_dir = FatDir { clusters: fat.cluster_chain(first) };
        let space = fat_dir.disk_space(fat);
        // FAT32 keeps no separate metadata-change stamp; the creation stamp
        // is carried in its place.
        meta.update_inner(space, access_time, modify_time, create_time);
        Inode::new(meta, fat_dir)
    }

    /// Starts enumerating this directory's logical entries on `fat`.
    pub fn dir_entry_iter<'a>(&'a self, fat: &'a FileAllocTable) -> (r: DirEntryIter<'a>)
        ensures
            r.wf(),
            r.fatv() == fat@,
            r.clv() == self.chain(),
            r.emitted_view() == Seq::<Option<EntryV>>::empty(),
    {
        proof {
            use_type_invariant(self);
        }
        DirEntryIter { dir: self, fat, slot: 0, finished: false, emitted: Ghost(Seq::empty()) }
    }
}

/// One 32-byte record of the directory's record area.
#[verifier::loop_isolation(false)]
fn read_record(fat: &FileAllocTable, clusters: &ClusterList, slot: u64) -> (r: Vec<u8>)
    requires
        slot < 0x1000_0000_0000,
    ensures
        r@ == record_at(fat@, cluster_list(*clusters), slot as int),
        r@.len() == DIR_ENTRY_SIZE,
{
    let base: u64 = slot * 32;
    let mut v: Vec<u8> = Vec::new();
    let mut j: usize = 0;
    while j < 32
        invariant
            j <= 32,
            v@.len() == j,
            forall|k: int|
                0 <= k < j ==> v@[k] == chain_byte(
                    fat@,
                    cluster_list(*clusters),
                    slot * (DIR_ENTRY_SIZE as int) + k,
                ),
        decreases 32 - j,
    {
        let b = fat.chain_read_byte(clusters, base + j as u64);
        v.push(b);
        j += 1;
    }
    proof {
        assert(v@ =~= record_at(fat@, cluster_list(*clusters), slot as int));
    }
    v
}

/// A pull-style enumerator over a directory's logical entries: it keeps an
/// explicit cursor into the record slots and reconstructs one entry per
/// `next` call, in on-disk order. The sequence is finite and forward-only; a
/// fresh traversal starts over from the first slot.
pub struct DirEntryIter<'a> {
    dir: &'a FatDir,
    fat: &'a FileAllocTable,
    slot: u64,
    finished: bool,
    emitted: Ghost<Seq<Option<EntryV>>>,
}

impl<'a> DirEntryIter<'a> {
    /// The volume being read.
    pub closed spec fn fatv(&self) -> FatView {
        self.fat@
    }

    /// The directory's cluster chain.
    pub closed spec fn clv(&self) -> Seq<u32> {
        cluster_list(self.dir.clusters)
    }

    /// The entries handed out so far.
    pub closed spec fn emitted_view(&self) -> Seq<Option<EntryV>> {
        self.emitted@
    }

    /// The cursor's record slot.
    pub closed spec fn slot_view(&self) -> int {
        self.slot as int
    }

    /// What was handed out so far is exactly a prefix of the directory's
    /// entries, and what remains from the cursor onward accounts for the
    /// rest.
    pub closed spec fn wf(&self) -> bool {
        &&& self.dir.wf()
        &&& self.slot <= 0x1000_0000_0000
        &&& if self.finished {
            self.emitted@ == dir_entries(self.fat@, self.clv())
        } else {
            self.emitted@ + entries_from(self.fat@, self.clv(), self.slot as int, BuildSt::Idle)
                == dir_entries(self.fat@, self.clv())
        }
    }

    /// Pulls the next logical entry: `Ok` for a reconstructed one, `Err` for
    /// a corrupt one (enumeration then resumes at the next record boundary),
    /// `None` once the end sentinel or the end of the record area is
    /// reached.
    #[verifier::rlimit(60)]
    #[verifier::loop_isolation(false)]
    pub fn next(&mut self) -> (r: Option<KResult<DirEntry>>)
        requires
            old(self).wf(),
        ensures
            final(self).wf(),
            final(self).fatv() == old(self).fatv(),
            final(self).clv() == old(self).clv(),
            match r {
                None => {
                    &&& final(self).emitted_view() == old(self).emitted_view()
                    &&& final(self).emitted_view() == dir_entries(old(self).fatv(), old(self).clv())
                },
                Some(res) => {
                    &&& final(self).emitted_view() == old(self).emitted_view().push(
                        match res {
                            Ok(d) => Option::Some(d@),
                            Err(e) => Option::<EntryV>::None,
                        },
                    )
                    &&& (res matches Err(e) ==> e == KError::CorruptDirEntry)
                },
            },
    {
        if self.finished {
            return None;
        }
        let ghost f = self.fat@;
        let ghost cl = self.clv();
        let ghost total = dir_entries(f, cl);
        let n_slots = self.dir.num_slots(self.fat);
        self.fat.geometry_bounds();
        proof {
            use_type_invariant(self.dir);
            assert(cl.len() * cluster_bytes(self.fat@) <= 0x1000_0000 * (128 * 512))
                by (nonlinear_arith)
                requires
                    cl.len() <= 0x1000_0000,
                    0 <= cluster_bytes(self.fat@) <= 128 * 512,
            ;
        }
        let mut builder: Option<DirEntryBuilder> = None;
        while self.slot < n_slots
            invariant
                n_slots == dir_slots(f, cl),
                self.slot <= 0x1000_0000_0000,
                self.finished == false,
                self.dir == old(self).dir,
                self.fat == old(self).fat,
                self.emitted@ == old(self).emitted@,
                self.emitted@ + entries_from(
                    f,
                    cl,
                    self.slot as int,
                    match builder {
                        Option::None => BuildSt::Idle,
                        Option::Some(b) => b@,
                    },
                ) == total,
            decreases n_slots - self.slot,
        {
            let rec = read_record(self.fat, &self.dir.clusters, self.slot);
            let head = rec[0];
            let ghost st = match &builder {
                Option::None => BuildSt::Idle,
                Option::Some(b) => b@,
            };
            if head == 0 {
                // end-of-directory sentinel: nothing further, even mid-chain
                self.finished = true;
                proof {
                    assert(entries_from(f, cl, self.slot as int, st) =~= Seq::<
                        Option<EntryV>,
                    >::empty());
                    assert(self.emitted@ =~= total);
                }
                return None;
            }
            let ghost slot0 = self.slot as int;
            self.slot = self.slot + 1;
            if head == 0xE5 {
                // free slot: skip, enumeration continues
            } else {
                let taken = builder;
                builder = None;
                let outcome = match taken {
                    None => DirEntryBuilder::from_entry(&rec),
                    Some(b) => b.add_entry(&rec),
                };
                proof {
                    assert(entries_from(f, cl, slot0, st) == (match step(st, rec@).1 {
                        Option::None => entries_from(f, cl, slot0 + 1, step(st, rec@).0),
                        Option::Some(e) => seq![e] + entries_from(f, cl, slot0 + 1, step(st, rec@).0),
                    }));
                }
                match outcome {
                    Ok(DirEntryBuilderResult::Builder(b)) => {
                        builder = Some(b);
                    },
                    Ok(DirEntryBuilderResult::Final(d)) => {
                        proof {
                            self.emitted@ = self.emitted@.push(Option::Some(d@));
                            assert(self.emitted@ + entries_from(f, cl, slot0 + 1, BuildSt::Idle)
                                =~= total);
                        }
                        return Some(Ok(d));
                    },
                    Err(e) => {
                        proof {
                            self.emitted@ = self.emitted@.push(Option::<EntryV>::None);
                            assert(self.emitted@ + entries_from(f, cl, slot0 + 1, BuildSt::Idle)
                                =~= total);
                        }
                        return Some(Err(e));
                    },
                }
            }
        }
        // ran off the record area without an end sentinel
        self.finished = true;
        proof {
            assert(self.emitted@ =~= total);
        }
        None
    }
}

/// The name-keyed children of a directory node, as the surrounding tree
/// owns them: insertion keeps the first node registered under a name.
pub struct DirChildren {
    entries: Vec<(String, DynInode)>,
}

impl DirChildren {
    /// The names present, in insertion order.
    pub closed spec fn names(&self) -> Seq<Seq<char>> {
        Seq::new(self.entries@.len(), |i: int| self.entries@[i].0@)
    }

    /// The nodes, in insertion order.
    pub closed spec fn nodes(&self) -> Seq<DynInode> {
        Seq::new(self.entries@.len(), |i: int| self.entries@[i].1)
    }

    /// Whether some child carries the name.
    pub open spec fn has_name(&self, name: Seq<char>) -> bool {
        exists|i: int| 0 <= i < self.names().len() && self.names()[i] == name
    }

    /// No children yet.
    pub fn new() -> (r: DirChildren)
        ensures
            r.names() =~= Seq::<Seq<char>>::empty(),
    {
        DirChildren { entries: Vec::new() }
    }

    /// How many children there are.
    pub fn len(&self) -> (r: usize)
        ensures
            r == self.names().len(),
    {
        self.entries.len()
    }

    /// The node at position `i`.
    pub fn node_at(&self, i: usize) -> (r: &DynInode)
        requires
            i < self.nodes().len(),
        ensures
            *r == self.nodes()[i as int],
    {
        &self.entries[i].1
    }

    /// The name at position `i`.
    pub fn name_at(&self, i: usize) -> (r: &String)
        requires
            i < self.names().len(),
        ensures
            r@ == self.names()[i as int],
    {
        &self.entries[i].0
    }

    /// Whether a child carries this name.
    #[verifier::loop_isolation(false)]
    pub fn contains(&self, name: &String) -> (r: bool)
        ensures
            r == self.has_name(name@),
    {
        let n = self.entries.len();
        let mut i: usize = 0;
        while i < n
            invariant
                i <= n,
                n == self.names().len(),
                forall|k: int| 0 <= k < i ==> self.names()[k] != name@,
            decreases n - i,
        {
            if self.entries[i].0.eq(name) {
                proof {
                    assert(self.names()[i as int] == name@);
                }
                return true;
            }
            i += 1;
        }
        false
    }

    /// Registers a node under a name.
    pub fn insert(&mut self, name: String, node: DynInode)
        ensures
            final(self).names() =~= old(self).names().push(name@),
            final(self).nodes() =~= old(self).nodes().push(node),
    {
        self.entries.push((name, node));
    }
}

/// A node handed back by a lookup: a directory or a regular file, each
/// carrying its backend.
pub enum DynInode {
    Dir(Inode<FatDir>),
    Bytes(Inode<FatFile>),
}

/// Whether a looked-up node is the one a directory entry describes on the
/// volume: the matching kind for the entry's attributes, the entry's name
/// and stamps, the chain resolved from its first cluster, and the fresh
/// inode number `ino`.
pub open spec fn node_matches(n: DynInode, e: EntryV, f: FatView, ino: int) -> bool {
    match n {
        DynInode::Dir(d) => {
            &&& e.attrs & ATTR_DIR != 0
            &&& d@.mode == InodeMode::Dir
            &&& d@.name == e.name
            &&& d@.ino == ino
            &&& d.backend().chain() == chain_from(f.table, e.first_cluster, f.table.len() + 1)
            &&& d@.data_len == d.backend().chain().len() * cluster_bytes(f)
        },
        DynInode::Bytes(b) => {
            &&& e.attrs & ATTR_DIR == 0
            &&& b@.mode == InodeMode::Regular
            &&& b@.name == e.name
            &&& b@.ino == ino
            &&& b.backend().chain() == chain_from(f.table, e.first_cluster, f.table.len() + 1)
            &&& b@.data_len == e.size
        },
    }
}

/// Whether the reconstructed entry `o` carries the name `name`.
pub open spec fn entry_has_name(o: Option<EntryV>, name: Seq<char>) -> bool {
    o matches Option::Some(e) && e.name == name
}

impl FatDir {
    /// Finds the entry named `name` among this directory's logical entries,
    /// skipping corrupt ones, and builds its node; `None` when no entry of
    /// any kind carries that name (scanning the full sequence). The first
    /// match wins.
    #[verifier::loop_isolation(false)]
    pub fn lookup(&self, fat: &FileAllocTable, name: &str, counter: &mut InoCounter) -> (r:
        Option<DynInode>)
        requires
            old(counter)@ < usize::MAX,
        ensures
            match r {
                None => {
                    &&& final(counter)@ == old(counter)@
                    &&& forall|i: int|
                        0 <= i < self.entries(fat@).len() ==> !entry_has_name(
                            #[trigger] self.entries(fat@)[i],
                            name@,
                        )
                },
                Some(node) => {
                    &&& final(counter)@ == old(counter)@ + 1
                    &&& exists|i: int|
                        {
                            &&& 0 <= i < self.entries(fat@).len()
                            &&& entry_has_name(#[trigger] self.entries(fat@)[i], name@)
                            &&& (forall|j: int|
                                0 <= j < i ==> !entry_has_name(
                                    #[trigger] self.entries(fat@)[j],
                                    name@,
                                ))
                            &&& node_matches(
                                node,
                                self.entries(fat@)[i]->Some_0,
                                fat@,
                                old(counter)@,
                            )
                        }
                },
            },
    {
        let ghost outs = self.entries(fat@);
        let target: String = name.to_owned();
        let mut iter = self.dir_entry_iter(fat);
        loop
            invariant
                iter.wf(),
                iter.fatv() == fat@,
                iter.clv() == self.chain(),
                counter@ == old(counter)@,
                counter@ < usize::MAX,
                target@ == name@,
                outs == self.entries(fat@),
                forall|j: int|
                    0 <= j < iter.emitted_view().len() ==> !entry_has_name(
                        #[trigger] iter.emitted_view()[j],
                        name@,
                    ),
                iter.emitted_view().len() <= outs.len(),
                forall|j: int|
                    0 <= j < iter.emitted_view().len() ==> #[trigger] iter.emitted_view()[j]
                        == outs[j],
            decreases outs.len() - iter.emitted_view().len(),
        {
            let ghost emitted0 = iter.emitted_view();
            match iter.next() {
                None => {
                    return None;
                },
                Some(res) => {
                    proof {
                        assert(iter.emitted_view().len() <= outs.len()
                            && iter.emitted_view() =~= outs.subrange(
                            0,
                            iter.emitted_view().len() as int,
                        )) by {
                            assert(iter.emitted_view() + entries_from(
                                fat@,
                                self.chain(),
                                iter.slot_view(),
                                BuildSt::Idle,
                            ) == outs || iter.emitted_view() == outs);
                        }
                    }
                    match res {
                        Ok(d) => {
                            let ghost hit = emitted0.len() as int;
                            if d.name().eq(&target) {
                                proof {
                                    assert(outs[hit] == Option::Some(d@));
                                    assert(entry_has_name(outs[hit], name@));
                                }
                                let node = if d.is_dir() {
                                    DynInode::Dir(FatDir::from_dir_entry(fat, d, counter))
                                } else {
                                    DynInode::Bytes(FatFile::from_dir_entry(fat, d, counter))
                                };
                                proof {
                                    assert(node_matches(node, outs[hit]->Some_0, fat@, old(
                                        counter,
                                    )@));
                                }
                                return Some(node);
                            } else {
                                proof {
                                    assert(!entry_has_name(outs[hit], name@));
                                }
                            }
                        },
                        Err(_) => {
                            proof {
                                assert(!entry_has_name(outs[emitted0.len() as int], name@));
                            }
                        },
                    }
                },
            }
        }
    }

    /// Drains the full entry sequence into `children`: every successfully
    /// reconstructed entry becomes a child node, corrupt ones are skipped,
    /// and a name already present — beforehand or earlier in the sequence —
    /// is left untouched rather than duplicated (idempotent).
    #[verifier::rlimit(100)]
    #[verifier::loop_isolation(false)]
    pub fn read_dir(
        &self,
        fat: &FileAllocTable,
        counter: &mut InoCounter,
        children: &mut DirChildren,
    ) -> (r: KResult<()>)
        requires
            old(counter)@ + self.entries(fat@).len() < usize::MAX,
        ensures
            r is Ok,
            old(counter)@ <= final(counter)@,
            final(children).names().len() >= old(children).names().len(),
            forall|i: int|
                0 <= i < old(children).names().len() ==> final(children).names()[i] == old(
                    children,
                ).names()[i] && final(children).nodes()[i] == old(children).nodes()[i],
            forall|i: int|
                0 <= i < self.entries(fat@).len() ==> (#[trigger] self.entries(fat@)[i] matches
                Option::Some(e) ==> final(children).has_name(e.name)),
            forall|k: int|
                old(children).names().len() <= k < final(children).names().len() ==> {
                    &&& !old(children).has_name(#[trigger] final(children).names()[k])
                    &&& (forall|k2: int|
                        old(children).names().len() <= k2 < k ==> final(children).names()[k2]
                            != final(children).names()[k])
                    &&& exists|i: int|
                        {
                            &&& 0 <= i < self.entries(fat@).len()
                            &&& #[trigger] self.entries(fat@)[i] matches Option::Some(e)
                            &&& e.name == final(children).names()[k]
                        }
                },
    {
        let ghost outs = self.entries(fat@);
        let ghost children0 = *children;
        let ghost counter0 = *counter;
        let mut iter = self.dir_entry_iter(fat);
        loop
            invariant
                iter.wf(),
                iter.fatv() == fat@,
                iter.clv() == self.chain(),
                outs == self.entries(fat@),
                counter0@ <= counter@,
                counter@ <= counter0@ + iter.emitted_view().len(),
                counter0 == *old(counter),
                children0 == *old(children),
                iter.emitted_view().len() <= outs.len(),
                forall|j: int|
                    0 <= j < iter.emitted_view().len() ==> #[trigger] iter.emitted_view()[j]
                        == outs[j],
                children.names().len() >= children0.names().len(),
                forall|i: int|
                    0 <= i < children0.names().len() ==> children.names()[i]
                        == children0.names()[i] && children.nodes()[i] == children0.nodes()[i],
                forall|j: int|
                    0 <= j < iter.emitted_view().len() ==> (#[trigger] iter.emitted_view()[j]
                        matches Option::Some(e) ==> children.has_name(e.name)),
                forall|k: int|
                    children0.names().len() <= k < children.names().len() ==> {
                        &&& !children0.has_name(#[trigger] children.names()[k])
                        &&& (forall|k2: int|
                            children0.names().len() <= k2 < k ==> children.names()[k2]
                                != children.names()[k])
                        &&& exists|i: int|
                            {
                                &&& 0 <= i < outs.len()
                                &&& #[trigger] outs[i] matches Option::Some(e)
                                &&& e.name == children.names()[k]
                            }
                    },
            decreases outs.len() - iter.emitted_view().len(),
        {
            let ghost emitted0 = iter.emitted_view();
            let ghost children_pre = *children;
            match iter.next() {
                None => {
                    proof {
                        assert forall|i: int|
                            0 <= i < outs.len() implies (#[trigger] outs[i] matches
                        Option::Some(e) ==> children.has_name(e.name)) by {
                            assert(iter.emitted_view()[i] == outs[i]);
                        }
                    }
                    return Ok(());
                },
                Some(res) => {
                    proof {
                        assert(iter.emitted_view().len() <= outs.len()) by {
                            assert(iter.emitted_view() + entries_from(
                                fat@,
                                self.chain(),
                                iter.slot_view(),
                                BuildSt::Idle,
                            ) == outs || iter.emitted_view() == outs);
                        }
                    }
                    match res {
                        Ok(d) => {
                            proof {
                                assert(outs[emitted0.len() as int] == Option::Some(d@));
                            }
                            let key: String = d.name().clone();
                            if !children.contains(&key) {
                                let node = if d.is_dir() {
                                    DynInode::Dir(FatDir::from_dir_entry(fat, d, counter))
                                } else {
                                    DynInode::Bytes(FatFile::from_dir_entry(fat, d, counter))
                                };
                                children.insert(key, node);
                                proof {
                                    assert forall|j: int|
                                        0 <= j < iter.emitted_view().len() implies (
                                    #[trigger] iter.emitted_view()[j] matches Option::Some(e)
                                        ==> children.has_name(e.name)) by {
                                        if j < emitted0.len() {
                                            assert(iter.emitted_view()[j] == emitted0[j]);
                                            if emitted0[j] is Some {
                                                let e_name = emitted0[j]->Some_0.name;
                                                assert(children_pre.has_name(e_name));
                                                let w = choose|i: int|
                                                    0 <= i < children_pre.names().len()
                                                        && children_pre.names()[i] == e_name;
                                                assert(children.names()[w] == e_name);
                                            }
                                        } else {
                                            let e = d@;
                                            assert(children.names()[children.names().len() - 1]
                                                == e.name);
                                        }
                                    }
                                }
                            } else {
                                proof {
                                    assert forall|j: int|
                                        0 <= j < iter.emitted_view().len() implies (
                                    #[trigger] iter.emitted_view()[j] matches Option::Some(e)
                                        ==> children.has_name(e.name)) by {
                                        if j < emitted0.len() {
                                            assert(iter.emitted_view()[j] == emitted0[j]);
                                        } else {
                                            assert(children.has_name(key@));
                                        }
                                    }
                                }
                            }
                        },
                        Err(_) => {},
                    }
                },
            }
        }
    }
}

} // verus!
