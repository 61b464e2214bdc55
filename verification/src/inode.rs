//! Inode metadata: identity, node kind, timestamps and logical size, plus the
//! page cache each inode owns.

use vstd::prelude::*;
use crate::config::{PAGE_OFFSET_MASK, PAGE_SIZE, PAGE_SIZE_BITS};
use crate::error::{KError, KResult};
use crate::page_cache::{PageCache, PageState, PageView};
use crate::time::TimeSpec;

verus! {

/// Node kind: a closed variant set, immutable after creation.
#[derive(Clone, Copy, PartialEq, Eq, Structural, Debug)]
pub enum InodeMode {
    Regular,
    Dir,
    SymbolLink,
    Socket,
    Fifo,
    BlockDevice,
    CharDevice,
}

/// File-kind bits of a `stat`-style mode word.
#[derive(Clone, Copy, PartialEq, Eq, Structural, Debug)]
pub struct StatMode(pub u32);

/// `stat` kind bits for a regular file.
pub const STAT_REGULAR: u32 = 0x8000;

/// `stat` kind bits for a directory.
pub const STAT_DIR: u32 = 0x4000;

/// `stat` kind bits for a symbolic link.
pub const STAT_SYM_LINK: u32 = 0xA000;

/// `stat` kind bits for a socket.
pub const STAT_SOCKET: u32 = 0xC000;

/// `stat` kind bits for a fifo.
pub const STAT_FIFO: u32 = 0x1000;

/// `stat` kind bits for a block device.
pub const STAT_BLOCK_DEVICE: u32 = 0x6000;

/// `stat` kind bits for a character device.
pub const STAT_CHAR_DEVICE: u32 = 0x2000;

/// The `stat` kind word of each node kind.
pub open spec fn stat_mode_of(mode: InodeMode) -> StatMode {
    match mode {
        InodeMode::Regular => StatMode(STAT_REGULAR),
        InodeMode::Dir => StatMode(STAT_DIR),
        InodeMode::SymbolLink => StatMode(STAT_SYM_LINK),
        InodeMode::Socket => StatMode(STAT_SOCKET),
        InodeMode::Fifo => StatMode(STAT_FIFO),
        InodeMode::BlockDevice => StatMode(STAT_BLOCK_DEVICE),
        InodeMode::CharDevice => StatMode(STAT_CHAR_DEVICE),
    }
}

impl From<InodeMode> for StatMode {
    fn from(value: InodeMode) -> (r: StatMode) {
        match value {
            InodeMode::Regular => StatMode(STAT_REGULAR),
            InodeMode::Dir => StatMode(STAT_DIR),
            InodeMode::SymbolLink => StatMode(STAT_SYM_LINK),
            InodeMode::Socket => StatMode(STAT_SOCKET),
            InodeMode::Fifo => StatMode(STAT_FIFO),
            InodeMode::BlockDevice => StatMode(STAT_BLOCK_DEVICE),
            InodeMode::CharDevice => StatMode(STAT_CHAR_DEVICE),
        }
    }
}

impl vstd::std_specs::convert::FromSpecImpl<InodeMode> for StatMode {
    open spec fn obeys_from_spec() -> bool {
        true
    }

    open spec fn from_spec(v: InodeMode) -> StatMode {
        stat_mode_of(v)
    }
}

/// The shared inode-number source: a single monotonically advancing counter,
/// owned by whoever constructs inodes and passed in explicitly.
pub struct InoCounter {
    next: usize,
}

impl InoCounter {
    /// The number the counter will hand out next.
    pub closed spec fn view(&self) -> int {
        self.next as int
    }

    /// A counter starting at zero.
    pub fn new() -> (r: InoCounter)
        ensures
            r@ == 0,
    {
        InoCounter { next: 0 }
    }

    /// Hands out the next inode number and advances. Numbers are never reused
    /// while the counter lives, so each live node is uniquely identified.
    pub fn fetch_add(&mut self) -> (r: usize)
        requires
            old(self)@ < usize::MAX,
        ensures
            r == old(self)@,
            final(self)@ == old(self)@ + 1,
    {
        let r = self.next;
        self.next = self.next + 1;
        r
    }
}

/// Mutable part of the metadata: logical size and timestamps.
///
/// `data_len` is the file content length for a regular file, and the total
/// on-disk space of the entry list for a directory. Reads that complete stamp
/// `access_time`; writes that complete stamp all three.
pub struct InodeMetaInner {
    pub data_len: u64,
    pub access_time: TimeSpec,
    pub modify_time: TimeSpec,
    pub change_time: TimeSpec,
}

/// Mathematical model of one inode's metadata.
pub struct MetaView {
    pub ino: int,
    pub mode: InodeMode,
    pub name: Seq<char>,
    pub cache: Map<u64, PageView>,
    pub data_len: u64,
    pub access_time: TimeSpec,
    pub modify_time: TimeSpec,
    pub change_time: TimeSpec,
}

/// Identity record of a filesystem node, with the page cache it owns.
pub struct InodeMeta {
    ino: usize,
    mode: InodeMode,
    name: String,
    page_cache: PageCache,
    inner: InodeMetaInner,
}

impl InodeMeta {
    /// The model of this metadata.
    pub closed spec fn view(&self) -> MetaView {
        MetaView {
            ino: self.ino as int,
            mode: self.mode,
            name: self.name@,
            cache: self.page_cache@,
            data_len: self.inner.data_len,
            access_time: self.inner.access_time,
            modify_time: self.inner.modify_time,
            change_time: self.inner.change_time,
        }
    }

    pub closed spec fn wf(&self) -> bool {
        self.page_cache.wf()
    }

    /// A fresh node: next inode number, the given kind and name, an empty
    /// page cache, zero size and zero timestamps.
    pub fn new(mode: InodeMode, name: String, counter: &mut InoCounter) -> (r: InodeMeta)
        requires
            old(counter)@ < usize::MAX,
        ensures
            r.wf(),
            r@.ino == old(counter)@,
            final(counter)@ == old(counter)@ + 1,
            r@.mode == mode,
            r@.name == name@,
            (r@.cache =~= Map::<u64, PageView>::empty()),
            r@.data_len == 0,
            r@.access_time == (TimeSpec { sec: 0, nsec: 0 }),
            r@.modify_time == (TimeSpec { sec: 0, nsec: 0 }),
            r@.change_time == (TimeSpec { sec: 0, nsec: 0 }),
    {
        InodeMeta {
            ino: counter.fetch_add(),
            mode,
            name,
            page_cache: PageCache::new(),
            inner: InodeMetaInner {
                data_len: 0,
                access_time: TimeSpec::default(),
                modify_time: TimeSpec::default(),
                change_time: TimeSpec::default(),
            },
        }
    }

    /// The inode number.
    pub fn ino(&self) -> (r: usize)
        ensures
            r == self@.ino,
    {
        self.ino
    }

    /// The node's final path component.
    pub fn name(&self) -> (r: &str)
        ensures
            r@ == self@.name,
    {
        self.name.as_str()
    }

    /// The node kind.
    pub fn mode(&self) -> (r: InodeMode)
        ensures
            r == self@.mode,
    {
        self.mode
    }

    /// The page cache this node owns.
    pub fn page_cache(&self) -> (r: &PageCache)
        requires
            self.wf(),
        ensures
            r@ == self@.cache,
            r.wf(),
    {
        &self.page_cache
    }

    /// The logical size in bytes.
    pub fn data_len(&self) -> (r: u64)
        ensures
            r == self@.data_len,
    {
        self.inner.data_len
    }

    /// The last access stamp.
    pub fn access_time(&self) -> (r: TimeSpec)
        ensures
            r == self@.access_time,
    {
        self.inner.access_time
    }

    /// The last modification stamp.
    pub fn modify_time(&self) -> (r: TimeSpec)
        ensures
            r == self@.modify_time,
    {
        self.inner.modify_time
    }

    /// The last metadata-change stamp.
    pub fn change_time(&self) -> (r: TimeSpec)
        ensures
            r == self@.change_time,
    {
        self.inner.change_time
    }

    /// Replaces the mutable part of the metadata in one step, the way a
    /// kernel updates it under the metadata's interior lock.
    pub fn update_inner(
        &mut self,
        data_len: u64,
        access_time: TimeSpec,
        modify_time: TimeSpec,
        change_time: TimeSpec,
    )
        ensures
            final(self)@.ino == old(self)@.ino,
            final(self)@.mode == old(self)@.mode,
            final(self)@.name == old(self)@.name,
            final(self)@.cache == old(self)@.cache,
            final(self)@.data_len == data_len,
            final(self)@.access_time == access_time,
            final(self)@.modify_time == modify_time,
            final(self)@.change_time == change_time,
            old(self).wf() ==> final(self).wf(),
    {
        self.inner = InodeMetaInner { data_len, access_time, modify_time, change_time };
    }
}

// ===== The byte-range engine's content model =====

/// The page index of byte offset `i`.
pub open spec fn page_id_of(i: int) -> u64 {
    (i / (PAGE_SIZE as int)) as u64
}

/// The offset of byte `i` within its page.
pub open spec fn page_off_of(i: int) -> int {
    i % (PAGE_SIZE as int)
}

/// Byte `i` of the backing content, zero-extended past its end.
pub open spec fn backing_byte(backing: Seq<u8>, i: int) -> u8 {
    if 0 <= i < backing.len() {
        backing[i]
    } else {
        0u8
    }
}

/// Byte `i` of a file as the engine exposes it: the cached page's byte once
/// that page has been filled or written, the backing store's byte otherwise.
/// An `Invalid` page carries no data yet and does not hide the backing store.
pub open spec fn content_byte(cache: Map<u64, PageView>, backing: Seq<u8>, i: int) -> u8 {
    let pid = page_id_of(i);
    if 0 <= i <= u64::MAX && cache.contains_key(pid) && cache[pid].state != PageState::Invalid {
        cache[pid].bytes[page_off_of(i)]
    } else {
        backing_byte(backing, i)
    }
}

/// The `n` engine-visible bytes starting at `offset`.
pub open spec fn range_bytes(
    cache: Map<u64, PageView>,
    backing: Seq<u8>,
    offset: int,
    n: nat,
) -> Seq<u8> {
    Seq::new(n, |j: int| content_byte(cache, backing, offset + j))
}

/// How many bytes a read of at most `cap` bytes at `offset` from content of
/// length `len` yields.
pub open spec fn clamp_count(len: int, offset: int, cap: int) -> int {
    if offset >= len {
        0
    } else if len - offset < cap {
        len - offset
    } else {
        cap
    }
}

/// One whole page of the backing content, zero-extended.
pub open spec fn backing_page(backing: Seq<u8>, page_id: u64) -> Seq<u8> {
    Seq::new(PAGE_SIZE as nat, |k: int| backing_byte(backing, page_id * (PAGE_SIZE as int) + k))
}

/// Whether the byte range `[offset, offset + len)` fully covers the page, so
/// overwriting it needs no backing read first.
pub open spec fn page_fully_covered(page_id: u64, offset: int, len: int) -> bool {
    offset <= page_id * (PAGE_SIZE as int) && (page_id + 1) * (PAGE_SIZE as int) <= offset + len
}

/// Whether every page covering `n` bytes at `offset` is cached non-`Invalid`,
/// so that a read of the range needs no backend fill.
pub open spec fn pages_ready(cache: Map<u64, PageView>, offset: int, n: int) -> bool {
    forall|i: int|
        offset <= i < offset + n ==> cache.contains_key(#[trigger] page_id_of(i))
            && cache[page_id_of(i)].state != PageState::Invalid
}

/// Shift and mask against the page geometry agree with division and
/// remainder, and a page index always fits well below `u64::MAX >> 12`.
pub proof fn lemma_page_split(x: u64)
    ensures
        x >> (PAGE_SIZE_BITS as u64) == x as int / (PAGE_SIZE as int),
        x & PAGE_OFFSET_MASK == x as int % (PAGE_SIZE as int),
        x as int / (PAGE_SIZE as int) < 0x10_0000_0000_0000,
        page_id_of(x as int) == x >> (PAGE_SIZE_BITS as u64),
        page_off_of(x as int) == x & PAGE_OFFSET_MASK,
{
    vstd::arithmetic::power2::lemma2_to64();
    vstd::bits::lemma_low_bits_mask_values();
    vstd::bits::lemma_u64_shr_is_div(x, 12);
    vstd::bits::lemma_u64_low_bits_mask_is_mod(x, 12);
    vstd::arithmetic::div_mod::lemma_div_is_ordered(x as int, u64::MAX as int, PAGE_SIZE as int);
}

/// The page holding a byte offset that leaves one page of headroom starts at
/// or before that offset and ends within the address space.
pub proof fn lemma_page_start(cur: u64)
    requires
        cur + PAGE_SIZE <= u64::MAX,
    ensures
        page_id_of(cur as int) << (PAGE_SIZE_BITS as u64) == page_id_of(cur as int) * (
        PAGE_SIZE as int),
        page_id_of(cur as int) * (PAGE_SIZE as int) + page_off_of(cur as int) == cur,
        page_id_of(cur as int) * (PAGE_SIZE as int) + PAGE_SIZE <= u64::MAX,
        0 <= page_off_of(cur as int) < PAGE_SIZE,
{
    lemma_page_split(cur);
    vstd::arithmetic::div_mod::lemma_fundamental_div_mod(cur as int, PAGE_SIZE as int);
    vstd::arithmetic::power2::lemma2_to64();
    vstd::bits::lemma_u64_shl_is_mul(page_id_of(cur as int), 12);
}

/// Offsets that stay within one page share its index, and their in-page
/// offsets advance in step.
pub proof fn lemma_same_page(a: int, d: int)
    requires
        0 <= a,
        0 <= d,
        a % (PAGE_SIZE as int) + d < PAGE_SIZE,
    ensures
        (a + d) / (PAGE_SIZE as int) == a / (PAGE_SIZE as int),
        (a + d) % (PAGE_SIZE as int) == a % (PAGE_SIZE as int) + d,
{
    vstd::arithmetic::div_mod::lemma_fundamental_div_mod(a, PAGE_SIZE as int);
    vstd::arithmetic::div_mod::lemma_fundamental_div_mod_converse(
        a + d,
        PAGE_SIZE as int,
        a / (PAGE_SIZE as int),
        a % (PAGE_SIZE as int) + d,
    );
}

/// The page index of a byte offset in `[0, u64::MAX]` is faithful to integer
/// division.
pub proof fn lemma_page_id_fits(i: int)
    requires
        0 <= i <= u64::MAX,
    ensures
        page_id_of(i) == i / (PAGE_SIZE as int),
        0 <= i / (PAGE_SIZE as int) < 0x10_0000_0000_0000,
        page_id_of(i) * (PAGE_SIZE as int) + page_off_of(i) == i,
        0 <= page_off_of(i) < PAGE_SIZE,
{
    vstd::arithmetic::div_mod::lemma_div_is_ordered(i, u64::MAX as int, PAGE_SIZE as int);
    vstd::arithmetic::div_mod::lemma_fundamental_div_mod(i, PAGE_SIZE as int);
}

// ===== The bytes capability =====

/// Raw, unbuffered backend access: used by the byte-range engine exclusively
/// to fill single pages, and called directly for nodes that bypass the cache.
pub trait BytesInodeBackend: Sized {
    /// The storage medium the backend reads and writes; owned by the caller
    /// and passed into every call.
    type Medium;

    /// The backend's full content as a sequence of bytes.
    spec fn backing_view(&self, m: &Self::Medium) -> Seq<u8>;

    /// Fills all of `buf` with the content bytes starting at `offset`,
    /// zero-extended past the end of the content, and returns how many of
    /// the copied bytes lay inside the content.
    fn read_inode_at(&self, m: &Self::Medium, buf: &mut Vec<u8>, offset: u64) -> (r: KResult<
        usize,
    >)
        requires
            offset + old(buf)@.len() <= u64::MAX,
        ensures
            final(buf)@.len() == old(buf)@.len(),
            r matches Ok(n) ==> {
                &&& forall|j: int|
                    0 <= j < final(buf)@.len() ==> final(buf)@[j] == backing_byte(
                        self.backing_view(m),
                        offset + j,
                    )
                &&& n == clamp_count(
                    self.backing_view(m).len() as int,
                    offset as int,
                    old(buf)@.len() as int,
                )
            },
    ;

    /// Writes `buf` at byte `offset` of the content, growing the content if
    /// the write ends past its current end (a gap reads as zero), and
    /// returns how many bytes were written. On failure the content is
    /// unchanged.
    fn write_inode_at(&self, m: &mut Self::Medium, buf: &Vec<u8>, offset: u64) -> (r: KResult<
        usize,
    >)
        requires
            offset + buf@.len() <= u64::MAX,
        ensures
            r matches Ok(n) ==> {
                &&& n == buf@.len()
                &&& self.backing_view(final(m)).len() == (if offset + buf@.len()
                    > self.backing_view(old(m)).len() {
                    offset + buf@.len()
                } else {
                    self.backing_view(old(m)).len() as int
                })
                &&& forall|i: int|
                    0 <= i < self.backing_view(final(m)).len()
                        ==> self.backing_view(final(m))[i] == (if offset <= i < offset
                        + buf@.len() {
                        buf@[i - offset]
                    } else {
                        backing_byte(self.backing_view(old(m)), i)
                    })
            },
            r matches Err(e) ==> self.backing_view(final(m)) == self.backing_view(old(m)),
    ;
}

/// A memory-backed bytes capability: its medium is a plain byte vector
/// holding the whole content.
pub struct MemFile;

impl BytesInodeBackend for MemFile {
    type Medium = Vec<u8>;

    open spec fn backing_view(&self, m: &Vec<u8>) -> Seq<u8> {
        m@
    }

    fn read_inode_at(&self, m: &Vec<u8>, buf: &mut Vec<u8>, offset: u64) -> (r: KResult<usize>) {
        let content_len = m.len();
        let buf_len = buf.len();
        let mut j: usize = 0;
        let mut inside: usize = 0;
        while j < buf_len
            invariant
                j <= buf_len,
                buf_len == buf@.len(),
                content_len == m@.len(),
                offset + buf_len <= u64::MAX,
                forall|k: int| 0 <= k < j ==> buf@[k] == backing_byte(m@, offset + k),
                inside == clamp_count(content_len as int, offset as int, j as int),
            decreases buf_len - j,
        {
            let pos: u64 = offset + j as u64;
            if pos < content_len as u64 {
                let b = m[pos as usize];
                buf[j] = b;
                inside = inside + 1;
            } else {
                buf[j] = 0;
            }
            j = j + 1;
        }
        Ok(inside)
    }

    fn write_inode_at(&self, m: &mut Vec<u8>, buf: &Vec<u8>, offset: u64) -> (r: KResult<usize>) {
        let end: u64 = offset + buf.len() as u64;
        let ghost m0 = m@;
        while (m.len() as u64) < end
            invariant
                end <= u64::MAX,
                m@.len() <= end || m@.len() == m0.len(),
                m@.len() >= m0.len(),
                forall|k: int| 0 <= k < m0.len() ==> m@[k] == m0[k],
                forall|k: int| m0.len() <= k < m@.len() ==> m@[k] == 0u8,
            decreases end - m@.len(),
        {
            m.push(0);
        }
        let mut j: usize = 0;
        let buf_len = buf.len();
        let m_len = m.len();
        let ghost m1 = m@;
        while j < buf_len
            invariant
                j <= buf_len,
                buf_len == buf@.len(),
                m@.len() == m1.len(),
                m_len == m1.len(),
                offset + buf_len <= m1.len(),
                forall|k: int| 0 <= k < m@.len() && !(offset <= k < offset + j) ==> m@[k] == m1[k],
                forall|k: int| offset <= k < offset + j ==> m@[k] == buf@[k - offset],
            decreases buf_len - j,
        {
            let pos_wide: u64 = offset + j as u64;
            assert(pos_wide < m_len as u64);
            let pos: usize = pos_wide as usize;
            m[pos] = buf[j];
            j = j + 1;
        }
        proof {
            assert forall|i: int| 0 <= i < m@.len() implies m@[i] == (if offset <= i < offset
                + buf@.len() {
                buf@[i - offset]
            } else {
                backing_byte(m0, i)
            }) by {
                if !(offset <= i < offset + buf@.len()) {
                    assert(m@[i] == m1[i]);
                    if i < m0.len() {
                        assert(m1[i] == m0[i]);
                    } else {
                        assert(m1[i] == 0u8);
                    }
                }
            }
        }
        Ok(buf_len)
    }
}

// ===== The byte-range engine =====

/// Two metadata models that agree on everything but the page cache.
pub open spec fn meta_eq_except_cache(a: MetaView, b: MetaView) -> bool {
    &&& a.ino == b.ino
    &&& a.mode == b.mode
    &&& a.name == b.name
    &&& a.data_len == b.data_len
    &&& a.access_time == b.access_time
    &&& a.modify_time == b.modify_time
    &&& a.change_time == b.change_time
}

/// Whether a write of `len` bytes at `offset` into a file of length
/// `data_len` needs no backing read: every touched page is either fully
/// covered by the write, lies past the file's last page, or is already
/// cached non-`Invalid`.
pub open spec fn write_ready(
    cache: Map<u64, PageView>,
    data_len: int,
    offset: int,
    len: int,
) -> bool {
    forall|i: int|
        offset <= i < offset + len ==> {
            ||| #[trigger] page_id_of(i) > page_id_of(data_len)
            ||| page_fully_covered(page_id_of(i), offset, len)
            ||| (cache.contains_key(page_id_of(i)) && cache[page_id_of(i)].state
                != PageState::Invalid)
        }
}

/// A page-sized buffer of zeros.
fn zeroed_page() -> (r: Vec<u8>)
    ensures
        r@.len() == PAGE_SIZE,
        forall|k: int| 0 <= k < PAGE_SIZE ==> r@[k] == 0u8,
{
    let mut v: Vec<u8> = Vec::new();
    let mut i: usize = 0;
    while i < PAGE_SIZE
        invariant
            i <= PAGE_SIZE,
            v@.len() == i,
            forall|k: int| 0 <= k < i ==> v@[k] == 0u8,
        decreases PAGE_SIZE - i,
    {
        v.push(0u8);
        i += 1;
    }
    v
}

/// One filesystem node: its metadata (owning the page cache) and the backend
/// capability that fills its pages. A node is polymorphic over exactly one
/// capability, determined by its mode at construction.
pub struct Inode<B> {
    meta: InodeMeta,
    inner: B,
}

impl<B> View for Inode<B> {
    type V = MetaView;

    closed spec fn view(&self) -> MetaView {
        self.meta@
    }
}

impl<B> Inode<B> {
    /// The backend this node dispatches to.
    pub closed spec fn backend(&self) -> B {
        self.inner
    }

    pub closed spec fn wf(&self) -> bool {
        self.meta.wf()
    }

    /// Pairs metadata with the backend it was created for.
    pub fn new(meta: InodeMeta, inner: B) -> (r: Inode<B>)
        ensures
            r@ == meta@,
            r.backend() == inner,
            meta.wf() ==> r.wf(),
    {
        Inode { meta, inner }
    }

    /// The node's metadata.
    pub fn meta(&self) -> (r: &InodeMeta)
        ensures
            r@ == self@,
            self.wf() ==> r.wf(),
    {
        &self.meta
    }

    /// The backend capability itself.
    pub fn backend_ref(&self) -> (r: &B)
        ensures
            *r == self.backend(),
    {
        &self.inner
    }
}

impl<B: BytesInodeBackend> Inode<B> {
    /// The backend's content, as the engine's contracts speak of it.
    pub open spec fn bk(&self, m: &B::Medium) -> Seq<u8> {
        self.backend().backing_view(m)
    }

    /// The serialized fill protocol for one page: makes sure the page is
    /// cached, and — when `want_fill` holds — loads it from the backend if,
    /// re-checked at that moment, it is still `Invalid`.
    ///
    /// In a concurrent kernel the body from the re-check onward runs
    /// under the page's fill guard: the first racing caller to get here finds
    /// `Invalid` and performs the backend read; every later one finds the
    /// page already `Synced` and skips it. Each call is one visit of
    /// `crate::page_cache::visits_serialized`, and the returned flag says
    /// whether this visit was the one that filled.
    fn prepare_page(&mut self, m: &B::Medium, page_id: u64, want_fill: bool) -> (r: KResult<bool>)
        requires
            old(self).wf(),
            page_id * (PAGE_SIZE as int) + PAGE_SIZE <= u64::MAX,
        ensures
            final(self).wf(),
            meta_eq_except_cache(final(self)@, old(self)@),
            final(self).backend() == old(self).backend(),
            final(self)@.cache.contains_key(page_id),
            forall|q: u64|
                q != page_id && old(self)@.cache.contains_key(q) ==> final(self)@.cache.contains_key(q) && final(self)@.cache[q] == old(self)@.cache[q],
            forall|q: u64| #[trigger]
                final(self)@.cache.contains_key(q) ==> q == page_id
                    || old(self)@.cache.contains_key(q),
            forall|q: u64|
                old(self)@.cache.contains_key(q) && old(self)@.cache[q].state
                    != PageState::Invalid ==> (#[trigger] final(self)@.cache.contains_key(q))
                    && final(self)@.cache[q].state != PageState::Invalid,
            forall|i: int|
                content_byte(final(self)@.cache, old(self).bk(m), i) == content_byte(
                    old(self)@.cache,
                    old(self).bk(m),
                    i,
                ),
            (r matches Ok(filled) ==> {
                &&& (filled <==> (want_fill && (!old(self)@.cache.contains_key(page_id) || old(self)@.cache[page_id].state == PageState::Invalid)))
                &&& (filled ==> final(self)@.cache[page_id] == (PageView {
                    state: PageState::Synced,
                    bytes: backing_page(old(self).bk(m), page_id),
                }))
                &&& (!filled && old(self)@.cache.contains_key(page_id) ==> final(self)@.cache[page_id] == old(self)@.cache[page_id])
                &&& (!filled && !old(self)@.cache.contains_key(page_id) ==> final(self)@.cache[page_id].state == PageState::Invalid)
                &&& (want_fill ==> final(self)@.cache[page_id].state != PageState::Invalid)
            }),
            !want_fill ==> (r matches Ok(filled) && filled == false),
            (r matches Err(e) ==> final(self)@.cache[page_id].state == PageState::Invalid),
    {
        let ghost cache0 = self@.cache;
        let ghost bk0 = self.bk(m);
        self.meta.page_cache.create(page_id);
        proof {
            assert forall|i: int|
                content_byte(self@.cache, bk0, i) == content_byte(cache0, bk0, i) by {
                if 0 <= i <= u64::MAX {
                    lemma_page_id_fits(i);
                }
            }
        }
        let st = self.meta.page_cache.state_of(page_id).unwrap();
        if want_fill && st == PageState::Invalid {
            // Re-checked under the (conceptual) fill guard: still never
            // filled, so this caller performs the one backend read.
            let mut tmp = zeroed_page();
            let off: u64 = page_id << PAGE_SIZE_BITS;
            proof {
                vstd::arithmetic::power2::lemma2_to64();
                vstd::bits::lemma_u64_shl_is_mul(page_id, 12);
            }
            match self.inner.read_inode_at(m, &mut tmp, off) {
                Ok(_) => {},
                Err(e) => {
                    return Err(e);
                },
            }
            proof {
                assert(tmp@ =~= backing_page(bk0, page_id));
            }
            self.meta.page_cache.install(page_id, tmp, PageState::Synced);
            proof {
                assert forall|i: int|
                    content_byte(self@.cache, bk0, i) == content_byte(cache0, bk0, i) by {
                    if 0 <= i <= u64::MAX {
                        lemma_page_id_fits(i);
                        if page_id_of(i) == page_id {
                            assert(backing_page(bk0, page_id)[page_off_of(i)] == backing_byte(
                                bk0,
                                i,
                            ));
                        }
                    }
                }
            }
            Ok(true)
        } else {
            Ok(false)
        }
    }

    /// Reads into `buf` starting at byte `offset`, returning how many bytes
    /// were read.
    ///
    /// A read at or past `data_len` returns zero bytes and touches nothing,
    /// not even the cache. Otherwise, for a regular node, the engine walks
    /// the pages covering the range, lazily filling each at most once from
    /// the backend, copies the range out of the cache, and stamps
    /// `access_time` with `now`; the bytes handed back are exactly the
    /// engine-visible content of the range, and that content itself never
    /// changes. A backend fill failure aborts the call, leaves every
    /// timestamp and the content unchanged, and leaves the failing page
    /// `Invalid` so a later call may retry; bytes already copied into `buf`
    /// before the failure are a side effect. Any other node kind bypasses
    /// the cache and reads through the backend directly.
    #[verifier::loop_isolation(false)]
    pub fn read_at(&mut self, m: &B::Medium, buf: &mut Vec<u8>, offset: u64, now: TimeSpec) -> (r:
        KResult<usize>)
        requires
            old(self).wf(),
            offset + old(buf)@.len() + PAGE_SIZE <= u64::MAX,
        ensures
            final(self).wf(),
            final(buf)@.len() == old(buf)@.len(),
            final(self)@.ino == old(self)@.ino,
            final(self)@.mode == old(self)@.mode,
            final(self)@.name == old(self)@.name,
            final(self)@.data_len == old(self)@.data_len,
            final(self).backend() == old(self).backend(),
            forall|i: int|
                content_byte(final(self)@.cache, old(self).bk(m), i) == content_byte(
                    old(self)@.cache,
                    old(self).bk(m),
                    i,
                ),
            offset >= old(self)@.data_len ==> r == Ok::<usize, KError>(0) && *final(self) == *old(self) && final(buf)@ == old(buf)@,
            (old(self)@.mode == InodeMode::Regular && offset < old(self)@.data_len) ==> {
                let n = clamp_count(
                    old(self)@.data_len as int,
                    offset as int,
                    old(buf)@.len() as int,
                );
                &&& (r matches Ok(cnt) ==> {
                    &&& cnt == n
                    &&& forall|j: int|
                        0 <= j < n ==> final(buf)@[j] == content_byte(
                            old(self)@.cache,
                            old(self).bk(m),
                            offset + j,
                        )
                    &&& forall|j: int| n <= j < old(buf)@.len() ==> final(buf)@[j] == old(buf)@[j]
                    &&& final(self)@.access_time == now
                    &&& final(self)@.modify_time == old(self)@.modify_time
                    &&& final(self)@.change_time == old(self)@.change_time
                })
                &&& (r is Err ==> final(self)@.access_time == old(self)@.access_time && final(self)@.modify_time == old(self)@.modify_time && final(self)@.change_time == old(self)@.change_time)
                &&& (pages_ready(old(self)@.cache, offset as int, n) ==> r is Ok)
            },
            (old(self)@.mode != InodeMode::Regular && offset < old(self)@.data_len) ==> {
                &&& *final(self) == *old(self)
                &&& (r matches Ok(cnt) ==> {
                    &&& cnt == clamp_count(
                        old(self).bk(m).len() as int,
                        offset as int,
                        old(buf)@.len() as int,
                    )
                    &&& forall|j: int|
                        0 <= j < old(buf)@.len() ==> final(buf)@[j] == backing_byte(
                            old(self).bk(m),
                            offset + j,
                        )
                })
            },
    {
        let ghost self0 = *self;
        let data_len = self.meta.inner.data_len;
        if offset >= data_len {
            return Ok(0);
        }
        if !(matches!(self.meta.mode, InodeMode::Regular)) {
            return self.inner.read_inode_at(m, buf, offset);
        }
        let buf_len = buf.len();
        let avail: u64 = data_len - offset;
        let read_end: usize = if (buf_len as u64) <= avail {
            buf_len
        } else {
            avail as usize
        };
        let ghost cache0 = self@.cache;
        let ghost bk0 = self.bk(m);
        let mut nread: usize = 0;
        while nread < read_end
            invariant
                self.wf(),
                read_end <= buf_len,
                buf_len == buf@.len(),
                buf_len == old(buf)@.len(),
                offset + buf_len + PAGE_SIZE <= u64::MAX,
                read_end as int == clamp_count(data_len as int, offset as int, buf_len as int),
                offset < data_len,
                nread <= read_end,
                meta_eq_except_cache(self@, self0@),
                self@.mode == InodeMode::Regular,
                self@.data_len == data_len,
                self.backend() == self0.backend(),
                cache0 == self0@.cache,
                bk0 == self0.bk(m),
                self.bk(m) == bk0,
                forall|i: int| content_byte(self@.cache, bk0, i) == content_byte(cache0, bk0, i),
                forall|q: u64|
                    #[trigger] cache0.contains_key(q) && cache0[q].state != PageState::Invalid
                        ==> self@.cache.contains_key(q) && self@.cache[q].state
                        != PageState::Invalid,
                forall|j: int| 0 <= j < nread ==> buf@[j] == content_byte(cache0, bk0, offset + j),
                forall|j: int| nread <= j < buf_len ==> buf@[j] == old(buf)@[j],
            decreases read_end - nread,
        {
            let cur: u64 = offset + nread as u64;
            proof {
                lemma_page_split(cur);
                lemma_page_start(cur);
            }
            let page_id: u64 = cur >> PAGE_SIZE_BITS;
            let page_off: usize = (cur & PAGE_OFFSET_MASK) as usize;
            let st = self.meta.page_cache.state_of(page_id);
            let needs = match st {
                Some(s) => matches!(s, PageState::Invalid),
                None => true,
            };
            let ghost cache_pre = self@.cache;
            if needs {
                match self.prepare_page(m, page_id, true) {
                    Ok(_) => {
                        proof {
                            assert forall|q: u64|
                                #[trigger] cache0.contains_key(q) && cache0[q].state
                                    != PageState::Invalid implies self@.cache.contains_key(q)
                                && self@.cache[q].state != PageState::Invalid by {
                                assert(cache_pre.contains_key(q) && cache_pre[q].state
                                    != PageState::Invalid);
                                if q != page_id {
                                    assert(self@.cache.contains_key(q) && self@.cache[q]
                                        == cache_pre[q]);
                                } else {
                                    assert(self@.cache.contains_key(q) && self@.cache[q].state
                                        != PageState::Invalid);
                                }
                            }
                        }
                    },
                    Err(e) => {
                        proof {
                            if pages_ready(cache0, offset as int, read_end as int) {
                                assert(cache0.contains_key(page_id_of(cur as int))
                                    && cache0[page_id_of(cur as int)].state != PageState::Invalid);
                                assert(false);
                            }
                        }
                        return Err(e);
                    },
                }
            }
            let rem_page: usize = PAGE_SIZE - page_off;
            let rem_req: usize = read_end - nread;
            let copy_len: usize = if rem_req <= rem_page {
                rem_req
            } else {
                rem_page
            };
            let ghost buf_pre = buf@;
            self.meta.page_cache.read_range(page_id, page_off, buf, nread, copy_len);
            proof {
                assert forall|j: int|
                    0 <= j < nread + copy_len implies buf@[j] == content_byte(
                    cache0,
                    bk0,
                    offset + j,
                ) by {
                    if nread <= j {
                        lemma_same_page(cur as int, j - nread);
                        lemma_page_id_fits(offset + j);
                        assert(buf@[j] == self@.cache[page_id].bytes[page_off + j - nread]);
                        assert(content_byte(self@.cache, bk0, offset + j) == self@.cache[
                            page_id].bytes[page_off + j - nread]);
                    }
                }
            }
            nread += copy_len;
        }
        self.meta.inner.access_time = now;
        Ok(nread)
    }
}

/// Bytes strictly below a page's start lie in strictly lower pages.
pub proof fn lemma_page_lt(i: int, pid: u64)
    requires
        0 <= i < pid * (PAGE_SIZE as int),
    ensures
        page_id_of(i) != pid,
{
    vstd::arithmetic::div_mod::lemma_fundamental_div_mod_converse(
        pid * (PAGE_SIZE as int) - 1,
        PAGE_SIZE as int,
        pid as int - 1,
        PAGE_SIZE as int - 1,
    );
    vstd::arithmetic::div_mod::lemma_div_is_ordered(
        i,
        pid * (PAGE_SIZE as int) - 1,
        PAGE_SIZE as int,
    );
    vstd::arithmetic::div_mod::lemma_div_pos_is_pos(i, PAGE_SIZE as int);
}

impl<B: BytesInodeBackend> Inode<B> {
    /// Writes `buf` at byte `offset`, returning how many bytes were written.
    ///
    /// For a regular node the engine walks the pages touched by the range.
    /// A page that already carries data is spliced in place; an `Invalid`
    /// page is first filled from the backend, but only when that read is
    /// needed — when the page lies at or before the file's current last page
    /// and the write does not cover it whole. Every touched page ends
    /// `Dirty`. Afterwards all three timestamps are stamped with `now`, and
    /// `data_len` grows to `offset + buf.len()` when the write ends past it
    /// (writes never shrink a file). The written range then reads back as
    /// exactly `buf`; every other readable byte, and every byte of an
    /// untouched or already-carrying page, is preserved. A fill failure
    /// aborts the call with size and timestamps unchanged; chunks already
    /// spliced remain, and the failing page stays `Invalid` for a later
    /// retry. Any other node kind writes through the backend directly.
    #[verifier::loop_isolation(false)]
    pub fn write_at(&mut self, m: &mut B::Medium, buf: &Vec<u8>, offset: u64, now: TimeSpec) -> (r:
        KResult<usize>)
        requires
            old(self).wf(),
            offset + buf@.len() + PAGE_SIZE <= u64::MAX,
        ensures
            final(self).wf(),
            final(self)@.ino == old(self)@.ino,
            final(self)@.mode == old(self)@.mode,
            final(self)@.name == old(self)@.name,
            final(self).backend() == old(self).backend(),
            old(self)@.mode == InodeMode::Regular ==> {
                let len = buf@.len() as int;
                let bk = old(self).bk(old(m));
                &&& *final(m) == *old(m)
                &&& (r matches Ok(cnt) ==> {
                    &&& cnt == buf@.len()
                    &&& final(self)@.data_len as int == (if offset + len > old(self)@.data_len {
                        offset + len
                    } else {
                        old(self)@.data_len as int
                    })
                    &&& forall|i: int|
                        offset <= i < offset + len ==> content_byte(final(self)@.cache, bk, i)
                            == buf@[i - offset]
                    &&& forall|i: int|
                        0 <= i < old(self)@.data_len && !(offset <= i < offset + len)
                            ==> content_byte(final(self)@.cache, bk, i) == content_byte(
                            old(self)@.cache,
                            bk,
                            i,
                        )
                    &&& forall|i: int|
                        0 <= i <= u64::MAX && !(offset <= i < offset + len) && old(
                            self,
                        )@.cache.contains_key(page_id_of(i)) && old(self)@.cache[page_id_of(
                            i,
                        )].state != PageState::Invalid ==> content_byte(final(self)@.cache, bk, i)
                            == content_byte(old(self)@.cache, bk, i)
                    &&& final(self)@.access_time == now
                    &&& final(self)@.modify_time == now
                    &&& final(self)@.change_time == now
                })
                &&& (r is Err ==> {
                    &&& final(self)@.data_len == old(self)@.data_len
                    &&& final(self)@.access_time == old(self)@.access_time
                    &&& final(self)@.modify_time == old(self)@.modify_time
                    &&& final(self)@.change_time == old(self)@.change_time
                    &&& forall|i: int|
                        0 <= i < old(self)@.data_len && !(offset <= i < offset + len)
                            ==> content_byte(final(self)@.cache, bk, i) == content_byte(
                            old(self)@.cache,
                            bk,
                            i,
                        )
                })
                &&& (write_ready(old(self)@.cache, old(self)@.data_len as int, offset as int, len)
                    ==> r is Ok)
            },
            old(self)@.mode != InodeMode::Regular ==> {
                &&& *final(self) == *old(self)
                &&& (r matches Ok(cnt) ==> {
                    &&& cnt == buf@.len()
                    &&& old(self).bk(final(m)).len() == (if offset + buf@.len() > old(self).bk(
                        old(m),
                    ).len() {
                        offset + buf@.len()
                    } else {
                        old(self).bk(old(m)).len() as int
                    })
                    &&& forall|i: int|
                        0 <= i < old(self).bk(final(m)).len() ==> old(self).bk(final(m))[i] == (
                        if offset <= i < offset + buf@.len() {
                            buf@[i - offset]
                        } else {
                            backing_byte(old(self).bk(old(m)), i)
                        })
                })
                &&& (r is Err ==> old(self).bk(final(m)) == old(self).bk(old(m)))
            },
    {
        let ghost self0 = *self;
        if !(matches!(self.meta.mode, InodeMode::Regular)) {
            return self.inner.write_inode_at(m, buf, offset);
        }
        let data_len = self.meta.inner.data_len;
        let curr_last: u64 = data_len >> PAGE_SIZE_BITS;
        proof {
            lemma_page_split(data_len);
        }
        let buf_len = buf.len();
        let ghost len = buf_len as int;
        let ghost cache0 = self@.cache;
        let ghost bk0 = self.bk(m);
        let mut nwrite: usize = 0;
        while nwrite < buf_len
            invariant
                self.wf(),
                buf_len == buf@.len(),
                offset + buf_len + PAGE_SIZE <= u64::MAX,
                nwrite <= buf_len,
                nwrite == 0 || nwrite == buf_len || (offset + nwrite) % (PAGE_SIZE as int) == 0,
                meta_eq_except_cache(self@, self0@),
                self@.mode == InodeMode::Regular,
                self@.data_len == data_len,
                self.backend() == self0.backend(),
                cache0 == self0@.cache,
                bk0 == self0.bk(m),
                self.bk(m) == bk0,
                *m == *old(m),
                curr_last == page_id_of(data_len as int),
                forall|i: int|
                    offset <= i < offset + nwrite ==> content_byte(self@.cache, bk0, i) == buf@[i
                        - offset],
                forall|i: int|
                    0 <= i < data_len && !(offset <= i < offset + len) ==> content_byte(
                        self@.cache,
                        bk0,
                        i,
                    ) == content_byte(cache0, bk0, i),
                forall|i: int|
                    0 <= i <= u64::MAX && !(offset <= i < offset + len) && cache0.contains_key(
                        page_id_of(i),
                    ) && cache0[page_id_of(i)].state != PageState::Invalid ==> content_byte(
                        self@.cache,
                        bk0,
                        i,
                    ) == content_byte(cache0, bk0, i),
                forall|q: u64|
                    #[trigger] cache0.contains_key(q) && cache0[q].state != PageState::Invalid
                        ==> self@.cache.contains_key(q) && self@.cache[q].state
                        != PageState::Invalid,
            decreases buf_len - nwrite,
        {
            let cur: u64 = offset + nwrite as u64;
            proof {
                lemma_page_split(cur);
                lemma_page_start(cur);
            }
            let page_id: u64 = cur >> PAGE_SIZE_BITS;
            let page_off: usize = (cur & PAGE_OFFSET_MASK) as usize;
            let page_start: u64 = page_id << PAGE_SIZE_BITS;
            let fully: bool = offset <= page_start && page_start + (PAGE_SIZE as u64) <= offset
                + (buf_len as u64);
            let st = self.meta.page_cache.state_of(page_id);
            let needs = match st {
                Some(s) => matches!(s, PageState::Invalid),
                None => true,
            };
            let ghost cache_pre = self@.cache;
            let ghost mut filled_now = false;
            if needs {
                let want_fill = page_id <= curr_last && !fully;
                match self.prepare_page(m, page_id, want_fill) {
                    Ok(f) => {
                        proof {
                            filled_now = f;
                        }
                    },
                    Err(e) => {
                        proof {
                            if write_ready(cache0, data_len as int, offset as int, len) {
                                assert(page_id_of(cur as int) > page_id_of(data_len as int)
                                    || page_fully_covered(page_id_of(cur as int), offset as int, len)
                                    || (cache0.contains_key(page_id_of(cur as int)) && cache0[
                                    page_id_of(cur as int)].state != PageState::Invalid));
                                assert(false);
                            }
                        }
                        return Err(e);
                    },
                }
            }
            let ghost cache_mid = self@.cache;
            let rem_page: usize = PAGE_SIZE - page_off;
            let rem_req: usize = buf_len - nwrite;
            let copy_len: usize = if rem_req <= rem_page {
                rem_req
            } else {
                rem_page
            };
            self.meta.page_cache.write_range(page_id, page_off, buf, nwrite, copy_len);
            proof {
                let cache_post = self@.cache;
                let pid = page_id;
                // Everything outside this page is untouched by the iteration.
                assert forall|i: int|
                    0 <= i <= u64::MAX && page_id_of(i) != pid implies content_byte(
                    cache_post,
                    bk0,
                    i,
                ) == content_byte(cache_pre, bk0, i) by {
                    lemma_page_id_fits(i);
                }
                // Within the chunk the page now holds the written bytes.
                assert forall|i: int|
                    cur <= i < cur + copy_len implies content_byte(cache_post, bk0, i) == buf@[i
                    - offset] by {
                    lemma_same_page(cur as int, i - cur);
                    lemma_page_id_fits(i);
                    assert(cache_post[pid].bytes[page_off + (i - cur)] == buf@[nwrite + (i
                        - cur)]);
                }
                // Bytes of this page outside the chunk keep their readable value.
                assert forall|i: int|
                    0 <= i <= u64::MAX && page_id_of(i) == pid && !(cur <= i < cur + copy_len)
                        && (i < data_len || (cache0.contains_key(pid) && cache0[pid].state
                        != PageState::Invalid)) implies content_byte(cache_post, bk0, i)
                    == content_byte(cache_pre, bk0, i) by {
                    lemma_page_id_fits(i);
                    assert(pid * (PAGE_SIZE as int) + page_off_of(i) == i);
                    let k = page_off_of(i);
                    assert(!(page_off <= k < page_off + copy_len));
                    if needs {
                        if filled_now {
                            assert(cache_mid[pid].bytes[k] == backing_byte(
                                bk0,
                                pid * (PAGE_SIZE as int) + k,
                            ));
                            assert(content_byte(cache_pre, bk0, i) == backing_byte(bk0, i));
                        } else {
                            // no fill was wanted: the page is fully covered or
                            // past the last page, and was never carrying data
                            if page_id <= curr_last && !fully {
                                assert(false);
                            }
                            if fully {
                                assert(offset <= pid * (PAGE_SIZE as int) && (pid + 1) * (
                                PAGE_SIZE as int) <= offset + len);
                                assert(cur <= i < cur + copy_len);
                                assert(false);
                            } else {
                                // the page lies past the file's last page
                                assert(page_id > curr_last);
                                if i < data_len {
                                    vstd::arithmetic::div_mod::lemma_div_is_ordered(
                                        i,
                                        data_len as int,
                                        PAGE_SIZE as int,
                                    );
                                    assert(false);
                                }
                                if cache0.contains_key(pid) && cache0[pid].state
                                    != PageState::Invalid {
                                    assert(cache_pre.contains_key(pid) && cache_pre[pid].state
                                        != PageState::Invalid);
                                    assert(false);
                                }
                            }
                        }
                    } else {
                        assert(cache_mid == cache_pre);
                        assert(cache_pre.contains_key(pid) && cache_pre[pid].state
                            != PageState::Invalid);
                        assert(content_byte(cache_pre, bk0, i) == cache_pre[pid].bytes[k]);
                        assert(cache_post[pid].bytes[k] == cache_pre[pid].bytes[k]);
                    }
                }
                // The prefix written by earlier iterations lies in lower pages.
                assert forall|i: int|
                    offset <= i < cur implies page_id_of(i) != pid by {
                    lemma_page_lt(i, pid);
                }
            }
            nwrite += copy_len;
            proof {
                if nwrite < buf_len {
                    assert((offset + nwrite) % (PAGE_SIZE as int) == 0) by {
                        assert(copy_len == PAGE_SIZE - page_off);
                        assert(offset + nwrite == (pid_plus_one_start(page_id)));
                        vstd::arithmetic::div_mod::lemma_mod_multiples_basic(
                            page_id as int + 1,
                            PAGE_SIZE as int,
                        );
                    }
                }
            }
        }
        self.meta.inner.access_time = now;
        self.meta.inner.modify_time = now;
        self.meta.inner.change_time = now;
        let end: u64 = offset + buf_len as u64;
        if self.meta.inner.data_len < end {
            self.meta.inner.data_len = end;
        }
        Ok(buf_len)
    }
}

/// The byte offset where the page after `pid` starts.
pub open spec fn pid_plus_one_start(pid: u64) -> int {
    (pid as int + 1) * (PAGE_SIZE as int)
}

/// Round-trip law: over any byte range, page-aligned or not, the bytes a
/// write lays down are exactly the bytes a subsequent read of the same range
/// copies back out. The premise is what `write_at` ensures of the written
/// range; the conclusion is the sequence `read_at` ensures it returns.
pub proof fn lemma_write_read_round_trip(
    cache: Map<u64, PageView>,
    backing: Seq<u8>,
    offset: int,
    data: Seq<u8>,
)
    requires
        forall|i: int|
            offset <= i < offset + data.len() ==> content_byte(cache, backing, i) == data[i
                - offset],
    ensures
        range_bytes(cache, backing, offset, data.len()) =~= data,
{
}

} // verus!
