//! The page cache: a lazily populated mapping from page index to one cached,
//! page-sized buffer with a fill state, plus the serialized fill protocol
//! that guarantees each page is loaded from the backing store at most once.

use vstd::prelude::*;
use std::collections::HashMap;
use crate::config::PAGE_SIZE;

verus! {

broadcast use vstd::std_specs::hash::group_hash_axioms;

/// Fill state of one cached page.
///
/// Transitions: `Invalid -> Synced` (lazy fill completes untouched),
/// `Invalid -> Dirty` (the page is written before or instead of a fill),
/// `Synced -> Dirty` (any write touches the page). No transition leaves
/// `Dirty` inside this core: write-back is out of scope.
#[derive(Clone, Copy, PartialEq, Eq, Structural, Debug)]
pub enum PageState {
    /// Never filled: the frame content is all zero and carries no data.
    Invalid,
    /// The frame matches the backing store.
    Synced,
    /// The frame was modified in memory and not yet written back.
    Dirty,
}

/// Mathematical model of one cached page: its state and its frame content.
pub struct PageView {
    pub state: PageState,
    pub bytes: Seq<u8>,
}

/// One cached page: a page-sized frame and its fill state.
pub struct BackedPage {
    frame: Vec<u8>,
    state: PageState,
}

impl BackedPage {
    /// The model of this page.
    pub closed spec fn view(&self) -> PageView {
        PageView { state: self.state, bytes: self.frame@ }
    }

    /// The frame is page-sized, and a page that was never filled holds zeros.
    pub closed spec fn wf(&self) -> bool {
        &&& self.frame@.len() == PAGE_SIZE
        &&& self.state == PageState::Invalid ==> self.frame@ =~= Seq::new(
            PAGE_SIZE as nat,
            |i: int| 0u8,
        )
    }

    /// A fresh page: state `Invalid`, frame zeroed.
    pub fn new() -> (r: BackedPage)
        ensures
            r.wf(),
            r@.state == PageState::Invalid,
    {
        let mut frame: Vec<u8> = Vec::new();
        let mut i: usize = 0;
        while i < PAGE_SIZE
            invariant
                i <= PAGE_SIZE,
                frame@.len() == i,
                forall|j: int| 0 <= j < i ==> frame@[j] == 0u8,
            decreases PAGE_SIZE - i,
        {
            frame.push(0u8);
            i += 1;
        }
        BackedPage { frame, state: PageState::Invalid }
    }

    /// The current fill state.
    pub fn state(&self) -> (r: PageState)
        ensures
            r == self@.state,
    {
        self.state
    }

    /// One byte of the frame.
    pub fn byte_at(&self, i: usize) -> (r: u8)
        requires
            i < self@.bytes.len(),
        ensures
            r == self@.bytes[i as int],
    {
        self.frame[i]
    }
}

/// Mapping from page index to cached page, created on demand and never
/// evicted within this core. Owned by exactly one inode.
pub struct PageCache {
    pages: HashMap<u64, BackedPage>,
}

impl PageCache {
    /// The model: which page indices are cached, and each page's model.
    pub closed spec fn view(&self) -> Map<u64, PageView> {
        Map::new(
            |k: u64| self.pages@.contains_key(k),
            |k: u64| self.pages@[k]@,
        )
    }

    pub closed spec fn wf(&self) -> bool {
        forall|k: u64| self.pages@.contains_key(k) ==> (#[trigger] self.pages@[k]).wf()
    }

    /// An empty cache.
    pub fn new() -> (r: PageCache)
        ensures
            r.wf(),
            r@ =~= Map::<u64, PageView>::empty(),
    {
        PageCache { pages: HashMap::new() }
    }

    /// Returns the cached page for `page_id` without creating one.
    pub fn get(&self, page_id: u64) -> (r: Option<&BackedPage>)
        requires
            self.wf(),
        ensures
            match r {
                Some(p) => self@.contains_key(page_id) && p@ == self@[page_id] && p.wf(),
                None => !self@.contains_key(page_id),
            },
    {
        self.pages.get(&page_id)
    }

    /// The fill state of the cached page for `page_id`, if one exists.
    pub fn state_of(&self, page_id: u64) -> (r: Option<PageState>)
        requires
            self.wf(),
        ensures
            match r {
                Some(s) => self@.contains_key(page_id) && s == self@[page_id].state,
                None => !self@.contains_key(page_id),
            },
    {
        match self.pages.get(&page_id) {
            Some(p) => Some(p.state()),
            None => None,
        }
    }

    /// Inserts a fresh `Invalid` page for `page_id` if none is cached;
    /// otherwise leaves the existing page untouched (idempotent).
    pub fn create(&mut self, page_id: u64)
        requires
            old(self).wf(),
        ensures
            final(self).wf(),
            old(self)@.contains_key(page_id) ==> final(self)@ =~= old(self)@,
            !old(self)@.contains_key(page_id) ==> final(self)@ =~= old(self)@.insert(
                page_id,
                PageView { state: PageState::Invalid, bytes: Seq::new(PAGE_SIZE as nat, |i: int| 0u8) },
            ),
    {
        if !self.pages.contains_key(&page_id) {
            self.pages.insert(page_id, BackedPage::new());
        }
    }

    /// Installs freshly loaded content for `page_id`, leaving it in state
    /// `st`. Used for the `Invalid -> Synced` and `Invalid -> Dirty`
    /// transitions once a fill has fully succeeded.
    pub fn install(&mut self, page_id: u64, bytes: Vec<u8>, st: PageState)
        requires
            old(self).wf(),
            old(self)@.contains_key(page_id),
            bytes@.len() == PAGE_SIZE,
            st != PageState::Invalid,
        ensures
            final(self).wf(),
            final(self)@ =~= old(self)@.insert(page_id, PageView { state: st, bytes: bytes@ }),
    {
        self.pages.insert(page_id, BackedPage { frame: bytes, state: st });
    }

    /// Copies `n` bytes out of the cached page for `page_id`, starting at
    /// `page_off` within the page, into `dst[dst_start..dst_start + n]`.
    pub fn read_range(
        &self,
        page_id: u64,
        page_off: usize,
        dst: &mut Vec<u8>,
        dst_start: usize,
        n: usize,
    )
        requires
            self.wf(),
            self@.contains_key(page_id),
            page_off + n <= PAGE_SIZE,
            dst_start + n <= old(dst)@.len(),
        ensures
            final(dst)@.len() == old(dst)@.len(),
            forall|j: int|
                dst_start <= j < dst_start + n ==> final(dst)@[j] == self@[page_id].bytes[page_off
                    + j - dst_start],
            forall|j: int|
                0 <= j < old(dst)@.len() && !(dst_start <= j < dst_start + n) ==> final(dst)@[j]
                    == old(dst)@[j],
    {
        let page = self.pages.get(&page_id).unwrap();
        let dst_len = dst.len();
        let mut j: usize = 0;
        while j < n
            invariant
                j <= n,
                page_off + n <= PAGE_SIZE,
                dst_start + n <= dst_len,
                dst_len == dst@.len(),
                page.wf(),
                page@ == self@[page_id],
                dst@.len() == old(dst)@.len(),
                forall|k: int|
                    dst_start <= k < dst_start + j ==> dst@[k] == self@[page_id].bytes[page_off + k
                        - dst_start],
                forall|k: int|
                    0 <= k < old(dst)@.len() && !(dst_start <= k < dst_start + j) ==> dst@[k]
                        == old(dst)@[k],
            decreases n - j,
        {
            let b = page.byte_at(page_off + j);
            dst[dst_start + j] = b;
            j += 1;
        }
    }

    /// Splices `src[src_start..src_start + n]` into the cached page for
    /// `page_id` at `page_off`, and marks the page `Dirty`. Bytes of the page
    /// outside the written sub-range are preserved.
    pub fn write_range(
        &mut self,
        page_id: u64,
        page_off: usize,
        src: &Vec<u8>,
        src_start: usize,
        n: usize,
    )
        requires
            old(self).wf(),
            old(self)@.contains_key(page_id),
            page_off + n <= PAGE_SIZE,
            src_start + n <= src@.len(),
        ensures
            final(self).wf(),
            final(self)@.dom() =~= old(self)@.dom(),
            final(self)@[page_id].state == PageState::Dirty,
            final(self)@[page_id].bytes.len() == PAGE_SIZE,
            forall|k: int|
                page_off <= k < page_off + n ==> final(self)@[page_id].bytes[k] == src@[src_start
                    + k - page_off],
            forall|k: int|
                0 <= k < PAGE_SIZE && !(page_off <= k < page_off + n)
                    ==> final(self)@[page_id].bytes[k] == old(self)@[page_id].bytes[k],
            forall|q: u64|
                q != page_id && old(self)@.contains_key(q) ==> final(self)@[q] == old(self)@[q],
    {
        let p = self.pages.remove(&page_id).unwrap();
        let BackedPage { mut frame, state: _ } = p;
        let ghost frame0 = frame@;
        let src_len = src.len();
        let mut j: usize = 0;
        while j < n
            invariant
                j <= n,
                page_off + n <= PAGE_SIZE,
                src_start + n <= src_len,
                src_len == src@.len(),
                frame@.len() == frame0.len(),
                frame0.len() == PAGE_SIZE,
                forall|k: int|
                    page_off <= k < page_off + j ==> frame@[k] == src@[src_start + k - page_off],
                forall|k: int|
                    0 <= k < PAGE_SIZE && !(page_off <= k < page_off + j) ==> frame@[k]
                        == frame0[k],
            decreases n - j,
        {
            frame[page_off + j] = src[src_start + j];
            j += 1;
        }
        self.pages.insert(page_id, BackedPage { frame, state: PageState::Dirty });
    }
}

/// The fill states found by a sequence of callers racing to load the same
/// page, each observed at the moment that caller acquires the page's fill
/// guard, in guard order. The double-checked protocol makes each holder
/// re-read the state under the guard, fill only if it is still `Invalid`, and
/// leave a non-`Invalid` state behind; a holder that finds the page already
/// filled changes nothing.
pub open spec fn visits_serialized(sts: Seq<PageState>) -> bool
    decreases sts.len(),
{
    if sts.len() <= 1 {
        true
    } else {
        &&& if sts[0] == PageState::Invalid {
            sts[1] != PageState::Invalid
        } else {
            sts[1] == sts[0]
        }
        &&& visits_serialized(sts.drop_first())
    }
}

/// How many of the racing callers perform the backend fill: exactly those
/// that find the page still `Invalid` under the guard.
pub open spec fn fills_among(sts: Seq<PageState>) -> int
    decreases sts.len(),
{
    if sts.len() == 0 {
        0
    } else {
        (if sts[0] == PageState::Invalid {
            1int
        } else {
            0int
        }) + fills_among(sts.drop_first())
    }
}

/// Load-once law: any number of callers racing on the same `Invalid` page,
/// serialized by its fill guard, perform exactly one backend fill between
/// them; on a page already filled, none does.
pub proof fn lemma_load_once(sts: Seq<PageState>)
    requires
        visits_serialized(sts),
    ensures
        sts.len() > 0 && sts[0] == PageState::Invalid ==> fills_among(sts) == 1,
        sts.len() == 0 || sts[0] != PageState::Invalid ==> fills_among(sts) == 0,
    decreases sts.len(),
{
    if sts.len() == 0 {
    } else if sts.len() == 1 {
        assert(fills_among(sts.drop_first()) == 0);
    } else {
        assert(sts.drop_first()[0] == sts[1]);
        lemma_load_once(sts.drop_first());
    }
}

} // verus!
