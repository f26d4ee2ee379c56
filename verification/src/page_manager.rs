//! The buffer pool: caches up to `max_num_pages` page frames, loads pages
//! on miss, evicts the least recently used unpinned frame, and never evicts
//! a page a client still holds. The pool itself does no file work: a miss
//! is answered with `Missing` and the embedding program hands the loaded
//! bytes back through `insert_page`; an eviction hands the victim's bytes
//! out for the program to persist.

use vstd::prelude::*;

use std::collections::HashMap;

use crate::disk_manager::DiskManager;
use crate::errors::StorageError;
use crate::page::{Page, PageId, PAGE_SIZE_BYTES};
use crate::usage_tracker::UsageTracker;

verus! {

broadcast use vstd::std_specs::hash::group_hash_axioms, vstd::std_specs::vec::group_vec_axioms;

/// One cached page with the number of outstanding client pins.
struct Frame {
    page: Page,
    pin_count: u64,
}

/// A frame put out of the cache by eviction; the caller persists its bytes.
pub struct EvictedPage {
    pub page_id: PageId,
    pub data: Vec<u8>,
    pub is_dirty: bool,
}

/// The answer to a page request: either the page is cached and now pinned,
/// or the caller must load its bytes and hand them to `insert_page`.
#[derive(Clone, Copy, Debug, PartialEq, Eq, Structural)]
pub enum FindPage {
    Cached,
    Missing,
}

/// The zeroed contents of a never-written page.
pub open spec fn spec_zero_page() -> Seq<u8> {
    Seq::new(PAGE_SIZE_BYTES as nat, |i: int| 0u8)
}

pub struct PageManager {
    disk_manager: DiskManager,
    usage_tracker: UsageTracker,
    pages: HashMap<PageId, Frame>,
    empty_pages: Vec<PageId>,
    max_num_pages: usize,
}

impl PageManager {
    /// The disk bookkeeper the pool allocates through.
    pub closed spec fn spec_disk(&self) -> DiskManager {
        self.disk_manager
    }

    /// The recency stamps of the cached pages.
    pub closed spec fn spec_lru(&self) -> Map<PageId, u64> {
        self.usage_tracker.model()
    }

    /// How many recency stamps have been drawn.
    pub closed spec fn spec_clock(&self) -> u64 {
        self.usage_tracker.spec_clock()
    }

    /// Whether `id` is cached.
    pub closed spec fn spec_cached(&self, id: PageId) -> bool {
        self.pages@.dom().contains(id)
    }

    /// The set of cached page ids.
    pub closed spec fn spec_cached_set(&self) -> Set<PageId> {
        self.pages@.dom()
    }

    /// How many clients hold `id`.
    pub closed spec fn spec_pins(&self, id: PageId) -> u64 {
        self.pages@[id].pin_count
    }

    /// The bytes of the cached frame of `id`.
    pub closed spec fn spec_page_data(&self, id: PageId) -> Seq<u8> {
        self.pages@[id].page.data@
    }

    /// The dirty bit of the cached frame of `id`.
    pub closed spec fn spec_page_dirty(&self, id: PageId) -> bool {
        self.pages@[id].page.is_dirty
    }

    /// The ids of allocated pages not yet handed to a client.
    pub closed spec fn spec_empty_pages(&self) -> Seq<PageId> {
        self.empty_pages@
    }

    /// The cache capacity in frames.
    pub closed spec fn spec_max(&self) -> nat {
        self.max_num_pages as nat
    }

    /// Whether the frame of `id` is the same in `other`, with the same
    /// pins, bytes and dirty bit.
    pub open spec fn frame_same(&self, other: &PageManager, id: PageId) -> bool {
        &&& other.spec_cached(id) == self.spec_cached(id)
        &&& other.spec_pins(id) == self.spec_pins(id)
        &&& other.spec_page_data(id) == self.spec_page_data(id)
        &&& other.spec_page_dirty(id) == self.spec_page_dirty(id)
        &&& other.spec_frame_page_id(id) == self.spec_frame_page_id(id)
    }

    /// Whether `other` is observably the same pool state as `self`.
    pub open spec fn state_same(&self, other: &PageManager) -> bool {
        &&& forall|j: PageId| #[trigger] self.frame_same(other, j)
        &&& other.spec_cached_set() == self.spec_cached_set()
        &&& other.spec_lru() == self.spec_lru()
        &&& other.spec_clock() == self.spec_clock()
        &&& other.spec_empty_pages() == self.spec_empty_pages()
        &&& other.spec_disk() == self.spec_disk()
        &&& other.spec_max() == self.spec_max()
    }

    /// The tracker's own well-formedness.
    pub closed spec fn spec_tracker_wf(&self) -> bool {
        self.usage_tracker.wf()
    }

    /// The id recorded inside the cached frame of `id`.
    pub closed spec fn spec_frame_page_id(&self, id: PageId) -> PageId {
        self.pages@[id].page.page_id
    }

    /// Conservation: never more frames than the capacity; the tracker
    /// tracks exactly the cached pages; every cached frame is page-sized,
    /// carries its own id, and is known to the disk bookkeeper; every
    /// not-yet-used page id is known to the disk bookkeeper.
    pub open spec fn wf(&self) -> bool {
        &&& self.spec_disk().wf()
        &&& self.spec_tracker_wf()
        &&& self.spec_cached_set().finite()
        &&& self.spec_cached_set().len() <= self.spec_max()
        &&& self.spec_lru().dom() == self.spec_cached_set()
        &&& forall|id: PageId|
            #[trigger] self.spec_cached(id) ==> self.spec_page_data(id).len() == PAGE_SIZE_BYTES
                && self.spec_frame_page_id(id) == id
                && self.spec_disk().spec_page_map().dom().contains(id)
        &&& forall|i: int|
            0 <= i < self.spec_empty_pages().len()
                ==> self.spec_disk().spec_page_map().dom().contains(
                #[trigger] self.spec_empty_pages()[i],
            )
    }

    /// A pool observably unchanged from a well-formed one is well-formed.
    proof fn lemma_wf_from_same(pre: &PageManager, post: &PageManager)
        requires
            pre.wf(),
            pre.state_same(post),
        ensures
            post.wf(),
    {
        assert forall|j: PageId| #[trigger] post.spec_cached(j) implies post.spec_page_data(
            j,
        ).len() == PAGE_SIZE_BYTES && post.spec_frame_page_id(j) == j
            && post.spec_disk().spec_page_map().dom().contains(j) by {
            assert(pre.frame_same(post, j));
            assert(pre.spec_cached(j));
        }
        assert forall|i: int| 0 <= i < post.spec_empty_pages().len() implies post.spec_disk(
        ).spec_page_map().dom().contains(#[trigger] post.spec_empty_pages()[i]) by {
            assert(pre.spec_disk().spec_page_map().dom().contains(pre.spec_empty_pages()[i]));
        }
    }

    /// Law: per-page caching agrees with the cached-set view, so callers
    /// can move between membership facts and set facts.
    pub proof fn lemma_cached_set_membership(self, id: PageId)
        ensures
            self.spec_cached(id) <==> self.spec_cached_set().contains(id),
    {
    }

    pub fn new(max_num_pages: usize, base_directory: &str) -> (r: PageManager)
        ensures
            r.wf(),
            r.spec_cached_set() == Set::<PageId>::empty(),
            r.spec_empty_pages() == Seq::<PageId>::empty(),
            r.spec_max() == max_num_pages,
            r.spec_clock() == 0,
            r.spec_disk().spec_next_page_id() == 0,
            r.spec_disk().spec_page_map() == Map::<PageId, crate::disk_manager::DiskEntry>::empty(),
            r.spec_disk().spec_base_directory() == base_directory@,
    {
        let r = PageManager {
            disk_manager: DiskManager::new(base_directory),
            usage_tracker: UsageTracker::new(),
            pages: HashMap::new(),
            empty_pages: Vec::new(),
            max_num_pages,
        };
        proof {
            assert(r.spec_cached_set() =~= Set::<PageId>::empty());
        }
        r
    }

    /// Read-only access to the disk bookkeeper, for the embedding program
    /// to resolve page locations.
    pub fn disk(&self) -> (r: &DiskManager)
        ensures
            *r == self.spec_disk(),
    {
        &self.disk_manager
    }

    /// How many recency stamps have been drawn so far.
    pub fn stamps_drawn(&self) -> (r: u64)
        ensures
            r == self.spec_clock(),
    {
        self.usage_tracker.stamps_drawn()
    }

    /// How many frames are cached.
    pub fn num_cached_pages(&self) -> (r: usize)
        requires
            self.wf(),
        ensures
            r == self.spec_cached_set().len(),
    {
        self.pages.len()
    }

    /// How many pages the usage tracker currently orders.
    pub fn num_tracked_pages(&self) -> (r: usize)
        requires
            self.wf(),
        ensures
            r == self.spec_lru().len(),
    {
        self.usage_tracker.len()
    }

    /// How many allocated pages have not yet been handed out.
    pub fn num_empty_pages(&self) -> (r: usize)
        ensures
            r == self.spec_empty_pages().len(),
    {
        self.empty_pages.len()
    }

    /// The least recently used cached page: the next eviction candidate.
    pub fn peek_lru(&self) -> (r: Option<PageId>)
        requires
            self.wf(),
        ensures
            match r {
                Some(id) => self.spec_cached(id) && forall|b: PageId|
                    self.spec_cached(b) && b != id ==> self.spec_lru()[b] < self.spec_lru()[id],
                None => self.spec_cached_set() == Set::<PageId>::empty(),
            },
    {
        self.usage_tracker.peek_lru()
    }

    /// How many clients hold `page_id`; `None` when it is not cached.
    pub fn pin_count(&self, page_id: PageId) -> (r: Option<u64>)
        requires
            self.wf(),
        ensures
            match r {
                Some(n) => self.spec_cached(page_id) && n == self.spec_pins(page_id),
                None => !self.spec_cached(page_id),
            },
    {
        match self.pages.get(&page_id) {
            Some(frame) => Some(frame.pin_count),
            None => None,
        }
    }

    /// Shared access to the cached frame of `page_id`.
    pub fn read_page(&self, page_id: PageId) -> (r: Result<&Page, StorageError>)
        requires
            self.wf(),
        ensures
            match r {
                Ok(p) => {
                    &&& self.spec_cached(page_id)
                    &&& p.data@ == self.spec_page_data(page_id)
                    &&& p.is_dirty == self.spec_page_dirty(page_id)
                    &&& p.page_id == page_id
                },
                Err(e) => e == StorageError::UnknownPageId && !self.spec_cached(page_id),
            },
    {
        match self.pages.get(&page_id) {
            Some(frame) => Ok(&frame.page),
            None => Err(StorageError::UnknownPageId),
        }
    }

    /// Replaces the bytes of the cached frame of `page_id` with `page`,
    /// keeping its pins. This is how a writer checks its work back in.
    pub fn update_page(&mut self, page_id: PageId, page: Page) -> (r: Result<(), StorageError>)
        requires
            old(self).wf(),
            page.page_id == page_id,
            page.data@.len() == PAGE_SIZE_BYTES,
        ensures
            final(self).wf(),
            match r {
                Ok(_) => {
                    &&& old(self).spec_cached(page_id)
                    &&& final(self).spec_cached_set() == old(self).spec_cached_set()
                    &&& final(self).spec_page_data(page_id) == page.data@
                    &&& final(self).spec_page_dirty(page_id) == page.is_dirty
                    &&& final(self).spec_pins(page_id) == old(self).spec_pins(page_id)
                    &&& forall|j: PageId|
                        j != page_id ==> #[trigger] old(self).frame_same(final(self), j)
                    &&& final(self).spec_lru() == old(self).spec_lru()
                    &&& final(self).spec_clock() == old(self).spec_clock()
                    &&& final(self).spec_empty_pages() == old(self).spec_empty_pages()
                    &&& final(self).spec_disk() == old(self).spec_disk()
                },
                Err(e) => {
                    &&& e == StorageError::UnknownPageId
                    &&& !old(self).spec_cached(page_id)
                    &&& old(self).state_same(final(self))
                },
            },
    {
        let ghost m0 = self.pages@;
        match self.pages.remove(&page_id) {
            Some(frame) => {
                self.pages.insert(page_id, Frame { page, pin_count: frame.pin_count });
                proof {
                    assert(self.spec_cached_set() =~= old(self).spec_cached_set());
                    assert forall|j: PageId| #[trigger] self.spec_cached(j) implies
                        self.spec_page_data(j).len() == PAGE_SIZE_BYTES && self.spec_frame_page_id(
                        j,
                    ) == j && self.spec_disk().spec_page_map().dom().contains(j) by {
                        assert(old(self).spec_cached(j));
                        if j != page_id {
                            assert(self.pages@[j] == m0[j]);
                        }
                    }
                    assert forall|i: int|
                        0 <= i < self.spec_empty_pages().len() implies self.spec_disk(
                    ).spec_page_map().dom().contains(#[trigger] self.spec_empty_pages()[i]) by {
                        assert(old(self).spec_disk().spec_page_map().dom().contains(
                            old(self).spec_empty_pages()[i],
                        ));
                    }
                }
                Ok(())
            },
            None => {
                proof {
                    assert(self.pages@ =~= m0);
                    assert(old(self).state_same(self));
                    PageManager::lemma_wf_from_same(old(self), self);
                }
                Err(StorageError::UnknownPageId)
            },
        }
    }

    /// Releases one pin of `page_id`; a frame with no pins is unchanged.
    pub fn unpin(&mut self, page_id: PageId) -> (r: Result<(), StorageError>)
        requires
            old(self).wf(),
        ensures
            final(self).wf(),
            match r {
                Ok(_) => {
                    &&& old(self).spec_cached(page_id)
                    &&& final(self).spec_cached_set() == old(self).spec_cached_set()
                    &&& final(self).spec_pins(page_id) == (if old(self).spec_pins(page_id) > 0 {
                        old(self).spec_pins(page_id) - 1
                    } else {
                        0
                    })
                    &&& final(self).spec_page_data(page_id) == old(self).spec_page_data(page_id)
                    &&& final(self).spec_page_dirty(page_id) == old(self).spec_page_dirty(page_id)
                    &&& forall|j: PageId|
                        j != page_id ==> #[trigger] old(self).frame_same(final(self), j)
                    &&& final(self).spec_lru() == old(self).spec_lru()
                    &&& final(self).spec_clock() == old(self).spec_clock()
                    &&& final(self).spec_empty_pages() == old(self).spec_empty_pages()
                    &&& final(self).spec_disk() == old(self).spec_disk()
                },
                Err(e) => {
                    &&& e == StorageError::UnknownPageId
                    &&& !old(self).spec_cached(page_id)
                    &&& old(self).state_same(final(self))
                },
            },
    {
        let ghost m0 = self.pages@;
        match self.pages.remove(&page_id) {
            Some(frame) => {
                let pins: u64 = if frame.pin_count > 0 {
                    frame.pin_count - 1
                } else {
                    0
                };
                self.pages.insert(page_id, Frame { page: frame.page, pin_count: pins });
                proof {
                    assert(self.spec_cached_set() =~= old(self).spec_cached_set());
                    assert forall|j: PageId| #[trigger] self.spec_cached(j) implies
                        self.spec_page_data(j).len() == PAGE_SIZE_BYTES && self.spec_frame_page_id(
                        j,
                    ) == j && self.spec_disk().spec_page_map().dom().contains(j) by {
                        assert(old(self).spec_cached(j));
                        if j != page_id {
                            assert(self.pages@[j] == m0[j]);
                        }
                    }
                    assert forall|i: int|
                        0 <= i < self.spec_empty_pages().len() implies self.spec_disk(
                    ).spec_page_map().dom().contains(#[trigger] self.spec_empty_pages()[i]) by {
                        assert(old(self).spec_disk().spec_page_map().dom().contains(
                            old(self).spec_empty_pages()[i],
                        ));
                    }
                }
                Ok(())
            },
            None => {
                proof {
                    assert(self.pages@ =~= m0);
                    assert(old(self).state_same(self));
                    PageManager::lemma_wf_from_same(old(self), self);
                }
                Err(StorageError::UnknownPageId)
            },
        }
    }
}


impl PageManager {
    /// Puts pages an eviction scan popped and skipped back into the
    /// tracker under their old stamps, so the tracker again holds exactly
    /// `target`.
    fn reinsert_stash(
        &mut self,
        stash_ids: &Vec<PageId>,
        stash_prios: &Vec<u64>,
        Ghost(target): Ghost<Map<PageId, u64>>,
    )
        requires
            old(self).usage_tracker.wf(),
            stash_ids@.len() == stash_prios@.len(),
            forall|k1: int, k2: int|
                #![trigger stash_ids@[k1], stash_ids@[k2]]
                0 <= k1 < k2 < stash_ids@.len() ==> stash_ids@[k1] != stash_ids@[k2],
            forall|k: int|
                #![trigger stash_ids@[k]]
                0 <= k < stash_ids@.len() ==> target.contains_pair(stash_ids@[k], stash_prios@[k]),
            old(self).usage_tracker.model() == target.remove_keys(stash_ids@.to_set()),
            forall|a: PageId, b: PageId|
                target.dom().contains(a) && target.dom().contains(b) && a != b ==> target[a]
                    != target[b],
            forall|j: PageId|
                target.dom().contains(j) ==> u64::MAX - old(self).usage_tracker.spec_clock()
                    < #[trigger] target[j],
            target.dom().finite(),
        ensures
            final(self).usage_tracker.wf(),
            final(self).usage_tracker.model() == target,
            final(self).usage_tracker.spec_clock() == old(self).usage_tracker.spec_clock(),
            final(self).pages == old(self).pages,
            final(self).empty_pages == old(self).empty_pages,
            final(self).disk_manager == old(self).disk_manager,
            final(self).max_num_pages == old(self).max_num_pages,
    {
        proof {
            assert(stash_ids@.skip(0) =~= stash_ids@);
        }
        let mut k: usize = 0;
        while k < stash_ids.len()
            invariant
                k <= stash_ids@.len(),
                stash_ids@.len() == stash_prios@.len(),
                forall|k1: int, k2: int|
                    #![trigger stash_ids@[k1], stash_ids@[k2]]
                    0 <= k1 < k2 < stash_ids@.len() ==> stash_ids@[k1] != stash_ids@[k2],
                forall|kk: int|
                    #![trigger stash_ids@[kk]]
                    0 <= kk < stash_ids@.len() ==> target.contains_pair(
                        stash_ids@[kk],
                        stash_prios@[kk],
                    ),
                forall|a: PageId, b: PageId|
                    target.dom().contains(a) && target.dom().contains(b) && a != b ==> target[a]
                        != target[b],
                forall|j: PageId|
                    target.dom().contains(j) ==> u64::MAX - self.usage_tracker.spec_clock()
                        < #[trigger] target[j],
                target.dom().finite(),
                self.usage_tracker.wf(),
                self.usage_tracker.spec_clock() == old(self).usage_tracker.spec_clock(),
                self.usage_tracker.model() == target.remove_keys(
                    stash_ids@.skip(k as int).to_set(),
                ),
                self.pages == old(self).pages,
                self.empty_pages == old(self).empty_pages,
                self.disk_manager == old(self).disk_manager,
                self.max_num_pages == old(self).max_num_pages,
            decreases stash_ids@.len() - k,
        {
            let id = stash_ids[k];
            let prio = stash_prios[k];
            proof {
                assert(stash_ids@.skip(k as int)[0] == id);
                assert(stash_ids@.skip(k as int).contains(id));
                assert(stash_ids@.skip(k as int).to_set().contains(id));
                assert(!self.usage_tracker.model().dom().contains(id));
                assert(target.contains_pair(id, prio));
                assert forall|b: PageId| self.usage_tracker.model().dom().contains(b) implies
                    self.usage_tracker.model()[b] != prio by {
                    assert(target.dom().contains(b));
                    assert(b != id);
                }
            }
            self.usage_tracker.reinsert(id, prio);
            proof {
                assert forall|x: PageId| stash_ids@.skip(k as int).contains(x) <==> (x == id
                    || stash_ids@.skip(k as int + 1).contains(x)) by {
                    if stash_ids@.skip(k as int).contains(x) {
                        let j = choose|j: int|
                            #![trigger stash_ids@.skip(k as int)[j]]
                            0 <= j < stash_ids@.skip(k as int).len() && stash_ids@.skip(
                                k as int,
                            )[j] == x;
                        if j > 0 {
                            assert(stash_ids@.skip(k as int + 1)[j - 1] == x);
                        }
                    }
                    if x == id {
                        assert(stash_ids@.skip(k as int)[0] == x);
                    }
                    if stash_ids@.skip(k as int + 1).contains(x) {
                        let j = choose|j: int|
                            #![trigger stash_ids@.skip(k as int + 1)[j]]
                            0 <= j < stash_ids@.skip(k as int + 1).len() && stash_ids@.skip(
                                k as int + 1,
                            )[j] == x;
                        assert(stash_ids@.skip(k as int)[j + 1] == x);
                    }
                }
                assert(self.usage_tracker.model() =~= target.remove_keys(
                    stash_ids@.skip(k as int + 1).to_set(),
                ));
            }
            k = k + 1;
        }
        proof {
            assert(stash_ids@.skip(stash_ids@.len() as int).to_set() =~= Set::<PageId>::empty());
            assert(self.usage_tracker.model() =~= target);
        }
    }

    /// Scans from the least recently used page toward newer ones, removes
    /// the first frame that no client holds, and returns its bytes for the
    /// caller to persist; pages the scan skipped keep their stamps. Fails
    /// with `AllPagesPinned` when every cached frame is held.
    fn evict_next_page(&mut self) -> (r: Result<EvictedPage, StorageError>)
        requires
            old(self).wf(),
        ensures
            final(self).wf(),
            final(self).spec_clock() == old(self).spec_clock(),
            final(self).spec_empty_pages() == old(self).spec_empty_pages(),
            final(self).spec_disk() == old(self).spec_disk(),
            final(self).spec_max() == old(self).spec_max(),
            match r {
                Ok(ev) => {
                    &&& old(self).spec_cached(ev.page_id)
                    &&& old(self).spec_pins(ev.page_id) == 0
                    &&& forall|j: PageId|
                        old(self).spec_cached(j) && old(self).spec_lru()[j] > old(self).spec_lru()[
                        ev.page_id] ==> old(self).spec_pins(j) > 0
                    &&& final(self).spec_cached_set() == old(self).spec_cached_set().remove(
                        ev.page_id,
                    )
                    &&& final(self).spec_lru() == old(self).spec_lru().remove(ev.page_id)
                    &&& forall|j: PageId|
                        j != ev.page_id ==> #[trigger] old(self).frame_same(final(self), j)
                    &&& ev.data@ == old(self).spec_page_data(ev.page_id)
                    &&& ev.is_dirty == old(self).spec_page_dirty(ev.page_id)
                },
                Err(e) => {
                    &&& e == StorageError::AllPagesPinned
                    &&& forall|j: PageId|
                        old(self).spec_cached(j) ==> old(self).spec_pins(j) > 0
                    &&& old(self).state_same(final(self))
                },
            },
    {
        let ghost lru0 = self.usage_tracker.model();
        let ghost m0 = self.pages@;

        let mut stash_ids: Vec<PageId> = Vec::new();
        let mut stash_prios: Vec<u64> = Vec::new();

        loop
            invariant
                old(self).wf(),
                lru0 == old(self).spec_lru(),
                m0 == old(self).pages@,
                self.pages == old(self).pages,
                self.empty_pages == old(self).empty_pages,
                self.disk_manager == old(self).disk_manager,
                self.max_num_pages == old(self).max_num_pages,
                self.usage_tracker.wf(),
                self.usage_tracker.spec_clock() == old(self).spec_clock(),
                stash_ids@.len() == stash_prios@.len(),
                forall|k: int|
                    #![trigger stash_ids@[k]]
                    0 <= k < stash_ids@.len() ==> lru0.contains_pair(
                        stash_ids@[k],
                        stash_prios@[k],
                    ) && m0[stash_ids@[k]].pin_count > 0,
                forall|k1: int, k2: int|
                    #![trigger stash_ids@[k1], stash_ids@[k2]]
                    0 <= k1 < k2 < stash_ids@.len() ==> stash_ids@[k1] != stash_ids@[k2],
                self.usage_tracker.model() == lru0.remove_keys(stash_ids@.to_set()),
                forall|j: PageId, k: int|
                    #![trigger self.usage_tracker.model()[j], stash_prios@[k]]
                    self.usage_tracker.model().dom().contains(j) && 0 <= k < stash_prios@.len()
                        ==> self.usage_tracker.model()[j] < stash_prios@[k],
            decreases self.usage_tracker.model().len(),
        {
            let ghost model_pre = self.usage_tracker.model();
            let popped = self.usage_tracker.pop_oldest();
            match popped {
                None => {
                    proof {
                        assert forall|j: PageId| old(self).spec_cached(j) implies old(
                            self,
                        ).spec_pins(j) > 0 by {
                            assert(lru0.dom().contains(j));
                            assert(!self.usage_tracker.model().dom().contains(j));
                            assert(stash_ids@.to_set().contains(j));
                            let k = choose|k: int|
                                #![trigger stash_ids@[k]]
                                0 <= k < stash_ids@.len() && stash_ids@[k] == j;
                            assert(m0[stash_ids@[k]].pin_count > 0);
                        }
                    }
                    self.reinsert_stash(&stash_ids, &stash_prios, Ghost(lru0));
                    proof {
                        assert(old(self).state_same(self));
                        PageManager::lemma_wf_from_same(old(self), self);
                    }
                    return Err(StorageError::AllPagesPinned);
                },
                Some((id, prio)) => {
                    proof {
                        assert(lru0.contains_pair(id, prio));
                        assert(old(self).spec_cached(id));
                    }
                    let pinned = match self.pages.get(&id) {
                        Some(frame) => frame.pin_count > 0,
                        None => false,
                    };
                    if !pinned {
                        let frame = match self.pages.remove(&id) {
                            Some(frame) => frame,
                            None => {
                                proof {
                                    assert(false);
                                }
                                return Err(StorageError::UnknownPageId);
                            },
                        };
                        proof {
                            assert(self.pages@ =~= m0.remove(id));
                            assert(self.usage_tracker.model() == model_pre.remove(id));
                            assert(!stash_ids@.to_set().contains(id));
                            assert(self.usage_tracker.model() =~= (lru0.remove(id)).remove_keys(
                                stash_ids@.to_set(),
                            ));
                            assert forall|k: int|
                                #![trigger stash_ids@[k]]
                                0 <= k < stash_ids@.len() implies (lru0.remove(
                                id,
                            )).contains_pair(stash_ids@[k], stash_prios@[k]) by {
                                assert(stash_ids@[k] != id);
                            }
                        }
                        self.reinsert_stash(&stash_ids, &stash_prios, Ghost(lru0.remove(id)));
                        proof {
                            assert(self.spec_cached_set() =~= old(self).spec_cached_set().remove(
                                id,
                            ));
                            assert forall|j: PageId|
                                old(self).spec_cached(j) && old(self).spec_lru()[j] > old(
                                    self,
                                ).spec_lru()[id] implies old(self).spec_pins(j) > 0 by {
                                assert(j != id);
                                if stash_ids@.to_set().contains(j) {
                                    let k = choose|k: int|
                                        #![trigger stash_ids@[k]]
                                        0 <= k < stash_ids@.len() && stash_ids@[k] == j;
                                    assert(m0[stash_ids@[k]].pin_count > 0);
                                } else {
                                    assert(model_pre.dom().contains(j));
                                    assert(model_pre[j] <= prio);
                                    assert(lru0[j] <= prio);
                                    assert(lru0[id] == prio);
                                    assert(false);
                                }
                            }
                            assert forall|j: PageId| #[trigger] self.spec_cached(j) implies
                                self.spec_page_data(j).len() == PAGE_SIZE_BYTES
                                && self.spec_frame_page_id(j) == j
                                && self.spec_disk().spec_page_map().dom().contains(j) by {
                                assert(old(self).spec_cached(j));
                            }
                            assert forall|i: int|
                                0 <= i < self.spec_empty_pages().len() implies self.spec_disk(
                            ).spec_page_map().dom().contains(
                                #[trigger] self.spec_empty_pages()[i],
                            ) by {
                                assert(old(self).spec_disk().spec_page_map().dom().contains(
                                    old(self).spec_empty_pages()[i],
                                ));
                            }
                        }
                        return Ok(
                            EvictedPage {
                                page_id: id,
                                data: frame.page.data,
                                is_dirty: frame.page.is_dirty,
                            },
                        );
                    } else {
                        let ghost ids_pre = stash_ids@;
                        let ghost prios_pre = stash_prios@;
                        proof {
                            assert(m0[id].pin_count > 0);
                            assert(!ids_pre.to_set().contains(id));
                        }
                        stash_ids.push(id);
                        stash_prios.push(prio);
                        proof {
                            assert forall|x: PageId| stash_ids@.to_set().contains(x) <==> (
                            ids_pre.to_set().contains(x) || x == id) by {
                                if stash_ids@.contains(x) {
                                    let j = choose|j: int|
                                        #![trigger stash_ids@[j]]
                                        0 <= j < stash_ids@.len() && stash_ids@[j] == x;
                                    if j < stash_ids@.len() - 1 {
                                        assert(ids_pre[j] == x);
                                    }
                                }
                                if ids_pre.contains(x) {
                                    let j = choose|j: int|
                                        #![trigger ids_pre[j]]
                                        0 <= j < ids_pre.len() && ids_pre[j] == x;
                                    assert(stash_ids@[j] == x);
                                }
                                if x == id {
                                    assert(stash_ids@[stash_ids@.len() - 1] == x);
                                }
                            }
                            assert(self.usage_tracker.model() == model_pre.remove(id));
                            assert(self.usage_tracker.model() =~= lru0.remove_keys(
                                stash_ids@.to_set(),
                            ));
                            assert forall|k: int|
                                #![trigger stash_ids@[k]]
                                0 <= k < stash_ids@.len() implies lru0.contains_pair(
                                stash_ids@[k],
                                stash_prios@[k],
                            ) && m0[stash_ids@[k]].pin_count > 0 by {
                                if k < stash_ids@.len() - 1 {
                                    assert(stash_ids@[k] == ids_pre[k]);
                                    assert(stash_prios@[k] == prios_pre[k]);
                                    assert(lru0.contains_pair(ids_pre[k], prios_pre[k]));
                                    assert(m0[ids_pre[k]].pin_count > 0);
                                }
                            }
                            assert forall|k1: int, k2: int|
                                #![trigger stash_ids@[k1], stash_ids@[k2]]
                                0 <= k1 < k2 < stash_ids@.len() implies stash_ids@[k1]
                                != stash_ids@[k2] by {
                                if k2 < stash_ids@.len() - 1 {
                                    assert(ids_pre[k1] != ids_pre[k2]);
                                } else {
                                    assert(stash_ids@[k1] == ids_pre[k1]);
                                    assert(lru0.contains_pair(ids_pre[k1], prios_pre[k1]));
                                    assert(model_pre.dom().contains(id));
                                    assert(!ids_pre.to_set().contains(id));
                                    assert(ids_pre.to_set().contains(ids_pre[k1])) by {
                                        assert(ids_pre.contains(ids_pre[k1]));
                                    }
                                }
                            }
                            assert forall|j: PageId, k: int|
                                #![trigger self.usage_tracker.model()[j], stash_prios@[k]]
                                self.usage_tracker.model().dom().contains(j) && 0 <= k
                                    < stash_prios@.len() implies self.usage_tracker.model()[j]
                                < stash_prios@[k] by {
                                assert(model_pre.dom().contains(j));
                                assert(j != id);
                                assert(self.usage_tracker.model()[j] == model_pre[j]);
                                if k < stash_prios@.len() - 1 {
                                    assert(model_pre[j] < prios_pre[k]);
                                    assert(stash_prios@[k] == prios_pre[k]);
                                } else {
                                    assert(model_pre[j] <= prio);
                                    assert(model_pre.contains_pair(id, prio));
                                    assert(lru0.contains_pair(j, model_pre[j]));
                                    assert(lru0.contains_pair(id, prio));
                                    assert(model_pre[j] != prio);
                                }
                            }
                        }
                    }
                },
            }
        }
    }
}


/// A page-sized buffer of zeroes.
fn zeroed_page_data() -> (r: Vec<u8>)
    ensures
        r@ == spec_zero_page(),
{
    let mut data: Vec<u8> = Vec::new();
    let mut i: usize = 0;
    while i < PAGE_SIZE_BYTES as usize
        invariant
            i <= PAGE_SIZE_BYTES,
            data@.len() == i,
            forall|j: int| 0 <= j < i ==> data@[j] == 0u8,
        decreases PAGE_SIZE_BYTES - i,
    {
        data.push(0u8);
        i = i + 1;
    }
    proof {
        assert(data@ =~= spec_zero_page());
    }
    data
}

impl PageManager {
    /// Brings loaded bytes of an uncached page into the cache, evicting the
    /// least recently used unpinned frame when the cache is full. The new
    /// frame starts clean and pinned once; a returned victim is the
    /// caller's to persist.
    pub fn insert_page(&mut self, page_id: PageId, data: Vec<u8>) -> (r: Result<
        Option<EvictedPage>,
        StorageError,
    >)
        requires
            old(self).wf(),
            !old(self).spec_cached(page_id),
            data@.len() == PAGE_SIZE_BYTES,
            old(self).spec_clock() < u64::MAX,
        ensures
            final(self).wf(),
            final(self).spec_empty_pages() == old(self).spec_empty_pages(),
            final(self).spec_disk() == old(self).spec_disk(),
            final(self).spec_max() == old(self).spec_max(),
            match r {
                Ok(victim) => {
                    &&& old(self).spec_disk().spec_page_map().dom().contains(page_id)
                    &&& final(self).spec_cached(page_id)
                    &&& final(self).spec_page_data(page_id) == data@
                    &&& !final(self).spec_page_dirty(page_id)
                    &&& final(self).spec_pins(page_id) == 1
                    &&& final(self).spec_clock() == old(self).spec_clock() + 1
                    &&& match victim {
                        Some(ev) => {
                            &&& old(self).spec_cached_set().len() == old(self).spec_max()
                            &&& old(self).spec_cached(ev.page_id)
                            &&& old(self).spec_pins(ev.page_id) == 0
                            &&& forall|j: PageId|
                                old(self).spec_cached(j) && old(self).spec_lru()[j] > old(
                                    self,
                                ).spec_lru()[ev.page_id] ==> old(self).spec_pins(j) > 0
                            &&& ev.data@ == old(self).spec_page_data(ev.page_id)
                            &&& ev.is_dirty == old(self).spec_page_dirty(ev.page_id)
                            &&& final(self).spec_cached_set() == old(
                                self,
                            ).spec_cached_set().remove(ev.page_id).insert(page_id)
                            &&& forall|j: PageId|
                                j != ev.page_id && j != page_id ==> #[trigger] old(
                                    self,
                                ).frame_same(final(self), j)
                        },
                        None => {
                            &&& old(self).spec_cached_set().len() < old(self).spec_max()
                            &&& final(self).spec_cached_set() == old(
                                self,
                            ).spec_cached_set().insert(page_id)
                            &&& forall|j: PageId|
                                j != page_id ==> #[trigger] old(self).frame_same(final(self), j)
                        },
                    }
                },
                Err(e) => {
                    &&& old(self).state_same(final(self))
                    &&& (e == StorageError::UnknownPageId || e == StorageError::OutOfBufferSlots)
                    &&& (e == StorageError::UnknownPageId <==> !old(
                        self,
                    ).spec_disk().spec_page_map().dom().contains(page_id))
                    &&& (e == StorageError::OutOfBufferSlots ==> old(self).spec_cached_set().len()
                        == old(self).spec_max() && forall|j: PageId|
                        old(self).spec_cached(j) ==> old(self).spec_pins(j) > 0)
                },
            },
    {
        match self.disk_manager.page_location(page_id) {
            Some(_) => (),
            None => {
                return Err(StorageError::UnknownPageId);
            },
        }

        let victim: Option<EvictedPage> = if self.pages.len() == self.max_num_pages {
            match self.evict_next_page() {
                Ok(ev) => Some(ev),
                Err(_) => {
                    return Err(StorageError::OutOfBufferSlots);
                },
            }
        } else {
            None
        };

        let ghost mid = *self;
        let page = Page { data, is_dirty: false, page_id };
        self.pages.insert(page_id, Frame { page, pin_count: 1 });
        self.usage_tracker.insert(page_id);

        proof {
            assert(self.spec_cached_set() =~= mid.spec_cached_set().insert(page_id));
            match &victim {
                Some(ev) => {
                    assert(self.spec_cached_set() =~= old(self).spec_cached_set().remove(
                        ev.page_id,
                    ).insert(page_id));
                    assert(old(self).spec_cached_set().contains(ev.page_id));
                    assert(self.spec_cached_set().len() <= self.spec_max()) by {
                        assert(mid.spec_cached_set().len() == old(self).spec_cached_set().len()
                            - 1);
                        assert(!mid.spec_cached_set().contains(page_id));
                    }
                },
                None => {
                    assert(self.spec_cached_set() =~= old(self).spec_cached_set().insert(
                        page_id,
                    ));
                    assert(self.spec_cached_set().len() <= self.spec_max()) by {
                        assert(!old(self).spec_cached_set().contains(page_id));
                    }
                },
            }
            assert(self.spec_lru().dom() =~= self.spec_cached_set());
            assert forall|j: PageId| #[trigger] self.spec_cached(j) implies self.spec_page_data(
                j,
            ).len() == PAGE_SIZE_BYTES && self.spec_frame_page_id(j) == j
                && self.spec_disk().spec_page_map().dom().contains(j) by {
                if j != page_id {
                    assert(mid.spec_cached(j));
                    assert(old(self).spec_cached(j));
                    assert(mid.frame_same(self, j)) by {
                        assert(self.pages@[j] == mid.pages@[j]);
                    }
                }
            }
            assert forall|i: int|
                0 <= i < self.spec_empty_pages().len() implies self.spec_disk(
            ).spec_page_map().dom().contains(#[trigger] self.spec_empty_pages()[i]) by {
                assert(old(self).spec_disk().spec_page_map().dom().contains(
                    old(self).spec_empty_pages()[i],
                ));
            }
            assert forall|j: PageId| j != page_id implies mid.frame_same(self, j) by {
                assert(self.pages@.dom().contains(j) == mid.pages@.dom().contains(j));
                if mid.pages@.dom().contains(j) {
                    assert(self.pages@[j] == mid.pages@[j]);
                }
            }
            match &victim {
                Some(ev) => {
                    assert forall|j: PageId| j != ev.page_id && j != page_id implies old(
                        self,
                    ).frame_same(self, j) by {
                        assert(old(self).frame_same(&mid, j));
                        assert(mid.frame_same(self, j));
                    }
                },
                None => {
                    assert forall|j: PageId| j != page_id implies old(self).frame_same(
                        self,
                        j,
                    ) by {
                        assert(mid.frame_same(self, j));
                    }
                },
            }
        }
        Ok(victim)
    }

    /// Requests `page_id`. A cached page is re-stamped as just used and
    /// pinned once more; an uncached but allocated page is answered with
    /// `Missing`, and the caller hands its loaded bytes to `insert_page`.
    pub fn find_page(&mut self, page_id: PageId) -> (r: Result<FindPage, StorageError>)
        requires
            old(self).wf(),
            old(self).spec_clock() < u64::MAX,
            old(self).spec_cached(page_id) ==> old(self).spec_pins(page_id) < u64::MAX,
        ensures
            final(self).wf(),
            final(self).spec_empty_pages() == old(self).spec_empty_pages(),
            final(self).spec_disk() == old(self).spec_disk(),
            final(self).spec_max() == old(self).spec_max(),
            match r {
                Ok(FindPage::Cached) => {
                    &&& old(self).spec_cached(page_id)
                    &&& final(self).spec_cached_set() == old(self).spec_cached_set()
                    &&& final(self).spec_pins(page_id) == old(self).spec_pins(page_id) + 1
                    &&& final(self).spec_page_data(page_id) == old(self).spec_page_data(page_id)
                    &&& final(self).spec_page_dirty(page_id) == old(self).spec_page_dirty(
                        page_id,
                    )
                    &&& forall|j: PageId|
                        j != page_id ==> #[trigger] old(self).frame_same(final(self), j)
                    &&& final(self).spec_lru() == old(self).spec_lru().insert(
                        page_id,
                        (u64::MAX - old(self).spec_clock()) as u64,
                    )
                    &&& final(self).spec_clock() == old(self).spec_clock() + 1
                },
                Ok(FindPage::Missing) => {
                    &&& !old(self).spec_cached(page_id)
                    &&& old(self).spec_disk().spec_page_map().dom().contains(page_id)
                    &&& old(self).state_same(final(self))
                },
                Err(e) => {
                    &&& e == StorageError::UnknownPageId
                    &&& !old(self).spec_cached(page_id)
                    &&& !old(self).spec_disk().spec_page_map().dom().contains(page_id)
                    &&& old(self).state_same(final(self))
                },
            },
    {
        let ghost m0 = self.pages@;
        if self.pages.contains_key(&page_id) {
            self.usage_tracker.touch(page_id);
            let frame = match self.pages.remove(&page_id) {
                Some(frame) => frame,
                None => {
                    proof {
                        assert(false);
                    }
                    return Err(StorageError::UnknownPageId);
                },
            };
            let pins: u64 = frame.pin_count + 1;
            self.pages.insert(page_id, Frame { page: frame.page, pin_count: pins });
            proof {
                assert(self.pages@ =~= m0.insert(page_id, self.pages@[page_id]));
                assert(self.spec_cached_set() =~= old(self).spec_cached_set());
                assert forall|j: PageId| #[trigger] self.spec_cached(j) implies
                    self.spec_page_data(j).len() == PAGE_SIZE_BYTES && self.spec_frame_page_id(
                    j,
                ) == j && self.spec_disk().spec_page_map().dom().contains(j) by {
                    assert(old(self).spec_cached(j));
                    if j != page_id {
                        assert(self.pages@[j] == m0[j]);
                    }
                }
                assert forall|i: int|
                    0 <= i < self.spec_empty_pages().len() implies self.spec_disk(
                ).spec_page_map().dom().contains(#[trigger] self.spec_empty_pages()[i]) by {
                    assert(old(self).spec_disk().spec_page_map().dom().contains(
                        old(self).spec_empty_pages()[i],
                    ));
                }
            }
            Ok(FindPage::Cached)
        } else {
            match self.disk_manager.page_location(page_id) {
                Some(_) => Ok(FindPage::Missing),
                None => Err(StorageError::UnknownPageId),
            }
        }
    }
}


impl PageManager {
    /// Caches a freshly allocated page as a zeroed, unpinned frame and
    /// records it as not yet handed out.
    fn add_free_page(&mut self, page_id: PageId)
        requires
            old(self).wf(),
            !old(self).spec_cached(page_id),
            old(self).spec_cached_set().len() < old(self).spec_max(),
            old(self).spec_disk().spec_page_map().dom().contains(page_id),
            old(self).spec_clock() < u64::MAX,
        ensures
            final(self).wf(),
            final(self).spec_cached_set() == old(self).spec_cached_set().insert(page_id),
            final(self).spec_page_data(page_id) == spec_zero_page(),
            !final(self).spec_page_dirty(page_id),
            final(self).spec_pins(page_id) == 0,
            forall|j: PageId|
                j != page_id ==> #[trigger] old(self).frame_same(final(self), j),
            final(self).spec_empty_pages() == old(self).spec_empty_pages().push(page_id),
            final(self).spec_disk() == old(self).spec_disk(),
            final(self).spec_max() == old(self).spec_max(),
            final(self).spec_clock() == old(self).spec_clock() + 1,
            final(self).spec_lru() == old(self).spec_lru().insert(
                page_id,
                (u64::MAX - old(self).spec_clock()) as u64,
            ),
    {
        let ghost m0 = self.pages@;
        let data = zeroed_page_data();
        let page = Page { data, is_dirty: false, page_id };
        self.pages.insert(page_id, Frame { page, pin_count: 0 });
        self.usage_tracker.insert(page_id);
        self.empty_pages.push(page_id);
        proof {
            assert(self.spec_cached_set() =~= old(self).spec_cached_set().insert(page_id));
            assert(self.spec_lru().dom() =~= self.spec_cached_set());
            assert(self.spec_cached_set().len() <= self.spec_max()) by {
                assert(!old(self).spec_cached_set().contains(page_id));
            }
            assert forall|j: PageId| #[trigger] self.spec_cached(j) implies self.spec_page_data(
                j,
            ).len() == PAGE_SIZE_BYTES && self.spec_frame_page_id(j) == j
                && self.spec_disk().spec_page_map().dom().contains(j) by {
                if j != page_id {
                    assert(old(self).spec_cached(j));
                    assert(self.pages@[j] == m0[j]);
                }
            }
            assert forall|i: int|
                0 <= i < self.spec_empty_pages().len() implies self.spec_disk(
            ).spec_page_map().dom().contains(#[trigger] self.spec_empty_pages()[i]) by {
                if i < old(self).spec_empty_pages().len() {
                    assert(old(self).spec_disk().spec_page_map().dom().contains(
                        old(self).spec_empty_pages()[i],
                    ));
                }
            }
            assert forall|j: PageId| j != page_id implies old(self).frame_same(self, j) by {
                assert(self.pages@.dom().contains(j) == m0.dom().contains(j));
                if m0.dom().contains(j) {
                    assert(self.pages@[j] == m0[j]);
                }
            }
        }
    }

    /// Allocates `n_pages` fresh page ids through the disk bookkeeper,
    /// caches as many of them as free frames allow (each a zeroed buffer,
    /// stamped as just used), and records all of them as not yet handed
    /// out. Returns the fresh ids; the caller grows the named file to
    /// `n_pages * PAGE_SIZE_BYTES` bytes.
    pub fn add_empty_pages(&mut self, file: &str, n_pages: usize) -> (r: Vec<PageId>)
        requires
            old(self).wf(),
            old(self).spec_disk().spec_next_page_id() + n_pages <= PageId::MAX,
            n_pages * PAGE_SIZE_BYTES <= u64::MAX,
            old(self).spec_clock() + n_pages <= u64::MAX,
        ensures
            final(self).wf(),
            final(self).spec_max() == old(self).spec_max(),
            final(self).spec_disk().spec_next_page_id() == old(
                self,
            ).spec_disk().spec_next_page_id() + n_pages,
            final(self).spec_disk().spec_base_directory() == old(
                self,
            ).spec_disk().spec_base_directory(),
            r@.len() == n_pages,
            forall|i: int|
                0 <= i < n_pages ==> r@[i] == old(self).spec_disk().spec_next_page_id() + i,
            final(self).spec_empty_pages() == old(self).spec_empty_pages() + r@,
            forall|id: PageId|
                old(self).spec_disk().spec_next_page_id() <= id < old(
                    self,
                ).spec_disk().spec_next_page_id() + n_pages ==> #[trigger] crate::disk_manager::maps_to(
                    final(self).spec_disk().spec_page_map(),
                    id,
                    file@,
                    ((id - old(self).spec_disk().spec_next_page_id()) * PAGE_SIZE_BYTES) as u64,
                ),
            ({
                let first = old(self).spec_disk().spec_next_page_id();
                let take = if old(self).spec_max() - old(self).spec_cached_set().len() < n_pages {
                    old(self).spec_max() - old(self).spec_cached_set().len()
                } else {
                    n_pages as int
                };
                &&& forall|id: PageId|
                    #[trigger] final(self).spec_cached(id) <==> old(self).spec_cached(id) || first
                        <= id < first + take
                &&& forall|id: PageId|
                    first <= id < first + take ==> final(self).spec_page_data(id)
                        == spec_zero_page() && final(self).spec_pins(id) == 0
                        && !final(self).spec_page_dirty(id)
                &&& forall|j: PageId|
                    old(self).spec_cached(j) ==> #[trigger] old(self).frame_same(final(self), j)
                &&& final(self).spec_clock() == old(self).spec_clock() + take
                &&& forall|id: PageId|
                    first <= id < first + take ==> #[trigger] final(self).spec_lru().contains_pair(
                        id,
                        (u64::MAX - (old(self).spec_clock() + (id - first))) as u64,
                    )
                &&& forall|j: PageId|
                    old(self).spec_cached(j) ==> #[trigger] final(self).spec_lru()[j] == old(
                        self,
                    ).spec_lru()[j]
            }),
    {
        let ghost first = self.disk_manager.spec_next_page_id();
        let empty_pages = self.disk_manager.allocate_pages(n_pages, file);
        proof {
            assert forall|id: PageId| #[trigger] self.spec_cached(id) implies self.spec_page_data(
                id,
            ).len() == PAGE_SIZE_BYTES && self.spec_frame_page_id(id) == id
                && self.spec_disk().spec_page_map().dom().contains(id) && id < first by {
                assert(old(self).spec_cached(id));
                assert(old(self).spec_disk().spec_page_map().dom().contains(id));
            }
            assert forall|i: int|
                0 <= i < self.spec_empty_pages().len() implies self.spec_disk(
            ).spec_page_map().dom().contains(#[trigger] self.spec_empty_pages()[i]) by {
                assert(old(self).spec_disk().spec_page_map().dom().contains(
                    old(self).spec_empty_pages()[i],
                ));
            }
            assert forall|id: PageId|
                first <= id < first + n_pages implies self.spec_disk(
            ).spec_page_map().dom().contains(id) by {
                assert(crate::disk_manager::maps_to(
                    self.spec_disk().spec_page_map(),
                    id,
                    file@,
                    ((id - first) * PAGE_SIZE_BYTES) as u64,
                ));
            }
        }
        let ghost mid = *self;

        let buffer_spots = self.max_num_pages - self.pages.len();
        let take = if buffer_spots < n_pages {
            buffer_spots
        } else {
            n_pages
        };

        let mut i: usize = 0;
        while i < n_pages
            invariant
                i <= n_pages,
                empty_pages@.len() == n_pages,
                forall|k: int| 0 <= k < n_pages ==> empty_pages@[k] == first + k,
                first + n_pages <= PageId::MAX,
                take <= n_pages,
                mid.spec_cached_set().len() + take <= mid.spec_max() || take == 0,
                self.spec_cached_set().len() == mid.spec_cached_set().len() + (if i < take {
                    i as int
                } else {
                    take as int
                }),
                take == (if mid.spec_max() - mid.spec_cached_set().len() < n_pages {
                    mid.spec_max() - mid.spec_cached_set().len()
                } else {
                    n_pages as int
                }),
                self.wf(),
                self.spec_disk() == mid.spec_disk(),
                self.spec_max() == mid.spec_max(),
                mid.spec_clock() + n_pages <= u64::MAX,
                self.spec_clock() == mid.spec_clock() + (if i < take {
                    i as int
                } else {
                    take as int
                }),
                forall|id: PageId|
                    first <= id < first + n_pages ==> self.spec_disk(
                    ).spec_page_map().dom().contains(id),
                forall|id: PageId|
                    #[trigger] self.spec_cached(id) <==> mid.spec_cached(id) || first <= id
                        < first + (if i < take {
                        i as int
                    } else {
                        take as int
                    }),
                forall|id: PageId|
                    first <= id < first + (if i < take {
                        i as int
                    } else {
                        take as int
                    }) ==> self.spec_page_data(id) == spec_zero_page() && self.spec_pins(id) == 0
                        && !self.spec_page_dirty(id),
                forall|j: PageId| mid.spec_cached(j) ==> mid.frame_same(self, j),
                self.spec_empty_pages() == mid.spec_empty_pages() + empty_pages@.take(i as int),
                forall|id: PageId| mid.spec_cached(id) ==> id < first,
                forall|id: PageId|
                    first <= id < first + (if i < take {
                        i as int
                    } else {
                        take as int
                    }) ==> #[trigger] self.spec_lru().contains_pair(
                        id,
                        (u64::MAX - (mid.spec_clock() + (id - first))) as u64,
                    ),
                forall|j: PageId|
                    mid.spec_cached(j) ==> #[trigger] self.spec_lru()[j] == mid.spec_lru()[j],
            decreases n_pages - i,
        {
            let id = empty_pages[i];
            let ghost pre = *self;
            if i < take {
                proof {
                    assert(!self.spec_cached(id));
                    assert(self.spec_cached_set().len() < self.spec_max());
                }
                self.add_free_page(id);
                proof {
                    assert(self.spec_cached_set().len() == pre.spec_cached_set().len() + 1) by {
                        assert(!pre.spec_cached_set().contains(id));
                    }
                }
            } else {
                self.empty_pages.push(id);
                proof {
                    assert forall|k: int|
                        0 <= k < self.spec_empty_pages().len() implies self.spec_disk(
                    ).spec_page_map().dom().contains(#[trigger] self.spec_empty_pages()[k]) by {
                        if k < pre.spec_empty_pages().len() {
                            assert(pre.spec_disk().spec_page_map().dom().contains(
                                pre.spec_empty_pages()[k],
                            ));
                        } else {
                            assert(self.spec_empty_pages()[k] == id);
                        }
                    }
                    assert forall|j: PageId| #[trigger] self.spec_cached(j) implies
                        self.spec_page_data(j).len() == PAGE_SIZE_BYTES && self.spec_frame_page_id(
                        j,
                    ) == j && self.spec_disk().spec_page_map().dom().contains(j) by {
                        assert(pre.spec_cached(j));
                    }
                }
            }
            proof {
                assert(self.spec_empty_pages() =~= mid.spec_empty_pages() + empty_pages@.take(
                    i as int + 1,
                ));
                assert forall|j: PageId| mid.spec_cached(j) implies mid.frame_same(self, j) by {
                    assert(mid.frame_same(&pre, j));
                    assert(j != id);
                    assert(pre.frame_same(self, j));
                }
                let ghost done = if i + 1 < take {
                    i as int + 1
                } else {
                    take as int
                };
                assert forall|id2: PageId| #[trigger] self.spec_cached(id2) <==> (
                mid.spec_cached(id2) || first <= id2 < first + done) by {
                    let ghost sofar = if i < take {
                        i as int
                    } else {
                        take as int
                    };
                    assert(pre.spec_cached(id2) <==> (mid.spec_cached(id2) || first <= id2 < first
                        + sofar));
                    if i < take {
                        assert(self.spec_cached_set() == pre.spec_cached_set().insert(id));
                        assert(self.spec_cached(id2) <==> (pre.spec_cached(id2) || id2 == id));
                    } else {
                        assert(self.spec_cached(id2) == pre.spec_cached(id2));
                    }
                }
                assert forall|id2: PageId|
                    first <= id2 < first + done implies #[trigger] self.spec_lru().contains_pair(
                        id2,
                        (u64::MAX - (mid.spec_clock() + (id2 - first))) as u64,
                    ) by {
                    if i < take && id2 == id {
                        assert(self.spec_lru() == pre.spec_lru().insert(
                            id,
                            (u64::MAX - pre.spec_clock()) as u64,
                        ));
                    } else {
                        assert(pre.spec_lru().contains_pair(
                            id2,
                            (u64::MAX - (mid.spec_clock() + (id2 - first))) as u64,
                        ));
                        if i < take {
                            assert(id2 != id);
                        }
                    }
                }
                assert forall|j: PageId| mid.spec_cached(j) implies #[trigger] self.spec_lru()[j]
                    == mid.spec_lru()[j] by {
                    assert(pre.spec_lru()[j] == mid.spec_lru()[j]);
                    if i < take {
                        assert(j != id);
                    }
                }
                assert forall|id2: PageId|
                    first <= id2 < first + done implies self.spec_page_data(id2)
                        == spec_zero_page() && self.spec_pins(id2) == 0 && !self.spec_page_dirty(
                    id2,
                ) by {
                    let ghost sofar = if i < take {
                        i as int
                    } else {
                        take as int
                    };
                    if i < take && id2 == id {
                    } else {
                        assert(first <= id2 < first + sofar);
                        assert(pre.spec_page_data(id2) == spec_zero_page() && pre.spec_pins(id2)
                            == 0 && !pre.spec_page_dirty(id2));
                        if i < take {
                            assert(pre.frame_same(self, id2)) by {
                                assert(id2 != id);
                            }
                        }
                    }
                }
            }
            i = i + 1;
        }
        proof {
            assert(empty_pages@.take(n_pages as int) =~= empty_pages@);
        }
        empty_pages
    }

    /// Hands out a not-yet-used page, pinned once: the most recently
    /// allocated one. A page no longer cached is rematerialized as zeroes,
    /// which is what an unused page holds on disk; that may evict a victim
    /// for the caller to persist. Fails with `NoFreePages` when every
    /// allocated page has been handed out, and with `OutOfBufferSlots`
    /// when a frame would be needed but every frame is pinned.
    pub fn next_free_page(&mut self) -> (r: Result<(PageId, Option<EvictedPage>), StorageError>)
        requires
            old(self).wf(),
            old(self).spec_clock() < u64::MAX,
            forall|id: PageId|
                #[trigger] old(self).spec_cached(id) ==> old(self).spec_pins(id) < u64::MAX,
        ensures
            final(self).wf(),
            final(self).spec_disk() == old(self).spec_disk(),
            final(self).spec_max() == old(self).spec_max(),
            match r {
                Ok((page_id, victim)) => {
                    &&& old(self).spec_empty_pages().len() > 0
                    &&& page_id == old(self).spec_empty_pages().last()
                    &&& final(self).spec_empty_pages() == old(self).spec_empty_pages().drop_last()
                    &&& final(self).spec_cached(page_id)
                    &&& final(self).spec_pins(page_id) >= 1
                    &&& (old(self).spec_cached(page_id) ==> victim is None
                        && final(self).spec_page_data(page_id) == old(self).spec_page_data(
                        page_id,
                    ))
                    &&& (!old(self).spec_cached(page_id) ==> final(self).spec_page_data(page_id)
                        == spec_zero_page() && final(self).spec_pins(page_id) == 1)
                    &&& match victim {
                        Some(ev) => {
                            &&& old(self).spec_cached(ev.page_id)
                            &&& old(self).spec_pins(ev.page_id) == 0
                            &&& ev.data@ == old(self).spec_page_data(ev.page_id)
                            &&& ev.is_dirty == old(self).spec_page_dirty(ev.page_id)
                            &&& !final(self).spec_cached(ev.page_id)
                        },
                        None => true,
                    }
                },
                Err(e) => {
                    &&& old(self).state_same(final(self))
                    &&& (e == StorageError::NoFreePages || e == StorageError::OutOfBufferSlots)
                    &&& (e == StorageError::NoFreePages <==> old(self).spec_empty_pages().len()
                        == 0)
                    &&& (e == StorageError::OutOfBufferSlots ==> {
                        &&& !old(self).spec_cached(old(self).spec_empty_pages().last())
                        &&& old(self).spec_cached_set().len() == old(self).spec_max()
                        &&& forall|j: PageId|
                            old(self).spec_cached(j) ==> old(self).spec_pins(j) > 0
                    })
                },
            },
    {
        let ghost e0 = self.empty_pages@;
        let page_id = match self.empty_pages.pop() {
            Some(id) => id,
            None => {
                proof {
                    assert(self.empty_pages@ =~= e0);
                    assert(old(self).state_same(self));
                    PageManager::lemma_wf_from_same(old(self), self);
                }
                return Err(StorageError::NoFreePages);
            },
        };
        let ghost after_pop = *self;
        proof {
            assert(old(self).spec_empty_pages()[e0.len() - 1] == page_id);
            assert(self.spec_disk().spec_page_map().dom().contains(page_id));
            assert(self.spec_empty_pages() == e0.subrange(0, e0.len() - 1));
            assert forall|i: int|
                0 <= i < self.spec_empty_pages().len() implies self.spec_disk(
            ).spec_page_map().dom().contains(#[trigger] self.spec_empty_pages()[i]) by {
                assert(old(self).spec_disk().spec_page_map().dom().contains(
                    old(self).spec_empty_pages()[i],
                ));
            }
            assert forall|j: PageId| #[trigger] self.spec_cached(j) implies self.spec_page_data(
                j,
            ).len() == PAGE_SIZE_BYTES && self.spec_frame_page_id(j) == j
                && self.spec_disk().spec_page_map().dom().contains(j) by {
                assert(old(self).spec_cached(j));
            }
            assert(self.wf());
            if self.spec_cached(page_id) {
                assert(old(self).spec_cached(page_id));
            }
        }

        match self.find_page(page_id) {
            Ok(FindPage::Cached) => {
                proof {
                    assert(old(self).spec_cached(page_id));
                    assert(old(self).spec_page_data(page_id) == after_pop.spec_page_data(
                        page_id,
                    ));
                    assert forall|j: PageId| old(self).spec_cached(j) && j != page_id implies
                        old(self).frame_same(self, j) by {
                        assert(after_pop.frame_same(self, j));
                    }
                }
                Ok((page_id, None))
            },
            Ok(FindPage::Missing) => {
                let ghost mid = *self;
                let zeros = zeroed_page_data();
                match self.insert_page(page_id, zeros) {
                    Ok(victim) => {
                        proof {
                            match &victim {
                                Some(ev) => {
                                    assert(mid.spec_cached(ev.page_id));
                                    assert(after_pop.frame_same(&mid, ev.page_id));
                                    assert(old(self).frame_same(&after_pop, ev.page_id));
                                    assert(old(self).spec_cached(ev.page_id));
                                    assert(ev.data@ == old(self).spec_page_data(ev.page_id));
                                },
                                None => {},
                            }
                        }
                        Ok((page_id, victim))
                    },
                    Err(e) => {
                        let ghost after_ins = *self;
                        self.empty_pages.push(page_id);
                        proof {
                            assert(e != StorageError::UnknownPageId);
                            assert(self.spec_empty_pages() =~= e0);
                            assert forall|j: PageId| old(self).frame_same(self, j) by {
                                assert(after_pop.frame_same(&mid, j));
                                assert(mid.frame_same(&after_ins, j));
                            }
                            assert(old(self).state_same(self));
                            PageManager::lemma_wf_from_same(old(self), self);
                            assert(!old(self).spec_cached(page_id));
                            assert(old(self).spec_cached_set() == mid.spec_cached_set());
                            assert forall|j: PageId| old(self).spec_cached(j) implies old(
                                self,
                            ).spec_pins(j) > 0 by {
                                assert(mid.spec_cached(j));
                                assert(after_pop.frame_same(&mid, j));
                            }
                        }
                        Err(e)
                    },
                }
            },
            Err(_) => {
                proof {
                    assert(false);
                }
                Err(StorageError::UnknownPageId)
            },
        }
    }
}

} // verus!
