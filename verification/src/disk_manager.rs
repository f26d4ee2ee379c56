//! In-memory bookkeeping of where pages live on disk: a map from page id to
//! (file, byte offset) and a monotone page-id counter. Growing, reading and
//! writing the files themselves is the embedding program's concern; it asks
//! this bookkeeper where each page belongs.

use vstd::prelude::*;

use std::collections::HashMap;

use crate::page::{PageId, PAGE_SIZE_BYTES};

verus! {

broadcast use vstd::std_specs::hash::group_hash_axioms, vstd::string::group_string_axioms;

/// Where one page lives: a file (named relative to the base directory) and
/// a byte offset within that file.
pub struct DiskEntry {
    pub file_name: String,
    pub offset: u64,
    pub page_id: PageId,
}

/// Whether `m` maps `id` to the given file and offset.
pub open spec fn maps_to(
    m: Map<PageId, DiskEntry>,
    id: PageId,
    file_name: Seq<char>,
    offset: u64,
) -> bool {
    &&& m.dom().contains(id)
    &&& m[id].page_id == id
    &&& m[id].offset == offset
    &&& m[id].file_name@ == file_name
}

/// Maps page ids to file locations and assigns fresh ids by growing a
/// counter; pages are laid out consecutively within their file.
pub struct DiskManager {
    page_map: HashMap<PageId, DiskEntry>,
    base_directory: String,
    next_page_id: PageId,
}

impl DiskManager {
    /// The id-to-location map.
    pub closed spec fn spec_page_map(&self) -> Map<PageId, DiskEntry> {
        self.page_map@
    }

    /// The next page id to be assigned.
    pub closed spec fn spec_next_page_id(&self) -> PageId {
        self.next_page_id
    }

    /// The base directory all file names are relative to.
    pub closed spec fn spec_base_directory(&self) -> Seq<char> {
        self.base_directory@
    }

    /// Every mapped id was assigned by the counter.
    pub open spec fn wf(&self) -> bool {
        forall|id: PageId|
            self.spec_page_map().dom().contains(id) ==> id < self.spec_next_page_id()
    }

    pub fn new(base_directory: &str) -> (r: DiskManager)
        ensures
            r.wf(),
            r.spec_page_map() == Map::<PageId, DiskEntry>::empty(),
            r.spec_next_page_id() == 0,
            r.spec_base_directory() == base_directory@,
    {
        DiskManager {
            page_map: HashMap::new(),
            base_directory: base_directory.to_string(),
            next_page_id: 0,
        }
    }

    /// Draws the next fresh page id.
    fn next_page_id(&mut self) -> (r: PageId)
        requires
            old(self).spec_next_page_id() < PageId::MAX,
        ensures
            r == old(self).spec_next_page_id(),
            final(self).spec_next_page_id() == old(self).spec_next_page_id() + 1,
            final(self).spec_page_map() == old(self).spec_page_map(),
            final(self).spec_base_directory() == old(self).spec_base_directory(),
    {
        let next = self.next_page_id;
        self.next_page_id = self.next_page_id + 1;
        next
    }

    /// Assigns `pages` fresh consecutive page ids, mapping the i-th to byte
    /// offset `i * PAGE_SIZE_BYTES` of the named file. The caller is
    /// responsible for growing the file to `pages * PAGE_SIZE_BYTES` bytes.
    pub fn allocate_pages(&mut self, pages: usize, file_name: &str) -> (r: Vec<PageId>)
        requires
            old(self).wf(),
            old(self).spec_next_page_id() + pages <= PageId::MAX,
            pages * PAGE_SIZE_BYTES <= u64::MAX,
        ensures
            final(self).wf(),
            final(self).spec_next_page_id() == old(self).spec_next_page_id() + pages,
            final(self).spec_base_directory() == old(self).spec_base_directory(),
            r@.len() == pages,
            forall|i: int| 0 <= i < pages ==> r@[i] == old(self).spec_next_page_id() + i,
            forall|id: PageId|
                old(self).spec_next_page_id() <= id < old(self).spec_next_page_id() + pages
                    ==> #[trigger] maps_to(
                    final(self).spec_page_map(),
                    id,
                    file_name@,
                    ((id - old(self).spec_next_page_id()) * PAGE_SIZE_BYTES) as u64,
                ),
            forall|id: PageId|
                #![trigger old(self).spec_page_map().dom().contains(id)]
                old(self).spec_page_map().dom().contains(id)
                    ==> final(self).spec_page_map().dom().contains(id)
                        && final(self).spec_page_map()[id] == old(self).spec_page_map()[id],
            forall|id: PageId|
                #![trigger final(self).spec_page_map().dom().contains(id)]
                final(self).spec_page_map().dom().contains(id)
                    ==> old(self).spec_page_map().dom().contains(id)
                        || old(self).spec_next_page_id() <= id
                            < old(self).spec_next_page_id() + pages,
    {
        let ghost first = self.next_page_id;
        let ghost m0 = self.page_map@;

        let mut page_ids: Vec<PageId> = Vec::new();
        let mut i: usize = 0;
        while i < pages
            invariant
                self.wf(),
                i <= pages,
                first + pages <= PageId::MAX,
                pages * PAGE_SIZE_BYTES <= u64::MAX,
                self.spec_next_page_id() == first + i,
                self.spec_base_directory() == old(self).spec_base_directory(),
                page_ids@.len() == i,
                forall|k: int| 0 <= k < i ==> page_ids@[k] == first + k,
                forall|id: PageId|
                    first <= id < first + i ==> #[trigger] maps_to(
                        self.spec_page_map(),
                        id,
                        file_name@,
                        ((id - first) * PAGE_SIZE_BYTES) as u64,
                    ),
                forall|id: PageId|
                    #![trigger m0.dom().contains(id)]
                    m0.dom().contains(id) ==> self.spec_page_map().dom().contains(id)
                        && self.spec_page_map()[id] == m0[id],
                forall|id: PageId|
                    #![trigger self.spec_page_map().dom().contains(id)]
                    self.spec_page_map().dom().contains(id) ==> m0.dom().contains(id) || first
                        <= id < first + i,
                m0 == old(self).spec_page_map(),
                first == old(self).spec_next_page_id(),
                forall|id: PageId| m0.dom().contains(id) ==> id < first,
            decreases pages - i,
        {
            proof {
                assert(i * PAGE_SIZE_BYTES <= pages * PAGE_SIZE_BYTES) by (nonlinear_arith)
                    requires
                        0 <= i <= pages,
                ;
            }
            let page_id = self.next_page_id();
            let entry = DiskEntry {
                file_name: file_name.to_string(),
                offset: (i as u64) * (PAGE_SIZE_BYTES as u64),
                page_id,
            };
            page_ids.push(page_id);
            let ghost m_pre = self.page_map@;
            self.page_map.insert(page_id, entry);
            proof {
                assert(self.page_map@ == m_pre.insert(page_id, entry));
                assert forall|id: PageId| first <= id < first + i + 1 implies #[trigger] maps_to(
                    self.spec_page_map(),
                    id,
                    file_name@,
                    ((id - first) * PAGE_SIZE_BYTES) as u64,
                ) by {
                    if id < first + i {
                        assert(maps_to(
                            m_pre,
                            id,
                            file_name@,
                            ((id - first) * PAGE_SIZE_BYTES) as u64,
                        ));
                    }
                }
                assert forall|id: PageId| m0.dom().contains(id) implies
                    self.spec_page_map().dom().contains(id) && self.spec_page_map()[id] == m0[
                    id] by {
                    assert(m_pre.dom().contains(id) && m_pre[id] == m0[id]);
                }
            }
            i = i + 1;
        }
        page_ids
    }

    /// How many page ids have been assigned so far.
    pub fn allocated_pages(&self) -> (r: u64)
        ensures
            r == self.spec_next_page_id(),
    {
        self.next_page_id
    }

    /// Looks up where a page lives; `None` when the id was never allocated.
    pub fn page_location(&self, page_id: PageId) -> (r: Option<&DiskEntry>)
        ensures
            match r {
                Some(e) => self.spec_page_map().dom().contains(page_id) && *e
                    == self.spec_page_map()[page_id],
                None => !self.spec_page_map().dom().contains(page_id),
            },
    {
        self.page_map.get(&page_id)
    }

    /// The base directory all file names are relative to.
    pub fn base_directory(&self) -> (r: &str)
        ensures
            r@ == self.spec_base_directory(),
    {
        self.base_directory.as_str()
    }
}

} // verus!
