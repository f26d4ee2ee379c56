//! The error vocabulary of the storage core. Higher layers translate these
//! into their own terms; the core never formats user messages.

use vstd::prelude::*;

verus! {

/// Failure kinds surfaced by the paged storage core.
#[derive(Clone, Copy, Debug, PartialEq, Eq, Structural)]
pub enum StorageError {
    /// A disk-manager lookup was made for a page id that was never allocated.
    UnknownPageId,
    /// The buffer pool has no allocated-but-unused pages left to hand out.
    NoFreePages,
    /// An eviction scan found every cached frame pinned by a client.
    AllPagesPinned,
    /// A cache miss could not be served because no frame could be evicted.
    OutOfBufferSlots,
    /// A slotted-page insertion would overrun the page; recoverable by a
    /// higher-layer split.
    PageFull,
    /// The page bytes are not a well-formed page (bad magic or type tag).
    CorruptPage,
    /// A page was viewed as a kind it is not; a programming error.
    WrongPageType,
}

} // verus!
