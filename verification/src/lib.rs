//! A paged storage substrate: a big-endian byte codec, a fixed-size page
//! frame with an on-page header, a slotted index-page layout with sorted
//! key entries, a disk-location bookkeeper, an LRU usage tracker, and a
//! pin-aware buffer pool.

pub mod disk_btree;
pub mod disk_manager;
pub mod errors;
pub mod page;
pub mod page_manager;
pub mod serialization_helpers;
pub mod usage_tracker;
