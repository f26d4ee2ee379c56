//! Orders cached page ids by recency of access. A priority queue holds each
//! page id under an inverted recency stamp, so the queue's greatest priority
//! is always the least recently used page: the eviction candidate.

use vstd::prelude::*;

use core::cmp::Ordering;

use priority_queue::PriorityQueue;

use crate::page::PageId;

verus! {

/// A point on the wall clock, ordered by inversion: of two stamps the
/// earlier one is the greater, so that the oldest entry wins a priority
/// comparison. The clock is read once at creation, as whole nanoseconds
/// since the Unix epoch (saturating).
pub struct InverseSystemTime {
    pub time: u64,
}

/// Relies on `std::time::SystemTime::now`; nothing is promised of the
/// clock's reading.
#[verifier::external_body]
fn system_time_now() -> std::time::SystemTime {
    std::time::SystemTime::now()
}

/// Relies on `std::time::SystemTime::duration_since`: the span from the
/// Unix epoch to `t`, or `None` when `t` lies before the epoch.
#[verifier::external_body]
fn time_since_epoch(t: &std::time::SystemTime) -> Option<core::time::Duration> {
    match t.duration_since(std::time::UNIX_EPOCH) {
        Ok(d) => Some(d),
        Err(_) => None,
    }
}

/// Relies on `core::time::Duration::as_nanos`: the whole span in
/// nanoseconds.
#[verifier::external_body]
fn duration_as_nanos(d: &core::time::Duration) -> u128 {
    d.as_nanos()
}

#[verifier::external_type_specification]
#[verifier::external_body]
pub struct ExSystemTime(std::time::SystemTime);

impl InverseSystemTime {
    /// The wall clock now. Nothing is promised of the value: the clock is
    /// ambient.
    pub fn now() -> (r: InverseSystemTime) {
        let st = system_time_now();
        let time: u64 = match time_since_epoch(&st) {
            Some(d) => {
                let n: u128 = duration_as_nanos(&d);
                if n > u64::MAX as u128 {
                    u64::MAX
                } else {
                    n as u64
                }
            },
            None => 0,
        };
        InverseSystemTime { time }
    }
}

impl PartialEq for InverseSystemTime {
    fn eq(&self, other: &Self) -> (r: bool) {
        self.time == other.time
    }
}

impl vstd::std_specs::cmp::PartialEqSpecImpl for InverseSystemTime {
    open spec fn obeys_eq_spec() -> bool {
        true
    }

    open spec fn eq_spec(&self, other: &Self) -> bool {
        self.time == other.time
    }
}

impl Eq for InverseSystemTime {

}

impl PartialOrd for InverseSystemTime {
    fn partial_cmp(&self, other: &Self) -> (r: Option<Ordering>) {
        if self.time > other.time {
            Some(Ordering::Less)
        } else if self.time == other.time {
            Some(Ordering::Equal)
        } else {
            Some(Ordering::Greater)
        }
    }
}

impl vstd::std_specs::cmp::PartialOrdSpecImpl for InverseSystemTime {
    open spec fn obeys_partial_cmp_spec() -> bool {
        true
    }

    open spec fn partial_cmp_spec(&self, other: &Self) -> Option<Ordering> {
        if self.time > other.time {
            Some(Ordering::Less)
        } else if self.time == other.time {
            Some(Ordering::Equal)
        } else {
            Some(Ordering::Greater)
        }
    }
}

/// The queue the tracker builds on: page ids prioritized by inverted
/// recency stamps. The outside queue is held opaquely; what it contains is
/// known only through `pq_contents` and the wrappers below.
#[verifier::external_body]
pub struct RecencyQueue {
    inner: PriorityQueue<PageId, u64>,
}

/// What the queue holds: each stored page id mapped to its priority.
pub uninterp spec fn pq_contents(q: &RecencyQueue) -> Map<PageId, u64>;

impl View for RecencyQueue {
    type V = Map<PageId, u64>;

    closed spec fn view(&self) -> Map<PageId, u64> {
        pq_contents(self)
    }
}

/// Relies on `PriorityQueue::new`; what the fresh queue holds is pinned by
/// `pq_clear` right after.
#[verifier::external_body]
fn pq_new() -> RecencyQueue {
    RecencyQueue { inner: PriorityQueue::new() }
}

/// Relies on `PriorityQueue::clear`: removes every item the queue held, so
/// it holds nothing afterwards.
#[verifier::external_body]
fn pq_clear(q: &mut RecencyQueue)
    ensures
        pq_contents(final(q)) == pq_contents(old(q)).remove_keys(pq_contents(old(q)).dom()),
{
    q.inner.clear()
}

/// Relies on `PriorityQueue::push`: inserts the item, or updates its
/// priority when already present, returning the old priority.
#[verifier::external_body]
fn pq_push(q: &mut RecencyQueue, item: PageId, priority: u64) -> (r: Option<u64>)
    ensures
        pq_contents(final(q)) == pq_contents(old(q)).insert(item, priority),
        match r {
            Some(p) => pq_contents(old(q)).contains_pair(item, p),
            None => !pq_contents(old(q)).dom().contains(item),
        },
{
    q.inner.push(item, priority)
}

/// Relies on `PriorityQueue::change_priority`: updates the priority of a
/// present item and returns the old one; a no-op on an absent item.
#[verifier::external_body]
fn pq_change_priority(q: &mut RecencyQueue, item: &PageId, priority: u64) -> (r: Option<u64>)
    ensures
        match r {
            Some(p) => pq_contents(old(q)).contains_pair(*item, p) && pq_contents(final(q))
                == pq_contents(old(q)).insert(*item, priority),
            None => !pq_contents(old(q)).dom().contains(*item) && pq_contents(final(q))
                == pq_contents(old(q)),
        },
{
    q.inner.change_priority(item, priority)
}

/// Relies on `PriorityQueue::peek`: a pair with the greatest priority;
/// `None` exactly when the queue is empty.
#[verifier::external_body]
fn pq_peek(q: &RecencyQueue) -> (r: Option<(PageId, u64)>)
    ensures
        match r {
            Some(pair) => pq_contents(q).contains_pair(pair.0, pair.1) && forall|b: PageId|
                pq_contents(q).dom().contains(b) ==> pq_contents(q)[b] <= pair.1,
            None => pq_contents(q).dom() == Set::<PageId>::empty(),
        },
{
    match q.inner.peek() {
        Some((i, p)) => Some((*i, *p)),
        None => None,
    }
}

/// Relies on `PriorityQueue::pop`: removes and returns a pair with the
/// greatest priority; `None` exactly when the queue is empty.
#[verifier::external_body]
fn pq_pop(q: &mut RecencyQueue) -> (r: Option<(PageId, u64)>)
    ensures
        match r {
            Some(pair) => pq_contents(old(q)).contains_pair(pair.0, pair.1) && (forall|b: PageId|
                pq_contents(old(q)).dom().contains(b) ==> pq_contents(old(q))[b] <= pair.1)
                && pq_contents(final(q)) == pq_contents(old(q)).remove(pair.0),
            None => pq_contents(old(q)).dom() == Set::<PageId>::empty() && pq_contents(final(q))
                == pq_contents(old(q)),
        },
{
    q.inner.pop()
}

/// Relies on `PriorityQueue::remove`: removes the item when present,
/// returning it with its priority.
#[verifier::external_body]
fn pq_remove(q: &mut RecencyQueue, item: &PageId) -> (r: Option<(PageId, u64)>)
    ensures
        pq_contents(final(q)) == pq_contents(old(q)).remove(*item),
        match r {
            Some(pair) => pair.0 == *item && pq_contents(old(q)).contains_pair(*item, pair.1),
            None => !pq_contents(old(q)).dom().contains(*item),
        },
{
    q.inner.remove(item)
}

/// Relies on `PriorityQueue::len`: the number of stored items.
#[verifier::external_body]
fn pq_len(q: &RecencyQueue) -> (r: usize)
    ensures
        r == pq_contents(q).len(),
{
    q.inner.len()
}

/// Tracks how recently each cached page was used. Each use draws a fresh
/// stamp from a logical clock and stores the page under the inverted stamp,
/// so the least recently used page carries the greatest priority.
pub struct UsageTracker {
    pub last_used: RecencyQueue,
    clock: u64,
}

impl UsageTracker {
    /// The tracked pages, each with its inverted recency stamp: the oldest
    /// entry is the one with the greatest value.
    pub closed spec fn model(&self) -> Map<PageId, u64> {
        self.last_used@
    }

    /// How many stamps have been drawn.
    pub closed spec fn spec_clock(&self) -> u64 {
        self.clock
    }

    /// The stamps are pairwise distinct and all drawn from the clock.
    pub open spec fn wf(&self) -> bool {
        &&& self.model().dom().finite()
        &&& forall|a: PageId, b: PageId|
            self.model().dom().contains(a) && self.model().dom().contains(b) && a != b
                ==> self.model()[a] != self.model()[b]
        &&& forall|a: PageId|
            self.model().dom().contains(a) ==> u64::MAX - self.spec_clock()
                < #[trigger] self.model()[a]
    }

    /// How `post` relates to `pre` after one touch of `id`: a present page
    /// gets the freshest stamp; an absent one is left alone. The clock
    /// advances either way.
    pub open spec fn spec_touched(pre: UsageTracker, post: UsageTracker, id: PageId) -> bool {
        &&& post.spec_clock() == pre.spec_clock() + 1
        &&& if pre.model().dom().contains(id) {
            post.model() == pre.model().insert(id, (u64::MAX - pre.spec_clock()) as u64)
        } else {
            post.model() == pre.model()
        }
    }

    pub fn new() -> (r: UsageTracker)
        ensures
            r.wf(),
            r.model() == Map::<PageId, u64>::empty(),
            r.spec_clock() == 0,
    {
        let mut last_used: RecencyQueue = pq_new();
        pq_clear(&mut last_used);
        proof {
            assert(last_used@ =~= Map::<PageId, u64>::empty());
        }
        UsageTracker { last_used, clock: 0 }
    }

    /// Records `page_id` as used just now; a page already present is
    /// re-stamped, as by `touch`.
    pub fn insert(&mut self, page_id: PageId)
        requires
            old(self).wf(),
            old(self).spec_clock() < u64::MAX,
        ensures
            final(self).wf(),
            final(self).model() == old(self).model().insert(
                page_id,
                (u64::MAX - old(self).spec_clock()) as u64,
            ),
            final(self).spec_clock() == old(self).spec_clock() + 1,
    {
        let priority: u64 = u64::MAX - self.clock;
        pq_push(&mut self.last_used, page_id, priority);
        self.clock = self.clock + 1;
    }

    /// Re-stamps `page_id` as used just now; a no-op when it is not
    /// tracked.
    pub fn touch(&mut self, page_id: PageId)
        requires
            old(self).wf(),
            old(self).spec_clock() < u64::MAX,
        ensures
            final(self).wf(),
            UsageTracker::spec_touched(*old(self), *final(self), page_id),
    {
        let priority: u64 = u64::MAX - self.clock;
        pq_change_priority(&mut self.last_used, &page_id, priority);
        self.clock = self.clock + 1;
    }

    /// The least recently used page, without removing it; `None` exactly
    /// when nothing is tracked.
    pub fn peek_lru(&self) -> (r: Option<PageId>)
        requires
            self.wf(),
        ensures
            match r {
                Some(id) => self.model().dom().contains(id) && forall|b: PageId|
                    self.model().dom().contains(b) && b != id ==> self.model()[b] < self.model()[
                    id],
                None => self.model().dom() == Set::<PageId>::empty(),
            },
    {
        match pq_peek(&self.last_used) {
            Some(pair) => Some(pair.0),
            None => None,
        }
    }

    /// Removes and returns the least recently used page with its stamp;
    /// `None` exactly when nothing is tracked.
    pub fn pop_oldest(&mut self) -> (r: Option<(PageId, u64)>)
        requires
            old(self).wf(),
        ensures
            final(self).wf(),
            final(self).spec_clock() == old(self).spec_clock(),
            match r {
                Some(pair) => {
                    &&& old(self).model().contains_pair(pair.0, pair.1)
                    &&& forall|b: PageId|
                        old(self).model().dom().contains(b) && b != pair.0 ==> old(self).model()[b]
                            < pair.1
                    &&& final(self).model() == old(self).model().remove(pair.0)
                },
                None => old(self).model().dom() == Set::<PageId>::empty() && final(self).model()
                    == old(self).model(),
            },
    {
        pq_pop(&mut self.last_used)
    }

    /// Puts back a page under a stamp that was drawn earlier, as when an
    /// eviction scan skips a pinned page.
    pub(crate) fn reinsert(&mut self, page_id: PageId, priority: u64)
        requires
            old(self).wf(),
            !old(self).model().dom().contains(page_id),
            forall|b: PageId|
                old(self).model().dom().contains(b) ==> old(self).model()[b] != priority,
            u64::MAX - old(self).spec_clock() < priority,
        ensures
            final(self).wf(),
            final(self).spec_clock() == old(self).spec_clock(),
            final(self).model() == old(self).model().insert(page_id, priority),
    {
        pq_push(&mut self.last_used, page_id, priority);
    }

    /// Forgets `page_id`.
    pub fn remove(&mut self, page_id: PageId)
        requires
            old(self).wf(),
        ensures
            final(self).wf(),
            final(self).spec_clock() == old(self).spec_clock(),
            final(self).model() == old(self).model().remove(page_id),
    {
        pq_remove(&mut self.last_used, &page_id);
    }

    /// How many stamps have been drawn so far.
    pub fn stamps_drawn(&self) -> (r: u64)
        ensures
            r == self.spec_clock(),
    {
        self.clock
    }

    /// How many pages are tracked.
    pub fn len(&self) -> (r: usize)
        requires
            self.wf(),
        ensures
            r == self.model().len(),
    {
        pq_len(&self.last_used)
    }
}

/// Law: after touching `a`, then `b`, then `c` in a tracker that holds
/// exactly those three pages, `a` carries the strictly greatest stamp, so
/// an eviction peek must return `a`.
pub proof fn lemma_lru_order(
    t0: UsageTracker,
    t1: UsageTracker,
    t2: UsageTracker,
    t3: UsageTracker,
    a: PageId,
    b: PageId,
    c: PageId,
)
    requires
        t0.wf(),
        t1.wf(),
        t2.wf(),
        t3.wf(),
        a != b,
        a != c,
        b != c,
        t0.model().dom().contains(a),
        t0.model().dom().contains(b),
        t0.model().dom().contains(c),
        forall|j: PageId| t0.model().dom().contains(j) ==> j == a || j == b || j == c,
        UsageTracker::spec_touched(t0, t1, a),
        UsageTracker::spec_touched(t1, t2, b),
        UsageTracker::spec_touched(t2, t3, c),
    ensures
        t3.model().dom().contains(a),
        forall|j: PageId|
            t3.model().dom().contains(j) && j != a ==> t3.model()[j] < t3.model()[a],
{
    let c0 = t0.spec_clock() as int;
    assert(t1.model() == t0.model().insert(a, (u64::MAX - c0) as u64));
    assert(t2.model() == t1.model().insert(b, (u64::MAX - (c0 + 1)) as u64));
    assert(t3.model() == t2.model().insert(c, (u64::MAX - (c0 + 2)) as u64));
    assert(t3.model()[a] == u64::MAX - c0);
    assert(t3.model()[b] == u64::MAX - (c0 + 1));
    assert(t3.model()[c] == u64::MAX - (c0 + 2));
    assert forall|j: PageId| t3.model().dom().contains(j) && j != a implies t3.model()[j]
        < t3.model()[a] by {
        assert(t0.model().dom().contains(j));
    }
}

} // verus!
