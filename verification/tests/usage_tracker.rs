use paged_store::usage_tracker::{InverseSystemTime, UsageTracker};

#[test]
fn test_inversion() {
    let t1 = InverseSystemTime::now();
    let t2 = InverseSystemTime { time: 0 };

    assert!(t1 < t2);
    assert!(t2 > t1);
}

#[test]
fn test_equality() {
    let time = InverseSystemTime::now().time;

    let t1 = InverseSystemTime { time };
    let t2 = InverseSystemTime { time };

    assert!(t1 == t2);
}

#[test]
fn oldest_tracked_page_wins_the_peek() {
    let mut tracker = UsageTracker::new();
    tracker.insert(10);
    tracker.insert(20);
    tracker.insert(30);

    tracker.touch(10);
    tracker.touch(20);
    tracker.touch(30);

    // After touching 10, then 20, then 30, page 10 is the oldest.
    assert_eq!(Some(10), tracker.peek_lru());
    assert_eq!(3, tracker.len());

    let (oldest, _) = tracker.pop_oldest().unwrap();
    assert_eq!(10, oldest);
    assert_eq!(Some(20), tracker.peek_lru());
}

#[test]
fn touching_an_absent_page_changes_nothing() {
    let mut tracker = UsageTracker::new();
    tracker.insert(1);
    tracker.touch(99);
    assert_eq!(1, tracker.len());
    assert_eq!(Some(1), tracker.peek_lru());
}

#[test]
fn removing_a_page_forgets_it() {
    let mut tracker = UsageTracker::new();
    tracker.insert(1);
    tracker.insert(2);
    tracker.remove(1);
    assert_eq!(1, tracker.len());
    assert_eq!(Some(2), tracker.peek_lru());
    tracker.remove(2);
    assert_eq!(None, tracker.peek_lru());
    assert_eq!(None, tracker.pop_oldest());
}

#[test]
fn reinserting_a_page_restamps_it() {
    let mut tracker = UsageTracker::new();
    tracker.insert(1);
    tracker.insert(2);
    // Page 1 is the oldest; using it again makes page 2 the oldest.
    assert_eq!(Some(1), tracker.peek_lru());
    tracker.insert(1);
    assert_eq!(Some(2), tracker.peek_lru());
    assert_eq!(2, tracker.len());
}
