use index_core::approx_priority_queue::{ApproximatePriorityQueue, SIZE};

#[test]
fn test_add() {
    let mut a = ApproximatePriorityQueue::new();
    a.add(2, 2).unwrap();
    assert!(!a.is_empty());
    a.add(1, 1).unwrap();
    a.add(0, 0).unwrap();

    // Adding 0 should increase the size of the vector by 1.
    assert_eq!(a.pages.len(), SIZE + 1);

    let mut v = vec![None; SIZE - 2];
    v.push(Some(2));
    v.push(Some(1));
    v.push(Some(0));
    assert_eq!(a.pages, v);

    assert_eq!(a.poll(|_| true).unwrap().unwrap(), 2);
    assert_eq!(a.poll(|_| true).unwrap().unwrap(), 1);
    assert_eq!(a.poll(|_| true).unwrap().unwrap(), 0);
    assert!(a.is_empty());
}

#[test]
fn test_collision() {
    let mut a = ApproximatePriorityQueue::new();
    a.add(2, 2).unwrap();
    assert!(!a.is_empty());
    a.add(1, 1).unwrap();
    a.add(0, 0).unwrap();
    a.add(3, 3).unwrap(); // This collides with 2 and therefore gets pushed.

    assert_eq!(a.pages.len(), SIZE + 2);
    let mut v = vec![None; SIZE - 2];
    v.push(Some(2));
    v.push(Some(1));
    v.push(Some(0));
    v.push(Some(3));
    assert_eq!(a.pages, v);
}

#[test]
fn test_remove() {
    let mut a = ApproximatePriorityQueue::new();
    a.add(2, 2).unwrap();
    assert!(!a.is_empty());
    a.add(1, 1).unwrap();
    a.add(0, 0).unwrap();
    a.add(3, 3).unwrap();

    assert!(a.remove(2));
    assert!(!a.remove(2));
    assert!(a.remove(3));
    assert!(a.remove(0));
    assert!(a.remove(1));
    assert_eq!(a.pages.len(), SIZE);
}

#[test]
fn test_predicate() {
    let mut a = ApproximatePriorityQueue::new();
    a.add(2, 2).unwrap();
    assert!(!a.is_empty());
    a.add(1, 1).unwrap();
    a.add(0, 0).unwrap();
    a.add(3, 3).unwrap();

    assert_eq!(a.poll(|x| x % 2 == 1).unwrap().unwrap(), 1);
    assert_eq!(a.poll(|x| x % 2 == 0).unwrap().unwrap(), 2);
    assert_eq!(a.poll(|x| x % 2 == 1).unwrap().unwrap(), 3);
    assert_eq!(a.poll(|x| x % 2 == 0).unwrap().unwrap(), 0);
}

#[test]
fn test_new_queue_is_empty() {
    let mut a: ApproximatePriorityQueue<i32> = ApproximatePriorityQueue::new();
    assert!(a.is_empty());
    assert_eq!(a.pages.len(), SIZE);
    assert!(a.poll(|_| true).unwrap().is_none());
    assert!(!a.remove(5));
}

#[test]
fn test_weight_bucket_mapping() {
    // The leading-zero count of the weight picks the bucket: weight 255
    // maps to bucket 0, weight 1 to bucket 7; a taken bucket falls through
    // to the nearest free one on the right.
    let mut a = ApproximatePriorityQueue::new();
    a.add(100, 255).unwrap();
    assert_eq!(a.pages[0], Some(100));
    a.add(101, 1).unwrap();
    assert_eq!(a.pages[7], Some(101));
    a.add(102, 128).unwrap();
    assert_eq!(a.pages[1], Some(102));
    a.add(103, 64).unwrap();
    assert_eq!(a.pages[2], Some(103));
}

#[test]
fn test_is_empty_quirk() {
    // A queue holding only overflow entries reports empty, yet poll and
    // remove can still hand entries out.
    let mut a = ApproximatePriorityQueue::new();
    a.add(10, 2).unwrap(); // bucket 6
    a.add(20, 2).unwrap(); // collides, bucket 7
    a.add(30, 2).unwrap(); // collides, no free bucket right of 6: overflow
    assert!(!a.is_empty());
    assert!(a.remove(10));
    assert!(a.remove(20));

    assert!(a.is_empty());
    assert_eq!(a.pages.len(), SIZE + 1);
    assert_eq!(a.poll(|_| true).unwrap(), Some(30));
    assert!(a.is_empty());
    assert!(a.poll(|_| true).unwrap().is_none());
}

#[test]
fn test_weight_zero_goes_to_overflow() {
    // Weight 0 has a leading-zero count of 8, which selects no fast-path
    // bucket at all.
    let mut a = ApproximatePriorityQueue::new();
    a.add(7, 0).unwrap();
    assert!(a.is_empty());
    assert_eq!(a.pages.len(), SIZE + 1);
    assert_eq!(a.poll(|_| true).unwrap(), Some(7));
}

#[test]
fn test_poll_no_match_leaves_queue_alone() {
    let mut a = ApproximatePriorityQueue::new();
    a.add(4, 5).unwrap();
    assert!(a.poll(|x| *x == 99).unwrap().is_none());
    assert!(!a.is_empty());
    assert_eq!(a.poll(|_| true).unwrap(), Some(4));
}

#[test]
fn test_overflow_polled_most_recent_first() {
    // With the fast path drained of matches, overflow entries come back in
    // reverse insertion order.
    let mut a = ApproximatePriorityQueue::new();
    a.add(1, 0).unwrap();
    a.add(2, 0).unwrap();
    a.add(3, 0).unwrap();
    assert_eq!(a.poll(|_| true).unwrap(), Some(3));
    assert_eq!(a.poll(|_| true).unwrap(), Some(2));
    assert_eq!(a.poll(|_| true).unwrap(), Some(1));
    assert!(a.poll(|_| true).unwrap().is_none());
}

#[test]
fn test_remove_overflow_shrinks_tail() {
    let mut a = ApproximatePriorityQueue::new();
    a.add(1, 0).unwrap();
    a.add(2, 0).unwrap();
    assert_eq!(a.pages.len(), SIZE + 2);
    assert!(a.remove(1));
    assert_eq!(a.pages.len(), SIZE + 1);
    assert!(!a.remove(1));
    assert!(a.remove(2));
    assert_eq!(a.pages.len(), SIZE);
}
