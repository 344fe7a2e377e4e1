use index_core::doc_writer_per_thread_pool::DocumentsWriterPerThreadPool;

#[test]
fn test_bool() {
    let mut bool = DocumentsWriterPerThreadPool::new();

    assert_eq!(bool.set_bit(5), true);
    assert_eq!(bool.set_bit(5), false);
    assert_eq!(bool.set_bit(6), true);

    assert_eq!(bool.unset_bit(5), true);
    assert_eq!(bool.set_bit(5), true);

    assert_eq!(bool.set_bit(63), true);
}

#[test]
fn unset_of_free_slot_reports_false() {
    let mut pool = DocumentsWriterPerThreadPool::new();
    assert_eq!(pool.unset_bit(0), false);
    assert_eq!(pool.set_bit(0), true);
    assert_eq!(pool.unset_bit(0), true);
    assert_eq!(pool.unset_bit(0), false);
}

#[test]
fn slots_are_independent() {
    let mut pool = DocumentsWriterPerThreadPool::new();
    assert_eq!(pool.set_bit(0), true);
    assert_eq!(pool.set_bit(63), true);
    assert_eq!(pool.unset_bit(0), true);
    // Releasing slot 0 leaves slot 63 claimed.
    assert_eq!(pool.set_bit(63), false);
    assert_eq!(pool.unset_bit(63), true);
}
