use pid_allocator::{PidAllocator, PidError, PidHandle};

#[test]
fn should_alloc_and_dealloc() {
    let mut allocator = PidAllocator::new();

    let pid = allocator.allocate();
    assert_eq!(0, pid.0);

    {
        let pid = allocator.allocate();
        assert_eq!(1, pid.0);
        assert!(allocator.release(pid).is_ok());
    }

    let pid = allocator.allocate();
    assert_eq!(1, pid.0);

    let pid = allocator.allocate();
    assert_eq!(2, pid.0);
}

#[test]
fn fresh_allocations_count_upward() {
    let mut allocator = PidAllocator::new();
    for expected in 0..6usize {
        let pid = allocator.allocate();
        assert_eq!(expected, pid.id());
    }
}

#[test]
fn lifo_reuse_order() {
    let mut allocator = PidAllocator::new();
    let h0 = allocator.allocate();
    let h1 = allocator.allocate();
    let h2 = allocator.allocate();
    assert_eq!(0, h0.id());
    assert_eq!(1, h1.id());
    assert_eq!(2, h2.id());

    assert!(allocator.release(h1).is_ok());
    assert!(allocator.release(h0).is_ok());

    let first = allocator.allocate();
    let second = allocator.allocate();
    assert_eq!(0, first.id());
    assert_eq!(1, second.id());
}

#[test]
fn release_then_alloc_returns_same_id() {
    let mut allocator = PidAllocator::new();
    let _h0 = allocator.allocate();
    let h1 = allocator.allocate();
    assert_eq!(1, h1.id());

    assert!(allocator.release(h1).is_ok());
    let again = allocator.allocate();
    assert_eq!(1, again.id());
}

#[test]
fn releasing_a_never_issued_id_is_rejected() {
    let mut allocator = PidAllocator::new();
    assert_eq!(Err(PidError::NeverIssued), allocator.dealloc(0));

    let _h0 = allocator.allocate();
    let _h1 = allocator.allocate();
    assert_eq!(Err(PidError::NeverIssued), allocator.dealloc(7));
}

#[test]
fn releasing_an_id_twice_is_rejected() {
    let mut allocator = PidAllocator::new();
    let h0 = allocator.allocate();
    let id = h0.id();
    assert_eq!(Ok(()), allocator.release(h0));
    assert_eq!(Err(PidError::DoubleFree), allocator.dealloc(id));
}

#[test]
fn releasing_a_forged_duplicate_handle_is_rejected() {
    let mut allocator = PidAllocator::new();
    let h0 = allocator.allocate();
    let forged = PidHandle(h0.id());
    assert_eq!(Ok(()), allocator.release(h0));
    assert_eq!(Err(PidError::DoubleFree), allocator.release(forged));
}

#[test]
fn failed_release_leaves_the_allocator_unchanged() {
    let mut allocator = PidAllocator::new();
    let h0 = allocator.allocate();
    assert_eq!(Err(PidError::NeverIssued), allocator.dealloc(9));
    assert_eq!(1, allocator.next_unused_id());

    assert!(allocator.release(h0).is_ok());
    assert_eq!(Err(PidError::DoubleFree), allocator.dealloc(0));

    // The recycle list still holds exactly one pending id, 0.
    let again = allocator.allocate();
    assert_eq!(0, again.id());
    let fresh = allocator.allocate();
    assert_eq!(1, fresh.id());
}

#[test]
fn counter_never_decreases() {
    let mut allocator = PidAllocator::new();
    assert_eq!(0, allocator.next_unused_id());
    let h0 = allocator.allocate();
    let h1 = allocator.allocate();
    assert_eq!(2, allocator.next_unused_id());

    // Releases and recycled allocations leave the counter where it was.
    assert!(allocator.release(h1).is_ok());
    assert_eq!(2, allocator.next_unused_id());
    assert!(allocator.release(h0).is_ok());
    assert_eq!(2, allocator.next_unused_id());
    let _h0 = allocator.allocate();
    assert_eq!(2, allocator.next_unused_id());

    // Only a fresh allocation extends it.
    let _h1 = allocator.allocate();
    let h2 = allocator.allocate();
    assert_eq!(2, h2.id());
    assert_eq!(3, allocator.next_unused_id());
}

#[test]
fn handle_reports_its_id() {
    let mut allocator = PidAllocator::new();
    let handle = allocator.allocate();
    assert_eq!(handle.0, handle.id());
    assert_eq!(0, handle.id());

    // Moving a handle transfers ownership without touching the allocator.
    let moved = handle;
    assert_eq!(0, moved.id());
    assert_eq!(1, allocator.next_unused_id());
}
