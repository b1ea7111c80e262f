use blitz::freelist::{Allocation, Allocator};

#[test]
fn test_freelist() {
    let mut a = Allocator::new(64, 4);
    let alloc1 = a.allocate(16).unwrap();
    let alloc2 = a.allocate(8).unwrap();
    let alloc3 = a.allocate(16).unwrap();
    let alloc4 = a.allocate(4).unwrap();

    assert_eq!(alloc1, Allocation { offset: 0, size: 16 });
    assert_eq!(alloc2, Allocation { offset: 16, size: 8 });
    assert_eq!(alloc3, Allocation { offset: 24, size: 16 });
    assert_eq!(alloc4, Allocation { offset: 40, size: 4 });

    a.free(alloc2);
    let alloc5 = a.allocate(4).unwrap();
    let alloc6 = a.allocate(16).unwrap();

    assert_eq!(alloc5, Allocation { offset: 16, size: 4 });
    assert_eq!(alloc6, Allocation { offset: 44, size: 16 });

    let overallocate = a.allocate(50);
    assert_eq!(overallocate, None);
}

#[test]
fn allocation_is_aligned_after_padding() {
    let mut a = Allocator::new(64, 16);
    assert_eq!(a.allocate(3), Some(Allocation { offset: 0, size: 3 }));
    // the next block starts at 3 and is padded up to 16
    assert_eq!(a.allocate(8), Some(Allocation { offset: 16, size: 8 }));
    // free blocks are now [3, 16) and [24, 64); the second pads 24 up to 32
    assert_eq!(a.allocate(40), None);
    assert_eq!(a.allocate(32), Some(Allocation { offset: 32, size: 32 }));
}

#[test]
fn free_then_allocate_reuses_range() {
    let mut a = Allocator::new(32, 1);
    let x = a.allocate(10).unwrap();
    let y = a.allocate(10).unwrap();
    assert_eq!(y, Allocation { offset: 10, size: 10 });
    a.free(x);
    a.free(y);
    // everything merged back into one block
    assert_eq!(a.allocate(32), Some(Allocation { offset: 0, size: 32 }));
    assert_eq!(a.allocate(1), None);
}

#[test]
fn allocate_none_when_nothing_fits() {
    let mut a = Allocator::new(8, 4);
    assert_eq!(a.allocate(9), None);
    assert_eq!(a.allocate(8), Some(Allocation { offset: 0, size: 8 }));
    assert_eq!(a.allocate(0), None);
}

#[test]
fn round_trip_restores_free_space() {
    let mut a = Allocator::new(100, 8);
    let first = a.allocate(5).unwrap();
    let second = a.allocate(20).unwrap();
    assert_eq!(second, Allocation { offset: 8, size: 20 });
    a.free(second);
    assert_eq!(a.allocate(20), Some(Allocation { offset: 8, size: 20 }));
    a.free(first);
    assert_eq!(a.allocate(5), Some(Allocation { offset: 0, size: 5 }));
}

#[test]
fn free_blocks_and_live_allocations_cover_the_range() {
    let mut a = Allocator::new(64, 4);
    let first = a.allocate(16).unwrap();
    let second = a.allocate(8).unwrap();
    assert!(a.is_releasable(first));
    assert!(a.is_releasable(second));
    // The rest of the range is free: it cannot be given back, and one
    // allocation takes all of it.
    assert!(!a.is_releasable(Allocation { offset: 24, size: 40 }));
    let rest = a.allocate(40).unwrap();
    assert_eq!(rest, Allocation { offset: 24, size: 40 });
    assert_eq!(a.allocate(1), None);
    a.free(first);
    assert_eq!(a.allocate(16), Some(Allocation { offset: 0, size: 16 }));
}

#[test]
fn an_empty_allocation_inside_a_free_block_is_not_releasable() {
    let mut a = Allocator::new(64, 4);
    let empty = a.allocate(0).unwrap();
    assert_eq!(empty, Allocation { offset: 0, size: 0 });
    assert!(!a.is_releasable(empty));
    // An empty allocation at the end of the range sits in a gap.
    let all = a.allocate(64).unwrap();
    assert_eq!(all, Allocation { offset: 0, size: 64 });
    assert!(a.is_releasable(Allocation { offset: 64, size: 0 }));
}
