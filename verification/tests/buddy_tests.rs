use simple_alloc::buddy_alloc::{MAX_ORDER, NR_MAX_ORDER, PAGE_SIZE};
use simple_alloc::{AllocatorError, BuddyAlloc, Layout, LockedBuddy};

fn layout(size: usize, align: usize) -> Layout {
    Layout::from_size_align(size, align).unwrap()
}

/// The free areas hold exactly one block: the whole region at `top`.
fn assert_single_top_block(allocator: &BuddyAlloc, top: usize, start: usize) {
    for k in 0..NR_MAX_ORDER {
        if k == top {
            assert_eq!(allocator.list_areas[k].nr_free, 1);
            assert_eq!(allocator.list_areas[k].head[0].start_addr(), start);
        } else {
            assert_eq!(allocator.list_areas[k].nr_free, 0);
        }
    }
}

#[test]
fn buddy_alloc() {
    const HEAP_SIZE: usize = 512;
    let start: usize = 0x10000;

    let mut allocator = BuddyAlloc::new();
    allocator.init(start, HEAP_SIZE);

    // 512 bytes of 8-byte pages: the whole region is one block of order 6.
    assert_single_top_block(&allocator, 6, start);

    allocator.split_area_to(4).unwrap();

    // Splitting down to order 4 leaves one block at each order in between
    // and two at order 4.
    assert_eq!(allocator.list_areas[6].nr_free, 0);
    assert_eq!(allocator.list_areas[5].nr_free, 1);
    assert_eq!(allocator.list_areas[4].nr_free, 2);

    let t = allocator.list_areas[4].head.last().unwrap().start_addr();

    allocator.combine_free_buddies(t, 4);

    // Everything coalesces back into the single top block.
    assert_single_top_block(&allocator, 6, start);
}

#[test]
fn buddy_full_coalesce() {
    const HEAP_SIZE: usize = 512;
    let start: usize = 0x10000;

    let mut allocator = BuddyAlloc::new();
    allocator.init(start, HEAP_SIZE);

    // Size 11 pads to 16 bytes: order 1.
    let l = layout(11, 1);
    let mut ptrs = Vec::new();
    for _ in 0..4 {
        let p = allocator.try_allocate(l).unwrap();
        assert_eq!((p - start) % 16, 0);
        ptrs.push(p);
    }
    let mut distinct = ptrs.clone();
    distinct.sort();
    distinct.dedup();
    assert_eq!(distinct.len(), 4);

    for p in ptrs {
        allocator.try_deallocate(p, l).unwrap();
    }

    assert_single_top_block(&allocator, 6, start);
}

#[test]
fn buddy_oom_saturation() {
    const HEAP_SIZE: usize = 512;
    let start: usize = 0x10000;

    let mut allocator = BuddyAlloc::new();
    allocator.init(start, HEAP_SIZE);

    // One block of order 6 serves the whole region.
    let l = layout(512, 1);
    let p = allocator.try_allocate(l).unwrap();
    assert_eq!(p, start);

    let r = allocator.try_allocate(l);
    assert!(matches!(r, Err(AllocatorError::Oom(_))));
    let r = allocator.try_allocate(l);
    assert!(matches!(r, Err(AllocatorError::Oom(_))));

    allocator.try_deallocate(p, l).unwrap();
    assert_single_top_block(&allocator, 6, start);
}

#[test]
fn buddy_layout_too_large() {
    let mut allocator = BuddyAlloc::new();
    allocator.init(0x10000, 512);

    // Larger than the largest block any order can offer.
    let r = allocator.try_allocate(layout(PAGE_SIZE << MAX_ORDER, 1));
    let r2 = allocator.try_allocate(layout((PAGE_SIZE << MAX_ORDER) + 1, 1));
    assert!(matches!(r, Err(AllocatorError::Oom(_))));
    assert!(matches!(r2, Err(AllocatorError::LayoutInvalid(_))));
}

#[test]
fn buddy_split_exhausted() {
    let mut allocator = BuddyAlloc::new();
    allocator.init(0x10000, 512);

    let p = allocator.try_allocate(layout(512, 1)).unwrap();
    // With nothing free, splitting cannot stock any order.
    assert!(allocator.split_area_to(0).is_err());
    allocator.try_deallocate(p, layout(512, 1)).unwrap();
}

#[test]
fn buddy_interleaved_pairs() {
    const HEAP_SIZE: usize = 512;
    let start: usize = 0x10000;

    let mut allocator = BuddyAlloc::new();
    allocator.init(start, HEAP_SIZE);

    let small = layout(8, 8);
    let mid = layout(100, 4);

    let a = allocator.try_allocate(small).unwrap();
    let b = allocator.try_allocate(mid).unwrap();
    let c = allocator.try_allocate(small).unwrap();
    assert_ne!(a, c);

    allocator.try_deallocate(b, mid).unwrap();
    allocator.try_deallocate(a, small).unwrap();
    allocator.try_deallocate(c, small).unwrap();

    assert_single_top_block(&allocator, 6, start);
}

#[test]
fn locked_buddy_flavour() {
    const HEAP_SIZE: usize = 512;
    let start: usize = 0x20000;

    let mut allocator = LockedBuddy::new();
    allocator.init(start, HEAP_SIZE);

    assert_eq!(LockedBuddy::size_align(layout(11, 1)).unwrap(), 1);

    let l = layout(11, 1);
    let p = allocator.try_allocate(l).unwrap();
    assert_eq!((p - start) % 16, 0);
    allocator.try_deallocate(p, l).unwrap();
    assert_single_top_block(&allocator.buddy, 6, start);
}
