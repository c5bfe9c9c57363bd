use simple_alloc::{AllocState, Allocator, AllocatorError, ConstBumpAlloc, Layout};

fn layout(size: usize, align: usize) -> Layout {
    Layout::from_size_align(size, align).unwrap()
}

#[test]
fn const_bump_basic() {
    let mut allocator: ConstBumpAlloc<100> = ConstBumpAlloc::new();
    assert_eq!(allocator.heap_start(), 0);
    assert_eq!(allocator.heap_end(), 100);
    assert_eq!(allocator.next(), 0);
    assert_eq!(allocator.remaining(), 100);

    let p = allocator.try_allocate(layout(10, 1)).unwrap();
    assert_eq!(p, 0);
    assert_eq!(allocator.next(), 10);
    assert_eq!(allocator.allocations(), 1);
    assert_eq!(allocator.remaining(), 90);
}

#[test]
fn const_bump_boundary_conditions() {
    let mut allocator: ConstBumpAlloc<100> = ConstBumpAlloc::new();

    let l = layout(10, 1);
    let mut ptrs = Vec::new();
    loop {
        match allocator.try_allocate(l) {
            Ok(p) => ptrs.push(p),
            Err(_) => break,
        }
    }
    assert_eq!(ptrs.len(), 10);
    assert!(matches!(
        allocator.try_allocate(l),
        Err(AllocatorError::Oom(_))
    ));
}

#[test]
fn const_bump_reset() {
    let mut allocator: ConstBumpAlloc<64> = ConstBumpAlloc::new();
    allocator.try_allocate(layout(8, 8)).unwrap();
    allocator.try_allocate(layout(8, 8)).unwrap();
    assert_eq!(allocator.allocations(), 2);

    allocator.reset();
    assert_eq!(allocator.allocations(), 0);
    assert_eq!(allocator.next(), 0);
    assert_eq!(allocator.remaining(), 64);
}

#[test]
fn const_bump_dealloc_counts_down() {
    let mut allocator: ConstBumpAlloc<64> = ConstBumpAlloc::new();
    let l = layout(8, 8);
    let p1 = allocator.try_allocate(l).unwrap();
    let p2 = allocator.try_allocate(l).unwrap();
    assert_ne!(p1, p2);

    allocator.try_deallocate(p2, l).unwrap();
    assert_eq!(allocator.next(), 16);
    allocator.try_deallocate(p1, l).unwrap();
    // The last release empties the live set and resets the cursor.
    assert_eq!(allocator.next(), 0);
    assert_eq!(allocator.remaining(), 64);
}

#[test]
fn const_bump_zeroed_round_trip() {
    let mut allocator: ConstBumpAlloc<64> = ConstBumpAlloc::new();

    // Dirty the storage, then demand zeroed memory over it.
    for i in 0..64 {
        allocator.heap[i] = 0xA5;
    }
    let p = allocator.try_allocate_zeroed(layout(16, 8)).unwrap();
    for i in p..p + 16 {
        assert_eq!(allocator.heap[i], 0);
    }
    // Bytes outside the block keep their contents.
    for i in p + 16..64 {
        assert_eq!(allocator.heap[i], 0xA5);
    }

    // Zeroed release blanks the block before handing it back.
    for i in p..p + 16 {
        allocator.heap[i] = 0x5A;
    }
    allocator.try_deallocate_zeroed(p, layout(16, 8)).unwrap();
    for i in p..p + 16 {
        assert_eq!(allocator.heap[i], 0);
    }
}
