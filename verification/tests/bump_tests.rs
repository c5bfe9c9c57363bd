use simple_alloc::{
    Alloc, AllocInit, AllocState, Allocator, AllocatorError, BumpAlloc, Layout, LockedBump,
    LocklessBump, align_up,
};

fn layout(size: usize, align: usize) -> Layout {
    Layout::from_size_align(size, align).unwrap()
}

#[test]
fn te() {
    let allocator = Alloc::new(LockedBump::new());
    assert_eq!(allocator.alloc.allocations(), 0);
}

#[test]
fn bump_boundary_conditions() {
    const HEAP_SIZE: usize = 100;
    let start: usize = 0x1000;

    let mut allocator = BumpAlloc::new();
    allocator.init(start, HEAP_SIZE);

    let l = layout(10, 1);
    let mut ptrs = Vec::new();

    loop {
        match allocator.try_allocate(l) {
            Ok(p) => ptrs.push(p),
            Err(_) => break,
        }
    }

    assert!(!ptrs.is_empty());

    assert!(allocator.try_allocate(l).is_err());
}

#[test]
fn bump_saturation_addresses() {
    const HEAP_SIZE: usize = 100;
    let start: usize = 0x1000;

    let mut allocator = BumpAlloc::new();
    allocator.init(start, HEAP_SIZE);

    for i in 0..10 {
        let p = allocator.try_allocate(layout(10, 1)).unwrap();
        assert_eq!(p, start + 10 * i);
    }
    assert!(matches!(
        allocator.try_allocate(layout(10, 1)),
        Err(AllocatorError::Oom(_))
    ));
    // Saturated: the same request keeps failing the same way.
    assert!(matches!(
        allocator.try_allocate(layout(10, 1)),
        Err(AllocatorError::Oom(_))
    ));
}

#[test]
fn bump_reset_law() {
    const HEAP_SIZE: usize = 100;
    let start: usize = 0x1000;

    let mut allocator = BumpAlloc::new();
    allocator.init(start, HEAP_SIZE);

    let l = layout(10, 1);
    let mut ptrs = Vec::new();
    for _ in 0..10 {
        ptrs.push(allocator.try_allocate(l).unwrap());
    }
    assert!(allocator.try_allocate(l).is_err());

    for p in ptrs {
        allocator.try_deallocate(p, l).unwrap();
    }

    assert_eq!(allocator.remaining(), HEAP_SIZE);
    assert_eq!(allocator.allocations(), 0);
    let p = allocator.try_allocate(l).unwrap();
    assert_eq!(p, start);
    assert_eq!(allocator.remaining(), 90);
}

#[test]
fn bump_overflow_guard() {
    let start: usize = usize::MAX - 127;
    let mut allocator = BumpAlloc::new();
    allocator.init(start, 64);

    // Rounding the cursor up and adding the size would wrap the address
    // space: the engine reports the wrap, not exhaustion.
    let r = allocator.try_allocate(layout(usize::MAX, 1));
    assert_eq!(r, Err(AllocatorError::Overflowed));

    // A request that is merely too large for the region is exhaustion.
    let r = allocator.try_allocate(layout(65, 1));
    assert!(matches!(r, Err(AllocatorError::Oom(_))));
}

#[test]
fn bump_null_before_init() {
    let mut allocator = BumpAlloc::new();
    let r = allocator.try_allocate(layout(0, 1));
    assert_eq!(r, Err(AllocatorError::Null));
}

#[test]
fn bump_determinism() {
    let mut a = BumpAlloc::new();
    let mut b = BumpAlloc::new();
    a.init(0x2000, 256);
    b.init(0x2000, 256);

    let seq = [layout(5, 1), layout(8, 8), layout(24, 4), layout(1, 2)];
    for l in seq {
        assert_eq!(a.try_allocate(l), b.try_allocate(l));
    }
    assert_eq!(a.allocations(), b.allocations());
    assert_eq!(a.remaining(), b.remaining());
}

#[test]
fn bump_non_overlap() {
    let mut allocator = BumpAlloc::new();
    allocator.init(0x3000, 256);

    let l1 = layout(24, 8);
    let l2 = layout(17, 4);
    let p1 = allocator.try_allocate(l1).unwrap();
    let p2 = allocator.try_allocate(l2).unwrap();
    assert!(p1 + 24 <= p2);
}

#[test]
fn locked_bump_flavour() {
    let mut allocator = Alloc::new(LockedBump::new());
    allocator.init(0x4000, 64);
    let p = allocator.try_allocate(layout(16, 8)).unwrap();
    assert_eq!(p, 0x4000);
    assert_eq!(allocator.allocations(), 1);
    assert_eq!(allocator.remaining(), 48);
    allocator.try_deallocate(p, layout(16, 8)).unwrap();
    assert_eq!(allocator.allocations(), 0);
    assert_eq!(allocator.remaining(), 64);
}

#[test]
fn lockless_bump_drain() {
    // Sixteen workers' worth of requests drained through the lock-free
    // flavour's committed transitions: a 1024-byte region serves exactly
    // 128 eight-byte allocations, all distinct and 8-byte aligned.
    const HEAP_SIZE: usize = 1024;
    let start: usize = 0x8000;

    let mut allocator = LocklessBump::new();
    allocator.init(start, HEAP_SIZE);

    let l = layout(8, 8);
    let mut ptrs = Vec::new();
    loop {
        match allocator.try_allocate(l) {
            Ok(p) => ptrs.push(p),
            Err(e) => {
                assert!(matches!(e, AllocatorError::Oom(_)));
                break;
            }
        }
    }
    assert_eq!(ptrs.len(), 128);
    for (i, p) in ptrs.iter().enumerate() {
        assert_eq!(p % 8, 0);
        assert_eq!(*p, start + 8 * i);
    }
    let mut sorted = ptrs.clone();
    sorted.dedup();
    assert_eq!(sorted.len(), 128);
}

#[test]
fn align_up_values() {
    assert_eq!(align_up(0, 1), 0);
    assert_eq!(align_up(7, 1), 7);
    assert_eq!(align_up(5, 8), 8);
    assert_eq!(align_up(8, 8), 8);
    assert_eq!(align_up(9, 8), 16);
    assert_eq!(align_up(1, 4096), 4096);
}

#[test]
fn layout_from_size_align() {
    assert!(Layout::from_size_align(10, 0).is_none());
    assert!(Layout::from_size_align(10, 3).is_none());
    let l = Layout::from_size_align(10, 4).unwrap();
    assert_eq!(l.size, 10);
    assert_eq!(l.align, 4);
}
