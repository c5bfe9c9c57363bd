use simple_alloc::{AllocatorError, Layout, LinkedListAlloc, LockedLinkedList, Node};

fn layout(size: usize, align: usize) -> Layout {
    Layout::from_size_align(size, align).unwrap()
}

fn layout_u32() -> Layout {
    layout(4, 4)
}

fn layout_u64() -> Layout {
    layout(8, 8)
}

#[test]
fn linked_list_combine_free_regions() {
    const HEAP_SIZE: usize = 64;
    let start: usize = 0x1000;

    let mut allocator = LinkedListAlloc::new();
    allocator.init(start, HEAP_SIZE);

    let ptr1 = allocator.try_allocate(layout_u32());
    let ptr2 = allocator.try_allocate(layout_u32());
    let ptr3 = allocator.try_allocate(layout_u32());
    let ptr4 = allocator.try_allocate(layout_u32());

    assert!(ptr1.is_ok());
    assert!(ptr2.is_ok());
    assert!(ptr3.is_ok());
    assert!(ptr4.is_ok());

    allocator.try_deallocate(ptr4.unwrap(), layout_u32()).unwrap();
    allocator.try_deallocate(ptr3.unwrap(), layout_u32()).unwrap();
    allocator.try_deallocate(ptr2.unwrap(), layout_u32()).unwrap();
    allocator.try_deallocate(ptr1.unwrap(), layout_u32()).unwrap();

    let ptr5 = allocator.try_allocate(layout_u64());
    let ptr6 = allocator.try_allocate(layout_u64());
    let ptr7 = allocator.try_allocate(layout_u64());
    let ptr8 = allocator.try_allocate(layout_u64());

    assert!(ptr5.is_ok());
    assert!(ptr6.is_ok());
    assert!(ptr7.is_ok());
    assert!(ptr8.is_ok());

    allocator.try_deallocate(ptr8.unwrap(), layout_u64()).unwrap();
    allocator.try_deallocate(ptr7.unwrap(), layout_u64()).unwrap();
    allocator.try_deallocate(ptr6.unwrap(), layout_u64()).unwrap();
    allocator.try_deallocate(ptr5.unwrap(), layout_u64()).unwrap();

    assert_eq!(allocator.head.len(), 1);
    assert_eq!(allocator.head[0], Node::new(start, HEAP_SIZE));
}

#[test]
fn linked_list_boundary_conditions() {
    const HEAP_SIZE: usize = 64;
    let start: usize = 0x1000;

    let mut allocator = LinkedListAlloc::new();
    allocator.init(start, HEAP_SIZE);

    let l = layout(10, 1);
    let mut ptrs = Vec::new();

    loop {
        match allocator.try_allocate(l) {
            Ok(p) => ptrs.push(p),
            Err(_) => break,
        }
    }

    assert!(!ptrs.is_empty());

    assert!(allocator.try_allocate(l).is_err());
}

#[test]
fn linked_list_mixed_allocations() {
    const HEAP_SIZE: usize = 64;
    let start: usize = 0x1000;

    let mut allocator = LinkedListAlloc::new();
    allocator.init(start, HEAP_SIZE);

    let layout_array_u8 = layout(3, 1);
    let layout_u16 = layout(2, 2);

    let ptr1_u64 = allocator.try_allocate(layout_u64());
    let ptr_array_u8 = allocator.try_allocate(layout_array_u8);
    let ptr1_u16 = allocator.try_allocate(layout_u16);
    let ptr2_u64 = allocator.try_allocate(layout_u64());

    assert!(ptr1_u64.is_ok());
    assert!(ptr_array_u8.is_ok());
    assert!(ptr1_u16.is_ok());
    assert!(ptr2_u64.is_ok());

    allocator.try_deallocate(ptr2_u64.unwrap(), layout_u64()).unwrap();
    allocator
        .try_deallocate(ptr_array_u8.unwrap(), layout_array_u8)
        .unwrap();

    let ptr_u32 = allocator.try_allocate(layout_u32());

    assert!(ptr_u32.is_ok());
    // The new block reuses the space the freed array occupied.
    assert_eq!(ptr_u32.unwrap(), ptr_array_u8.unwrap());
}

#[test]
fn linked_list_free_list_closure() {
    // Four blocks carved out and released in reverse order coalesce back
    // into one region covering the whole heap.
    const HEAP_SIZE: usize = 64;
    let start: usize = 0x2000;

    let mut allocator = LinkedListAlloc::new();
    allocator.init(start, HEAP_SIZE);

    let mut ptrs = Vec::new();
    for i in 0..4 {
        let p = allocator.try_allocate(layout_u32()).unwrap();
        assert_eq!(p, start + 16 * i);
        ptrs.push(p);
    }
    assert_eq!(allocator.head.len(), 0);

    for p in ptrs.into_iter().rev() {
        allocator.try_deallocate(p, layout_u32()).unwrap();
    }

    assert_eq!(allocator.head.len(), 1);
    assert_eq!(allocator.head[0], Node::new(start, HEAP_SIZE));
}

#[test]
fn linked_list_layout_invalid() {
    let start: usize = 0x1000;
    let mut allocator = LinkedListAlloc::new();
    allocator.init(start, 64);

    // Padding the size to the raised alignment would wrap the address
    // space.
    let r = allocator.try_allocate(layout(usize::MAX, 8));
    assert!(matches!(r, Err(AllocatorError::LayoutInvalid(_))));
}

#[test]
fn linked_list_oom_saturation() {
    let start: usize = 0x1000;
    let mut allocator = LinkedListAlloc::new();
    allocator.init(start, 64);

    let p = allocator.try_allocate(layout(64, 1)).unwrap();
    assert_eq!(p, start);
    let r = allocator.try_allocate(layout(1, 1));
    assert!(matches!(r, Err(AllocatorError::Oom(_))));
    let r = allocator.try_allocate(layout(1, 1));
    assert!(matches!(r, Err(AllocatorError::Oom(_))));
}

#[test]
fn locked_linked_list_flavour() {
    let start: usize = 0x3000;
    let mut allocator = LockedLinkedList::new();
    allocator.init(start, 64);
    let p = allocator.try_allocate(layout(16, 8)).unwrap();
    assert_eq!(p, start);
    allocator.try_deallocate(p, layout(16, 8)).unwrap();
    assert_eq!(allocator.list.head.len(), 1);
    assert_eq!(allocator.list.head[0], Node::new(start, 64));
}
