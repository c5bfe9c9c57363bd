//! The mutex-guarded free-list flavour. The engine is sequential
//! bookkeeping; the embedding that shares one instance across threads wraps
//! it in a spinlock and calls these methods inside the critical section.

use vstd::prelude::*;

use crate::common::{AllocInit, Allocator, AllocatorError, Layout};
use crate::linked_list_alloc::{ll_allocate, ll_deallocate, ll_size_align, LinkedListAlloc, Node};

verus! {

/// The engine of the mutex-guarded free-list flavour.
#[derive(Debug)]
pub struct LockedLinkedList {
    pub list: LinkedListAlloc,
}

impl LockedLinkedList {
    /// Creates a new empty engine; it must be initialized before use.
    pub fn new() -> (r: LockedLinkedList)
        ensures
            r.list.inv(),
            r.list.start == 0,
            r.list.end == 0,
            r.list.head@.len() == 0,
    {
        LockedLinkedList { list: LinkedListAlloc::new() }
    }

    /// Binds the engine to the region `[start, start + size)`.
    pub fn init(&mut self, start: usize, size: usize)
        requires
            old(self).list.inv(),
            old(self).list.head@.len() == 0,
            start != 0,
            start % 8 == 0,
            size >= crate::linked_list_alloc::NODE_SIZE,
            start + size <= usize::MAX,
        ensures
            final(self).list.inv(),
            final(self).list.start == start,
            final(self).list.end == start + size,
            final(self).list.head@ == old(self).list.head@.insert(
                0,
                Node { addr: start, size },
            ),
    {
        self.list.init(start, size);
    }

    /// Satisfies the request from the first fitting free region.
    pub fn try_allocate(&mut self, layout: Layout) -> (r: Result<usize, AllocatorError>)
        requires
            old(self).list.inv(),
            layout.wf(),
        ensures
            final(self).list.inv(),
            final(self).list.start == old(self).list.start,
            final(self).list.end == old(self).list.end,
            final(self).list.head@ == ll_allocate(old(self).list.head@, layout).0,
            r == ll_allocate(old(self).list.head@, layout).1,
    {
        self.list.try_allocate(layout)
    }

    /// Returns the padded block to the chain and coalesces once.
    pub fn try_deallocate(&mut self, ptr: usize, layout: Layout) -> (r: Result<
        (),
        AllocatorError,
    >)
        requires
            old(self).list.inv(),
            layout.wf(),
            ptr != 0,
            ptr % 8 == 0,
            crate::common::align_up_spec(layout.size as int, ll_size_align(layout).1)
                <= usize::MAX,
            old(self).list.start <= ptr,
            ptr + ll_size_align(layout).0 <= old(self).list.end,
        ensures
            final(self).list.inv(),
            final(self).list.start == old(self).list.start,
            final(self).list.end == old(self).list.end,
            final(self).list.head@ == ll_deallocate(old(self).list.head@, ptr, layout),
            r is Ok,
    {
        self.list.try_deallocate(ptr, layout)
    }
}

impl Allocator for LockedLinkedList {
    open spec fn wf(&self) -> bool {
        self.list.inv()
    }

    open spec fn region_start(&self) -> int {
        self.list.start as int
    }

    open spec fn region_end(&self) -> int {
        self.list.end as int
    }

    open spec fn can_allocate(&self, layout: Layout) -> bool {
        true
    }

    open spec fn can_deallocate(&self, ptr: usize, layout: Layout) -> bool {
        self.list.can_deallocate(ptr, layout)
    }

    fn try_allocate(&mut self, layout: Layout) -> (r: Result<usize, AllocatorError>) {
        self.list.try_allocate(layout)
    }

    fn try_deallocate(&mut self, ptr: usize, layout: Layout) -> (r: Result<(), AllocatorError>) {
        self.list.try_deallocate(ptr, layout)
    }

    fn try_allocate_zeroed(&mut self, layout: Layout) -> (r: Result<usize, AllocatorError>) {
        self.list.try_allocate(layout)
    }

    fn try_deallocate_zeroed(&mut self, ptr: usize, layout: Layout) -> (r: Result<
        (),
        AllocatorError,
    >) {
        self.list.try_deallocate(ptr, layout)
    }
}

impl AllocInit for LockedLinkedList {
    open spec fn init_req(start: usize, size: usize) -> bool {
        LinkedListAlloc::init_req(start, size)
    }

    open spec fn uninit(&self) -> bool {
        self.list.uninit()
    }

    fn init(&mut self, start: usize, size: usize) {
        self.init(start, size)
    }
}

} // verus!
