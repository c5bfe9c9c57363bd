//! The mutex-guarded buddy flavour. The engine is sequential bookkeeping;
//! the embedding that shares one instance across threads wraps it in a
//! spinlock and calls these methods inside the critical section, so every
//! critical section is bounded by the height of the order ladder.

use vstd::prelude::*;

use crate::buddy_alloc::{
    block_wf, buddy_allocate, buddy_deallocate, order_of, BuddyAlloc, MAX_ORDER, PAGE_SIZE,
};
use crate::common::{is_power_of_two, AllocInit, Allocator, AllocatorError, Layout};

verus! {

/// The engine of the mutex-guarded buddy flavour.
#[derive(Debug)]
pub struct LockedBuddy {
    pub buddy: BuddyAlloc,
}

impl LockedBuddy {
    /// Creates a new engine with empty free areas; it must be initialized
    /// before use.
    pub fn new() -> (r: LockedBuddy)
        ensures
            r.buddy.inv(),
            r.buddy.base == 0,
            r.buddy.size == 0,
            r.buddy.all_empty(),
    {
        LockedBuddy { buddy: BuddyAlloc::new() }
    }

    /// Binds the engine to the region `[start, start + size)`.
    pub fn init(&mut self, start: usize, size: usize)
        requires
            old(self).buddy.inv(),
            old(self).buddy.all_empty(),
            start != 0,
            start % 8 == 0,
            is_power_of_two(size as int),
            size >= PAGE_SIZE,
            size <= 33554432,
            start + size <= usize::MAX,
        ensures
            final(self).buddy.inv(),
            final(self).buddy.base == start,
            final(self).buddy.size == size,
            final(self).buddy.areas() == crate::buddy_alloc::area_push(
                old(self).buddy.areas(),
                BuddyAlloc::top_order(size as int),
                start,
            ),
    {
        self.buddy.init(start, size);
    }

    /// Normalizes a request to the order that serves it.
    pub fn size_align(layout: Layout) -> (r: Result<usize, AllocatorError>)
        requires
            layout.wf(),
        ensures
            order_of(layout) <= MAX_ORDER ==> r == Ok::<usize, AllocatorError>(
                order_of(layout) as usize,
            ),
            order_of(layout) > MAX_ORDER ==> r == Err::<usize, AllocatorError>(
                AllocatorError::LayoutInvalid(layout),
            ),
    {
        BuddyAlloc::size_align(layout)
    }

    /// Satisfies the request with a block of the smallest sufficient order.
    pub fn try_allocate(&mut self, layout: Layout) -> (r: Result<usize, AllocatorError>)
        requires
            old(self).buddy.inv(),
            layout.wf(),
        ensures
            final(self).buddy.inv(),
            final(self).buddy.base == old(self).buddy.base,
            final(self).buddy.size == old(self).buddy.size,
            order_of(layout) <= MAX_ORDER ==> ({
                let (a2, res) = buddy_allocate(old(self).buddy.areas(), order_of(layout), layout);
                final(self).buddy.areas() == a2 && r == res
            }),
    {
        self.buddy.try_allocate(layout)
    }

    /// Returns a block to the free areas, coalescing with free buddies.
    pub fn try_deallocate(&mut self, ptr: usize, layout: Layout) -> (r: Result<
        (),
        AllocatorError,
    >)
        requires
            old(self).buddy.inv(),
            layout.wf(),
            order_of(layout) <= MAX_ORDER,
            block_wf(
                old(self).buddy.base as int,
                old(self).buddy.size as int,
                ptr as int,
                order_of(layout),
            ),
        ensures
            final(self).buddy.inv(),
            final(self).buddy.base == old(self).buddy.base,
            final(self).buddy.size == old(self).buddy.size,
            final(self).buddy.areas() == buddy_deallocate(
                old(self).buddy.areas(),
                old(self).buddy.base as int,
                ptr,
                order_of(layout),
            ),
            r is Ok,
    {
        self.buddy.try_deallocate(ptr, layout)
    }
}

impl Allocator for LockedBuddy {
    open spec fn wf(&self) -> bool {
        self.buddy.inv()
    }

    open spec fn region_start(&self) -> int {
        self.buddy.base as int
    }

    open spec fn region_end(&self) -> int {
        self.buddy.base + self.buddy.size
    }

    open spec fn can_allocate(&self, layout: Layout) -> bool {
        true
    }

    open spec fn can_deallocate(&self, ptr: usize, layout: Layout) -> bool {
        self.buddy.can_deallocate(ptr, layout)
    }

    fn try_allocate(&mut self, layout: Layout) -> (r: Result<usize, AllocatorError>) {
        self.buddy.try_allocate(layout)
    }

    fn try_deallocate(&mut self, ptr: usize, layout: Layout) -> (r: Result<(), AllocatorError>) {
        self.buddy.try_deallocate(ptr, layout)
    }

    fn try_allocate_zeroed(&mut self, layout: Layout) -> (r: Result<usize, AllocatorError>) {
        self.buddy.try_allocate(layout)
    }

    fn try_deallocate_zeroed(&mut self, ptr: usize, layout: Layout) -> (r: Result<
        (),
        AllocatorError,
    >) {
        self.buddy.try_deallocate(ptr, layout)
    }
}

impl AllocInit for LockedBuddy {
    open spec fn init_req(start: usize, size: usize) -> bool {
        BuddyAlloc::init_req(start, size)
    }

    open spec fn uninit(&self) -> bool {
        self.buddy.uninit()
    }

    fn init(&mut self, start: usize, size: usize) {
        self.init(start, size)
    }
}

} // verus!
