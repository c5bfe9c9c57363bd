//! The mutex-guarded bump flavour. The engine itself is sequential
//! bookkeeping; the embedding that shares one instance across threads wraps
//! it in a spinlock and calls these methods inside the critical section, so
//! lock acquisition order gives a total order over the operations.

use vstd::prelude::*;

use crate::bump_alloc::{
    bump_allocate, bump_deallocate, bump_remaining, BumpAlloc, lemma_bump_address_correctness,
};
use crate::common::{AllocInit, AllocState, Allocator, AllocatorError, Layout};

verus! {

/// The engine of the mutex-guarded bump flavour.
#[derive(Clone, Copy, Debug, PartialEq, Eq, Structural)]
pub struct LockedBump {
    pub bump: BumpAlloc,
}

impl LockedBump {
    /// Creates a new empty engine; it must be initialized before use.
    pub fn new() -> (r: LockedBump)
        ensures
            r.bump == (BumpAlloc { start: 0, end: 0, next: 0, allocations: 0 }),
    {
        LockedBump { bump: BumpAlloc::new() }
    }

    /// Binds the engine to the region `[heap_start, heap_start + heap_size)`.
    pub fn init(&mut self, heap_start: usize, heap_size: usize)
        requires
            heap_start != 0,
            heap_size > 0,
            heap_start + heap_size <= usize::MAX,
        ensures
            final(self).bump == (BumpAlloc {
                start: heap_start,
                end: (heap_start + heap_size) as usize,
                next: heap_start,
                allocations: old(self).bump.allocations,
            }),
    {
        self.bump.init(heap_start, heap_size);
    }

    /// Returns the number of live allocations.
    pub fn allocations(&self) -> (r: usize)
        ensures
            r == self.bump.allocations,
    {
        self.bump.allocations()
    }

    /// Returns the bytes between the cursor and the end of the region.
    pub fn remaining(&self) -> (r: usize)
        ensures
            r == bump_remaining(self.bump),
    {
        self.bump.remaining()
    }

    /// Advances the cursor past an aligned block for the request.
    pub fn try_allocate(&mut self, layout: Layout) -> (r: Result<usize, AllocatorError>)
        requires
            old(self).bump.inv(),
            layout.wf(),
            old(self).bump.allocations < usize::MAX,
        ensures
            final(self).bump == bump_allocate(old(self).bump, layout).0,
            r == bump_allocate(old(self).bump, layout).1,
    {
        self.bump.try_allocate(layout)
    }

    /// Releases one allocation, resetting the cursor when it was the last.
    pub fn try_deallocate(&mut self, ptr: usize, layout: Layout) -> (r: Result<
        (),
        AllocatorError,
    >)
        requires
            old(self).bump.allocations > 0,
        ensures
            final(self).bump == bump_deallocate(old(self).bump),
            r is Ok,
    {
        self.bump.try_deallocate(ptr, layout)
    }
}

impl Allocator for LockedBump {
    open spec fn wf(&self) -> bool {
        self.bump.inv()
    }

    open spec fn region_start(&self) -> int {
        self.bump.start as int
    }

    open spec fn region_end(&self) -> int {
        self.bump.end as int
    }

    open spec fn can_allocate(&self, layout: Layout) -> bool {
        self.bump.allocations < usize::MAX
    }

    open spec fn can_deallocate(&self, ptr: usize, layout: Layout) -> bool {
        self.bump.allocations > 0
    }

    fn try_allocate(&mut self, layout: Layout) -> (r: Result<usize, AllocatorError>) {
        proof {
            lemma_bump_address_correctness(self.bump, layout);
        }
        self.try_allocate(layout)
    }

    fn try_deallocate(&mut self, ptr: usize, layout: Layout) -> (r: Result<(), AllocatorError>) {
        self.try_deallocate(ptr, layout)
    }

    fn try_allocate_zeroed(&mut self, layout: Layout) -> (r: Result<usize, AllocatorError>) {
        proof {
            lemma_bump_address_correctness(self.bump, layout);
        }
        self.try_allocate(layout)
    }

    fn try_deallocate_zeroed(&mut self, ptr: usize, layout: Layout) -> (r: Result<
        (),
        AllocatorError,
    >) {
        self.try_deallocate(ptr, layout)
    }
}

impl AllocInit for LockedBump {
    open spec fn init_req(start: usize, size: usize) -> bool {
        start != 0 && size > 0 && start + size <= usize::MAX
    }

    open spec fn uninit(&self) -> bool {
        self.bump == (BumpAlloc { start: 0, end: 0, next: 0, allocations: 0 })
    }

    fn init(&mut self, start: usize, size: usize) {
        self.init(start, size)
    }
}

impl AllocState for LockedBump {
    open spec fn spec_remaining(&self) -> int {
        bump_remaining(self.bump)
    }

    open spec fn spec_allocations(&self) -> int {
        self.bump.allocations as int
    }

    fn remaining(&self) -> (r: usize) {
        self.remaining()
    }

    fn allocations(&self) -> (r: usize) {
        self.allocations()
    }
}

} // verus!
