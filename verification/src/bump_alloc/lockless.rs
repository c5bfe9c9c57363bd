//! The lock-free bump flavour. The embedding keeps the cursor and the
//! live-allocation counter in atomic cells and drives a compare-and-swap
//! loop; every decision of that loop — where the next block starts, where
//! the cursor moves, and which failure to report — is computed here by
//! [`bump_alloc_step`] and proved against [`bump_step_spec`]. The engine
//! state mirrors the committed value of the cells, so a successful
//! compare-and-swap corresponds exactly to one [`bump_allocate`] transition.

use vstd::prelude::*;

use crate::bump_alloc::{
    bump_allocate, bump_deallocate, bump_remaining, BumpAlloc, lemma_bump_address_correctness,
};
use crate::common::{
    align_up_checked, align_up_spec, AllocInit, AllocState, Allocator, AllocatorError, Layout,
    lemma_align_up, lemma_power_of_two_pos,
};

verus! {

/// What one attempt of the lock-free allocation loop decides, given the
/// cursor value `next` it observed: either the block base and the new
/// cursor value to publish, or the failure to report.
pub open spec fn bump_step_spec(next: usize, end: usize, layout: Layout) -> Result<
    (usize, usize),
    AllocatorError,
> {
    let p = align_up_spec(next as int, layout.align as int);
    let q = p + layout.size;
    if q > usize::MAX {
        Err(AllocatorError::Overflowed)
    } else if q > end {
        Err(AllocatorError::Oom(layout))
    } else if p == 0 {
        Err(AllocatorError::Null)
    } else {
        Ok((p as usize, q as usize))
    }
}

/// The decision step of the lock-free allocation loop: from an observed
/// cursor `next`, compute the aligned block base and the cursor value to
/// publish with a compare-and-swap, or the failure to report. Publishing
/// succeeds only if the cursor still holds `next`, so each committed step
/// is one `bump_allocate` transition.
pub fn bump_alloc_step(next: usize, end: usize, layout: Layout) -> (r: Result<
    (usize, usize),
    AllocatorError,
>)
    requires
        layout.wf(),
    ensures
        r == bump_step_spec(next, end, layout),
{
    proof {
        lemma_power_of_two_pos(layout.align as int);
        lemma_align_up(next as int, layout.align as int);
    }
    let alloc_start = match align_up_checked(next, layout.align) {
        Some(p) => p,
        None => { return Err(AllocatorError::Overflowed) },
    };
    let alloc_end = match alloc_start.checked_add(layout.size) {
        Some(q) => q,
        None => { return Err(AllocatorError::Overflowed) },
    };
    if alloc_end > end {
        Err(AllocatorError::Oom(layout))
    } else if alloc_start == 0 {
        Err(AllocatorError::Null)
    } else {
        Ok((alloc_start, alloc_end))
    }
}

/// The engine of the lock-free bump flavour: the committed values of the
/// atomic cursor and counter cells.
#[derive(Clone, Copy, Debug, PartialEq, Eq, Structural)]
pub struct LocklessBump {
    pub bump: BumpAlloc,
}

impl LocklessBump {
    /// Creates a new empty engine; it must be initialized before use.
    pub fn new() -> (r: LocklessBump)
        ensures
            r.bump == (BumpAlloc { start: 0, end: 0, next: 0, allocations: 0 }),
    {
        LocklessBump { bump: BumpAlloc::new() }
    }

    /// Binds the engine to the region `[heap_start, heap_start + heap_size)`.
    pub fn init(&mut self, heap_start: usize, heap_size: usize)
        requires
            heap_start != 0,
            heap_size > 0,
            heap_start + heap_size <= usize::MAX,
        ensures
            final(self).bump == (BumpAlloc {
                start: heap_start,
                end: (heap_start + heap_size) as usize,
                next: heap_start,
                allocations: old(self).bump.allocations,
            }),
    {
        self.bump.init(heap_start, heap_size);
    }

    /// Returns the number of live allocations.
    pub fn allocations(&self) -> (r: usize)
        ensures
            r == self.bump.allocations,
    {
        self.bump.allocations()
    }

    /// Returns the bytes between the cursor and the end of the region.
    pub fn remaining(&self) -> (r: usize)
        ensures
            r == bump_remaining(self.bump),
    {
        self.bump.remaining()
    }

    /// One committed allocation: the transition a successful
    /// compare-and-swap of the cursor performs.
    pub fn try_allocate(&mut self, layout: Layout) -> (r: Result<usize, AllocatorError>)
        requires
            old(self).bump.inv(),
            layout.wf(),
            old(self).bump.allocations < usize::MAX,
        ensures
            final(self).bump == bump_allocate(old(self).bump, layout).0,
            r == bump_allocate(old(self).bump, layout).1,
    {
        self.bump.try_allocate(layout)
    }

    /// One committed release: the counter decrement, with the reset of the
    /// cursor that the thread observing the last decrement performs.
    pub fn try_deallocate(&mut self, ptr: usize, layout: Layout) -> (r: Result<
        (),
        AllocatorError,
    >)
        requires
            old(self).bump.allocations > 0,
        ensures
            final(self).bump == bump_deallocate(old(self).bump),
            r is Ok,
    {
        self.bump.try_deallocate(ptr, layout)
    }
}

impl Allocator for LocklessBump {
    open spec fn wf(&self) -> bool {
        self.bump.inv()
    }

    open spec fn region_start(&self) -> int {
        self.bump.start as int
    }

    open spec fn region_end(&self) -> int {
        self.bump.end as int
    }

    open spec fn can_allocate(&self, layout: Layout) -> bool {
        self.bump.allocations < usize::MAX
    }

    open spec fn can_deallocate(&self, ptr: usize, layout: Layout) -> bool {
        self.bump.allocations > 0
    }

    fn try_allocate(&mut self, layout: Layout) -> (r: Result<usize, AllocatorError>) {
        proof {
            lemma_bump_address_correctness(self.bump, layout);
        }
        self.try_allocate(layout)
    }

    fn try_deallocate(&mut self, ptr: usize, layout: Layout) -> (r: Result<(), AllocatorError>) {
        self.try_deallocate(ptr, layout)
    }

    fn try_allocate_zeroed(&mut self, layout: Layout) -> (r: Result<usize, AllocatorError>) {
        proof {
            lemma_bump_address_correctness(self.bump, layout);
        }
        self.try_allocate(layout)
    }

    fn try_deallocate_zeroed(&mut self, ptr: usize, layout: Layout) -> (r: Result<
        (),
        AllocatorError,
    >) {
        self.try_deallocate(ptr, layout)
    }
}

impl AllocInit for LocklessBump {
    open spec fn init_req(start: usize, size: usize) -> bool {
        start != 0 && size > 0 && start + size <= usize::MAX
    }

    open spec fn uninit(&self) -> bool {
        self.bump == (BumpAlloc { start: 0, end: 0, next: 0, allocations: 0 })
    }

    fn init(&mut self, start: usize, size: usize) {
        self.init(start, size)
    }
}

impl AllocState for LocklessBump {
    open spec fn spec_remaining(&self) -> int {
        bump_remaining(self.bump)
    }

    open spec fn spec_allocations(&self) -> int {
        self.bump.allocations as int
    }

    fn remaining(&self) -> (r: usize) {
        self.remaining()
    }

    fn allocations(&self) -> (r: usize) {
        self.allocations()
    }
}

} // verus!
