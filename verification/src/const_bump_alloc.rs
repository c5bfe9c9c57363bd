//! The embedded bump flavour: the heap storage is a field of the allocator
//! itself, so this engine owns its bytes and the zeroing variants can be
//! proved to blank exactly the requested block. Addresses handed out by this
//! flavour are offsets into the embedded storage; an embedding that exposes
//! it as a host allocator adds the storage base to them.

use vstd::prelude::*;

use crate::common::{
    align_up_checked, align_up_spec, AllocState, Allocator, AllocatorError, Layout,
    lemma_align_up, lemma_power_of_two_pos,
};

verus! {

/// One allocation decision of the embedded bump flavour over a storage of
/// `cap` bytes: the block offset and the new cursor, or the failure.
/// Offset zero is a valid block base here, unlike for the region-bound
/// flavours, because the storage base is added only by the embedding.
pub open spec fn const_bump_step(offset: usize, cap: int, layout: Layout) -> Result<
    (usize, usize),
    AllocatorError,
> {
    let p = align_up_spec(offset as int, layout.align as int);
    let q = p + layout.size;
    if q > usize::MAX {
        Err(AllocatorError::Overflowed)
    } else if q > cap {
        Err(AllocatorError::Oom(layout))
    } else {
        Ok((p as usize, q as usize))
    }
}

/// A bump allocator over `S` bytes of storage embedded in the value itself.
/// No initialization is needed; a freshly built allocator is ready and its
/// storage is blank.
#[derive(Debug)]
pub struct ConstBumpAlloc<const S: usize> {
    pub heap: Vec<u8>,
    pub offset: usize,
    pub allocations: usize,
}

impl<const S: usize> ConstBumpAlloc<S> {
    /// The storage holds exactly `S` bytes and the cursor stays within it.
    pub open spec fn inv(self) -> bool {
        self.heap@.len() == S && self.offset <= S
    }

    /// Creates a new allocator with blank storage.
    pub fn new() -> (r: Self)
        ensures
            r.inv(),
            r.offset == 0,
            r.allocations == 0,
            forall|k: int| 0 <= k < S ==> r.heap@[k] == 0,
    {
        let mut heap: Vec<u8> = Vec::new();
        while heap.len() < S
            invariant
                heap@.len() <= S,
                forall|k: int| 0 <= k < heap@.len() ==> heap@[k] == 0,
            decreases S - heap.len(),
        {
            heap.push(0);
        }
        ConstBumpAlloc { heap, offset: 0, allocations: 0 }
    }

    /// First offset of the storage.
    pub fn heap_start(&self) -> (r: usize)
        ensures
            r == 0,
    {
        0
    }

    /// One-past-the-last offset of the storage.
    pub fn heap_end(&self) -> (r: usize)
        ensures
            r == S,
    {
        S
    }

    /// The cursor: the offset of the next allocation attempt.
    pub fn next(&self) -> (r: usize)
        ensures
            r == self.offset,
    {
        self.offset
    }

    /// Forgets every allocation, making the whole storage free again.
    /// Meant for when no handed-out block is in use any more.
    pub fn reset(&mut self)
        ensures
            final(self).offset == 0,
            final(self).allocations == 0,
            final(self).heap@ == old(self).heap@,
    {
        self.allocations = 0;
        self.offset = 0;
    }

    /// Returns the number of live allocations.
    pub fn allocations(&self) -> (r: usize)
        ensures
            r == self.allocations,
    {
        self.allocations
    }

    /// Returns the bytes between the cursor and the end of the storage.
    pub fn remaining(&self) -> (r: usize)
        requires
            self.inv(),
        ensures
            r == S - self.offset,
    {
        S - self.offset
    }

    /// Advances the cursor past an aligned block for the request.
    pub fn try_allocate(&mut self, layout: Layout) -> (r: Result<usize, AllocatorError>)
        requires
            old(self).inv(),
            layout.wf(),
            old(self).allocations < usize::MAX,
        ensures
            final(self).inv(),
            final(self).heap@ == old(self).heap@,
            match const_bump_step(old(self).offset, S as int, layout) {
                Ok((p, q)) => r == Ok::<usize, AllocatorError>(p) && final(self).offset == q
                    && final(self).allocations == old(self).allocations + 1,
                Err(e) => r == Err::<usize, AllocatorError>(e) && final(self).offset == old(
                    self,
                ).offset && final(self).allocations == old(self).allocations,
            },
    {
        proof {
            lemma_power_of_two_pos(layout.align as int);
            lemma_align_up(self.offset as int, layout.align as int);
        }
        let alloc_start = match align_up_checked(self.offset, layout.align) {
            Some(p) => p,
            None => { return Err(AllocatorError::Overflowed) },
        };
        let alloc_end = match alloc_start.checked_add(layout.size) {
            Some(q) => q,
            None => { return Err(AllocatorError::Overflowed) },
        };
        if alloc_end > S {
            Err(AllocatorError::Oom(layout))
        } else {
            self.offset = alloc_end;
            self.allocations = self.allocations + 1;
            Ok(alloc_start)
        }
    }

    /// Releases one allocation; when the last live allocation goes away the
    /// cursor snaps back to the start of the storage.
    pub fn try_deallocate(&mut self, _ptr: usize, _layout: Layout) -> (r: Result<
        (),
        AllocatorError,
    >)
        requires
            old(self).allocations > 0,
        ensures
            final(self).heap@ == old(self).heap@,
            final(self).allocations == old(self).allocations - 1,
            final(self).offset == if old(self).allocations == 1 {
                0usize
            } else {
                old(self).offset
            },
            r is Ok,
    {
        self.allocations = self.allocations - 1;
        if self.allocations == 0 {
            self.offset = 0;
        }
        Ok(())
    }

    /// Like `try_allocate`, and blanks every byte of the returned block.
    pub fn try_allocate_zeroed(&mut self, layout: Layout) -> (r: Result<usize, AllocatorError>)
        requires
            old(self).inv(),
            layout.wf(),
            old(self).allocations < usize::MAX,
        ensures
            final(self).inv(),
            match const_bump_step(old(self).offset, S as int, layout) {
                Ok((p, q)) => r == Ok::<usize, AllocatorError>(p) && final(self).offset == q
                    && final(self).allocations == old(self).allocations + 1,
                Err(e) => r == Err::<usize, AllocatorError>(e) && final(self).offset == old(
                    self,
                ).offset && final(self).allocations == old(self).allocations,
            },
            r matches Ok(p) ==> forall|k: int|
                p <= k < p + layout.size ==> final(self).heap@[k] == 0,
            r matches Ok(p) ==> forall|k: int|
                0 <= k < S && !(p <= k < p + layout.size) ==> final(self).heap@[k] == old(
                    self,
                ).heap@[k],
            r is Err ==> final(self).heap@ == old(self).heap@,
    {
        let r = self.try_allocate(layout);
        if let Ok(p) = r {
            let ghost mid = *self;
            let end = p + layout.size;
            let mut j = p;
            while j < end
                invariant
                    p <= j <= end,
                    end <= self.heap@.len(),
                    self.heap@.len() == S,
                    self.offset == mid.offset,
                    self.allocations == mid.allocations,
                    forall|k: int| p <= k < j ==> self.heap@[k] == 0,
                    forall|k: int|
                        0 <= k < S && !(p <= k < j) ==> self.heap@[k] == old(self).heap@[k],
                decreases end - j,
            {
                self.heap[j] = 0;
                j = j + 1;
            }
        }
        r
    }

    /// Blanks the block and then releases it.
    pub fn try_deallocate_zeroed(&mut self, ptr: usize, layout: Layout) -> (r: Result<
        (),
        AllocatorError,
    >)
        requires
            old(self).inv(),
            old(self).allocations > 0,
            ptr + layout.size <= S,
        ensures
            final(self).inv(),
            final(self).allocations == old(self).allocations - 1,
            final(self).offset == if old(self).allocations == 1 {
                0usize
            } else {
                old(self).offset
            },
            forall|k: int| ptr <= k < ptr + layout.size ==> final(self).heap@[k] == 0,
            forall|k: int|
                0 <= k < S && !(ptr <= k < ptr + layout.size) ==> final(self).heap@[k] == old(
                    self,
                ).heap@[k],
            r is Ok,
    {
        let end = ptr + layout.size;
        let mut j = ptr;
        while j < end
            invariant
                ptr <= j <= end,
                end <= self.heap@.len(),
                self.heap@.len() == S,
                self.offset == old(self).offset,
                self.allocations == old(self).allocations,
                forall|k: int| ptr <= k < j ==> self.heap@[k] == 0,
                forall|k: int|
                    0 <= k < S && !(ptr <= k < j) ==> self.heap@[k] == old(self).heap@[k],
            decreases end - j,
        {
            self.heap[j] = 0;
            j = j + 1;
        }
        self.try_deallocate(ptr, layout)
    }
}

impl<const S: usize> Allocator for ConstBumpAlloc<S> {
    open spec fn wf(&self) -> bool {
        self.inv()
    }

    open spec fn region_start(&self) -> int {
        0
    }

    open spec fn region_end(&self) -> int {
        S as int
    }

    open spec fn can_allocate(&self, layout: Layout) -> bool {
        self.allocations < usize::MAX
    }

    open spec fn can_deallocate(&self, ptr: usize, layout: Layout) -> bool {
        self.allocations > 0 && ptr + layout.size <= S
    }

    fn try_allocate(&mut self, layout: Layout) -> (r: Result<usize, AllocatorError>) {
        self.try_allocate(layout)
    }

    fn try_deallocate(&mut self, ptr: usize, layout: Layout) -> (r: Result<(), AllocatorError>) {
        self.try_deallocate(ptr, layout)
    }

    fn try_allocate_zeroed(&mut self, layout: Layout) -> (r: Result<usize, AllocatorError>) {
        self.try_allocate_zeroed(layout)
    }

    fn try_deallocate_zeroed(&mut self, ptr: usize, layout: Layout) -> (r: Result<
        (),
        AllocatorError,
    >) {
        self.try_deallocate_zeroed(ptr, layout)
    }
}

impl<const S: usize> AllocState for ConstBumpAlloc<S> {
    open spec fn spec_remaining(&self) -> int {
        S - self.offset
    }

    open spec fn spec_allocations(&self) -> int {
        self.allocations as int
    }

    fn remaining(&self) -> (r: usize) {
        self.remaining()
    }

    fn allocations(&self) -> (r: usize) {
        self.allocations()
    }
}

} // verus!
