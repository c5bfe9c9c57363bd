//! The bump policy: a monotonically advancing cursor over the region, with a
//! live-allocation counter. Space is reclaimed only when the last live
//! allocation is released, at which point the cursor snaps back to the start
//! of the region.
//!
//! The behaviour of the policy is captured by the spec functions
//! [`bump_allocate`], [`bump_deallocate`] and [`bump_remaining`]; the methods
//! of [`BumpAlloc`] are pinned to them, and the proof functions at the end of
//! this module state the laws the policy obeys.

pub mod locked;
pub mod lockless;

use vstd::prelude::*;

use crate::common::{
    align_up_checked, align_up_spec, is_power_of_two, lemma_align_up, lemma_power_of_two_pos,
    AllocInit, AllocState, Allocator, AllocatorError, Layout,
};

verus! {

/// The bump engine: cursor bookkeeping for the region `[start, end)`.
///
/// A freshly built engine has every field zero and must be bound to a region
/// with [`BumpAlloc::init`] before it can hand out addresses.
#[derive(Clone, Copy, Debug, PartialEq, Eq, Structural)]
pub struct BumpAlloc {
    pub start: usize,
    pub end: usize,
    pub next: usize,
    pub allocations: usize,
}

impl BumpAlloc {
    /// The cursor stays between the bounds of the region.
    pub open spec fn inv(self) -> bool {
        self.start <= self.next && self.next <= self.end
    }

    /// Creates a new empty engine; it must be initialized before use.
    pub fn new() -> (r: BumpAlloc)
        ensures
            r == (BumpAlloc { start: 0, end: 0, next: 0, allocations: 0 }),
    {
        BumpAlloc { start: 0, end: 0, next: 0, allocations: 0 }
    }

    /// Binds the engine to the region `[heap_start, heap_start + heap_size)`.
    pub fn init(&mut self, heap_start: usize, heap_size: usize)
        requires
            heap_start != 0,
            heap_size > 0,
            heap_start + heap_size <= usize::MAX,
        ensures
            *final(self) == (BumpAlloc {
                start: heap_start,
                end: (heap_start + heap_size) as usize,
                next: heap_start,
                allocations: old(self).allocations,
            }),
    {
        self.start = heap_start;
        self.end = heap_start + heap_size;
        self.next = heap_start;
    }

    /// Returns the number of live allocations.
    pub fn allocations(&self) -> (r: usize)
        ensures
            r == self.allocations,
    {
        self.allocations
    }

    /// Returns the bytes between the cursor and the end of the region.
    pub fn remaining(&self) -> (r: usize)
        ensures
            r == bump_remaining(*self),
    {
        if self.next <= self.end {
            self.end - self.next
        } else {
            0
        }
    }

    /// Advances the cursor past an aligned block for the request, or reports
    /// why it cannot.
    pub fn try_allocate(&mut self, layout: Layout) -> (r: Result<usize, AllocatorError>)
        requires
            old(self).inv(),
            layout.wf(),
            old(self).allocations < usize::MAX,
        ensures
            final(self).inv(),
            *final(self) == bump_allocate(*old(self), layout).0,
            r == bump_allocate(*old(self), layout).1,
            r matches Ok(p) ==> p % layout.align == 0 && old(self).next <= p && p + layout.size
                <= old(self).end && final(self).next == p + layout.size,
    {
        proof {
            lemma_power_of_two_pos(layout.align as int);
            lemma_align_up(self.next as int, layout.align as int);
        }
        let alloc_start = match align_up_checked(self.next, layout.align) {
            Some(p) => p,
            None => { return Err(AllocatorError::Overflowed) },
        };
        let alloc_end = match alloc_start.checked_add(layout.size) {
            Some(q) => q,
            None => { return Err(AllocatorError::Overflowed) },
        };
        if alloc_end > self.end {
            Err(AllocatorError::Oom(layout))
        } else if alloc_start == 0 {
            Err(AllocatorError::Null)
        } else {
            self.next = alloc_end;
            self.allocations = self.allocations + 1;
            Ok(alloc_start)
        }
    }

    /// Releases one allocation; when the last live allocation goes away the
    /// cursor snaps back to the start of the region. The address and layout
    /// of the released block are not inspected by this policy.
    pub fn try_deallocate(&mut self, _ptr: usize, _layout: Layout) -> (r: Result<
        (),
        AllocatorError,
    >)
        requires
            old(self).allocations > 0,
        ensures
            *final(self) == bump_deallocate(*old(self)),
            r is Ok,
    {
        self.allocations = self.allocations - 1;
        if self.allocations == 0 {
            self.next = self.start;
        }
        Ok(())
    }
}

/// One allocation step of the bump policy: round the cursor up to the
/// requested alignment, place the block there, and advance the cursor past
/// it. Wraparound and exhaustion leave the state unchanged and report which
/// of the two occurred.
pub open spec fn bump_allocate(s: BumpAlloc, layout: Layout) -> (BumpAlloc, Result<
    usize,
    AllocatorError,
>) {
    let p = align_up_spec(s.next as int, layout.align as int);
    let q = p + layout.size;
    if q > usize::MAX {
        (s, Err(AllocatorError::Overflowed))
    } else if q > s.end {
        (s, Err(AllocatorError::Oom(layout)))
    } else if p == 0 {
        (s, Err(AllocatorError::Null))
    } else {
        (
            BumpAlloc {
                next: q as usize,
                allocations: (s.allocations + 1) as usize,
                ..s
            },
            Ok(p as usize),
        )
    }
}

/// One release step of the bump policy: drop the counter, and reset the
/// cursor when it reaches zero.
pub open spec fn bump_deallocate(s: BumpAlloc) -> BumpAlloc {
    if s.allocations == 0 {
        s
    } else if s.allocations == 1 {
        BumpAlloc { next: s.start, allocations: 0, ..s }
    } else {
        BumpAlloc { allocations: (s.allocations - 1) as usize, ..s }
    }
}

/// The bytes still free: the distance from the cursor to the end.
pub open spec fn bump_remaining(s: BumpAlloc) -> int {
    if s.next <= s.end {
        s.end - s.next
    } else {
        0
    }
}

/// Address correctness: every address the bump policy hands out is aligned
/// as requested and the block lies inside the region, past the old cursor.
pub proof fn lemma_bump_address_correctness(s: BumpAlloc, layout: Layout)
    requires
        s.inv(),
        layout.wf(),
    ensures
        ({
            let (s1, r) = bump_allocate(s, layout);
            r matches Ok(p) ==> p % layout.align == 0 && s.start <= p && s.next <= p && p
                + layout.size <= s.end && s1.next == p + layout.size
        }),
{
    lemma_power_of_two_pos(layout.align as int);
    lemma_align_up(s.next as int, layout.align as int);
}

/// Non-overlap: two back-to-back successful allocations occupy disjoint
/// byte ranges; the second block starts past the end of the first.
pub proof fn lemma_bump_non_overlap(s0: BumpAlloc, l1: Layout, l2: Layout)
    requires
        s0.inv(),
        l1.wf(),
        l2.wf(),
    ensures
        ({
            let (s1, r1) = bump_allocate(s0, l1);
            let (s2, r2) = bump_allocate(s1, l2);
            r1 matches Ok(p1) ==> (r2 matches Ok(p2) ==> p1 + l1.size <= p2)
        }),
{
    lemma_power_of_two_pos(l1.align as int);
    lemma_align_up(s0.next as int, l1.align as int);
    let (s1, r1) = bump_allocate(s0, l1);
    lemma_power_of_two_pos(l2.align as int);
    lemma_align_up(s1.next as int, l2.align as int);
}

/// Failure saturation: a failed allocation leaves the state untouched, so
/// repeating the same request keeps failing the same way until the state
/// changes through a deallocation.
pub proof fn lemma_bump_oom_saturation(s: BumpAlloc, layout: Layout)
    ensures
        ({
            let (s1, r1) = bump_allocate(s, layout);
            r1 is Err ==> s1 == s && bump_allocate(s, layout).1 == r1
        }),
{
}

/// Overflow guard: when rounding the cursor up and adding the size would
/// wrap around the address space, the policy reports `Overflowed`, never
/// `Oom`.
pub proof fn lemma_bump_overflow_guard(s: BumpAlloc, layout: Layout)
    ensures
        align_up_spec(s.next as int, layout.align as int) + layout.size > usize::MAX
            ==> bump_allocate(s, layout).1 == Err::<usize, AllocatorError>(
            AllocatorError::Overflowed,
        ),
{
}

/// Bump reset law: releasing the last live allocation makes the whole
/// region free again, and the next allocation is served at the region's
/// first suitably aligned address.
pub proof fn lemma_bump_reset(s: BumpAlloc, layout: Layout)
    requires
        s.inv(),
        s.allocations == 1,
        layout.wf(),
    ensures
        ({
            let s1 = bump_deallocate(s);
            s1.next == s.start && bump_remaining(s1) == s.end - s.start && (bump_allocate(
                s1,
                layout,
            ).1 matches Ok(p) ==> p == align_up_spec(s.start as int, layout.align as int))
        }),
{
}

/// Cursor monotonicity: allocation never moves the cursor backwards, and a
/// release moves it backwards only when it empties the live set.
pub proof fn lemma_bump_monotonic(s: BumpAlloc, layout: Layout)
    requires
        s.inv(),
        layout.wf(),
    ensures
        bump_allocate(s, layout).0.next >= s.next,
        s.allocations > 1 ==> bump_deallocate(s).next == s.next,
{
    lemma_power_of_two_pos(layout.align as int);
    lemma_align_up(s.next as int, layout.align as int);
}

/// An operation applied to a bump engine, as seen by the policy: the bump
/// policy ignores the address and layout of a release.
pub enum BumpOp {
    Allocate(Layout),
    Deallocate,
}

/// Runs a sequence of operations, collecting the result of every
/// allocation attempt.
pub open spec fn bump_run(s: BumpAlloc, ops: Seq<BumpOp>) -> (BumpAlloc, Seq<
    Result<usize, AllocatorError>,
>)
    decreases ops.len(),
{
    if ops.len() == 0 {
        (s, Seq::empty())
    } else {
        match ops.first() {
            BumpOp::Allocate(l) => {
                let (s1, r) = bump_allocate(s, l);
                let (s2, rs) = bump_run(s1, ops.drop_first());
                (s2, seq![r] + rs)
            },
            BumpOp::Deallocate => bump_run(bump_deallocate(s), ops.drop_first()),
        }
    }
}

/// Determinism: the bump policy is a function of its state alone, so equal
/// initial states and equal operation sequences produce equal address
/// sequences. The contracts of the engine methods pin the executable code
/// to the same transition functions.
pub proof fn lemma_bump_determinism(s1: BumpAlloc, s2: BumpAlloc, ops: Seq<BumpOp>)
    requires
        s1 == s2,
    ensures
        bump_run(s1, ops) == bump_run(s2, ops),
{
}

/// Non-overlap and cursor monotonicity across a whole allocation run:
/// with no releases in between, the cursor never moves backwards, every
/// successful allocation lies past the starting cursor and fits under the
/// final one, and any two successful allocations occupy disjoint byte
/// ranges, in increasing address order.
pub proof fn lemma_bump_run_non_overlap(s: BumpAlloc, ops: Seq<BumpOp>)
    requires
        s.inv(),
        forall|i: int| 0 <= i < ops.len() ==> (#[trigger] ops[i] matches BumpOp::Allocate(l)
            && l.wf()),
    ensures
        ({
            let (s2, rs) = bump_run(s, ops);
            &&& rs.len() == ops.len()
            &&& s2.inv()
            &&& s2.start == s.start
            &&& s2.end == s.end
            &&& s2.next >= s.next
            &&& forall|i: int|
                0 <= i < rs.len() && rs[i] is Ok ==> s.next <= rs[i]->Ok_0 && rs[i]->Ok_0 + (
                ops[i]->Allocate_0).size <= s2.next
            &&& forall|i: int, j: int|
                0 <= i < j < rs.len() && rs[i] is Ok && rs[j] is Ok ==> rs[i]->Ok_0 + (
                ops[i]->Allocate_0).size <= rs[j]->Ok_0
        }),
    decreases ops.len(),
{
    if ops.len() > 0 {
        let l0 = ops.first()->Allocate_0;
        lemma_power_of_two_pos(l0.align as int);
        lemma_align_up(s.next as int, l0.align as int);
        let (s1, r0) = bump_allocate(s, l0);
        let rest = ops.drop_first();
        assert(forall|i: int| 0 <= i < rest.len() ==> rest[i] == ops[i + 1]);
        lemma_bump_run_non_overlap(s1, rest);
        let (s2, rest_rs) = bump_run(s1, rest);
        let (s2b, rs) = bump_run(s, ops);
        assert(s2b == s2);
        assert(rs == seq![r0] + rest_rs);
        assert(rs[0] == r0);
        assert(forall|i: int| 1 <= i < rs.len() ==> rs[i] == rest_rs[i - 1]);
    }
}

impl Allocator for BumpAlloc {
    open spec fn wf(&self) -> bool {
        self.inv()
    }

    open spec fn region_start(&self) -> int {
        self.start as int
    }

    open spec fn region_end(&self) -> int {
        self.end as int
    }

    open spec fn can_allocate(&self, layout: Layout) -> bool {
        self.allocations < usize::MAX
    }

    open spec fn can_deallocate(&self, ptr: usize, layout: Layout) -> bool {
        self.allocations > 0
    }

    fn try_allocate(&mut self, layout: Layout) -> (r: Result<usize, AllocatorError>) {
        proof {
            lemma_bump_address_correctness(*self, layout);
        }
        self.try_allocate(layout)
    }

    fn try_deallocate(&mut self, ptr: usize, layout: Layout) -> (r: Result<(), AllocatorError>) {
        self.try_deallocate(ptr, layout)
    }

    fn try_allocate_zeroed(&mut self, layout: Layout) -> (r: Result<usize, AllocatorError>) {
        proof {
            lemma_bump_address_correctness(*self, layout);
        }
        self.try_allocate(layout)
    }

    fn try_deallocate_zeroed(&mut self, ptr: usize, layout: Layout) -> (r: Result<
        (),
        AllocatorError,
    >) {
        self.try_deallocate(ptr, layout)
    }
}

impl AllocInit for BumpAlloc {
    open spec fn init_req(start: usize, size: usize) -> bool {
        start != 0 && size > 0 && start + size <= usize::MAX
    }

    open spec fn uninit(&self) -> bool {
        *self == (BumpAlloc { start: 0, end: 0, next: 0, allocations: 0 })
    }

    fn init(&mut self, start: usize, size: usize) {
        self.init(start, size)
    }
}

impl AllocState for BumpAlloc {
    open spec fn spec_remaining(&self) -> int {
        bump_remaining(*self)
    }

    open spec fn spec_allocations(&self) -> int {
        self.allocations as int
    }

    fn remaining(&self) -> (r: usize) {
        self.remaining()
    }

    fn allocations(&self) -> (r: usize) {
        self.allocations()
    }
}

} // verus!
