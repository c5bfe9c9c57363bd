//! Items shared by every allocation policy: the layout of a request, the
//! error taxonomy, alignment arithmetic, and the allocator contract that the
//! policy engines implement.

use vstd::prelude::*;

verus! {

/// A power of two, defined by repeated halving.
pub open spec fn is_power_of_two(a: int) -> bool
    decreases a,
{
    if a <= 0 {
        false
    } else if a == 1 {
        true
    } else {
        a % 2 == 0 && is_power_of_two(a / 2)
    }
}

/// A power of two is positive.
pub proof fn lemma_power_of_two_pos(a: int)
    requires
        is_power_of_two(a),
    ensures
        a >= 1,
{
}

/// Every positive power of two is `pow2` of some exponent.
pub proof fn lemma_power_of_two_exponent(a: int)
    requires
        is_power_of_two(a),
    ensures
        exists|e: nat| vstd::arithmetic::power2::pow2(e) == a,
    decreases a,
{
    vstd::arithmetic::power2::lemma2_to64();
    if a == 1 {
        assert(vstd::arithmetic::power2::pow2(0) == a);
    } else {
        lemma_power_of_two_exponent(a / 2);
        let e = choose|e: nat| vstd::arithmetic::power2::pow2(e) == a / 2;
        vstd::arithmetic::power2::lemma_pow2_adds(e, 1);
        assert(vstd::arithmetic::power2::pow2(e + 1) == a);
    }
}

/// Eight is a power of two; stated once so callers need not unfold the
/// recursive definition.
pub proof fn lemma_eight_is_power_of_two()
    ensures
        is_power_of_two(8),
{
    reveal_with_fuel(is_power_of_two, 5);
}

/// The smaller of two powers of two divides the larger.
pub proof fn lemma_power_of_two_divides(a: int, b: int)
    requires
        is_power_of_two(a),
        is_power_of_two(b),
        a <= b,
    ensures
        b % a == 0,
{
    lemma_power_of_two_exponent(a);
    lemma_power_of_two_exponent(b);
    let ea = choose|e: nat| vstd::arithmetic::power2::pow2(e) == a;
    let eb = choose|e: nat| vstd::arithmetic::power2::pow2(e) == b;
    if eb < ea {
        vstd::arithmetic::power2::lemma_pow2_strictly_increases(eb, ea);
    }
    vstd::arithmetic::power2::lemma_pow2_adds(ea, (eb - ea) as nat);
    let d = vstd::arithmetic::power2::pow2((eb - ea) as nat) as int;
    assert(b == a * d);
    vstd::arithmetic::div_mod::lemma_mod_multiples_basic(d, a);
}

/// The pair (size, alignment) describing a requested block.
#[derive(Clone, Copy, Debug, PartialEq, Eq, Structural)]
pub struct Layout {
    pub size: usize,
    pub align: usize,
}

impl Layout {
    /// A layout is well formed when its alignment is a power of two.
    pub open spec fn wf(self) -> bool {
        is_power_of_two(self.align as int)
    }

    /// Builds a layout, rejecting alignments that are not powers of two.
    pub fn from_size_align(size: usize, align: usize) -> (r: Option<Layout>)
        ensures
            match r {
                Some(l) => l.size == size && l.align == align && l.wf(),
                None => !is_power_of_two(align as int),
            },
    {
        if power_of_two_check(align) {
            Some(Layout { size, align })
        } else {
            None
        }
    }
}

/// Decides whether `a` is a power of two.
fn power_of_two_check(a: usize) -> (r: bool)
    ensures
        r == is_power_of_two(a as int),
{
    if a == 0 {
        return false;
    }
    let mut x: usize = a;
    while x % 2 == 0
        invariant
            x >= 1,
            is_power_of_two(a as int) == is_power_of_two(x as int),
        decreases x,
    {
        x = x / 2;
    }
    x == 1
}

/// The uniform failure kind surfaced by every policy.
#[derive(Clone, Copy, Debug, PartialEq, Eq, Structural)]
pub enum AllocatorError {
    /// The policy cannot satisfy the request with its current free state.
    Oom(Layout),
    /// Internal address arithmetic would wrap around the address space.
    Overflowed,
    /// A remnant of negative size was reported (defensive; the contracts
    /// prove this variant is never produced).
    Underflowed,
    /// The requested alignment cannot be honoured against the region base.
    Alignment(Layout),
    /// Size rounding failed: the padded request has no representable order.
    LayoutInvalid(Layout),
    /// The engine produced a zero address where it must not.
    Null,
}

/// The smallest multiple of `align` that is at least `addr`.
pub open spec fn align_up_spec(addr: int, align: int) -> int
    recommends
        align >= 1,
{
    if addr % align == 0 {
        addr
    } else {
        addr + align - addr % align
    }
}

/// `align_up_spec` rounds up to the next multiple of `align`: the result is
/// no smaller than `addr`, is a multiple of `align`, and overshoots by less
/// than `align`.
pub proof fn lemma_align_up(addr: int, align: int)
    requires
        align >= 1,
        addr >= 0,
    ensures
        align_up_spec(addr, align) >= addr,
        align_up_spec(addr, align) % align == 0,
        align_up_spec(addr, align) < addr + align,
        addr % align == 0 ==> align_up_spec(addr, align) == addr,
{
    vstd::arithmetic::div_mod::lemma_fundamental_div_mod(addr, align);
    vstd::arithmetic::div_mod::lemma_mod_bound(addr, align);
    if addr % align != 0 {
        let q = addr / align;
        let r = addr % align;
        assert(addr + align - r == align * q + align);
        assert(align * q + align == align * (q + 1)) by (nonlinear_arith);
        vstd::arithmetic::div_mod::lemma_mod_multiples_basic(q + 1, align);
    }
}

/// Returns the smallest `y >= addr` with `y % align == 0`.
///
/// `align` must be a power of two and the rounded address must still fit in
/// the address space.
pub fn align_up(addr: usize, align: usize) -> (r: usize)
    requires
        is_power_of_two(align as int),
        align_up_spec(addr as int, align as int) <= usize::MAX,
    ensures
        r as int == align_up_spec(addr as int, align as int),
{
    proof {
        lemma_power_of_two_pos(align as int);
        lemma_align_up(addr as int, align as int);
    }
    let rem = addr % align;
    if rem == 0 {
        addr
    } else {
        addr + (align - rem)
    }
}

/// Like `align_up`, but reports wraparound instead of demanding its absence.
pub(crate) fn align_up_checked(addr: usize, align: usize) -> (r: Option<usize>)
    requires
        align >= 1,
    ensures
        match r {
            Some(p) => p as int == align_up_spec(addr as int, align as int),
            None => align_up_spec(addr as int, align as int) > usize::MAX,
        },
{
    proof {
        lemma_align_up(addr as int, align as int);
    }
    let rem = addr % align;
    if rem == 0 {
        Some(addr)
    } else {
        addr.checked_add(align - rem)
    }
}

/// The allocator contract shared by every policy engine.
///
/// Each engine exposes its bookkeeping through spec functions: a
/// well-formedness predicate, the bounds of the region it manages, and the
/// policy's conditions on allocating and releasing. The methods preserve
/// well-formedness and the region, and every address handed out lies inside
/// the region. The engines' inherent methods state the exact per-policy
/// behaviour on top of this shared contract.
pub trait Allocator: Sized {
    /// Well-formedness of the engine's bookkeeping state.
    spec fn wf(&self) -> bool;

    /// Inclusive lower bound of the managed region.
    spec fn region_start(&self) -> int;

    /// Exclusive upper bound of the managed region.
    spec fn region_end(&self) -> int;

    /// Policy-specific bound on the states that may allocate (for instance a
    /// live-allocation counter that must not saturate).
    spec fn can_allocate(&self, layout: Layout) -> bool;

    /// Validity of a `(address, layout)` pair handed back for release; pairs
    /// previously returned by `try_allocate` satisfy it.
    spec fn can_deallocate(&self, ptr: usize, layout: Layout) -> bool;

    /// Satisfies the request or reports a typed failure.
    fn try_allocate(&mut self, layout: Layout) -> (r: Result<usize, AllocatorError>)
        requires
            old(self).wf(),
            layout.wf(),
            old(self).can_allocate(layout),
        ensures
            final(self).wf(),
            final(self).region_start() == old(self).region_start(),
            final(self).region_end() == old(self).region_end(),
            r matches Ok(p) ==> old(self).region_start() <= p && p + layout.size
                <= old(self).region_end(),
        ;

    /// Returns a block to the allocator according to the policy.
    fn try_deallocate(&mut self, ptr: usize, layout: Layout) -> (r: Result<(), AllocatorError>)
        requires
            old(self).wf(),
            layout.wf(),
            old(self).can_deallocate(ptr, layout),
        ensures
            final(self).wf(),
            final(self).region_start() == old(self).region_start(),
            final(self).region_end() == old(self).region_end(),
        ;

    /// Like `try_allocate`; the embedding that owns the bytes writes zero
    /// over exactly `layout.size` of them at the returned address.
    fn try_allocate_zeroed(&mut self, layout: Layout) -> (r: Result<usize, AllocatorError>)
        requires
            old(self).wf(),
            layout.wf(),
            old(self).can_allocate(layout),
        ensures
            final(self).wf(),
            final(self).region_start() == old(self).region_start(),
            final(self).region_end() == old(self).region_end(),
            r matches Ok(p) ==> old(self).region_start() <= p && p + layout.size
                <= old(self).region_end(),
        ;

    /// Like `try_deallocate`; the embedding zeroes the block before release.
    fn try_deallocate_zeroed(&mut self, ptr: usize, layout: Layout) -> (r: Result<
        (),
        AllocatorError,
    >)
        requires
            old(self).wf(),
            layout.wf(),
            old(self).can_deallocate(ptr, layout),
        ensures
            final(self).wf(),
            final(self).region_start() == old(self).region_start(),
            final(self).region_end() == old(self).region_end(),
        ;
}

/// Binding an engine to the region it will manage.
pub trait AllocInit: Allocator {
    /// The precondition the policy places on a region.
    spec fn init_req(start: usize, size: usize) -> bool;

    /// A state that has not been bound to a region yet.
    spec fn uninit(&self) -> bool;

    /// Hands the region `[start, start + size)` to the allocator.
    fn init(&mut self, start: usize, size: usize)
        requires
            old(self).uninit(),
            Self::init_req(start, size),
        ensures
            final(self).wf(),
            final(self).region_start() == start,
            final(self).region_end() == start + size,
        ;
}

/// Read-only bookkeeping queries offered by the bump flavours.
pub trait AllocState: Allocator {
    /// The bytes still free for allocation.
    spec fn spec_remaining(&self) -> int;

    /// The number of live allocations.
    spec fn spec_allocations(&self) -> int;

    /// Reports how many bytes are still free.
    fn remaining(&self) -> (r: usize)
        requires
            self.wf(),
        ensures
            r == self.spec_remaining(),
        ;

    /// Reports the number of live allocations.
    fn allocations(&self) -> (r: usize)
        requires
            self.wf(),
        ensures
            r == self.spec_allocations(),
        ;
}

/// Pairs a policy engine with the allocator contract: the composition layer
/// that an embedding wraps with its exclusion discipline.
pub struct Alloc<A: Allocator> {
    pub alloc: A,
}

impl<A: Allocator> Alloc<A> {
    /// Wraps an engine.
    pub fn new(alloc: A) -> (r: Self)
        ensures
            r.alloc == alloc,
    {
        Alloc { alloc }
    }
}

impl<A: Allocator> Allocator for Alloc<A> {
    open spec fn wf(&self) -> bool {
        self.alloc.wf()
    }

    open spec fn region_start(&self) -> int {
        self.alloc.region_start()
    }

    open spec fn region_end(&self) -> int {
        self.alloc.region_end()
    }

    open spec fn can_allocate(&self, layout: Layout) -> bool {
        self.alloc.can_allocate(layout)
    }

    open spec fn can_deallocate(&self, ptr: usize, layout: Layout) -> bool {
        self.alloc.can_deallocate(ptr, layout)
    }

    fn try_allocate(&mut self, layout: Layout) -> (r: Result<usize, AllocatorError>) {
        self.alloc.try_allocate(layout)
    }

    fn try_deallocate(&mut self, ptr: usize, layout: Layout) -> (r: Result<(), AllocatorError>) {
        self.alloc.try_deallocate(ptr, layout)
    }

    fn try_allocate_zeroed(&mut self, layout: Layout) -> (r: Result<usize, AllocatorError>) {
        self.alloc.try_allocate_zeroed(layout)
    }

    fn try_deallocate_zeroed(&mut self, ptr: usize, layout: Layout) -> (r: Result<
        (),
        AllocatorError,
    >) {
        self.alloc.try_deallocate_zeroed(ptr, layout)
    }
}

impl<A: AllocInit> AllocInit for Alloc<A> {
    open spec fn init_req(start: usize, size: usize) -> bool {
        A::init_req(start, size)
    }

    open spec fn uninit(&self) -> bool {
        self.alloc.uninit()
    }

    fn init(&mut self, start: usize, size: usize) {
        self.alloc.init(start, size)
    }
}

impl<A: AllocState> AllocState for Alloc<A> {
    open spec fn spec_remaining(&self) -> int {
        self.alloc.spec_remaining()
    }

    open spec fn spec_allocations(&self) -> int {
        self.alloc.spec_allocations()
    }

    fn remaining(&self) -> (r: usize) {
        self.alloc.remaining()
    }

    fn allocations(&self) -> (r: usize) {
        self.alloc.allocations()
    }
}

} // verus!
