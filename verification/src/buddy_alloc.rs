//! The buddy policy: power-of-two block splitting and coalescing. The region
//! is carved into blocks of `PAGE_SIZE * 2^order` bytes; an array of free
//! areas, indexed by order, holds the free blocks of each size. Allocation
//! pops a block of the right order, splitting a larger one on the way down
//! when needed; release merges a block with its buddy as far up as it can.
//!
//! Free blocks are recorded by their base address. Buddy arithmetic works on
//! offsets from the region base, so the policy is sound even when the base
//! itself is not aligned to the larger block sizes.
//!
//! The behaviour is captured by the spec functions [`buddy_allocate`] and
//! [`buddy_deallocate`]; the methods of [`BuddyAlloc`] are pinned to them.

pub mod locked;

use vstd::prelude::*;

use vstd::arithmetic::power2::pow2;

use crate::common::{
    align_up_spec, is_power_of_two, lemma_align_up, lemma_power_of_two_exponent,
    lemma_power_of_two_pos, AllocatorError, Layout,
};

verus! {

/// Bytes of the smallest block.
pub const PAGE_SIZE: usize = 8;

/// The smallest order.
pub const MIN_ORDER: usize = 0;

/// The largest order: one block of this order spans `PAGE_SIZE * 2^22` bytes.
pub const MAX_ORDER: usize = 22;

/// Number of free areas.
pub const NR_MAX_ORDER: usize = MAX_ORDER + 1;

/// Bytes of a block of order `k`.
pub open spec fn block_size(k: int) -> int
    recommends
        k >= 0,
{
    PAGE_SIZE * pow2(k as nat)
}

/// Block sizes start at `PAGE_SIZE` and double with each order.
pub proof fn lemma_block_size_basics(k: int)
    requires
        0 <= k,
    ensures
        block_size(k) >= PAGE_SIZE,
        block_size(k + 1) == 2 * block_size(k),
{
    vstd::arithmetic::power2::lemma_pow2_pos(k as nat);
    vstd::arithmetic::power2::lemma_pow2_adds(k as nat, 1);
    vstd::arithmetic::power2::lemma2_to64();
    assert(PAGE_SIZE * (pow2(k as nat) * 2) == 2 * (PAGE_SIZE * pow2(k as nat)))
        by (nonlinear_arith);
}

/// Block sizes grow with the order.
pub proof fn lemma_block_size_increases(k1: int, k2: int)
    requires
        0 <= k1 <= k2,
    ensures
        block_size(k1) <= block_size(k2),
    decreases k2 - k1,
{
    if k1 < k2 {
        lemma_block_size_increases(k1, k2 - 1);
        lemma_block_size_basics(k2 - 1);
        vstd::arithmetic::power2::lemma_pow2_pos((k2 - 1) as nat);
        assert(PAGE_SIZE * pow2((k2 - 1) as nat) >= 0) by (nonlinear_arith)
            requires
                pow2((k2 - 1) as nat) >= 1,
        ;
    }
}

/// The largest block spans 33554432 bytes.
pub proof fn lemma_block_size_max()
    ensures
        block_size(MAX_ORDER as int) == 33554432,
{
    vstd::arithmetic::power2::lemma2_to64();
}

/// An entry of a free area: one free block, recorded by its base address.
/// In a freestanding embedding this record lives at that very address, as an
/// intrusive link node in the free block's own first bytes.
#[derive(Clone, Copy, Debug, PartialEq, Eq, Structural)]
pub struct FreeList {
    pub addr: usize,
}

impl FreeList {
    /// Records a free block at `addr`.
    pub fn new(addr: usize) -> (r: FreeList)
        ensures
            r.addr == addr,
    {
        FreeList { addr }
    }

    /// Base address of the block this entry records.
    pub fn start_addr(&self) -> (r: usize)
        ensures
            r == self.addr,
    {
        self.addr
    }
}

/// The free blocks of one order, newest first at the tail, with their count.
#[derive(Debug)]
pub struct FreeArea {
    pub head: Vec<FreeList>,
    pub nr_free: usize,
}

impl FreeArea {
    /// The count matches the list.
    pub open spec fn wf(self) -> bool {
        self.nr_free == self.head@.len()
    }

    /// Creates an empty free area.
    pub fn new() -> (r: FreeArea)
        ensures
            r.wf(),
            r.head@.len() == 0,
    {
        FreeArea { head: Vec::new(), nr_free: 0 }
    }

    /// Pushes a block onto the head of the list.
    fn push(&mut self, value: FreeList)
        requires
            old(self).wf(),
        ensures
            final(self).wf(),
            final(self).head@ == old(self).head@.push(value),
    {
        self.head.push(value);
        self.nr_free = self.head.len();
    }

    /// Pops the block at the head of the list, if any.
    fn pop(&mut self) -> (r: Option<FreeList>)
        requires
            old(self).wf(),
        ensures
            final(self).wf(),
            old(self).head@.len() > 0 ==> r == Some(old(self).head@.last()) && final(self).head@
                == old(self).head@.drop_last(),
            old(self).head@.len() == 0 ==> r is None && final(self).head@ == old(self).head@
                && final(self).nr_free == old(self).nr_free,
    {
        let r = self.head.pop();
        if r.is_some() {
            self.nr_free = self.nr_free - 1;
        }
        r
    }
}

/// A free block of order `k` at `addr`, within the region `[base, base + size)`:
/// its offset from the base is a multiple of its own block size and the whole
/// block lies inside the region.
pub open spec fn block_wf(base: int, size: int, addr: int, k: int) -> bool {
    &&& base <= addr
    &&& (addr - base) % block_size(k) == 0
    &&& addr - base + block_size(k) <= size
}

/// The buddy engine: free-area bookkeeping for the region
/// `[base, base + size)`.
#[derive(Debug)]
pub struct BuddyAlloc {
    pub base: usize,
    pub size: usize,
    pub list_areas: Vec<FreeArea>,
}

impl BuddyAlloc {
    /// The free blocks of each order, head of each list last.
    pub open spec fn areas(self) -> Seq<Seq<FreeList>> {
        Seq::new(self.list_areas@.len() as nat, |k: int| self.list_areas@[k].head@)
    }

    /// One free area per order, counts in sync, every recorded block aligned
    /// to its order and inside the region.
    pub open spec fn inv(self) -> bool {
        &&& self.list_areas@.len() == NR_MAX_ORDER
        &&& self.base + self.size <= usize::MAX
        &&& forall|k: int| 0 <= k < NR_MAX_ORDER ==> (#[trigger] self.list_areas@[k]).wf()
        &&& forall|k: int, i: int|
            0 <= k < NR_MAX_ORDER && 0 <= i < self.areas()[k].len() ==> block_wf(
                self.base as int,
                self.size as int,
                (#[trigger] self.areas()[k][i]).addr as int,
                k,
            )
    }

    /// All free areas are empty.
    pub open spec fn all_empty(self) -> bool {
        forall|k: int| 0 <= k < self.list_areas@.len() ==> self.areas()[k].len() == 0
    }

    /// Creates a new engine with empty free areas; it must be initialized
    /// before use.
    pub fn new() -> (r: BuddyAlloc)
        ensures
            r.inv(),
            r.base == 0,
            r.size == 0,
            r.all_empty(),
    {
        let mut list_areas: Vec<FreeArea> = Vec::new();
        while list_areas.len() < NR_MAX_ORDER
            invariant
                list_areas@.len() <= NR_MAX_ORDER,
                forall|k: int| 0 <= k < list_areas@.len() ==> (#[trigger] list_areas@[k]).wf()
                    && list_areas@[k].head@.len() == 0,
            decreases NR_MAX_ORDER - list_areas.len(),
        {
            list_areas.push(FreeArea::new());
        }
        BuddyAlloc { base: 0, size: 0, list_areas }
    }
}

/// `areas` with a block pushed onto the head of order `k`.
pub open spec fn area_push(areas: Seq<Seq<FreeList>>, k: int, addr: usize) -> Seq<Seq<FreeList>> {
    areas.update(k, areas[k].push(FreeList { addr }))
}

/// The smallest order at or above `k` with a free block, or `NR_MAX_ORDER`
/// when every such area is empty.
pub open spec fn find_source(areas: Seq<Seq<FreeList>>, k: int) -> int
    recommends
        areas.len() == NR_MAX_ORDER,
        0 <= k,
    decreases NR_MAX_ORDER - k,
{
    if k >= NR_MAX_ORDER {
        NR_MAX_ORDER as int
    } else if areas[k].len() > 0 {
        k
    } else {
        find_source(areas, k + 1)
    }
}

/// Splits the head block of order `j` into its two halves at order `j - 1`:
/// the lower half is pushed first, so the upper half becomes the new head.
pub open spec fn split_once(areas: Seq<Seq<FreeList>>, j: int) -> Seq<Seq<FreeList>>
    recommends
        1 <= j < areas.len(),
        areas[j].len() > 0,
{
    let b = areas[j].last().addr;
    let popped = areas.update(j, areas[j].drop_last());
    area_push(area_push(popped, j - 1, b), j - 1, (b + block_size(j - 1)) as usize)
}

/// Splits head blocks from order `j` down until order `target` has one.
pub open spec fn split_down(areas: Seq<Seq<FreeList>>, j: int, target: int) -> Seq<Seq<FreeList>>
    decreases j - target,
{
    if j <= target {
        areas
    } else {
        split_down(split_once(areas, j), j - 1, target)
    }
}

/// One allocation of a block of order `target`: find the lowest stocked
/// order, split its head block down to `target`, and pop the head there.
pub open spec fn buddy_allocate(areas: Seq<Seq<FreeList>>, target: int, layout: Layout) -> (Seq<
    Seq<FreeList>,
>, Result<usize, AllocatorError>) {
    let src = find_source(areas, target);
    if src >= NR_MAX_ORDER {
        (areas, Err(AllocatorError::Oom(layout)))
    } else {
        let a2 = split_down(areas, src, target);
        (a2.update(target, a2[target].drop_last()), Ok(a2[target].last().addr))
    }
}

/// The offset of the sibling block that a block at offset `off` of order `k`
/// merges with: the other half of their common order-`k + 1` parent.
pub open spec fn buddy_of(off: int, k: int) -> int {
    if (off / block_size(k)) % 2 == 0 {
        off + block_size(k)
    } else {
        off - block_size(k)
    }
}

/// Whether some entry of `s` records a block at `addr`.
pub open spec fn contains_addr(s: Seq<FreeList>, addr: usize) -> bool {
    exists|i: int| 0 <= i < s.len() && s[i].addr == addr
}

/// `s` without its head-most entry for `addr` (entries nearer the tail of
/// the sequence are nearer the head of the free list).
pub open spec fn remove_addr(s: Seq<FreeList>, addr: usize) -> Seq<FreeList>
    decreases s.len(),
{
    if s.len() == 0 {
        s
    } else if s.last().addr == addr {
        s.drop_last()
    } else {
        remove_addr(s.drop_last(), addr).push(s.last())
    }
}

/// Removing the head-most occurrence is removal at its index.
pub proof fn lemma_remove_addr_at(s: Seq<FreeList>, addr: usize, i: int)
    requires
        0 <= i < s.len(),
        s[i].addr == addr,
        forall|m: int| i < m < s.len() ==> s[m].addr != addr,
    ensures
        remove_addr(s, addr) == s.remove(i),
    decreases s.len(),
{
    if i == s.len() - 1 {
        assert(s.drop_last() =~= s.remove(i));
    } else {
        lemma_remove_addr_at(s.drop_last(), addr, i);
        assert(s.drop_last().remove(i).push(s.last()) =~= s.remove(i));
    }
}

/// Frees a block of order `k` at `addr`: while the block's buddy is free,
/// merge the two and continue one order up; park the merged block at the
/// first order where its buddy is missing, or at the top order.
pub open spec fn coalesce(
    areas: Seq<Seq<FreeList>>,
    base: int,
    addr: usize,
    k: int,
) -> Seq<Seq<FreeList>>
    recommends
        areas.len() == NR_MAX_ORDER,
        0 <= k <= MAX_ORDER,
    decreases MAX_ORDER - k,
{
    if k >= MAX_ORDER {
        area_push(areas, MAX_ORDER as int, addr)
    } else {
        let b = base + buddy_of(addr - base, k);
        if contains_addr(areas[k], b as usize) {
            let merged: usize = if b < addr {
                b as usize
            } else {
                addr
            };
            coalesce(areas.update(k, remove_addr(areas[k], b as usize)), base, merged, k + 1)
        } else {
            area_push(areas, k, addr)
        }
    }
}

/// One release of a block of order `k` at `addr`: insert it and coalesce
/// upward as far as possible.
pub open spec fn buddy_deallocate(
    areas: Seq<Seq<FreeList>>,
    base: int,
    addr: usize,
    k: int,
) -> Seq<Seq<FreeList>> {
    coalesce(areas, base, addr, k)
}

/// The request size after normalization: the alignment is raised to at
/// least the intrusive node alignment, the size is padded to that alignment
/// and to at least one node.
pub open spec fn padded_size(layout: Layout) -> int {
    let a = if layout.align > PAGE_SIZE {
        layout.align as int
    } else {
        PAGE_SIZE as int
    };
    let s = align_up_spec(layout.size as int, a);
    if s > PAGE_SIZE {
        s
    } else {
        PAGE_SIZE as int
    }
}

/// The smallest order at or above `k` whose block covers `sz` bytes, or
/// `NR_MAX_ORDER` when even the largest block is too small.
pub open spec fn order_for(sz: int, k: int) -> int
    decreases NR_MAX_ORDER - k,
{
    if k >= NR_MAX_ORDER {
        NR_MAX_ORDER as int
    } else if block_size(k) >= sz {
        k
    } else {
        order_for(sz, k + 1)
    }
}

/// The order that serves a request: the smallest block covering the padded
/// size.
pub open spec fn order_of(layout: Layout) -> int {
    order_for(padded_size(layout), 0)
}

/// What `order_for` finds is genuinely the smallest sufficient order.
pub proof fn lemma_order_for(sz: int, k: int)
    requires
        0 <= k <= NR_MAX_ORDER,
    ensures
        k <= order_for(sz, k) <= NR_MAX_ORDER,
        order_for(sz, k) < NR_MAX_ORDER ==> block_size(order_for(sz, k)) >= sz,
        forall|m: int| k <= m < order_for(sz, k) ==> block_size(m) < sz,
        k <= MAX_ORDER && order_for(sz, k) == NR_MAX_ORDER ==> block_size(MAX_ORDER as int)
            < sz,
    decreases NR_MAX_ORDER - k,
{
    if k < NR_MAX_ORDER && block_size(k) < sz {
        lemma_order_for(sz, k + 1);
    }
}

/// Splitting a block of order `j` yields two well-formed blocks of order
/// `j - 1`: its lower and upper halves.
pub proof fn lemma_split_block_wf(base: int, size: int, addr: int, j: int)
    requires
        1 <= j,
        block_wf(base, size, addr, j),
    ensures
        block_wf(base, size, addr, j - 1),
        block_wf(base, size, addr + block_size(j - 1), j - 1),
{
    let bs = block_size(j - 1);
    let off = addr - base;
    lemma_block_size_basics(j - 1);
    vstd::arithmetic::div_mod::lemma_fundamental_div_mod(off, 2 * bs);
    let m = off / (2 * bs);
    assert(off == 2 * bs * m);
    assert(off == bs * (2 * m)) by (nonlinear_arith)
        requires
            off == 2 * bs * m,
    ;
    vstd::arithmetic::div_mod::lemma_mod_multiples_basic(2 * m, bs);
    assert(off + bs == bs * (2 * m + 1)) by (nonlinear_arith)
        requires
            off == bs * (2 * m),
    ;
    vstd::arithmetic::div_mod::lemma_mod_multiples_basic(2 * m + 1, bs);
}

/// Merging a block of order `k` with its free buddy yields a well-formed
/// block of order `k + 1` at the lower of the two addresses.
pub proof fn lemma_merge_block_wf(base: int, size: int, addr: int, k: int)
    requires
        0 <= k,
        block_wf(base, size, addr, k),
        block_wf(base, size, base + buddy_of(addr - base, k), k),
    ensures
        buddy_of(addr - base, k) != addr - base,
        block_wf(
            base,
            size,
            if buddy_of(addr - base, k) < addr - base {
                base + buddy_of(addr - base, k)
            } else {
                addr
            },
            k + 1,
        ),
{
    let bs = block_size(k);
    let off = addr - base;
    let boff = buddy_of(off, k);
    lemma_block_size_basics(k);
    vstd::arithmetic::div_mod::lemma_fundamental_div_mod(off, bs);
    vstd::arithmetic::div_mod::lemma_mod_bound(off, bs);
    let q = off / bs;
    assert(off == bs * q);
    if q % 2 == 0 {
        vstd::arithmetic::div_mod::lemma_fundamental_div_mod(q, 2);
        let h = q / 2;
        assert(off == (2 * bs) * h) by (nonlinear_arith)
            requires
                off == bs * q,
                q == 2 * h,
        ;
        vstd::arithmetic::div_mod::lemma_mod_multiples_basic(h, 2 * bs);
        assert(boff == off + bs);
        assert((off / bs) * bs == off) by (nonlinear_arith)
            requires
                off == bs * q,
                q == off / bs,
        ;
    } else {
        vstd::arithmetic::div_mod::lemma_fundamental_div_mod(q, 2);
        let h = q / 2;
        assert(q == 2 * h + 1);
        assert(boff == off - bs);
        assert(boff == (2 * bs) * h) by (nonlinear_arith)
            requires
                off == bs * q,
                q == 2 * h + 1,
                boff == off - bs,
        ;
        vstd::arithmetic::div_mod::lemma_mod_multiples_basic(h, 2 * bs);
    }
}

/// A power-of-two size that the doubling search brackets is hit exactly.
pub proof fn lemma_power_of_two_size_exact(size: int, t: int)
    requires
        is_power_of_two(size),
        size >= PAGE_SIZE,
        0 <= t,
        block_size(t) >= size,
        t > 0 ==> block_size(t - 1) < size,
    ensures
        block_size(t) == size,
{
    vstd::arithmetic::power2::lemma2_to64();
    lemma_power_of_two_exponent(size);
    let e = choose|e: nat| pow2(e) == size;
    vstd::arithmetic::power2::lemma_pow2_adds(3, t as nat);
    assert(block_size(t) == pow2((t + 3) as nat));
    if e < 3 {
        vstd::arithmetic::power2::lemma_pow2_strictly_increases(e, 3);
    }
    if t == 0 {
        if e > 3 {
            vstd::arithmetic::power2::lemma_pow2_strictly_increases(3, e);
        }
    } else {
        vstd::arithmetic::power2::lemma_pow2_adds(3, (t - 1) as nat);
        assert(block_size(t - 1) == pow2((t + 2) as nat));
        if e <= t + 2 {
            if e < t + 2 {
                vstd::arithmetic::power2::lemma_pow2_strictly_increases(e, (t + 2) as nat);
            }
            assert(pow2(e) <= pow2((t + 2) as nat));
        }
        if e > t + 3 {
            vstd::arithmetic::power2::lemma_pow2_strictly_increases((t + 3) as nat, e);
        }
        assert(e == t + 3);
    }
}

/// Where the doubling search stops is exactly `order_for`.
pub proof fn lemma_order_for_from(sz: int, k: int, t: int)
    requires
        0 <= k <= t < NR_MAX_ORDER,
        block_size(t) >= sz,
        forall|m: int| k <= m < t ==> block_size(m) < sz,
    ensures
        order_for(sz, k) == t,
    decreases t - k,
{
    if k < t {
        lemma_order_for_from(sz, k + 1, t);
    }
}

/// A request too big for even the largest block has no order.
pub proof fn lemma_order_for_none(sz: int, k: int)
    requires
        0 <= k <= NR_MAX_ORDER,
        block_size(MAX_ORDER as int) < sz,
    ensures
        order_for(sz, k) == NR_MAX_ORDER,
    decreases NR_MAX_ORDER - k,
{
    if k < NR_MAX_ORDER {
        lemma_block_size_increases(k, MAX_ORDER as int);
        lemma_order_for_none(sz, k + 1);
    }
}

/// The padded size covers the request and its alignment.
pub proof fn lemma_padded_size(layout: Layout)
    requires
        layout.wf(),
    ensures
        padded_size(layout) >= layout.size,
        padded_size(layout) >= PAGE_SIZE,
        layout.size > 0 ==> padded_size(layout) >= layout.align,
{
    lemma_power_of_two_pos(layout.align as int);
    let sz = layout.size as int;
    let a = if layout.align > PAGE_SIZE {
        layout.align as int
    } else {
        PAGE_SIZE as int
    };
    lemma_align_up(sz, a);
    if layout.size > 0 {
        vstd::arithmetic::div_mod::lemma_mod_bound(sz, a);
        vstd::arithmetic::div_mod::lemma_fundamental_div_mod(sz, a);
        let q = sz / a;
        let r = sz % a;
        assert(q >= 0) by (nonlinear_arith)
            requires
                a >= 1,
                sz == a * q + r,
                0 <= r < a,
                sz > 0,
        ;
        if r == 0 {
            assert(q >= 1) by (nonlinear_arith)
                requires
                    a >= 1,
                    q >= 0,
                    sz == a * q,
                    sz > 0,
            ;
            assert(sz >= a) by (nonlinear_arith)
                requires
                    a >= 1,
                    q >= 1,
                    sz == a * q,
            ;
        } else {
            assert(r <= sz) by (nonlinear_arith)
                requires
                    a >= 1,
                    q >= 0,
                    sz == a * q + r,
                    r >= 0,
            ;
        }
    }
}

impl BuddyAlloc {
    /// Pushes a block onto the head of the given order's free list.
    fn push_to_order(&mut self, order: usize, addr: usize)
        requires
            old(self).inv(),
            order < NR_MAX_ORDER,
            block_wf(old(self).base as int, old(self).size as int, addr as int, order as int),
        ensures
            final(self).inv(),
            final(self).base == old(self).base,
            final(self).size == old(self).size,
            final(self).areas() == area_push(old(self).areas(), order as int, addr),
    {
        let mut area = self.list_areas.remove(order);
        area.push(FreeList { addr });
        self.list_areas.insert(order, area);
        proof {
            assert(self.list_areas@ =~= old(self).list_areas@.update(
                order as int,
                self.list_areas@[order as int],
            ));
            assert(self.areas() =~= area_push(old(self).areas(), order as int, addr));
            assert forall|k: int, i: int|
                0 <= k < NR_MAX_ORDER && 0 <= i < self.areas()[k].len() implies block_wf(
                self.base as int,
                self.size as int,
                (self.areas()[k][i]).addr as int,
                k,
            ) by {
                if k == order as int && i == self.areas()[k].len() - 1 {
                    assert(self.areas()[k][i].addr == addr);
                } else {
                    assert(self.areas()[k][i] == old(self).areas()[k][i]);
                }
            }
        }
    }

    /// Pops the head block of the given order's free list.
    fn pop_from_order(&mut self, order: usize) -> (r: FreeList)
        requires
            old(self).inv(),
            order < NR_MAX_ORDER,
            old(self).areas()[order as int].len() > 0,
        ensures
            final(self).inv(),
            final(self).base == old(self).base,
            final(self).size == old(self).size,
            r == old(self).areas()[order as int].last(),
            final(self).areas() == old(self).areas().update(
                order as int,
                old(self).areas()[order as int].drop_last(),
            ),
            block_wf(old(self).base as int, old(self).size as int, r.addr as int, order as int),
    {
        let mut area = self.list_areas.remove(order);
        let node = if let Some(n) = area.pop() {
            n
        } else {
            proof {
                assert(false);
            }
            FreeList { addr: 0 }
        };
        self.list_areas.insert(order, area);
        proof {
            assert(self.list_areas@ =~= old(self).list_areas@.update(
                order as int,
                self.list_areas@[order as int],
            ));
            assert(self.areas() =~= old(self).areas().update(
                order as int,
                old(self).areas()[order as int].drop_last(),
            ));
            let last = old(self).areas()[order as int].len() - 1;
            assert(old(self).areas()[order as int][last].addr == node.addr);
            assert forall|k: int, i: int|
                0 <= k < NR_MAX_ORDER && 0 <= i < self.areas()[k].len() implies block_wf(
                self.base as int,
                self.size as int,
                (self.areas()[k][i]).addr as int,
                k,
            ) by {
                assert(self.areas()[k][i] == old(self).areas()[k][i]);
            }
        }
        node
    }

    /// Whether the given order's free list records a block at `addr`.
    fn area_contains(&self, order: usize, addr: usize) -> (r: bool)
        requires
            self.list_areas@.len() == NR_MAX_ORDER,
            order < NR_MAX_ORDER,
        ensures
            r == contains_addr(self.areas()[order as int], addr),
    {
        let area = &self.list_areas[order];
        let n = area.head.len();
        let mut i: usize = 0;
        while i < n
            invariant
                i <= n,
                order < NR_MAX_ORDER,
                self.list_areas@.len() == NR_MAX_ORDER,
                area.head@ == self.list_areas@[order as int].head@,
                n == area.head@.len(),
                forall|m: int| 0 <= m < i ==> area.head@[m].addr != addr,
            decreases n - i,
        {
            if area.head[i].addr == addr {
                proof {
                    assert(self.areas()[order as int][i as int].addr == addr);
                }
                return true;
            }
            i = i + 1;
        }
        proof {
            assert(self.areas()[order as int] == area.head@);
        }
        false
    }

    /// Removes the head-most record of `addr` from the given order.
    fn remove_from_order(&mut self, order: usize, addr: usize)
        requires
            old(self).inv(),
            order < NR_MAX_ORDER,
            contains_addr(old(self).areas()[order as int], addr),
        ensures
            final(self).inv(),
            final(self).base == old(self).base,
            final(self).size == old(self).size,
            final(self).areas() == old(self).areas().update(
                order as int,
                remove_addr(old(self).areas()[order as int], addr),
            ),
    {
        let mut area = self.list_areas.remove(order);
        let ghost s0 = area.head@;
        let mut i: usize = area.head.len();
        while i > 0
            invariant
                i <= s0.len(),
                area.head@ == s0,
                area.nr_free == s0.len(),
                forall|m: int| i <= m < s0.len() ==> s0[m].addr != addr,
                order < NR_MAX_ORDER,
                old(self).inv(),
                self.base == old(self).base,
                self.size == old(self).size,
                self.list_areas@ == old(self).list_areas@.remove(order as int),
                s0 == old(self).list_areas@[order as int].head@,
            decreases i,
        {
            i = i - 1;
            if area.head[i].addr == addr {
                proof {
                    lemma_remove_addr_at(s0, addr, i as int);
                }
                area.head.remove(i);
                area.nr_free = area.head.len();
                proof {
                    assert(area.head@ == remove_addr(s0, addr));
                }
                self.list_areas.insert(order, area);
                proof {
                    assert(self.list_areas@ =~= old(self).list_areas@.update(
                        order as int,
                        self.list_areas@[order as int],
                    ));
                    assert(self.areas() =~= old(self).areas().update(
                        order as int,
                        remove_addr(old(self).areas()[order as int], addr),
                    ));
                    s0.remove_ensures(i as int);
                    assert forall|k: int, j: int|
                        0 <= k < NR_MAX_ORDER && 0 <= j < self.areas()[k].len() implies block_wf(
                        self.base as int,
                        self.size as int,
                        (self.areas()[k][j]).addr as int,
                        k,
                    ) by {
                        if k == order as int {
                            if j < i {
                                assert(self.areas()[k][j] == old(self).areas()[k][j]);
                            } else {
                                assert(self.areas()[k][j] == old(self).areas()[k][j + 1]);
                            }
                        } else {
                            assert(self.areas()[k][j] == old(self).areas()[k][j]);
                        }
                    }
                }
                return ;
            }
        }
        proof {
            assert(contains_addr(s0, addr));
            assert(false);
        }
        self.list_areas.insert(order, area);
    }

    /// Bytes of a block of the given order.
    pub fn block_bytes(order: usize) -> (r: usize)
        requires
            order <= MAX_ORDER,
        ensures
            r == block_size(order as int),
    {
        proof {
            vstd::arithmetic::power2::lemma2_to64();
        }
        let mut bs: usize = PAGE_SIZE;
        let mut i: usize = 0;
        while i < order
            invariant
                i <= order,
                order <= MAX_ORDER,
                bs == block_size(i as int),
            decreases order - i,
        {
            proof {
                lemma_block_size_basics(i as int);
                lemma_block_size_increases(i as int, 21);
                lemma_block_size_max();
                lemma_block_size_basics(21);
            }
            bs = bs * 2;
            i = i + 1;
        }
        bs
    }
}


impl BuddyAlloc {
    /// The order of the single free block that `init` seeds: the one whose
    /// block size is the whole region.
    pub open spec fn top_order(size: int) -> int {
        order_for(size, 0)
    }

    /// Binds the engine to the region `[start, start + size)` and seeds it
    /// with one free block spanning the whole region.
    pub fn init(&mut self, start: usize, size: usize)
        requires
            old(self).inv(),
            old(self).all_empty(),
            start != 0,
            start % 8 == 0,
            is_power_of_two(size as int),
            size >= PAGE_SIZE,
            size <= 33554432,
            start + size <= usize::MAX,
        ensures
            final(self).inv(),
            final(self).base == start,
            final(self).size == size,
            Self::top_order(size as int) <= MAX_ORDER,
            block_size(Self::top_order(size as int)) == size,
            final(self).areas() == area_push(
                old(self).areas(),
                Self::top_order(size as int),
                start,
            ),
    {
        let mut t: usize = 0;
        let mut bs: usize = PAGE_SIZE;
        proof {
            lemma_block_size_max();
            vstd::arithmetic::power2::lemma2_to64();
            assert(bs == block_size(0));
        }
        while bs < size
            invariant
                t <= MAX_ORDER,
                bs == block_size(t as int),
                size <= 33554432,
                block_size(MAX_ORDER as int) == 33554432,
                forall|m: int| 0 <= m < t ==> block_size(m) < size,
            decreases MAX_ORDER - t,
        {
            proof {
                lemma_block_size_basics(t as int);
                if t as int + 1 <= MAX_ORDER {
                    lemma_block_size_increases(t as int + 1, MAX_ORDER as int);
                }
                assert(t < MAX_ORDER);
            }
            bs = bs * 2;
            t = t + 1;
        }
        proof {
            lemma_power_of_two_size_exact(size as int, t as int);
            lemma_order_for_from(size as int, 0, t as int);
        }
        self.base = start;
        self.size = size;
        proof {
            assert(self.areas() == old(self).areas());
            assert((start as int - start as int) % block_size(t as int) == 0) by {
                vstd::arithmetic::div_mod::lemma_mod_self_0(block_size(t as int));
                lemma_block_size_basics(t as int);
                vstd::arithmetic::div_mod::lemma_small_mod(0, block_size(t as int) as nat);
            }
            assert(block_wf(start as int, size as int, start as int, t as int));
        }
        self.push_to_order(t, start);
    }

    /// Normalizes a request to the order that serves it, or reports that no
    /// block is large enough.
    pub fn size_align(layout: Layout) -> (r: Result<usize, AllocatorError>)
        requires
            layout.wf(),
        ensures
            order_of(layout) <= MAX_ORDER ==> r == Ok::<usize, AllocatorError>(
                order_of(layout) as usize,
            ),
            order_of(layout) > MAX_ORDER ==> r == Err::<usize, AllocatorError>(
                AllocatorError::LayoutInvalid(layout),
            ),
    {
        proof {
            lemma_power_of_two_pos(layout.align as int);
            lemma_block_size_max();
        }
        let a = if layout.align > PAGE_SIZE {
            layout.align
        } else {
            PAGE_SIZE
        };
        let aligned = match crate::common::align_up_checked(layout.size, a) {
            Some(p) => p,
            None => {
                proof {
                    lemma_order_for_none(padded_size(layout), 0);
                }
                return Err(AllocatorError::LayoutInvalid(layout));
            },
        };
        let padded = if aligned > PAGE_SIZE {
            aligned
        } else {
            PAGE_SIZE
        };
        let mut t: usize = 0;
        let mut bs: usize = PAGE_SIZE;
        proof {
            vstd::arithmetic::power2::lemma2_to64();
            assert(bs == block_size(0));
        }
        while bs < padded
            invariant
                t <= MAX_ORDER,
                bs == block_size(t as int),
                padded == padded_size(layout),
                block_size(MAX_ORDER as int) == 33554432,
                forall|m: int| 0 <= m < t ==> block_size(m) < padded,
            decreases MAX_ORDER - t,
        {
            if t == MAX_ORDER {
                proof {
                    lemma_order_for_none(padded_size(layout), 0);
                }
                return Err(AllocatorError::LayoutInvalid(layout));
            }
            proof {
                lemma_block_size_basics(t as int);
                lemma_block_size_increases(t as int + 1, MAX_ORDER as int);
            }
            bs = bs * 2;
            t = t + 1;
        }
        proof {
            lemma_order_for_from(padded_size(layout), 0, t as int);
        }
        Ok(t)
    }

    /// Ensures the free list of `target_order` is stocked, splitting the
    /// head block of the lowest stocked order above it if needed. Fails,
    /// changing nothing, when no free block at or above the target exists.
    pub fn split_area_to(&mut self, target_order: usize) -> (r: Result<(), ()>)
        requires
            old(self).inv(),
            target_order < NR_MAX_ORDER,
        ensures
            final(self).inv(),
            final(self).base == old(self).base,
            final(self).size == old(self).size,
            ({
                let src = find_source(old(self).areas(), target_order as int);
                if src >= NR_MAX_ORDER {
                    r is Err && final(self).areas() == old(self).areas()
                } else {
                    r is Ok && final(self).areas() == split_down(
                        old(self).areas(),
                        src,
                        target_order as int,
                    ) && final(self).areas()[target_order as int].len() > 0
                }
            }),
    {
        let mut src: usize = target_order;
        while src < NR_MAX_ORDER && self.list_areas[src].nr_free == 0
            invariant
                target_order <= src <= NR_MAX_ORDER,
                self.inv(),
                self == old(self),
                find_source(self.areas(), target_order as int) == find_source(
                    self.areas(),
                    src as int,
                ),
            decreases NR_MAX_ORDER - src,
        {
            src = src + 1;
        }
        if src == NR_MAX_ORDER {
            return Err(());
        }
        proof {
            assert(self.areas()[src as int].len() > 0);
            assert(find_source(old(self).areas(), target_order as int) == src);
        }
        let ghost areas0 = self.areas();
        let ghost src0 = src;
        let mut j = src;
        while j > target_order
            invariant
                target_order <= j <= src0,
                src0 < NR_MAX_ORDER,
                self.inv(),
                self.base == old(self).base,
                self.size == old(self).size,
                self.areas()[j as int].len() > 0,
                split_down(areas0, src0 as int, target_order as int) == split_down(
                    self.areas(),
                    j as int,
                    target_order as int,
                ),
            decreases j,
        {
            let ghost pre = self.areas();
            let node = self.pop_from_order(j);
            proof {
                lemma_split_block_wf(
                    self.base as int,
                    self.size as int,
                    node.addr as int,
                    j as int,
                );
                lemma_block_size_basics(j as int - 1);
            }
            let bs = Self::block_bytes(j - 1);
            self.push_to_order(j - 1, node.addr);
            self.push_to_order(j - 1, node.addr + bs);
            proof {
                assert(self.areas() =~= split_once(pre, j as int));
            }
            j = j - 1;
        }
        Ok(())
    }

    /// Satisfies the request with a block of the smallest sufficient order,
    /// splitting a larger block when none of that order is free.
    pub fn try_allocate(&mut self, layout: Layout) -> (r: Result<usize, AllocatorError>)
        requires
            old(self).inv(),
            layout.wf(),
        ensures
            final(self).inv(),
            final(self).base == old(self).base,
            final(self).size == old(self).size,
            order_of(layout) > MAX_ORDER ==> r == Err::<usize, AllocatorError>(
                AllocatorError::LayoutInvalid(layout),
            ) && final(self).areas() == old(self).areas(),
            order_of(layout) <= MAX_ORDER ==> ({
                let (a2, res) = buddy_allocate(old(self).areas(), order_of(layout), layout);
                final(self).areas() == a2 && r == res
            }),
            r matches Ok(p) ==> block_wf(
                old(self).base as int,
                old(self).size as int,
                p as int,
                order_of(layout),
            ) && layout.size <= padded_size(layout) <= block_size(order_of(layout)),
    {
        proof {
            lemma_padded_size(layout);
            if order_of(layout) <= MAX_ORDER {
                lemma_order_for(padded_size(layout), 0);
            }
        }
        let order = match Self::size_align(layout) {
            Ok(k) => k,
            Err(e) => {
                return Err(e);
            },
        };
        match self.split_area_to(order) {
            Ok(()) => {},
            Err(()) => {
                return Err(AllocatorError::Oom(layout));
            },
        }
        let node = self.pop_from_order(order);
        proof {
            let (a2, res) = buddy_allocate(old(self).areas(), order_of(layout), layout);
            assert(final(self).areas() =~= a2);
        }
        Ok(node.addr)
    }
}


impl BuddyAlloc {
    /// Records a free block of the given order at `addr`, as `init` and the
    /// release path do. The block must be order-aligned and lie inside the
    /// region.
    pub fn add_free_area(&mut self, addr: usize, order: usize)
        requires
            old(self).inv(),
            order < NR_MAX_ORDER,
            block_wf(old(self).base as int, old(self).size as int, addr as int, order as int),
        ensures
            final(self).inv(),
            final(self).base == old(self).base,
            final(self).size == old(self).size,
            final(self).areas() == area_push(old(self).areas(), order as int, addr),
    {
        self.push_to_order(order, addr);
    }

    /// Coalesces the recorded free block at `addr` of the given order
    /// upward: while its buddy is free, the two merge into the next order;
    /// the merged block parks at the first order whose buddy is missing.
    pub fn combine_free_buddies(&mut self, addr: usize, order: usize)
        requires
            old(self).inv(),
            order < NR_MAX_ORDER,
            contains_addr(old(self).areas()[order as int], addr),
        ensures
            final(self).inv(),
            final(self).base == old(self).base,
            final(self).size == old(self).size,
            final(self).areas() == coalesce(
                old(self).areas().update(
                    order as int,
                    remove_addr(old(self).areas()[order as int], addr),
                ),
                old(self).base as int,
                addr,
                order as int,
            ),
    {
        proof {
            let i = choose|i: int|
                0 <= i < old(self).areas()[order as int].len() && old(
                    self,
                ).areas()[order as int][i].addr == addr;
            assert(block_wf(
                old(self).base as int,
                old(self).size as int,
                old(self).areas()[order as int][i].addr as int,
                order as int,
            ));
        }
        self.remove_from_order(order, addr);
        let ghost areas1 = self.areas();
        let mut cur = addr;
        let mut k = order;
        loop
            invariant_except_break
                order <= k < NR_MAX_ORDER,
                self.inv(),
                self.base == old(self).base,
                self.size == old(self).size,
                block_wf(self.base as int, self.size as int, cur as int, k as int),
                coalesce(areas1, self.base as int, addr, order as int) == coalesce(
                    self.areas(),
                    self.base as int,
                    cur,
                    k as int,
                ),
            ensures
                self.inv(),
                self.base == old(self).base,
                self.size == old(self).size,
                self.areas() == coalesce(areas1, old(self).base as int, addr, order as int),
            decreases MAX_ORDER - k,
        {
            if k == MAX_ORDER {
                self.push_to_order(k, cur);
                break ;
            }
            let bs = Self::block_bytes(k);
            proof {
                lemma_block_size_basics(k as int);
            }
            let off = cur - self.base;
            let b: usize = if (off / bs) % 2 == 0 {
                cur + bs
            } else {
                proof {
                    let q = off as int / bs as int;
                    let rm = off as int % bs as int;
                    vstd::arithmetic::div_mod::lemma_fundamental_div_mod(off as int, bs as int);
                    vstd::arithmetic::div_mod::lemma_mod_bound(off as int, bs as int);
                    assert(q >= 1) by (nonlinear_arith)
                        requires
                            bs >= 1,
                            off == bs * q + rm,
                            0 <= rm < bs,
                            q % 2 == 1,
                            off >= 0,
                    ;
                    assert(off >= bs) by (nonlinear_arith)
                        requires
                            bs >= 1,
                            q >= 1,
                            rm >= 0,
                            off == bs * q + rm,
                    ;
                }
                cur - bs
            };
            proof {
                assert(b as int == self.base + buddy_of(cur as int - self.base, k as int));
            }
            if self.area_contains(k, b) {
                proof {
                    let i = choose|i: int|
                        0 <= i < self.areas()[k as int].len() && self.areas()[k as int][i].addr
                            == b;
                    assert(block_wf(
                        self.base as int,
                        self.size as int,
                        self.areas()[k as int][i].addr as int,
                        k as int,
                    ));
                    lemma_merge_block_wf(self.base as int, self.size as int, cur as int, k as int);
                }
                self.remove_from_order(k, b);
                if b < cur {
                    cur = b;
                }
                k = k + 1;
            } else {
                self.push_to_order(k, cur);
                break ;
            }
        }
    }

    /// Returns a block to the free areas and coalesces it with its free
    /// buddies as far up as possible.
    pub fn try_deallocate(&mut self, ptr: usize, layout: Layout) -> (r: Result<
        (),
        AllocatorError,
    >)
        requires
            old(self).inv(),
            layout.wf(),
            order_of(layout) <= MAX_ORDER,
            block_wf(old(self).base as int, old(self).size as int, ptr as int, order_of(layout)),
        ensures
            final(self).inv(),
            final(self).base == old(self).base,
            final(self).size == old(self).size,
            final(self).areas() == buddy_deallocate(
                old(self).areas(),
                old(self).base as int,
                ptr,
                order_of(layout),
            ),
            r is Ok,
    {
        proof {
            lemma_order_for(padded_size(layout), 0);
        }
        let order = match Self::size_align(layout) {
            Ok(k) => k,
            Err(e) => {
                return Err(e);
            },
        };
        self.add_free_area(ptr, order);
        let ghost mid = self.areas();
        proof {
            let n = mid[order as int].len();
            assert(mid[order as int][n - 1].addr == ptr);
            assert(contains_addr(mid[order as int], ptr));
        }
        self.combine_free_buddies(ptr, order);
        proof {
            assert(mid[order as int].last().addr == ptr);
            assert(remove_addr(mid[order as int], ptr) == old(self).areas()[order as int]);
            assert(mid.update(order as int, remove_addr(mid[order as int], ptr)) =~= old(
                self,
            ).areas());
        }
        Ok(())
    }
}

/// Address correctness for the buddy policy: every address it hands out is
/// an order-aligned offset into the region (see `try_allocate`, which
/// establishes `block_wf` for each result), so for a request of positive
/// size the offset honours the requested alignment and the block lies
/// inside the region. The absolute address is aligned whenever the region
/// base is.
pub proof fn lemma_buddy_address_correctness(base: int, size: int, p: usize, layout: Layout)
    requires
        layout.wf(),
        layout.size > 0,
        order_of(layout) <= MAX_ORDER,
        padded_size(layout) <= block_size(order_of(layout)),
        block_wf(base, size, p as int, order_of(layout)),
    ensures
        base <= p,
        p + layout.size <= base + size,
        (p - base) % (layout.align as int) == 0,
        base % (layout.align as int) == 0 ==> (p as int) % (layout.align as int) == 0,
{
    let k = order_of(layout);
    let a = layout.align as int;
    let bs = block_size(k);
    lemma_order_for(padded_size(layout), 0);
    lemma_padded_size(layout);
    lemma_power_of_two_pos(a);
    lemma_power_of_two_exponent(a);
    let e = choose|e: nat| pow2(e) == a;
    vstd::arithmetic::power2::lemma2_to64();
    vstd::arithmetic::power2::lemma_pow2_adds(3, k as nat);
    assert(bs == pow2((k + 3) as nat));
    if e > k + 3 {
        vstd::arithmetic::power2::lemma_pow2_strictly_increases((k + 3) as nat, e);
    }
    assert(e <= k + 3);
    vstd::arithmetic::power2::lemma_pow2_adds(e, (k + 3 - e) as nat);
    let d = pow2((k + 3 - e) as nat) as int;
    assert(bs == a * d);
    let off = p - base;
    vstd::arithmetic::div_mod::lemma_fundamental_div_mod(off, bs);
    let m = off / bs;
    assert(off == a * (d * m)) by (nonlinear_arith)
        requires
            off == bs * m,
            bs == a * d,
    ;
    vstd::arithmetic::div_mod::lemma_mod_multiples_basic(d * m, a);
    if base % a == 0 {
        vstd::arithmetic::div_mod::lemma_fundamental_div_mod(base, a);
        let n = base / a;
        assert(p == a * (n + d * m)) by (nonlinear_arith)
            requires
                base == a * n,
                p - base == a * (d * m),
        ;
        vstd::arithmetic::div_mod::lemma_mod_multiples_basic(n + d * m, a);
    }
}

impl crate::common::Allocator for BuddyAlloc {
    open spec fn wf(&self) -> bool {
        self.inv()
    }

    open spec fn region_start(&self) -> int {
        self.base as int
    }

    open spec fn region_end(&self) -> int {
        self.base + self.size
    }

    open spec fn can_allocate(&self, layout: Layout) -> bool {
        true
    }

    open spec fn can_deallocate(&self, ptr: usize, layout: Layout) -> bool {
        order_of(layout) <= MAX_ORDER && block_wf(
            self.base as int,
            self.size as int,
            ptr as int,
            order_of(layout),
        )
    }

    fn try_allocate(&mut self, layout: Layout) -> (r: Result<usize, AllocatorError>) {
        self.try_allocate(layout)
    }

    fn try_deallocate(&mut self, ptr: usize, layout: Layout) -> (r: Result<(), AllocatorError>) {
        self.try_deallocate(ptr, layout)
    }

    fn try_allocate_zeroed(&mut self, layout: Layout) -> (r: Result<usize, AllocatorError>) {
        self.try_allocate(layout)
    }

    fn try_deallocate_zeroed(&mut self, ptr: usize, layout: Layout) -> (r: Result<
        (),
        AllocatorError,
    >) {
        self.try_deallocate(ptr, layout)
    }
}

impl crate::common::AllocInit for BuddyAlloc {
    open spec fn init_req(start: usize, size: usize) -> bool {
        start != 0 && start % 8 == 0 && is_power_of_two(size as int) && size >= PAGE_SIZE && size
            <= 33554432 && start + size <= usize::MAX
    }

    open spec fn uninit(&self) -> bool {
        self.inv() && self.all_empty() && self.base == 0 && self.size == 0
    }

    fn init(&mut self, start: usize, size: usize) {
        self.init(start, size)
    }
}


/// Failure saturation for the buddy policy: a failed allocation leaves the
/// free areas untouched, so repeating the same request keeps failing the
/// same way until a release changes them.
pub proof fn lemma_buddy_oom_saturation(areas: Seq<Seq<FreeList>>, target: int, layout: Layout)
    ensures
        ({
            let (a2, r) = buddy_allocate(areas, target, layout);
            r is Err ==> a2 == areas && buddy_allocate(areas, target, layout).1 == r
        }),
{
}


/// Free areas with nothing in them.
pub open spec fn empty_areas() -> Seq<Seq<FreeList>> {
    Seq::new(NR_MAX_ORDER as nat, |k: int| Seq::<FreeList>::empty())
}

/// The free areas left behind while a block descends the orders: one lower
/// half parked at every order from `m` up to `t - 1`, nothing else. The
/// half at order `j` sits at offset `size - 2 * block_size(j)`.
pub open spec fn ladder(base: int, size: int, m: int, t: int) -> Seq<Seq<FreeList>> {
    Seq::new(
        NR_MAX_ORDER as nat,
        |j: int|
            if m <= j < t {
                seq![FreeList { addr: (base + size - 2 * block_size(j)) as usize }]
            } else {
                Seq::<FreeList>::empty()
            },
    )
}

/// The free areas mid-descent, about to split at order `j`: the ladder
/// above `j`, and at `j` the lower half beside the half still descending.
pub open spec fn ladder_splitting(base: int, size: int, j: int, t: int) -> Seq<Seq<FreeList>> {
    ladder(base, size, j + 1, t).update(
        j,
        seq![
            FreeList { addr: (base + size - 2 * block_size(j)) as usize },
            FreeList { addr: (base + size - block_size(j)) as usize },
        ],
    )
}

/// `pow2` of a positive exponent is even.
proof fn lemma_pow2_even(n: nat)
    requires
        n >= 1,
    ensures
        pow2(n) % 2 == 0,
{
    vstd::arithmetic::power2::lemma_pow2_adds(1, (n - 1) as nat);
    vstd::arithmetic::power2::lemma2_to64();
    vstd::arithmetic::power2::lemma_pow2_pos((n - 1) as nat);
    let h = pow2((n - 1) as nat) as int;
    assert(pow2(n) == 2 * h);
    vstd::arithmetic::div_mod::lemma_mod_multiples_basic(h, 2);
}

/// Block sizes divide larger block sizes, with a power-of-two quotient
/// that is even whenever the orders differ.
proof fn lemma_block_size_ratio(m: int, t: int)
    requires
        0 <= m <= t,
    ensures
        block_size(t) == block_size(m) * pow2((t - m) as nat),
        m < t ==> pow2((t - m) as nat) % 2 == 0,
{
    vstd::arithmetic::power2::lemma_pow2_adds(m as nat, (t - m) as nat);
    assert(PAGE_SIZE * (pow2(m as nat) * pow2((t - m) as nat)) == (PAGE_SIZE * pow2(m as nat))
        * pow2((t - m) as nat)) by (nonlinear_arith);
    if m < t {
        lemma_pow2_even((t - m) as nat);
    }
}

/// Descending the orders: splitting the lower state of `ladder_splitting`
/// at order `j` yields the state one order down.
proof fn lemma_split_ladder_step(base: int, size: int, j: int, t: int)
    requires
        1 <= j <= t - 1,
        t <= MAX_ORDER,
        size == block_size(t),
        0 <= base,
        base + size <= usize::MAX,
    ensures
        split_once(ladder_splitting(base, size, j, t), j) == ladder_splitting(
            base,
            size,
            j - 1,
            t,
        ),
{
    lemma_block_size_basics(j - 1);
    lemma_block_size_basics(j);
    lemma_block_size_ratio(j, t);
    vstd::arithmetic::power2::lemma_pow2_pos((t - j) as nat);
    assert(size >= block_size(j) * 1) by (nonlinear_arith)
        requires
            size == block_size(j) * pow2((t - j) as nat),
            pow2((t - j) as nat) >= 1,
            block_size(j) >= 0,
    ;
    if j < t {
        assert(size >= block_size(j) * 2) by (nonlinear_arith)
            requires
                size == block_size(j) * pow2((t - j) as nat),
                pow2((t - j) as nat) >= 2,
                block_size(j) >= 0,
        ;
    }
    assert(pow2((t - j) as nat) >= 2) by {
        if pow2((t - j) as nat) < 2 {
            vstd::arithmetic::power2::lemma_pow2_pos((t - j) as nat);
            lemma_pow2_even((t - j) as nat);
        }
    }
    assert(split_once(ladder_splitting(base, size, j, t), j) =~= ladder_splitting(
        base,
        size,
        j - 1,
        t,
    )) by {
        let pre = ladder_splitting(base, size, j, t);
        let post = ladder_splitting(base, size, j - 1, t);
        assert(pre[j].last().addr == (base + size - block_size(j)) as usize);
        assert forall|i: int| 0 <= i < NR_MAX_ORDER implies split_once(pre, j)[i] =~= post[i] by {
            lemma_block_size_basics(j - 1);
        }
    }
}

/// Descending all the way: from the splitting state at order `j`, the
/// descent to order `k` ends in the splitting state at `k`.
proof fn lemma_split_ladder(base: int, size: int, j: int, k: int, t: int)
    requires
        0 <= k <= j <= t - 1,
        t <= MAX_ORDER,
        size == block_size(t),
        0 <= base,
        base + size <= usize::MAX,
    ensures
        split_down(ladder_splitting(base, size, j, t), j, k) == ladder_splitting(
            base,
            size,
            k,
            t,
        ),
    decreases j - k,
{
    if j > k {
        lemma_split_ladder_step(base, size, j, t);
        lemma_split_ladder(base, size, j - 1, k, t);
        assert(ladder_splitting(base, size, j, t)[j].len() > 0);
    }
}

/// Ascending the orders: releasing the block at offset `size -
/// block_size(m)` against the ladder above `m` coalesces everything back
/// into the single block at the region base.
proof fn lemma_coalesce_ladder(base: int, size: int, m: int, t: int)
    requires
        0 <= m <= t,
        t <= MAX_ORDER,
        size == block_size(t),
        0 <= base,
        base + size <= usize::MAX,
    ensures
        coalesce(
            ladder(base, size, m, t),
            base,
            (base + size - block_size(m)) as usize,
            m,
        ) == area_push(empty_areas(), t, base as usize),
    decreases t - m,
{
    lemma_block_size_basics(m);
    lemma_block_size_ratio(m, t);
    vstd::arithmetic::power2::lemma_pow2_pos((t - m) as nat);
    let bs = block_size(m);
    let d = pow2((t - m) as nat) as int;
    assert(size >= bs) by (nonlinear_arith)
        requires
            size == bs * d,
            d >= 1,
            bs >= 0,
    ;
    let cur = base + size - bs;
    let off = size - bs;
    assert(off == bs * (d - 1)) by (nonlinear_arith)
        requires
            size == bs * d,
            off == size - bs,
    ;
    vstd::arithmetic::div_mod::lemma_fundamental_div_mod_converse(off, bs, d - 1, 0);
    assert(off / bs == d - 1);
    if m == t {
        assert(d == 1);
        assert(cur == base);
        assert(ladder(base, size, m, t) =~= empty_areas());
        if m < MAX_ORDER {
            assert(buddy_of(0, m) == bs);
            assert(!contains_addr(empty_areas()[m], (base + bs) as usize));
            assert(coalesce(empty_areas(), base, base as usize, m) == area_push(
                empty_areas(),
                m,
                base as usize,
            ));
            assert(area_push(empty_areas(), m, base as usize) =~= area_push(
                empty_areas(),
                t,
                base as usize,
            ));
        }
    } else {
        assert(d % 2 == 0);
        assert((d - 1) % 2 == 1) by (nonlinear_arith)
            requires
                d % 2 == 0,
                d >= 2,
        ;
        assert(buddy_of(off, m) == off - bs);
        let buddy = base + off - bs;
        assert(off - bs == size - 2 * bs);
        let lad = ladder(base, size, m, t);
        assert(lad[m] == seq![FreeList { addr: (base + size - 2 * bs) as usize }]);
        assert(lad[m][0].addr == (base + size - 2 * bs) as usize);
        assert(contains_addr(lad[m], (base + size - 2 * bs) as usize));
        assert(remove_addr(lad[m], (base + size - 2 * bs) as usize) =~= Seq::<
            FreeList,
        >::empty());
        assert(lad.update(m, remove_addr(lad[m], (base + size - 2 * bs) as usize)) =~= ladder(
            base,
            size,
            m + 1,
            t,
        ));
        lemma_block_size_basics(m);
        assert(size - 2 * bs == size - block_size(m + 1));
        lemma_coalesce_ladder(base, size, m + 1, t);
    }
}

/// Buddy closure for one matched pair: allocating a block of any order
/// from the freshly initialized state — one free block of order `t`
/// spanning the whole region — and releasing it restores exactly that
/// state: every half split off on the way down coalesces back.
pub proof fn lemma_buddy_round_trip(base: usize, size: usize, t: int, k: int, layout: Layout)
    requires
        0 <= k <= t <= MAX_ORDER,
        order_of(layout) == k,
        size == block_size(t),
        base + size <= usize::MAX,
    ensures
        ({
            let s0 = area_push(empty_areas(), t, base);
            let (a1, r) = buddy_allocate(s0, k, layout);
            r is Ok && buddy_deallocate(a1, base as int, r->Ok_0, k) == s0
        }),
{
    let s0 = area_push(empty_areas(), t, base);
    lemma_block_size_basics(t);
    lemma_block_size_basics(k);
    assert(forall|j: int| 0 <= j < NR_MAX_ORDER && j != t ==> s0[j].len() == 0);
    assert(s0[t].len() == 1);
    lemma_find_source_ladder(s0, k, t);
    let src = find_source(s0, k);
    assert(src == t);
    if k == t {
        assert(split_down(s0, t, k) == s0);
        let (a1, r) = buddy_allocate(s0, k, layout);
        assert(r == Ok::<usize, AllocatorError>(base));
        assert(a1 =~~= empty_areas());
        lemma_coalesce_ladder(base as int, size as int, t, t);
        assert(ladder(base as int, size as int, t, t) =~= empty_areas());
        assert((base as int + size - block_size(t)) as usize == base);
        assert(buddy_deallocate(a1, base as int, base, k) =~~= s0);
    } else {
        assert(split_once(s0, t) =~~= ladder_splitting(base as int, size as int, t - 1, t)) by {
            lemma_block_size_basics(t - 1);
        }
        assert(split_down(s0, t, k) == split_down(split_once(s0, t), t - 1, k));
        lemma_split_ladder(base as int, size as int, t - 1, k, t);
        let dfin = ladder_splitting(base as int, size as int, k, t);
        assert(split_down(s0, t, k) == dfin);
        assert(dfin[k].len() == 2);
        let (a1, r) = buddy_allocate(s0, k, layout);
        let p = (base as int + size - block_size(k)) as usize;
        assert(dfin[k].last().addr == p);
        assert(r == Ok::<usize, AllocatorError>(p));
        assert(a1 =~~= ladder(base as int, size as int, k, t)) by {
            assert(dfin[k].drop_last() =~= seq![
                FreeList { addr: (base as int + size - 2 * block_size(k)) as usize },
            ]);
        }
        lemma_coalesce_ladder(base as int, size as int, k, t);
        assert(buddy_deallocate(a1, base as int, p, k) == area_push(empty_areas(), t, base));
    }
}

/// In a state whose only stocked order is `t`, the upward search from any
/// order at or below `t` finds `t`.
proof fn lemma_find_source_ladder(s: Seq<Seq<FreeList>>, k: int, t: int)
    requires
        s.len() == NR_MAX_ORDER,
        0 <= k <= t < NR_MAX_ORDER,
        s[t].len() > 0,
        forall|j: int| k <= j < t ==> s[j].len() == 0,
    ensures
        find_source(s, k) == t,
    decreases t - k,
{
    if k < t {
        lemma_find_source_ladder(s, k + 1, t);
    }
}

} // verus!
