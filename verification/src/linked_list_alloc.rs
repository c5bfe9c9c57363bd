//! The free-list policy: a chain of free regions, newest first, searched
//! first-fit. Allocation carves the request out of the first region that
//! fits and keeps the trailing remnant as a new free region; release puts
//! the block back at the head of the chain and then makes one coalescing
//! pass that merges chain-adjacent regions which touch in memory.
//!
//! Each free region is recorded by its base address and size. In a
//! freestanding embedding the record lives at that very address, as an
//! in-place header node, which is why requests are padded to the node's
//! size and alignment: any remnant must be able to carry a header.
//!
//! The behaviour is captured by the spec functions [`ll_allocate`] and
//! [`ll_deallocate`]; the methods of [`LinkedListAlloc`] are pinned to them.

pub mod locked;

use vstd::prelude::*;

use crate::common::{
    align_up_checked, align_up_spec, lemma_align_up, lemma_eight_is_power_of_two,
    lemma_power_of_two_divides, lemma_power_of_two_pos, AllocInit, Allocator, AllocatorError,
    Layout,
};

verus! {

/// Bytes a free-region header node occupies in a freestanding embedding.
pub const NODE_SIZE: usize = 16;

/// Alignment of a free-region header node.
pub const NODE_ALIGN: usize = 8;

/// One free region of the chain: its base address and its size in bytes.
#[derive(Clone, Copy, Debug, PartialEq, Eq, Structural)]
pub struct Node {
    pub addr: usize,
    pub size: usize,
}

impl Node {
    /// A region record is sound when its base can host a header node and
    /// the region does not wrap the address space.
    pub open spec fn wf(self) -> bool {
        &&& self.addr != 0
        &&& (self.addr as int) % (NODE_ALIGN as int) == 0
        &&& self.size >= NODE_SIZE
        &&& self.addr + self.size <= usize::MAX
    }

    /// Records a free region of `size` bytes at `addr`.
    pub fn new(addr: usize, size: usize) -> (r: Node)
        ensures
            r == (Node { addr, size }),
    {
        Node { addr, size }
    }

    /// First address of the region.
    pub fn start_addr(&self) -> (r: usize)
        ensures
            r == self.addr,
    {
        self.addr
    }

    /// One-past-the-last address of the region.
    pub fn end_addr(&self) -> (r: usize)
        requires
            self.addr + self.size <= usize::MAX,
        ensures
            r == self.addr + self.size,
    {
        self.addr + self.size
    }
}

/// The free-list engine: the free regions of `[start, end)`, head first.
#[derive(Debug)]
pub struct LinkedListAlloc {
    pub start: usize,
    pub end: usize,
    pub head: Vec<Node>,
}

impl LinkedListAlloc {
    /// Every recorded region is sound and lies inside the managed region.
    pub open spec fn inv(self) -> bool {
        &&& self.start <= self.end
        &&& forall|i: int|
            0 <= i < self.head@.len() ==> (#[trigger] self.head@[i]).wf() && self.start
                <= self.head@[i].addr && self.head@[i].addr + self.head@[i].size <= self.end
    }

    /// Creates a new empty engine; it must be initialized before use.
    pub fn new() -> (r: LinkedListAlloc)
        ensures
            r.inv(),
            r.start == 0,
            r.end == 0,
            r.head@.len() == 0,
    {
        LinkedListAlloc { start: 0, end: 0, head: Vec::new() }
    }

    /// Puts a free region at the head of the chain.
    pub fn add_free_region(&mut self, addr: usize, size: usize)
        requires
            old(self).inv(),
            addr != 0,
            addr % 8 == 0,
            size >= NODE_SIZE,
            addr + size <= usize::MAX,
            old(self).start <= addr,
            addr + size <= old(self).end,
        ensures
            final(self).inv(),
            final(self).start == old(self).start,
            final(self).end == old(self).end,
            final(self).head@ == old(self).head@.insert(0, Node { addr, size }),
    {
        self.head.insert(0, Node::new(addr, size));
    }

    /// Binds the engine to the region `[start, start + size)` and seeds the
    /// chain with one free region covering all of it.
    pub fn init(&mut self, start: usize, size: usize)
        requires
            old(self).inv(),
            old(self).head@.len() == 0,
            start != 0,
            start % 8 == 0,
            size >= NODE_SIZE,
            start + size <= usize::MAX,
        ensures
            final(self).inv(),
            final(self).start == start,
            final(self).end == start + size,
            final(self).head@ == old(self).head@.insert(0, Node { addr: start, size }),
    {
        self.start = start;
        self.end = start + size;
        self.add_free_region(start, size);
    }
}

/// The request after normalization: the alignment raised to at least the
/// node alignment, the size padded to that alignment and to at least one
/// node.
pub open spec fn ll_size_align(layout: Layout) -> (int, int) {
    let a = if layout.align > NODE_ALIGN {
        layout.align as int
    } else {
        NODE_ALIGN as int
    };
    let s0 = align_up_spec(layout.size as int, a);
    let s = if s0 > NODE_SIZE {
        s0
    } else {
        NODE_SIZE as int
    };
    (s, a)
}

/// Whether a request of `size` bytes at alignment `align` fits in `region`:
/// the aligned block must lie inside the region, no leading gap may open
/// between the region base and the block (the chain has no way to keep
/// one), and any trailing excess must be big enough to carry a header
/// node. For requests whose alignment does not exceed the node alignment a
/// leading gap never arises, because every region base is node-aligned.
pub open spec fn alloc_from_region_spec(region: Node, size: int, align: int) -> Result<int, ()> {
    let start = align_up_spec(region.addr as int, align);
    let end = start + size;
    let region_end = region.addr + region.size;
    if end > region_end {
        Err(())
    } else if start != region.addr {
        Err(())
    } else if region_end - end > 0 && region_end - end < NODE_SIZE {
        Err(())
    } else {
        Ok(start)
    }
}

/// The first index of the chain whose region fits the request, or the
/// length of the chain when none does.
pub open spec fn find_fit_from(s: Seq<Node>, size: int, align: int, i: int) -> int
    decreases s.len() - i,
{
    if i >= s.len() {
        s.len() as int
    } else if alloc_from_region_spec(s[i], size, align) is Ok {
        i
    } else {
        find_fit_from(s, size, align, i + 1)
    }
}

/// One allocation of the free-list policy: normalize the request, detach
/// the first region that fits, hand out its aligned front, and keep any
/// trailing excess as a new free region at the head of the chain.
pub open spec fn ll_allocate(s: Seq<Node>, layout: Layout) -> (Seq<Node>, Result<
    usize,
    AllocatorError,
>) {
    let (size, align) = ll_size_align(layout);
    if align_up_spec(layout.size as int, align) > usize::MAX {
        (s, Err(AllocatorError::LayoutInvalid(layout)))
    } else {
        let idx = find_fit_from(s, size, align, 0);
        if idx >= s.len() {
            (s, Err(AllocatorError::Oom(layout)))
        } else {
            let region = s[idx];
            let start = align_up_spec(region.addr as int, align);
            let end = start + size;
            let excess = region.addr + region.size - end;
            let removed = s.remove(idx);
            if excess > 0 {
                (
                    removed.insert(0, Node { addr: end as usize, size: excess as usize }),
                    Ok(start as usize),
                )
            } else {
                (removed, Ok(start as usize))
            }
        }
    }
}

/// One coalescing pass over the chain: each region is compared with its
/// successor once; two regions that touch in memory merge, and the pass
/// continues after the merged pair.
pub open spec fn combine_pass(s: Seq<Node>) -> Seq<Node>
    decreases s.len(),
{
    if s.len() <= 1 {
        s
    } else if s[0].addr + s[0].size == s[1].addr {
        seq![Node { addr: s[0].addr, size: (s[0].size + s[1].size) as usize }] + combine_pass(
            s.skip(2),
        )
    } else {
        seq![s[0]] + combine_pass(s.skip(1))
    }
}

/// One release of the free-list policy: the padded block goes back to the
/// head of the chain, then one coalescing pass runs.
pub open spec fn ll_deallocate(s: Seq<Node>, ptr: usize, layout: Layout) -> Seq<Node> {
    let (size, align) = ll_size_align(layout);
    combine_pass(s.insert(0, Node { addr: ptr, size: size as usize }))
}

impl LinkedListAlloc {
    /// Normalizes a request to its padded size and raised alignment.
    pub fn size_align(layout: Layout) -> (r: Result<(usize, usize), AllocatorError>)
        requires
            layout.wf(),
        ensures
            align_up_spec(layout.size as int, ll_size_align(layout).1) <= usize::MAX ==> (r
                matches Ok(p) && p.0 == ll_size_align(layout).0 && p.1 == ll_size_align(
                layout,
            ).1),
            align_up_spec(layout.size as int, ll_size_align(layout).1) > usize::MAX ==> r
                == Err::<(usize, usize), AllocatorError>(AllocatorError::LayoutInvalid(layout)),
    {
        proof {
            lemma_power_of_two_pos(layout.align as int);
        }
        let a = if layout.align > NODE_ALIGN {
            layout.align
        } else {
            NODE_ALIGN
        };
        let s0 = match align_up_checked(layout.size, a) {
            Some(p) => p,
            None => {
                return Err(AllocatorError::LayoutInvalid(layout));
            },
        };
        let s = if s0 > NODE_SIZE {
            s0
        } else {
            NODE_SIZE
        };
        Ok((s, a))
    }

    /// Checks whether the request fits in `region`, returning the aligned
    /// block base if it does.
    pub fn alloc_from_region(region: &Node, size: usize, align: usize) -> (r: Result<usize, ()>)
        requires
            region.wf(),
            align >= 1,
        ensures
            match alloc_from_region_spec(*region, size as int, align as int) {
                Ok(p) => r == Ok::<usize, ()>(p as usize),
                Err(e) => r == Err::<usize, ()>(()),
            },
    {
        proof {
            lemma_align_up(region.addr as int, align as int);
        }
        let alloc_start = match align_up_checked(region.addr, align) {
            Some(p) => p,
            None => {
                return Err(());
            },
        };
        let alloc_end = match alloc_start.checked_add(size) {
            Some(q) => q,
            None => {
                return Err(());
            },
        };
        let region_end = region.addr + region.size;
        if alloc_end > region_end {
            return Err(());
        }
        if alloc_start != region.addr {
            return Err(());
        }
        let excess_size = region_end - alloc_end;
        if excess_size > 0 && excess_size < NODE_SIZE {
            return Err(());
        }
        Ok(alloc_start)
    }

    /// Detaches and returns the first region of the chain that fits the
    /// request, with the aligned block base inside it.
    pub fn find_region(&mut self, size: usize, align: usize) -> (r: Option<(Node, usize)>)
        requires
            old(self).inv(),
            align >= 1,
        ensures
            final(self).inv(),
            final(self).start == old(self).start,
            final(self).end == old(self).end,
            ({
                let idx = find_fit_from(old(self).head@, size as int, align as int, 0);
                if idx < old(self).head@.len() {
                    r == Some(
                        (
                            old(self).head@[idx],
                            align_up_spec(old(self).head@[idx].addr as int, align as int) as usize,
                        ),
                    ) && final(self).head@ == old(self).head@.remove(idx)
                } else {
                    r is None && final(self).head@ == old(self).head@
                }
            }),
    {
        let n = self.head.len();
        let mut i: usize = 0;
        while i < n
            invariant
                i <= n,
                align >= 1,
                self.inv(),
                self == old(self),
                n == self.head@.len(),
                find_fit_from(self.head@, size as int, align as int, 0) == find_fit_from(
                    self.head@,
                    size as int,
                    align as int,
                    i as int,
                ),
            decreases n - i,
        {
            let region = self.head[i];
            match Self::alloc_from_region(&region, size, align) {
                Ok(alloc_start) => {
                    let node = self.head.remove(i);
                    return Some((node, alloc_start));
                },
                Err(()) => {},
            }
            i = i + 1;
        }
        None
    }

    /// Satisfies the request from the first fitting free region, keeping
    /// any trailing excess on the chain.
    pub fn try_allocate(&mut self, layout: Layout) -> (r: Result<usize, AllocatorError>)
        requires
            old(self).inv(),
            layout.wf(),
        ensures
            final(self).inv(),
            final(self).start == old(self).start,
            final(self).end == old(self).end,
            final(self).head@ == ll_allocate(old(self).head@, layout).0,
            r == ll_allocate(old(self).head@, layout).1,
            r matches Ok(p) ==> old(self).start <= p && p + ll_size_align(layout).0
                <= old(self).end && layout.size <= ll_size_align(layout).0 && (p as int) % (
            ll_size_align(layout).1) == 0,
    {
        proof {
            lemma_power_of_two_pos(layout.align as int);
            lemma_align_up(layout.size as int, ll_size_align(layout).1);
        }
        let (size, align) = match Self::size_align(layout) {
            Ok(p) => p,
            Err(e) => {
                return Err(e);
            },
        };
        let found = self.find_region(size, align);
        let (region, alloc_start) = match found {
            Some(p) => p,
            None => {
                return Err(AllocatorError::Oom(layout));
            },
        };
        proof {
            let idx = find_fit_from(old(self).head@, size as int, align as int, 0);
            lemma_find_fit_ok(old(self).head@, size as int, align as int, 0);
            lemma_align_up(region.addr as int, align as int);
        }
        let alloc_end = alloc_start + size;
        let region_end = region.addr + region.size;
        let excess_size = region_end - alloc_end;
        if excess_size > 0 {
            proof {
                lemma_eight_is_power_of_two();
                lemma_remnant_aligned(region.addr as int, layout, alloc_end as int);
            }
            self.add_free_region(alloc_end, excess_size);
        }
        Ok(alloc_start)
    }

    /// One coalescing pass: merges chain-adjacent regions that touch in
    /// memory, comparing each region with its successor once.
    pub fn combine_free_regions(&mut self)
        requires
            old(self).inv(),
        ensures
            final(self).inv(),
            final(self).start == old(self).start,
            final(self).end == old(self).end,
            final(self).head@ == combine_pass(old(self).head@),
    {
        let mut i: usize = 0;
        proof {
            assert(self.head@.skip(0) =~= self.head@);
            assert(self.head@.take(0) + combine_pass(self.head@) =~= combine_pass(self.head@));
        }
        while i < self.head.len() && i + 1 < self.head.len()
            invariant
                self.inv(),
                self.start == old(self).start,
                self.end == old(self).end,
                i <= self.head@.len(),
                combine_pass(old(self).head@) == self.head@.take(i as int) + combine_pass(
                    self.head@.skip(i as int),
                ),
            decreases self.head@.len() - i,
        {
            let a = self.head[i];
            let b = self.head[i + 1];
            let ghost pre = self.head@;
            if a.addr + a.size == b.addr {
                self.head[i] = Node { addr: a.addr, size: a.size + b.size };
                self.head.remove(i + 1);
                proof {
                    assert(self.head@.skip(i as int) =~= seq![
                        Node { addr: a.addr, size: (a.size + b.size) as usize },
                    ] + pre.skip(i as int + 2));
                    assert(self.head@.take(i as int + 1) =~= pre.take(i as int) + seq![
                        Node { addr: a.addr, size: (a.size + b.size) as usize },
                    ]);
                    assert(combine_pass(old(self).head@) == self.head@.take(i as int + 1)
                        + combine_pass(self.head@.skip(i as int + 1))) by {
                        assert(pre.skip(i as int).skip(2) =~= pre.skip(i as int + 2));
                        assert(self.head@.skip(i as int + 1) =~= pre.skip(i as int + 2));
                        assert(pre.take(i as int) + combine_pass(pre.skip(i as int)) =~= (pre.take(
                            i as int,
                        ) + seq![Node { addr: a.addr, size: (a.size + b.size) as usize }])
                            + combine_pass(pre.skip(i as int + 2)));
                    }
                }
            } else {
                proof {
                    assert(self.head@.take(i as int + 1) =~= pre.take(i as int) + seq![a]);
                    assert(self.head@.skip(i as int + 1) =~= pre.skip(i as int).skip(1));
                    assert(pre.take(i as int) + combine_pass(pre.skip(i as int)) =~= (pre.take(
                        i as int,
                    ) + seq![a]) + combine_pass(pre.skip(i as int).skip(1)));
                }
            }
            i = i + 1;
        }
        proof {
            assert(self.head@.skip(i as int) =~= combine_pass(self.head@.skip(i as int)));
            assert(self.head@.take(i as int) + self.head@.skip(i as int) =~= self.head@);
        }
    }

    /// Puts the padded block back at the head of the chain and runs one
    /// coalescing pass.
    pub fn try_deallocate(&mut self, ptr: usize, layout: Layout) -> (r: Result<
        (),
        AllocatorError,
    >)
        requires
            old(self).inv(),
            layout.wf(),
            ptr != 0,
            ptr % 8 == 0,
            align_up_spec(layout.size as int, ll_size_align(layout).1) <= usize::MAX,
            old(self).start <= ptr,
            ptr + ll_size_align(layout).0 <= old(self).end,
        ensures
            final(self).inv(),
            final(self).start == old(self).start,
            final(self).end == old(self).end,
            final(self).head@ == ll_deallocate(old(self).head@, ptr, layout),
            r is Ok,
    {
        let (size, _align) = match Self::size_align(layout) {
            Ok(p) => p,
            Err(e) => {
                return Err(e);
            },
        };
        self.add_free_region(ptr, size);
        self.combine_free_regions();
        Ok(())
    }
}

/// A fitting index returned by the first-fit search satisfies the fit test.
pub proof fn lemma_find_fit_ok(s: Seq<Node>, size: int, align: int, i: int)
    requires
        0 <= i <= s.len(),
    ensures
        i <= find_fit_from(s, size, align, i) <= s.len(),
        find_fit_from(s, size, align, i) < s.len() ==> alloc_from_region_spec(
            s[find_fit_from(s, size, align, i)],
            size,
            align,
        ) is Ok,
    decreases s.len() - i,
{
    if i < s.len() && !(alloc_from_region_spec(s[i], size, align) is Ok) {
        lemma_find_fit_ok(s, size, align, i + 1);
    }
}

/// The trailing remnant of an allocation starts at a node-aligned,
/// nonzero address: the block base and the padded size are both multiples
/// of the raised alignment, which is itself a multiple of the node
/// alignment.
pub proof fn lemma_remnant_aligned(region_addr: int, layout: Layout, alloc_end: int)
    requires
        layout.wf(),
        align_up_spec(layout.size as int, ll_size_align(layout).1) <= usize::MAX,
        alloc_end == align_up_spec(region_addr, ll_size_align(layout).1) + ll_size_align(
            layout,
        ).0,
        region_addr >= 0,
    ensures
        alloc_end % 8 == 0,
{
    let a = ll_size_align(layout).1;
    let sz = ll_size_align(layout).0;
    lemma_eight_is_power_of_two();
    lemma_power_of_two_pos(layout.align as int);
    if layout.align as int > 8 {
        lemma_power_of_two_pos(a);
    }
    lemma_align_up(region_addr, a);
    lemma_align_up(layout.size as int, a);
    lemma_power_of_two_divides(8, a);
    let p = align_up_spec(region_addr, a);
    assert(p % a == 0);
    lemma_mod_of_multiple_divisor(p, a, 8);
    if align_up_spec(layout.size as int, a) > NODE_SIZE {
        lemma_mod_of_multiple_divisor(sz, a, 8);
    } else {
        assert(sz == 16);
    }
    vstd::arithmetic::div_mod::lemma_add_mod_noop(p, sz, 8);
}

/// A multiple of `a` is a multiple of any divisor of `a`.
pub proof fn lemma_mod_of_multiple_divisor(x: int, a: int, d: int)
    requires
        a >= 1,
        d >= 1,
        x % a == 0,
        a % d == 0,
    ensures
        x % d == 0,
{
    vstd::arithmetic::div_mod::lemma_fundamental_div_mod(x, a);
    vstd::arithmetic::div_mod::lemma_fundamental_div_mod(a, d);
    let q = x / a;
    let e = a / d;
    assert(x == d * (e * q)) by (nonlinear_arith)
        requires
            x == a * q,
            a == d * e,
    ;
    vstd::arithmetic::div_mod::lemma_mod_multiples_basic(e * q, d);
}

/// Address correctness for the free-list policy: every address it hands
/// out honours the requested alignment and the padded block lies inside
/// the managed region.
pub proof fn lemma_ll_address_correctness(s: Seq<Node>, start: int, end: int, layout: Layout)
    requires
        layout.wf(),
        forall|i: int|
            0 <= i < s.len() ==> (#[trigger] s[i]).wf() && start <= s[i].addr && s[i].addr
                + s[i].size <= end,
    ensures
        ({
            let (s1, r) = ll_allocate(s, layout);
            r matches Ok(p) ==> (p as int) % (layout.align as int) == 0 && start <= p && p
                + layout.size <= end
        }),
{
    let (size, align) = ll_size_align(layout);
    let (s1, r) = ll_allocate(s, layout);
    lemma_power_of_two_pos(layout.align as int);
    lemma_eight_is_power_of_two();
    if r is Ok {
        lemma_find_fit_ok(s, size, align, 0);
        let idx = find_fit_from(s, size, align, 0);
        let region = s[idx];
        lemma_align_up(region.addr as int, align);
        lemma_align_up(layout.size as int, align);
        lemma_power_of_two_divides(layout.align as int, align);
        lemma_mod_of_multiple_divisor(region.addr as int, align, layout.align as int);
    }
}

/// Failure saturation for the free-list policy: a failed allocation leaves
/// the chain untouched, so repeating the same request keeps failing the
/// same way until a release changes the chain.
pub proof fn lemma_ll_oom_saturation(s: Seq<Node>, layout: Layout)
    ensures
        ({
            let (s1, r) = ll_allocate(s, layout);
            r is Err ==> s1 == s && ll_allocate(s, layout).1 == r
        }),
{
}

/// Free-list closure for one matched pair: allocating from a chain holding
/// a single free region and then releasing the block restores exactly that
/// chain — the trailing remnant, if one was split off, merges back.
pub proof fn lemma_ll_round_trip(region: Node, layout: Layout)
    requires
        region.wf(),
        layout.wf(),
        ll_allocate(seq![region], layout).1 is Ok,
    ensures
        ({
            let (s1, r) = ll_allocate(seq![region], layout);
            ll_deallocate(s1, r->Ok_0, layout) == seq![region]
        }),
{
    let s = seq![region];
    let (size, align) = ll_size_align(layout);
    let (s1, r) = ll_allocate(s, layout);
    lemma_power_of_two_pos(layout.align as int);
    lemma_find_fit_ok(s, size, align, 0);
    let idx = find_fit_from(s, size, align, 0);
    assert(idx == 0);
    let p = align_up_spec(region.addr as int, align);
    assert(p == region.addr);
    let blk_end = p + size;
    let excess = region.addr + region.size - blk_end;
    assert(s.remove(0) =~= Seq::<Node>::empty());
    let freed = Node { addr: r->Ok_0, size: size as usize };
    if excess > 0 {
        let remnant = Node { addr: blk_end as usize, size: excess as usize };
        assert(s1 =~= seq![remnant]);
        let s2 = s1.insert(0, freed);
        assert(s2 =~= seq![freed, remnant]);
        assert(freed.addr + freed.size == remnant.addr);
        assert(s2.skip(2) =~= Seq::<Node>::empty());
        assert(combine_pass(s2.skip(2)) =~= Seq::<Node>::empty());
        assert(combine_pass(s2) =~= seq![
            Node { addr: freed.addr, size: (freed.size + remnant.size) as usize },
        ] + combine_pass(s2.skip(2)));
        assert(combine_pass(s2) =~= seq![
            Node { addr: freed.addr, size: (freed.size + remnant.size) as usize },
        ]);
        assert(combine_pass(s2) =~= seq![region]);
    } else {
        assert(s1 =~= Seq::<Node>::empty());
        let s2 = s1.insert(0, freed);
        assert(s2 =~= seq![freed]);
        assert(freed == region);
        assert(combine_pass(s2) =~= seq![region]);
    }
}

impl Allocator for LinkedListAlloc {
    open spec fn wf(&self) -> bool {
        self.inv()
    }

    open spec fn region_start(&self) -> int {
        self.start as int
    }

    open spec fn region_end(&self) -> int {
        self.end as int
    }

    open spec fn can_allocate(&self, layout: Layout) -> bool {
        true
    }

    open spec fn can_deallocate(&self, ptr: usize, layout: Layout) -> bool {
        ptr != 0 && ptr % 8 == 0 && align_up_spec(layout.size as int, ll_size_align(layout).1)
            <= usize::MAX && self.start <= ptr && ptr + ll_size_align(layout).0 <= self.end
    }

    fn try_allocate(&mut self, layout: Layout) -> (r: Result<usize, AllocatorError>) {
        self.try_allocate(layout)
    }

    fn try_deallocate(&mut self, ptr: usize, layout: Layout) -> (r: Result<(), AllocatorError>) {
        self.try_deallocate(ptr, layout)
    }

    fn try_allocate_zeroed(&mut self, layout: Layout) -> (r: Result<usize, AllocatorError>) {
        self.try_allocate(layout)
    }

    fn try_deallocate_zeroed(&mut self, ptr: usize, layout: Layout) -> (r: Result<
        (),
        AllocatorError,
    >) {
        self.try_deallocate(ptr, layout)
    }
}

impl AllocInit for LinkedListAlloc {
    open spec fn init_req(start: usize, size: usize) -> bool {
        start != 0 && start % 8 == 0 && size >= NODE_SIZE && start + size <= usize::MAX
    }

    open spec fn uninit(&self) -> bool {
        self.inv() && self.head@.len() == 0 && self.start == 0 && self.end == 0
    }

    fn init(&mut self, start: usize, size: usize) {
        self.init(start, size)
    }
}

} // verus!
