//! Buddy frame allocator.
//!
//! Physical RAM is split into power-of-two blocks: order `n` owns `2^n`
//! contiguous 4 KiB frames. Splitting serves small requests from big blocks;
//! freeing merges a block with its free buddy, so fragmentation heals.
//!
//! The free lists live on the heap, and the heap itself is mapped from frames
//! of this allocator. So it starts as a bump cursor over the memory map, which
//! needs no heap, and `activate` carves what the cursor has not consumed into
//! free lists once the heap is live.

use vstd::prelude::*;
use crate::memory::block;
use crate::memory::block::{
    block_size, buddy_addr, BUDDY_MAX_ORDER, BUDDY_ORDERS, FRAME_SIZE, MIN_ADDR,
};
use crate::memory::bump;
use crate::memory::bump::BootFrameAllocator;
use crate::memory::lists;
use crate::memory::region;
use crate::memory::region::{
    checked_frame_ceil, frame_floor_of, max_addr, MemoryRegion, MemoryRegionKind,
};

verus! {

pub struct BuddyFrameAllocator {
    /// The bump cursor, in charge until `activate`.
    cursor: BootFrameAllocator,
    /// Set once `activate` carved the free lists. Never flips back.
    active: bool,
    /// `free_lists[o]` holds the base addresses of the free blocks of order `o`.
    free_lists: [Vec<u64>; BUDDY_ORDERS],
    /// Frames currently handed out.
    allocated: u64,
}

/// What a [`BuddyFrameAllocator`] stands for.
pub ghost struct BuddyState {
    pub cursor: bump::BumpState,
    pub active: bool,
    pub lists: Seq<Seq<u64>>,
    pub allocated: int,
}

impl View for BuddyFrameAllocator {
    type V = BuddyState;

    closed spec fn view(&self) -> BuddyState {
        BuddyState {
            cursor: self.cursor@,
            active: self.active,
            lists: Seq::new(BUDDY_ORDERS as nat, |o: int| self.free_lists@[o]@),
            allocated: self.allocated as int,
        }
    }
}

impl BuddyState {
    pub open spec fn well_formed(self) -> bool {
        &&& self.cursor.well_formed()
        &&& lists::well_formed(self.lists)
        &&& !self.active ==> self.lists == lists::empty_lists()
        &&& 0 <= self.allocated <= u64::MAX
    }
}

/// Region `j` has frames that a cursor at region `idx` has not consumed as a
/// whole.
pub open spec fn listed(regions: Seq<MemoryRegion>, idx: int, j: int) -> bool {
    &&& 0 <= j < regions.len()
    &&& regions[j].usable()
    &&& regions[j].start < regions[j].end
    &&& idx <= j
}

/// First address of region `j` that a cursor at region `idx`, address `next`,
/// has left over.
pub open spec fn rest_start(regions: Seq<MemoryRegion>, idx: int, next: int, j: int) -> int {
    let start = region::max_of(region::frame_ceil(regions[j].start as int), MIN_ADDR as int);
    if j == idx {
        region::max_of(start, next)
    } else {
        start
    }
}

/// End of the last whole frame of region `j`.
pub open spec fn rest_end(regions: Seq<MemoryRegion>, j: int) -> int {
    region::frame_floor(regions[j].end as int)
}

/// The lists after what the cursor left of the first `n` regions was carved.
pub open spec fn carve_map(
    lists: Seq<Seq<u64>>,
    regions: Seq<MemoryRegion>,
    idx: int,
    next: int,
    n: int,
) -> Seq<Seq<u64>>
    decreases n,
{
    if n <= 0 {
        lists
    } else {
        let before = carve_map(lists, regions, idx, next, n - 1);
        if listed(regions, idx, n - 1) {
            lists::carve(before, rest_start(regions, idx, next, n - 1), rest_end(regions, n - 1))
        } else {
            before
        }
    }
}

/// Carving region `j` stays inside the address space: its start can be rounded
/// up, and the frame after its remainder still has an address.
pub open spec fn carvable(regions: Seq<MemoryRegion>, idx: int, j: int) -> bool {
    regions[j].usable() && regions[j].start < regions[j].end ==> {
        &&& region::frame_ceil(regions[j].start as int) <= u64::MAX
        &&& idx <= j ==> region::frame_ceil(regions[j].start as int) + 4096 <= u64::MAX
            && rest_end(regions, j) + 4096 <= u64::MAX
    }
}

/// Measure of what the cursor left of the first `n` regions.
pub open spec fn rest_weight(
    regions: Seq<MemoryRegion>,
    idx: int,
    next: int,
    n: int,
    m: spec_fn(int, int) -> int,
) -> int
    decreases n,
{
    if n <= 0 {
        0
    } else {
        rest_weight(regions, idx, next, n - 1, m) + if listed(regions, idx, n - 1) && rest_start(
            regions,
            idx,
            next,
            n - 1,
        ) <= rest_end(regions, n - 1) {
            m(rest_start(regions, idx, next, n - 1), rest_end(regions, n - 1))
        } else {
            0
        }
    }
}

/// Carving the map keeps the lists well formed and adds exactly what the
/// cursor left over.
pub proof fn lemma_carve_map(
    lists: Seq<Seq<u64>>,
    cursor: bump::BumpState,
    n: int,
    m: spec_fn(int, int) -> int,
)
    requires
        lists::well_formed(lists),
        cursor.well_formed(),
        0 <= n <= cursor.regions.len(),
        lists::additive(m),
    ensures
        lists::well_formed(carve_map(lists, cursor.regions, cursor.idx, cursor.next, n)),
        lists::weight(
            carve_map(lists, cursor.regions, cursor.idx, cursor.next, n),
            BUDDY_ORDERS as int,
            m,
        ) == lists::weight(lists, BUDDY_ORDERS as int, m) + rest_weight(
            cursor.regions,
            cursor.idx,
            cursor.next,
            n,
            m,
        ),
    decreases n,
{
    if n > 0 {
        lemma_carve_map(lists, cursor, n - 1, m);
        if listed(cursor.regions, cursor.idx, n - 1) {
            let before = carve_map(lists, cursor.regions, cursor.idx, cursor.next, n - 1);
            let start = rest_start(cursor.regions, cursor.idx, cursor.next, n - 1);
            let end = rest_end(cursor.regions, n - 1);
            if start <= end {
                lists::lemma_carve(before, start, end, m);
            }
        }
    }
}

impl BuddyFrameAllocator {
    /// Build from the memory map, in bump mode: no list holds anything, so no
    /// heap is used.
    pub fn new(regions: &'static [MemoryRegion]) -> (r: Self)
        ensures
            r@ == (BuddyState {
                cursor: bump::BumpState { regions: regions@, idx: 0, next: 0 },
                active: false,
                lists: lists::empty_lists(),
                allocated: 0,
            }),
            r@.well_formed(),
    {
        let r = Self {
            cursor: BootFrameAllocator::new(regions),
            active: false,
            free_lists: [
                Vec::new(),
                Vec::new(),
                Vec::new(),
                Vec::new(),
                Vec::new(),
                Vec::new(),
                Vec::new(),
                Vec::new(),
                Vec::new(),
                Vec::new(),
                Vec::new(),
                Vec::new(),
                Vec::new(),
            ],
            allocated: 0,
        };
        assert(r@.lists =~= lists::empty_lists());
        r
    }

    /// Put the block of order `order` at `addr` on its list.
    fn push_block(&mut self, order: usize, addr: u64)
        requires
            order < BUDDY_ORDERS,
        ensures
            final(self)@ == (BuddyState {
                lists: old(self)@.lists.update(
                    order as int,
                    old(self)@.lists[order as int].push(addr),
                ),
                ..old(self)@
            }),
    {
        self.free_lists[order].push(addr);
        assert(self@.lists =~= old(self)@.lists.update(
            order as int,
            old(self)@.lists[order as int].push(addr),
        ));
    }

    /// Cut `[start, end)` into the largest aligned blocks that fit.
    fn carve_range(&mut self, start: u64, end: u64)
        requires
            lists::well_formed(old(self)@.lists),
            start % 4096 == 0,
            end % 4096 == 0,
            start + 4096 <= u64::MAX,
            end + 4096 <= u64::MAX,
        ensures
            final(self)@ == (BuddyState {
                lists: lists::carve(old(self)@.lists, start as int, end as int),
                ..old(self)@
            }),
    {
        let ghost old_start = start;
        let mut start: u64 = start;
        while start + FRAME_SIZE <= end
            invariant
                start % 4096 == 0,
                end % 4096 == 0,
                start + 4096 <= u64::MAX,
                end + 4096 <= u64::MAX,
                self@ == (BuddyState { lists: self@.lists, ..old(self)@ }),
                self@.lists.len() == BUDDY_ORDERS,
                lists::carve(self@.lists, start as int, end as int) == lists::carve(
                    old(self)@.lists,
                    old_start as int,
                    end as int,
                ),
            decreases end - start,
        {
            let remaining: u64 = end - start;
            let mut order: usize = BUDDY_MAX_ORDER;
            loop
                invariant_except_break
                    order <= BUDDY_MAX_ORDER,
                    remaining == end - start,
                    start % 4096 == 0,
                    start + 4096 <= end,
                    lists::largest_order(start as int, end as int, order as int)
                        == lists::largest_order(start as int, end as int, BUDDY_MAX_ORDER as int),
                ensures
                    order <= BUDDY_MAX_ORDER,
                    order == lists::largest_order(
                        start as int,
                        end as int,
                        BUDDY_MAX_ORDER as int,
                    ),
                decreases order,
            {
                let size: u64 = block_size(order);
                proof {
                    block::lemma_block_bytes(order as int);
                }
                if size <= remaining && start % size == 0 {
                    break;
                }
                if order == 0 {
                    break;
                }
                order = order - 1;
            }
            let size: u64 = block_size(order);
            proof {
                lists::lemma_largest_order(start as int, end as int, BUDDY_MAX_ORDER as int);
                block::lemma_block_bytes(order as int);
                block::lemma_block_bytes(0);
            }
            self.push_block(order, start);
            start = start + size;
        }
    }

    /// Flip from bump mode to buddy mode: carve every region that the cursor
    /// has not consumed into the largest aligned blocks that fit, then retire
    /// the cursor. Frames that were already handed out are not listed again.
    pub fn activate(&mut self)
        requires
            old(self)@.well_formed(),
            !old(self)@.active,
            forall|j: int|
                0 <= j < old(self)@.cursor.regions.len() ==> #[trigger] carvable(
                    old(self)@.cursor.regions,
                    old(self)@.cursor.idx,
                    j,
                ),
        ensures
            final(self)@.well_formed(),
            final(self)@ == (BuddyState {
                cursor: bump::BumpState {
                    idx: old(self)@.cursor.regions.len() as int,
                    next: u64::MAX as int,
                    ..old(self)@.cursor
                },
                active: true,
                lists: carve_map(
                    lists::empty_lists(),
                    old(self)@.cursor.regions,
                    old(self)@.cursor.idx,
                    old(self)@.cursor.next,
                    old(self)@.cursor.regions.len() as int,
                ),
                ..old(self)@
            }),
    {
        let ghost cursor = self@.cursor;
        let ghost empty = self@.lists;
        let (region_idx, next_addr): (usize, u64) = self.cursor.cursor();
        let count: usize = self.cursor.regions().len();
        let mut i: usize = 0;
        while i < count
            invariant
                i <= count == cursor.regions.len(),
                region_idx == cursor.idx,
                next_addr == cursor.next,
                cursor.well_formed(),
                lists::well_formed(empty),
                self@ == (BuddyState { lists: self@.lists, ..old(self)@ }),
                self@.cursor == cursor,
                self@.lists == carve_map(empty, cursor.regions, cursor.idx, cursor.next, i as int),
                forall|j: int|
                    0 <= j < cursor.regions.len() ==> #[trigger] carvable(
                        cursor.regions,
                        cursor.idx,
                        j,
                    ),
            decreases count - i,
        {
            let r: MemoryRegion = self.cursor.regions()[i];
            proof {
                assert(carvable(cursor.regions, cursor.idx, i as int));
                lists::lemma_measures_additive(0);
                lemma_carve_map(empty, cursor, i as int, lists::frame_span());
            }
            if r.kind == MemoryRegionKind::Usable && r.start < r.end && i >= region_idx {
                if let Some(aligned) = checked_frame_ceil(r.start) {
                    let mut start: u64 = max_addr(aligned, MIN_ADDR);
                    if i == region_idx {
                        // The cursor's region: resume after what was handed out.
                        start = max_addr(start, next_addr);
                    }
                    let end: u64 = frame_floor_of(r.end);
                    self.carve_range(start, end);
                }
            }
            i = i + 1;
        }
        proof {
            lists::lemma_measures_additive(0);
            lemma_carve_map(empty, cursor, count as int, lists::frame_span());
        }
        self.cursor.retire();
        self.active = true;
    }

    /// The memory map.
    pub fn regions(&self) -> (r: &'static [MemoryRegion])
        ensures
            r@ == self@.cursor.regions,
    {
        self.cursor.regions()
    }

    /// Bump mode: one frame from the cursor.
    fn bump_one(&mut self) -> (frame: Option<u64>)
        requires
            old(self)@.well_formed(),
        ensures
            frame == old(self)@.cursor.walk().frame,
            final(self)@ == (BuddyState {
                cursor: bump::BumpState {
                    idx: old(self)@.cursor.walk().idx,
                    next: old(self)@.cursor.walk().next,
                    ..old(self)@.cursor
                },
                ..old(self)@
            }),
            final(self)@.well_formed(),
    {
        self.cursor.allocate_frame()
    }

    /// Frames free over all orders. Zero before `activate`: until then the
    /// cursor owns everything, and it does not count.
    pub fn free_frames(&self) -> (n: u64)
        requires
            self@.well_formed(),
            lists::frame_total(self@.lists, BUDDY_ORDERS as int) <= u64::MAX,
        ensures
            n == lists::frame_total(self@.lists, BUDDY_ORDERS as int),
    {
        match self.checked_free_frames() {
            Some(n) => n,
            None => 0,
        }
    }

    /// Whether `activate` can carve this map without leaving the address space.
    pub fn can_activate(&self) -> (ok: bool)
        requires
            self@.well_formed(),
        ensures
            ok <==> !self@.active && forall|j: int|
                0 <= j < self@.cursor.regions.len() ==> #[trigger] carvable(
                    self@.cursor.regions,
                    self@.cursor.idx,
                    j,
                ),
    {
        if self.active {
            return false;
        }
        let (region_idx, _next): (usize, u64) = self.cursor.cursor();
        let count: usize = self.cursor.regions().len();
        let mut i: usize = 0;
        while i < count
            invariant
                i <= count == self@.cursor.regions.len(),
                region_idx == self@.cursor.idx,
                forall|j: int|
                    0 <= j < i ==> #[trigger] carvable(
                        self@.cursor.regions,
                        self@.cursor.idx,
                        j,
                    ),
            decreases count - i,
        {
            let r: MemoryRegion = self.cursor.regions()[i];
            if r.kind == MemoryRegionKind::Usable && r.start < r.end {
                let fits: bool = match checked_frame_ceil(r.start) {
                    Some(aligned) => {
                        i < region_idx || (aligned < region::LAST_PAGE && frame_floor_of(r.end)
                            < region::LAST_PAGE)
                    },
                    None => false,
                };
                if !fits {
                    assert(!carvable(self@.cursor.regions, self@.cursor.idx, i as int));
                    return false;
                }
            }
            i = i + 1;
        }
        true
    }

    /// Frames free over all orders, or `None` when their number does not fit.
    pub fn checked_free_frames(&self) -> (n: Option<u64>)
        requires
            self@.well_formed(),
        ensures
            match n {
                Some(n) => n == lists::frame_total(self@.lists, BUDDY_ORDERS as int),
                None => lists::frame_total(self@.lists, BUDDY_ORDERS as int) > u64::MAX,
            },
    {
        let mut n: u64 = 0;
        let mut order: usize = 0;
        while order < BUDDY_ORDERS
            invariant
                order <= BUDDY_ORDERS,
                self@.well_formed(),
                n == lists::frame_total(self@.lists, order as int),
            decreases BUDDY_ORDERS - order,
        {
            let len: u64 = self.free_lists[order].len() as u64;
            let shift: u64 = order as u64;
            proof {
                block::lemma_block_bytes(order as int);
                vstd::bits::lemma_u64_shl_is_mul(1, shift);
            }
            let frames: u64 = 1u64 << shift;
            proof {
                lists::lemma_frame_total_grows(self@.lists, order as int + 1, BUDDY_ORDERS as int);
                assert(self@.lists[order as int].len() == len);
                assert(frames == block::block_frames(order as int));
            }
            match len.checked_mul(frames) {
                Some(part) => match n.checked_add(part) {
                    Some(sum) => {
                        n = sum;
                    },
                    None => {
                        return None;
                    },
                },
                None => {
                    return None;
                },
            }
            order = order + 1;
        }
        Some(n)
    }

    /// Whether the free lists are in force.
    pub fn is_active(&self) -> (yes: bool)
        ensures
            yes == self@.active,
    {
        self.active
    }

    /// Frames currently checked out.
    pub fn allocated_frames(&self) -> (n: u64)
        ensures
            n == self@.allocated,
    {
        self.allocated
    }

    /// Take one block of exactly `order`, splitting a bigger one if needed.
    fn take_block(&mut self, order: usize) -> (block: Option<u64>)
        requires
            lists::well_formed(old(self)@.lists),
        ensures
            block == lists::take(old(self)@.lists, order as int).0,
            final(self)@ == (BuddyState {
                lists: lists::take(old(self)@.lists, order as int).1,
                ..old(self)@
            }),
        decreases BUDDY_ORDERS - order,
    {
        if order > BUDDY_MAX_ORDER {
            return None;
        }
        proof {
            lists::lemma_first_stocked(self@.lists, order as int);
            assert(self@.lists[order as int] == self.free_lists@[order as int]@);
        }
        let popped: Option<u64> = self.free_lists[order].pop();
        if let Some(addr) = popped {
            assert(self@.lists =~= lists::split_down(
                old(self)@.lists,
                order as int,
                order as int,
            ));
            return Some(addr);
        }
        assert(self@.lists =~= old(self)@.lists);
        // Nothing of this size: split one block of the next order, keep the low
        // half and park the high half on this order's list.
        match self.take_block(order + 1) {
            Some(higher) => {
                proof {
                    let from = lists::first_stocked(old(self)@.lists, order as int);
                    let top = old(self)@.lists[from];
                    assert(top[top.len() - 1] == higher);
                    block::lemma_block_in_range(higher as int, from);
                    block::lemma_lower_order(higher as int, order as int, from);
                }
                let half: u64 = block_size(order);
                self.push_block(order, higher + half);
                assert(self@.lists[order as int] =~= seq![(higher + half) as u64]);
                assert(self@.lists =~= lists::take(old(self)@.lists, order as int).1);
                Some(higher)
            },
            None => None,
        }
    }

    /// Hand out one frame: from the lists once active, from the cursor before.
    pub fn allocate_frame(&mut self) -> (frame: Option<u64>)
        requires
            old(self)@.well_formed(),
            old(self)@.allocated < u64::MAX,
        ensures
            final(self)@.well_formed(),
            old(self)@.active ==> {
                &&& frame == lists::take(old(self)@.lists, 0).0
                &&& final(self)@.lists == lists::take(old(self)@.lists, 0).1
                &&& final(self)@.cursor == old(self)@.cursor
            },
            !old(self)@.active ==> {
                &&& frame == old(self)@.cursor.walk().frame
                &&& final(self)@.lists == old(self)@.lists
                &&& final(self)@.cursor == (bump::BumpState {
                    idx: old(self)@.cursor.walk().idx,
                    next: old(self)@.cursor.walk().next,
                    ..old(self)@.cursor
                })
            },
            final(self)@.active == old(self)@.active,
            final(self)@.allocated == old(self)@.allocated + (if frame is Some {
                1int
            } else {
                0int
            }),
            frame matches Some(addr) ==> addr % 4096 == 0 && addr >= MIN_ADDR,
    {
        proof {
            lists::lemma_measures_additive(0);
            lists::lemma_take(self@.lists, 0, lists::frame_span());
            region::law_walk(self@.cursor.regions, self@.cursor.idx, self@.cursor.next);
            block::lemma_block_bytes(0);
        }
        let addr: Option<u64> = if self.active {
            self.take_block(0)
        } else {
            self.bump_one()
        };
        if addr.is_some() {
            self.allocated = self.allocated + 1;
        }
        addr
    }

    /// Index of the first entry `addr` of the list of order `order`.
    fn find_block(&self, order: usize, addr: u64) -> (p: Option<usize>)
        requires
            order < BUDDY_ORDERS,
        ensures
            match p {
                Some(i) => i < self@.lists[order as int].len() && i == lists::position(
                    self@.lists[order as int],
                    addr as int,
                    0,
                ),
                None => lists::position(self@.lists[order as int], addr as int, 0)
                    == self@.lists[order as int].len(),
            },
    {
        let len: usize = self.free_lists[order].len();
        let mut i: usize = 0;
        while i < len
            invariant
                order < BUDDY_ORDERS,
                i <= len == self@.lists[order as int].len(),
                lists::position(self@.lists[order as int], addr as int, i as int)
                    == lists::position(self@.lists[order as int], addr as int, 0),
            decreases len - i,
        {
            if self.free_lists[order][i] == addr {
                return Some(i);
            }
            i = i + 1;
        }
        None
    }

    /// Give one frame back. As long as the buddy of the block at hand is free
    /// the two merge into a block of the next order.
    pub fn deallocate_frame(&mut self, frame: u64)
        requires
            old(self)@.well_formed(),
            old(self)@.active,
            frame % 4096 == 0,
            frame >= MIN_ADDR,
        ensures
            final(self)@.well_formed(),
            final(self)@ == (BuddyState {
                lists: lists::release(old(self)@.lists, 0, frame as int),
                allocated: if old(self)@.allocated > 0 {
                    old(self)@.allocated - 1
                } else {
                    0
                },
                ..old(self)@
            }),
    {
        let mut addr: u64 = frame;
        let mut order: usize = 0;
        proof {
            lists::lemma_measures_additive(0);
            block::lemma_block_bytes(0);
            lists::lemma_release(self@.lists, 0, frame as int, lists::frame_span());
        }
        loop
            invariant_except_break
                order <= BUDDY_MAX_ORDER,
                addr >= MIN_ADDR,
                block::aligned(addr as int, order as int),
                lists::well_formed(self@.lists),
                self@ == (BuddyState { lists: self@.lists, ..old(self)@ }),
                lists::release(self@.lists, order as int, addr as int) == lists::release(
                    old(self)@.lists,
                    0,
                    frame as int,
                ),
            ensures
                self@ == (BuddyState {
                    lists: lists::release(old(self)@.lists, 0, frame as int),
                    ..old(self)@
                }),
            decreases BUDDY_MAX_ORDER - order,
        {
            if order == BUDDY_MAX_ORDER {
                self.push_block(order, addr);
                break;
            }
            // The only block this one can merge with.
            let buddy: u64 = buddy_addr(addr, order);
            proof {
                block::lemma_buddy(addr as int, order as int);
                lists::lemma_position(self@.lists[order as int], buddy as int, 0);
            }
            match self.find_block(order, buddy) {
                Some(pos) => {
                    let ghost before = self@.lists;
                    assert(before[order as int][pos as int] == buddy);
                    self.free_lists[order].swap_remove(pos);
                    proof {
                        let rest = before.update(
                            order as int,
                            lists::swap_out(before[order as int], pos as int),
                        );
                        assert(self@.lists =~= rest);
                        assert forall|o: int, i: int|
                            0 <= o < BUDDY_ORDERS && 0 <= i < rest[o].len() implies MIN_ADDR
                            <= #[trigger] rest[o][i] && block::aligned(rest[o][i] as int, o) by {
                            if o == order && i == pos {
                                assert(rest[o][i] == before[o][before[o].len() - 1]);
                            } else {
                                assert(rest[o][i] == before[o][i]);
                            }
                        }
                    }
                    if buddy < addr {
                        addr = buddy;
                    }
                    order = order + 1;
                },
                None => {
                    self.push_block(order, addr);
                    break;
                },
            }
        }
        self.allocated = self.allocated.saturating_sub(1);
    }
}

// ---------------------------------------------------------------------------
// Laws
// ---------------------------------------------------------------------------
/// How many of the first `n` regions own frame `f` without the cursor having
/// passed it there.
pub open spec fn owners(cursor: bump::BumpState, n: int, f: int) -> int
    decreases n,
{
    if n <= 0 {
        0
    } else {
        owners(cursor, n - 1, f) + if cursor.regions[n - 1].owns(f) && !region::consumed(
            cursor.regions,
            cursor.idx,
            cursor.next,
            n - 1,
            f,
        ) {
            1int
        } else {
            0int
        }
    }
}

/// No two usable regions share an address.
pub open spec fn apart(regions: Seq<MemoryRegion>) -> bool {
    forall|i: int, j: int|
        0 <= i < j < regions.len() && (#[trigger] regions[i]).usable() && (
        #[trigger] regions[j]).usable() ==> regions[i].end <= regions[j].start || regions[j].end
            <= regions[i].start
}

/// The lists that `activate` carves when the bump cursor stands at `cursor`.
pub open spec fn activated(cursor: bump::BumpState) -> Seq<Seq<u64>> {
    carve_map(
        lists::empty_lists(),
        cursor.regions,
        cursor.idx,
        cursor.next,
        cursor.regions.len() as int,
    )
}

proof fn lemma_rest_owner(cursor: bump::BumpState, n: int, f: int)
    requires
        cursor.well_formed(),
        0 <= n <= cursor.regions.len(),
        f % 4096 == 0,
    ensures
        rest_weight(cursor.regions, cursor.idx, cursor.next, n, lists::covers(f)) == owners(
            cursor,
            n,
            f,
        ),
    decreases n,
{
    if n > 0 {
        lemma_rest_owner(cursor, n - 1, f);
        let r = cursor.regions[n - 1];
        assert(region::frame_ceil(r.start as int) <= f <==> r.start <= f);
        assert(f < region::frame_floor(r.end as int) <==> f + 4096 <= r.end);
    }
}

proof fn lemma_rest_exclusive(cursor: bump::BumpState, n: int, f: int)
    requires
        cursor.well_formed(),
        apart(cursor.regions),
        0 <= n <= cursor.regions.len(),
    ensures
        0 <= rest_weight(cursor.regions, cursor.idx, cursor.next, n, lists::covers(f)) <= 1,
        rest_weight(cursor.regions, cursor.idx, cursor.next, n, lists::covers(f)) == 1 ==> exists|
            j: int,
        |
            0 <= j < n && #[trigger] listed(cursor.regions, cursor.idx, j) && rest_start(
                cursor.regions,
                cursor.idx,
                cursor.next,
                j,
            ) <= f < rest_end(cursor.regions, j),
    decreases n,
{
    if n > 0 {
        lemma_rest_exclusive(cursor, n - 1, f);
        let before = rest_weight(cursor.regions, cursor.idx, cursor.next, n - 1, lists::covers(f));
        let last = listed(cursor.regions, cursor.idx, n - 1) && rest_start(
            cursor.regions,
            cursor.idx,
            cursor.next,
            n - 1,
        ) <= f < rest_end(cursor.regions, n - 1);
        if before == 1 && last {
            let j = choose|j: int|
                0 <= j < n - 1 && #[trigger] listed(cursor.regions, cursor.idx, j) && rest_start(
                    cursor.regions,
                    cursor.idx,
                    cursor.next,
                    j,
                ) <= f < rest_end(cursor.regions, j);
            assert(cursor.regions[j].usable() && cursor.regions[n - 1].usable());
            assert(false);
        }
        if last {
            assert(listed(cursor.regions, cursor.idx, n - 1));
        }
    }
}

/// Law: `activate` lists every frame once for each region that owns it and in
/// which the cursor has not passed it, and no other frame.
pub proof fn law_activate_lists_the_rest(cursor: bump::BumpState, f: int)
    requires
        cursor.well_formed(),
        f % 4096 == 0,
    ensures
        lists::well_formed(activated(cursor)),
        lists::free_copies(activated(cursor), f) == owners(
            cursor,
            cursor.regions.len() as int,
            f,
        ),
{
    lists::lemma_measures_additive(f);
    lists::lemma_empty(BUDDY_ORDERS as int, lists::covers(f));
    lemma_carve_map(
        lists::empty_lists(),
        cursor,
        cursor.regions.len() as int,
        lists::covers(f),
    );
    lemma_rest_owner(cursor, cursor.regions.len() as int, f);
}

/// Law: on a map whose usable regions are apart, `activate` lists no address
/// twice, and no frame that the bump cursor handed out comes back.
pub proof fn law_activate_is_exclusive(cursor: bump::BumpState)
    requires
        cursor.well_formed(),
        apart(cursor.regions),
    ensures
        lists::exclusive(activated(cursor)),
        forall|j: int, f: int| #[trigger]
            region::consumed(cursor.regions, cursor.idx, cursor.next, j, f)
                ==> lists::free_copies(activated(cursor), f) == 0,
{
    let n = cursor.regions.len() as int;
    let after = activated(cursor);
    assert forall|f: int| #[trigger] lists::free_copies(after, f) <= 1 by {
        lists::lemma_measures_additive(f);
        lists::lemma_empty(BUDDY_ORDERS as int, lists::covers(f));
        lemma_carve_map(lists::empty_lists(), cursor, n, lists::covers(f));
        lemma_rest_exclusive(cursor, n, f);
    }
    assert forall|j: int, f: int| #[trigger]
        region::consumed(
            cursor.regions,
            cursor.idx,
            cursor.next,
            j,
            f,
        ) implies lists::free_copies(after, f) == 0 by {
        lists::lemma_measures_additive(f);
        lists::lemma_empty(BUDDY_ORDERS as int, lists::covers(f));
        lemma_carve_map(lists::empty_lists(), cursor, n, lists::covers(f));
        lemma_rest_exclusive(cursor, n, f);
        if lists::free_copies(after, f) != 0 {
            let k = choose|k: int|
                0 <= k < n && #[trigger] listed(cursor.regions, cursor.idx, k) && rest_start(
                    cursor.regions,
                    cursor.idx,
                    cursor.next,
                    k,
                ) <= f < rest_end(cursor.regions, k);
            assert(cursor.regions[k].usable() && cursor.regions[j].usable());
            assert(false);
        }
    }
}

/// No two usable regions touch: between the whole frames of any two there is a
/// gap.
pub open spec fn detached(regions: Seq<MemoryRegion>) -> bool {
    forall|i: int, j: int|
        0 <= i < j < regions.len() && (#[trigger] regions[i]).usable() && (
        #[trigger] regions[j]).usable() ==> rest_end(regions, i) < region::frame_ceil(
            regions[j].start as int,
        ) || rest_end(regions, j) < region::frame_ceil(regions[i].start as int)
}

/// The block of order `o` at `x` lies in what the cursor left of one of the first
/// `n` regions.
spec fn rests(cursor: bump::BumpState, n: int, o: int, x: int) -> bool {
    exists|j: int|
        0 <= j < n && #[trigger] listed(cursor.regions, cursor.idx, j) && rest_start(
            cursor.regions,
            cursor.idx,
            cursor.next,
            j,
        ) <= x && x + block::block_bytes(o) <= rest_end(cursor.regions, j)
}

proof fn lemma_map_coalesced(cursor: bump::BumpState, n: int)
    requires
        cursor.well_formed(),
        detached(cursor.regions),
        0 <= n <= cursor.regions.len(),
    ensures
        ({
            let l = carve_map(
                lists::empty_lists(),
                cursor.regions,
                cursor.idx,
                cursor.next,
                n,
            );
            &&& lists::well_formed(l)
            &&& lists::coalesced(l)
            &&& forall|o: int, i: int|
                0 <= o < BUDDY_ORDERS && 0 <= i < l[o].len() ==> rests(
                    cursor,
                    n,
                    o,
                    #[trigger] l[o][i] as int,
                )
        }),
    decreases n,
{
    if n > 0 {
        lemma_map_coalesced(cursor, n - 1);
        let before = carve_map(
            lists::empty_lists(),
            cursor.regions,
            cursor.idx,
            cursor.next,
            n - 1,
        );
        let after = carve_map(lists::empty_lists(), cursor.regions, cursor.idx, cursor.next, n);
        if listed(cursor.regions, cursor.idx, n - 1) {
            let start = rest_start(cursor.regions, cursor.idx, cursor.next, n - 1);
            let end = rest_end(cursor.regions, n - 1);
            if start + 4096 <= end {
                let new = lists::carve(lists::empty_lists(), start, end);
                lists::lemma_carve_appends(before, start, end);
                lists::lemma_carve_coalesced(start, end);
                assert forall|o: int, i: int|
                    0 <= o < BUDDY_ORDERS && 0 <= i < before[o].len() implies #[trigger] before[o][i]
                    + block::block_bytes(o) < start || end < before[o][i] by {
                    assert(rests(cursor, n - 1, o, before[o][i] as int));
                    let j = choose|j: int|
                        0 <= j < n - 1 && #[trigger] listed(cursor.regions, cursor.idx, j)
                            && rest_start(cursor.regions, cursor.idx, cursor.next, j)
                            <= before[o][i] && before[o][i] + block::block_bytes(o) <= rest_end(
                            cursor.regions,
                            j,
                        );
                    assert(cursor.regions[j].usable() && cursor.regions[n - 1].usable());
                }
                lists::lemma_joined_coalesced(before, new, start, end);
                assert forall|o: int, i: int|
                    0 <= o < BUDDY_ORDERS && 0 <= i < after[o].len() implies rests(
                    cursor,
                    n,
                    o,
                    #[trigger] after[o][i] as int,
                ) && MIN_ADDR <= after[o][i] && block::aligned(after[o][i] as int, o) by {
                    if i < before[o].len() {
                        assert(after[o][i] == before[o][i]);
                        assert(rests(cursor, n - 1, o, before[o][i] as int));
                        let j = choose|j: int|
                            0 <= j < n - 1 && #[trigger] listed(cursor.regions, cursor.idx, j)
                                && rest_start(cursor.regions, cursor.idx, cursor.next, j)
                                <= before[o][i] && before[o][i] + block::block_bytes(o)
                                <= rest_end(cursor.regions, j);
                        assert(listed(cursor.regions, cursor.idx, j));
                    } else {
                        assert(after[o][i] == new[o][i - before[o].len()]);
                        assert(listed(cursor.regions, cursor.idx, n - 1));
                    }
                }
            } else {
                assert(after == before);
                lemma_rests_grow(cursor, n, before);
            }
        } else {
            lemma_rests_grow(cursor, n, before);
        }
    }
}

proof fn lemma_rests_grow(cursor: bump::BumpState, n: int, l: Seq<Seq<u64>>)
    requires
        forall|o: int, i: int|
            0 <= o < BUDDY_ORDERS && 0 <= i < l[o].len() ==> rests(
                cursor,
                n - 1,
                o,
                #[trigger] l[o][i] as int,
            ),
    ensures
        forall|o: int, i: int|
            0 <= o < BUDDY_ORDERS && 0 <= i < l[o].len() ==> rests(
                cursor,
                n,
                o,
                #[trigger] l[o][i] as int,
            ),
{
    assert forall|o: int, i: int| 0 <= o < BUDDY_ORDERS && 0 <= i < l[o].len() implies rests(
        cursor,
        n,
        o,
        #[trigger] l[o][i] as int,
    ) by {
        assert(rests(cursor, n - 1, o, l[o][i] as int));
        let j = choose|j: int|
            0 <= j < n - 1 && #[trigger] listed(cursor.regions, cursor.idx, j) && rest_start(
                cursor.regions,
                cursor.idx,
                cursor.next,
                j,
            ) <= l[o][i] && l[o][i] + block::block_bytes(o) <= rest_end(cursor.regions, j);
        assert(listed(cursor.regions, cursor.idx, j));
    }
}

/// Law: on a map whose usable regions do not touch, `activate` leaves nothing
/// that could merge: memory starts out in the largest blocks there are. Taking
/// and releasing frames keeps it so.
pub proof fn law_activate_is_coalesced(cursor: bump::BumpState)
    requires
        cursor.well_formed(),
        detached(cursor.regions),
    ensures
        lists::coalesced(activated(cursor)),
{
    lemma_map_coalesced(cursor, cursor.regions.len() as int);
}

/// Law: a frame leaves once and is counted. An active allocator has a frame to give
/// exactly while it counts one free; the frame is 4 KiB at a multiple of 4 KiB,
/// beyond the zero page, and it was free; afterwards one frame less is free and one
/// more is checked out, and every address outside it is as free as it was.
pub proof fn law_allocation(
    alloc: &mut BuddyFrameAllocator,
    free: u64,
    frame: Option<u64>,
    left: u64,
    out_before: u64,
    out_after: u64,
)
    requires
        old(alloc)@.well_formed(),
        old(alloc)@.active,
        old(alloc)@.allocated < u64::MAX,
        call_ensures(BuddyFrameAllocator::free_frames, (&*old(alloc),), free),
        call_ensures(BuddyFrameAllocator::allocated_frames, (&*old(alloc),), out_before),
        call_ensures(BuddyFrameAllocator::allocate_frame, (alloc,), frame),
        call_ensures(BuddyFrameAllocator::free_frames, (&*final(alloc),), left),
        call_ensures(BuddyFrameAllocator::allocated_frames, (&*final(alloc),), out_after),
    ensures
        frame is Some <==> free > 0,
        frame is None ==> left == free && out_after == out_before && final(alloc)@.lists == old(
            alloc)@.lists,
        frame matches Some(a) ==> {
            &&& a % 4096 == 0
            &&& a >= 4096
            &&& left + 1 == free
            &&& out_after == out_before + 1
            &&& lists::free_copies(old(alloc)@.lists, a as int) >= 1
            &&& forall|f: int| #[trigger]
                lists::free_copies(final(alloc)@.lists, f) == lists::free_copies(
                    old(alloc)@.lists,
                    f,
                ) - if a <= f < a + 4096 {
                    1int
                } else {
                    0int
                }
        },
{
    lists::law_take_succeeds(old(alloc)@.lists);
    lists::law_take_frame(old(alloc)@.lists);
}

/// Law: a frame that is given back is free again, it and nothing else, and one
/// frame less is checked out, if any was.
pub proof fn law_reclaim(
    alloc: &mut BuddyFrameAllocator,
    free: u64,
    frame: u64,
    left: u64,
    out_before: u64,
    out_after: u64,
)
    requires
        old(alloc)@.well_formed(),
        old(alloc)@.active,
        frame % 4096 == 0,
        frame >= 4096,
        call_ensures(BuddyFrameAllocator::free_frames, (&*old(alloc),), free),
        call_ensures(BuddyFrameAllocator::allocated_frames, (&*old(alloc),), out_before),
        call_ensures(BuddyFrameAllocator::deallocate_frame, (alloc, frame), ()),
        call_ensures(BuddyFrameAllocator::free_frames, (&*final(alloc),), left),
        call_ensures(BuddyFrameAllocator::allocated_frames, (&*final(alloc),), out_after),
    ensures
        left == free + 1,
        out_before > 0 ==> out_after + 1 == out_before,
        out_before == 0 ==> out_after == 0,
        final(alloc)@.active,
        final(alloc)@.cursor == old(alloc)@.cursor,
        forall|f: int| #[trigger]
            lists::free_copies(final(alloc)@.lists, f) == lists::free_copies(old(alloc)@.lists, f)
                + if frame <= f < frame + 4096 {
                1int
            } else {
                0int
            },
{
    lists::law_release_frame(old(alloc)@.lists, frame as int);
}

/// Law: before its lists are carved the allocator hands out what its cursor finds,
/// lists nothing and counts what it handed out; carving them turns it, for good,
/// into one that has free exactly what the cursor had not passed.
pub proof fn law_two_phases(
    alloc: &mut BuddyFrameAllocator,
    frame: Option<u64>,
    carved: &mut BuddyFrameAllocator,
    f: int,
)
    requires
        old(alloc)@.well_formed(),
        !old(alloc)@.active,
        old(alloc)@.allocated < u64::MAX,
        call_ensures(BuddyFrameAllocator::allocate_frame, (alloc,), frame),
        *old(carved) == *final(alloc),
        call_ensures(BuddyFrameAllocator::activate, (carved,), ()),
        f % 4096 == 0,
    ensures
        frame == region::walk(
            old(alloc)@.cursor.regions,
            old(alloc)@.cursor.idx,
            old(alloc)@.cursor.next,
        ).frame,
        final(alloc)@.lists == lists::empty_lists(),
        final(alloc)@.allocated == old(alloc)@.allocated + if frame is Some {
            1int
        } else {
            0int
        },
        final(carved)@.active,
        final(carved)@.allocated == final(alloc)@.allocated,
        final(carved)@.cursor.regions == old(alloc)@.cursor.regions,
        final(carved)@.cursor.walk().frame is None,
        lists::free_copies(final(carved)@.lists, f) == owners(
            final(alloc)@.cursor,
            old(alloc)@.cursor.regions.len() as int,
            f,
        ),
        apart(old(alloc)@.cursor.regions) && frame is Some && f == frame->0 ==> lists::free_copies(
            final(carved)@.lists,
            f,
        ) == 0,
{
    let before = old(alloc)@.cursor;
    let cursor = final(alloc)@.cursor;
    region::law_walk(before.regions, before.idx, before.next);
    law_activate_lists_the_rest(cursor, f);
    if apart(before.regions) && frame is Some && f == frame->0 {
        assert(region::consumed(cursor.regions, cursor.idx, cursor.next, cursor.idx, f));
        law_activate_is_exclusive(cursor);
    }
}

/// Law: a fresh allocator is in its first phase, at the start of the map, with
/// nothing listed and nothing checked out.
pub proof fn law_fresh_allocator(
    regions: &'static [MemoryRegion],
    fresh: BuddyFrameAllocator,
    active: bool,
    map: &'static [MemoryRegion],
)
    requires
        call_ensures(BuddyFrameAllocator::new, (regions,), fresh),
        call_ensures(BuddyFrameAllocator::is_active, (&fresh,), active),
        call_ensures(BuddyFrameAllocator::regions, (&fresh,), map),
    ensures
        !active,
        map@ == regions@,
        fresh@.cursor.idx == 0,
        fresh@.cursor.next == 0,
        fresh@.allocated == 0,
        forall|o: int| 0 <= o < 13 ==> (#[trigger] fresh@.lists[o]).len() == 0,
{
}

/// Law: free memory is the sum over thirteen lists, where a block of the first list
/// is one frame and a block of each further list two of the one before.
pub proof fn law_free_memory_adds_up(
    alloc: BuddyFrameAllocator,
    checked: Option<u64>,
    n: u64,
)
    requires
        alloc@.well_formed(),
        call_ensures(BuddyFrameAllocator::checked_free_frames, (&alloc,), checked),
        call_ensures(BuddyFrameAllocator::free_frames, (&alloc,), n),
    ensures
        ({
            let l = alloc@.lists;
            let total = l[0].len() + 2 * l[1].len() + 4 * l[2].len() + 8 * l[3].len() + 16
                * l[4].len() + 32 * l[5].len() + 64 * l[6].len() + 128 * l[7].len() + 256
                * l[8].len() + 512 * l[9].len() + 1024 * l[10].len() + 2048 * l[11].len() + 4096
                * l[12].len();
            &&& checked is None <==> total > u64::MAX
            &&& checked matches Some(sum) ==> sum == total && n == total
        }),
{
    reveal_with_fuel(lists::frame_total, 14);
    vstd::arithmetic::power2::lemma2_to64();
    let l = alloc@.lists;
    assert(lists::frame_total(l, 13) == l[0].len() * 1 + l[1].len() * 2 + l[2].len() * 4
        + l[3].len() * 8 + l[4].len() * 16 + l[5].len() * 32 + l[6].len() * 64 + l[7].len() * 128
        + l[8].len() * 256 + l[9].len() * 512 + l[10].len() * 1024 + l[11].len() * 2048
        + l[12].len() * 4096);
}

/// Law: when the map can be carved. Not a second time; and not if a usable region
/// that is not empty starts where no frame starts any more, or if one that the cursor
/// has not passed reaches into the last page of the address space. Else it can.
pub proof fn law_when_the_map_can_be_carved(alloc: BuddyFrameAllocator, ok: bool)
    requires
        alloc@.well_formed(),
        call_ensures(BuddyFrameAllocator::can_activate, (&alloc,), ok),
    ensures
        ok <==> !alloc@.active && forall|j: int|
            0 <= j < alloc@.cursor.regions.len() ==> {
                let r = #[trigger] alloc@.cursor.regions[j];
                r.kind == MemoryRegionKind::Usable && r.start < r.end ==> {
                    &&& r.start <= 0xFFFF_FFFF_FFFF_F000
                    &&& alloc@.cursor.idx <= j ==> r.start <= 0xFFFF_FFFF_FFFF_E000 && r.end
                        < 0xFFFF_FFFF_FFFF_F000
                }
            },
{
    let rs = alloc@.cursor.regions;
    let idx = alloc@.cursor.idx;
    assert forall|j: int| 0 <= j < rs.len() implies #[trigger] carvable(rs, idx, j) == {
        let r = rs[j];
        r.kind == MemoryRegionKind::Usable && r.start < r.end ==> {
            &&& r.start <= 0xFFFF_FFFF_FFFF_F000
            &&& idx <= j ==> r.start <= 0xFFFF_FFFF_FFFF_E000 && r.end < 0xFFFF_FFFF_FFFF_F000
        }
    } by {}
    if !ok && !alloc@.active {
        let j = choose|j: int| 0 <= j < rs.len() && !#[trigger] carvable(rs, idx, j);
        assert(rs[j] == rs[j]);
    }
    assert forall|j: int| ok && 0 <= j < rs.len() implies {
        let r = #[trigger] rs[j];
        r.kind == MemoryRegionKind::Usable && r.start < r.end ==> {
            &&& r.start <= 0xFFFF_FFFF_FFFF_F000
            &&& idx <= j ==> r.start <= 0xFFFF_FFFF_FFFF_E000 && r.end < 0xFFFF_FFFF_FFFF_F000
        }
    } by {
        assert(carvable(rs, idx, j));
    }
}

} // verus!
