//! Bump frame allocator for bring-up.
//!
//! Hands out usable 4 KiB frames in map order and never reclaims. A cursor
//! walks forward through the map instead of scanning it anew on every call.

use vstd::prelude::*;
use crate::memory::block::{FRAME_SIZE, MIN_ADDR};
use crate::memory::region;
use crate::memory::region::{checked_frame_ceil, max_addr, MemoryRegion, MemoryRegionKind};

verus! {

pub struct BootFrameAllocator {
    regions: &'static [MemoryRegion],
    region_idx: usize,
    /// Next candidate frame address inside `regions[region_idx]`; zero until
    /// the cursor is positioned there.
    next_addr: u64,
}

/// What a [`BootFrameAllocator`] stands for: a memory map and a cursor in it.
pub ghost struct BumpState {
    pub regions: Seq<MemoryRegion>,
    pub idx: int,
    pub next: int,
}

impl View for BootFrameAllocator {
    type V = BumpState;

    closed spec fn view(&self) -> BumpState {
        BumpState {
            regions: self.regions@,
            idx: self.region_idx as int,
            next: self.next_addr as int,
        }
    }
}

impl BumpState {
    /// The cursor is past the map, or on a frame boundary inside a region.
    pub open spec fn well_formed(self) -> bool {
        &&& 0 <= self.idx <= self.regions.len() <= usize::MAX
        &&& 0 <= self.next <= u64::MAX
        &&& self.idx < self.regions.len() ==> self.next % 4096 == 0 && (self.next == 0 || self.next
            <= self.regions[self.idx].end)
    }

    /// The next frame in map order.
    pub open spec fn walk(self) -> region::Walk {
        region::walk(self.regions, self.idx, self.next)
    }
}

impl BootFrameAllocator {
    /// Build from the memory map, with the cursor at its start.
    pub fn new(regions: &'static [MemoryRegion]) -> (r: Self)
        ensures
            r@ == (BumpState { regions: regions@, idx: 0, next: 0 }),
            r@.well_formed(),
    {
        proof {
            assert(regions@.len() == regions.len());
        }
        Self { regions, region_idx: 0, next_addr: 0 }
    }

    /// Move the cursor to the start of the next region.
    fn advance(&mut self)
        requires
            old(self)@.well_formed(),
            old(self)@.idx < old(self)@.regions.len(),
        ensures
            final(self)@ == (BumpState { idx: old(self)@.idx + 1, next: 0, ..old(self)@ }),
    {
        self.region_idx = self.region_idx + 1;
        self.next_addr = 0;
    }

    /// Hand out the next usable frame in map order.
    pub fn allocate_frame(&mut self) -> (frame: Option<u64>)
        requires
            old(self)@.well_formed(),
        ensures
            final(self)@.well_formed(),
            final(self)@.regions == old(self)@.regions,
            final(self)@.idx == old(self)@.walk().idx,
            final(self)@.next == old(self)@.walk().next,
            frame == old(self)@.walk().frame,
    {
        proof {
            region::law_walk(self@.regions, self@.idx, self@.next);
        }
        loop
            invariant
                self@.well_formed(),
                self@.regions == old(self)@.regions,
                self@.walk() == old(self)@.walk(),
            decreases self@.regions.len() - self@.idx,
        {
            if self.region_idx >= self.regions.len() {
                return None;
            }
            let region: MemoryRegion = self.regions[self.region_idx];
            if region.kind != MemoryRegionKind::Usable {
                self.advance();
                continue;
            }
            let aligned: u64 = match checked_frame_ceil(region.start) {
                Some(a) => a,
                None => {
                    self.advance();
                    continue;
                },
            };
            // The zero page stays with the firmware tables that live there.
            let addr: u64 = max_addr(max_addr(aligned, self.next_addr), MIN_ADDR);
            let frame_end: u64 = match addr.checked_add(FRAME_SIZE) {
                Some(e) => e,
                None => {
                    return None;
                },
            };
            if frame_end > region.end {
                self.advance();
                continue;
            }
            self.next_addr = frame_end;
            return Some(addr);
        }
    }

    /// The memory map.
    pub fn regions(&self) -> (r: &'static [MemoryRegion])
        ensures
            r@ == self@.regions,
    {
        self.regions
    }

    /// Region the cursor stands in and the next candidate address there.
    pub fn cursor(&self) -> (r: (usize, u64))
        ensures
            r.0 == self@.idx,
            r.1 == self@.next,
    {
        (self.region_idx, self.next_addr)
    }

    /// Move the cursor past the end of the map: nothing is handed out any more.
    pub fn retire(&mut self)
        requires
            old(self)@.well_formed(),
        ensures
            final(self)@ == (BumpState {
                idx: old(self)@.regions.len() as int,
                next: u64::MAX as int,
                ..old(self)@
            }),
            final(self)@.well_formed(),
    {
        self.region_idx = self.regions.len();
        self.next_addr = u64::MAX;
    }
}

/// Law: the allocator of the bring-up hands out, of a fresh map, the lowest whole
/// frame of the first usable region that has one, never the zero page; and asked
/// again it never gives the same frame of a region twice.
pub proof fn law_bump_hands_out(
    regions: &'static [MemoryRegion],
    fresh: BootFrameAllocator,
    alloc: &mut BootFrameAllocator,
    frame: Option<u64>,
)
    requires
        call_ensures(BootFrameAllocator::new, (regions,), fresh),
        old(alloc)@.well_formed(),
        call_ensures(BootFrameAllocator::allocate_frame, (alloc,), frame),
    ensures
        fresh@.regions == regions@,
        forall|j: int, f: int|
            !#[trigger] region::consumed(fresh@.regions, fresh@.idx, fresh@.next, j, f),
        final(alloc)@.regions == old(alloc)@.regions,
        frame matches Some(a) ==> {
            let at = final(alloc)@.idx;
            &&& 0 <= at < old(alloc)@.regions.len()
            &&& old(alloc)@.regions[at].kind == MemoryRegionKind::Usable
            &&& a % 4096 == 0
            &&& a >= 4096
            &&& old(alloc)@.regions[at].start <= a
            &&& a + 4096 <= old(alloc)@.regions[at].end
            &&& !region::consumed(
                old(alloc)@.regions,
                old(alloc)@.idx,
                old(alloc)@.next,
                at,
                a as int,
            )
            &&& region::consumed(
                old(alloc)@.regions,
                final(alloc)@.idx,
                final(alloc)@.next,
                at,
                a as int,
            )
        },
{
    let b = old(alloc)@;
    region::law_walk(b.regions, b.idx, b.next);
}

/// Law: a retired allocator hands out nothing, and it stays where it was put.
pub proof fn law_retired_for_good(
    alloc: &mut BootFrameAllocator,
    later: &mut BootFrameAllocator,
    frame: Option<u64>,
    map: &'static [MemoryRegion],
    at: (usize, u64),
)
    requires
        old(alloc)@.well_formed(),
        call_ensures(BootFrameAllocator::retire, (alloc,), ()),
        *old(later) == *final(alloc),
        call_ensures(BootFrameAllocator::allocate_frame, (later,), frame),
        call_ensures(BootFrameAllocator::regions, (&*final(later),), map),
        call_ensures(BootFrameAllocator::cursor, (&*final(later),), at),
    ensures
        frame is None,
        final(later)@ == final(alloc)@,
        map@ == old(alloc)@.regions,
        at.0 == map@.len(),
{
}

} // verus!
