//! The memory map and the order in which its frames are walked.

use vstd::prelude::*;
use crate::memory::block::{FRAME_SIZE, MIN_ADDR};

verus! {

/// What a region of the memory map is for.
#[derive(Debug, Clone, Copy, PartialEq, Eq, Structural)]
pub enum MemoryRegionKind {
    /// RAM the kernel owns exclusively.
    Usable,
    /// Memory in use by the bootloader.
    Bootloader,
    /// A type that UEFI firmware reported.
    UnknownUefi(u32),
    /// A type that BIOS firmware reported.
    UnknownBios(u32),
}

/// One entry `[start, end)` of the memory map, in physical addresses.
#[derive(Debug, Clone, Copy, PartialEq, Eq, Structural)]
pub struct MemoryRegion {
    pub start: u64,
    pub end: u64,
    pub kind: MemoryRegionKind,
}

/// `x` rounded up to a frame boundary.
pub open spec fn frame_ceil(x: int) -> int {
    if x % 4096 == 0 {
        x
    } else {
        x - x % 4096 + 4096
    }
}

/// `x` rounded down to a frame boundary.
pub open spec fn frame_floor(x: int) -> int {
    x - x % 4096
}

pub open spec fn max_of(a: int, b: int) -> int {
    if a < b {
        b
    } else {
        a
    }
}

impl MemoryRegion {
    pub open spec fn usable(self) -> bool {
        self.kind == MemoryRegionKind::Usable
    }

    /// The frame at `f` may be handed out on account of this region: it is
    /// aligned, clear of the zero page and lies inside the region as a whole.
    pub open spec fn owns(self, f: int) -> bool {
        &&& self.usable()
        &&& f % 4096 == 0
        &&& MIN_ADDR <= f
        &&& self.start <= f
        &&& f + 4096 <= self.end
    }
}

/// The first frame at or after `next` that `r` could supply, whether or not
/// it still fits.
pub open spec fn candidate(r: MemoryRegion, next: int) -> int {
    max_of(max_of(frame_ceil(r.start as int), next), MIN_ADDR as int)
}

/// Outcome of one walk over the memory map.
pub ghost struct Walk {
    /// The frame found.
    pub frame: Option<u64>,
    /// Region the cursor stands in afterwards.
    pub idx: int,
    /// Next candidate address inside that region.
    pub next: int,
}

/// Walk from region `idx`, address `next`, to the next frame in map order.
/// Regions that are not usable, whose start cannot be rounded up, or that
/// have no room left are passed over; a candidate frame that would end
/// beyond the address space ends the walk where it stands.
pub open spec fn walk(regions: Seq<MemoryRegion>, idx: int, next: int) -> Walk
    decreases regions.len() - idx,
{
    if idx >= regions.len() {
        Walk { frame: None, idx, next }
    } else if !regions[idx].usable() || frame_ceil(regions[idx].start as int) > u64::MAX {
        walk(regions, idx + 1, 0)
    } else {
        let addr = candidate(regions[idx], next);
        if addr + 4096 > u64::MAX {
            Walk { frame: None, idx, next }
        } else if addr + 4096 > regions[idx].end {
            walk(regions, idx + 1, 0)
        } else {
            Walk { frame: Some(addr as u64), idx, next: addr + 4096 }
        }
    }
}

/// The cursor at region `idx`, address `next`, has passed frame `f` of
/// region `j`.
pub open spec fn consumed(regions: Seq<MemoryRegion>, idx: int, next: int, j: int, f: int) -> bool {
    &&& 0 <= j < regions.len()
    &&& regions[j].owns(f)
    &&& j < idx || (j == idx && f < next)
}

/// Law: a walk hands out a frame that its region owns and that the cursor had
/// not passed before, and afterwards the cursor has passed that frame and no
/// other. Hence no frame of a region is handed out twice, and the zero page
/// never is.
pub proof fn law_walk(regions: Seq<MemoryRegion>, idx: int, next: int)
    requires
        0 <= idx <= regions.len(),
        0 <= next <= u64::MAX,
        idx < regions.len() ==> next % 4096 == 0,
    ensures
        ({
            let w = walk(regions, idx, next);
            &&& idx <= w.idx <= regions.len()
            &&& 0 <= w.next <= u64::MAX
            &&& w.idx < regions.len() ==> w.next % 4096 == 0
            &&& match w.frame {
                Some(a) => {
                    &&& w.idx < regions.len()
                    &&& regions[w.idx].owns(a as int)
                    &&& !consumed(regions, idx, next, w.idx, a as int)
                    &&& w.next == a + 4096
                    &&& forall|j: int, f: int| #[trigger]
                        consumed(regions, w.idx, w.next, j, f) <==> consumed(
                            regions,
                            idx,
                            next,
                            j,
                            f,
                        ) || (j == w.idx && f == a)
                },
                None => forall|j: int, f: int| #[trigger]
                    consumed(regions, w.idx, w.next, j, f) <==> consumed(regions, idx, next, j, f),
            }
        }),
    decreases regions.len() - idx,
{
    let w = walk(regions, idx, next);
    if idx < regions.len() {
        let r = regions[idx];
        let addr = candidate(r, next);
        if !r.usable() || frame_ceil(r.start as int) > u64::MAX {
            lemma_spent(regions, idx, next);
            law_walk(regions, idx + 1, 0);
        } else if addr + 4096 > u64::MAX {
        } else if addr + 4096 > r.end {
            lemma_spent(regions, idx, next);
            law_walk(regions, idx + 1, 0);
        } else {
            assert(w.frame == Some(addr as u64) && w.idx == idx && w.next == addr + 4096);
            assert forall|j: int, f: int| #[trigger]
                consumed(regions, idx, addr + 4096, j, f) <==> consumed(regions, idx, next, j, f)
                    || (j == idx && f == addr) by {}
        }
    }
}

/// A region with no frame left at or after the cursor counts as consumed.
proof fn lemma_spent(regions: Seq<MemoryRegion>, idx: int, next: int)
    requires
        0 <= idx < regions.len(),
        !regions[idx].usable() || frame_ceil(regions[idx].start as int) > u64::MAX || candidate(
            regions[idx],
            next,
        ) + 4096 > regions[idx].end,
    ensures
        forall|j: int, f: int| #[trigger]
            consumed(regions, idx + 1, 0, j, f) <==> consumed(regions, idx, next, j, f),
{
    assert forall|f: int| regions[idx].owns(f) implies f < next by {
        let c = frame_ceil(regions[idx].start as int);
        assert(c <= f);
    }
}

/// Base of the last page of the address space.
pub const LAST_PAGE: u64 = 0xFFFF_FFFF_FFFF_F000;

/// Law: unless a candidate frame sits in the last page of the address space,
/// where a walk stops for good, a walk comes back empty only after every frame
/// was passed.
pub proof fn law_walk_exhausts(regions: Seq<MemoryRegion>, idx: int, next: int)
    requires
        0 <= idx <= regions.len(),
        0 <= next < LAST_PAGE,
        next % 4096 == 0,
        forall|j: int|
            0 <= j < regions.len() && (#[trigger] regions[j]).usable() ==> frame_ceil(
                regions[j].start as int,
            ) != LAST_PAGE,
        walk(regions, idx, next).frame is None,
    ensures
        forall|j: int, f: int|
            0 <= j < regions.len() && #[trigger] regions[j].owns(f) ==> j < idx || (j == idx && f
                < next),
    decreases regions.len() - idx,
{
    if idx < regions.len() {
        let r = regions[idx];
        let addr = candidate(r, next);
        if r.usable() && frame_ceil(r.start as int) <= u64::MAX {
            assert(addr + 4096 <= u64::MAX);
            assert(addr + 4096 > r.end);
        }
        law_walk_exhausts(regions, idx + 1, 0);
        assert forall|j: int, f: int|
            0 <= j < regions.len() && #[trigger] regions[j].owns(f) implies j < idx || (j == idx && f
            < next) by {}
    }
}

/// `x` rounded up to a frame boundary, if that fits.
pub fn checked_frame_ceil(x: u64) -> (r: Option<u64>)
    ensures
        match r {
            Some(a) => a == frame_ceil(x as int),
            None => frame_ceil(x as int) > u64::MAX,
        },
{
    let rem: u64 = x % FRAME_SIZE;
    if rem == 0 {
        Some(x)
    } else {
        x.checked_add(FRAME_SIZE - rem)
    }
}

/// The larger of two addresses.
pub fn max_addr(a: u64, b: u64) -> (r: u64)
    ensures
        r == max_of(a as int, b as int),
{
    if a < b {
        b
    } else {
        a
    }
}

/// `x` rounded down to a frame boundary.
pub fn frame_floor_of(x: u64) -> (r: u64)
    ensures
        r == frame_floor(x as int),
{
    let mask: u64 = FRAME_SIZE - 1;
    assert(x & !mask == x - x % 4096) by (bit_vector)
        requires
            mask == 4095,
    ;
    x & !mask
}

/// Law: rounding to frames. Up gives the first multiple of 4096 that is not below
/// the address, or nothing where that lies beyond the address space; down gives the
/// last that is not above it.
pub proof fn law_frame_rounding(x: u64, up: Option<u64>, down: u64)
    requires
        call_ensures(checked_frame_ceil, (x,), up),
        call_ensures(frame_floor_of, (x,), down),
    ensures
        up matches Some(a) ==> a % 4096 == 0 && x <= a < x + 4096,
        up is None <==> x > 0xFFFF_FFFF_FFFF_F000,
        down % 4096 == 0,
        down <= x < down + 4096,
{
}

/// Law: what may be handed out. A frame is 4 KiB at a multiple of 4 KiB; it is
/// never the zero page, and it lies as a whole in a region that is usable.
pub proof fn law_owned_frames(r: MemoryRegion, f: int)
    ensures
        r.owns(f) <==> {
            &&& r.kind == MemoryRegionKind::Usable
            &&& f % 4096 == 0
            &&& f >= 4096
            &&& r.start <= f
            &&& f + 4095 < r.end
        },
{
}

/// Law: frames leave in map order. The frame that a walk finds is the first that
/// is left: everything that an earlier region owns, and everything lower in its own
/// region, was passed before or cannot be reached any more.
pub proof fn law_walk_in_order(regions: Seq<MemoryRegion>, idx: int, next: int, j: int, f: int)
    requires
        0 <= idx <= regions.len(),
        0 <= next <= u64::MAX,
        idx < regions.len() ==> next % 4096 == 0,
        walk(regions, idx, next).frame is Some,
        0 <= j < regions.len(),
        regions[j].owns(f),
        j < walk(regions, idx, next).idx || (j == walk(regions, idx, next).idx && f < walk(
            regions,
            idx,
            next,
        ).frame->0),
    ensures
        j < idx || (j == idx && f < next),
{
    law_walk(regions, idx, next);
    let w = walk(regions, idx, next);
    assert(consumed(regions, w.idx, w.next, j, f));
    assert(consumed(regions, idx, next, j, f));
}

/// Law: the larger of two addresses is one of them and below neither.
pub proof fn law_larger_address(a: u64, b: u64, r: u64)
    requires
        call_ensures(max_addr, (a, b), r),
    ensures
        r == a || r == b,
        a <= r && b <= r,
{
}

} // verus!
