//! Physical memory management: frame allocators, mapping plans and the checks
//! that bring-up runs on them.

pub mod block;
pub mod buddy;
pub mod bump;
pub mod lists;
pub mod paging;
pub mod region;

use vstd::prelude::*;
use crate::memory::block::BUDDY_ORDERS;
use crate::memory::buddy::BuddyFrameAllocator;
use crate::memory::region::{MemoryRegion, MemoryRegionKind};

verus! {

/// Bytes of the well-formed usable regions among the first `n`.
pub open spec fn usable_bytes(regions: Seq<MemoryRegion>, n: int) -> int
    decreases n,
{
    if n <= 0 {
        0
    } else {
        usable_bytes(regions, n - 1) + if regions[n - 1].usable() && regions[n - 1].start
            <= regions[n - 1].end {
            regions[n - 1].end - regions[n - 1].start
        } else {
            0
        }
    }
}

/// How many of the first `n` regions are usable and well formed.
pub open spec fn usable_count(regions: Seq<MemoryRegion>, n: int) -> int
    decreases n,
{
    if n <= 0 {
        0
    } else {
        usable_count(regions, n - 1) + if regions[n - 1].usable() && regions[n - 1].start
            <= regions[n - 1].end {
            1int
        } else {
            0int
        }
    }
}

/// The usable regions among the first `n` that end before they start.
pub open spec fn malformed(regions: Seq<MemoryRegion>, n: int) -> Seq<MemoryRegion>
    decreases n,
{
    if n <= 0 {
        Seq::empty()
    } else if regions[n - 1].usable() && regions[n - 1].end < regions[n - 1].start {
        malformed(regions, n - 1).push(regions[n - 1])
    } else {
        malformed(regions, n - 1)
    }
}

/// What a memory map holds.
pub struct UsableSummary {
    /// Usable bytes, at most `u64::MAX`.
    pub bytes: u64,
    /// Usable regions that were counted.
    pub count: usize,
    /// Usable regions that were skipped because they end before they start.
    pub malformed: Vec<MemoryRegion>,
}

/// Sum usable RAM with saturating math: garbage firmware tables must not wrap
/// the counter around to zero. Malformed regions are reported, not counted.
pub fn usable_summary(regions: &[MemoryRegion]) -> (r: UsableSummary)
    ensures
        r.bytes == if usable_bytes(regions@, regions@.len() as int) > u64::MAX {
            u64::MAX as int
        } else {
            usable_bytes(regions@, regions@.len() as int)
        },
        r.count == usable_count(regions@, regions@.len() as int),
        r.malformed@ == malformed(regions@, regions@.len() as int),
{
    let mut bytes: u64 = 0;
    let mut count: usize = 0;
    let mut skipped: Vec<MemoryRegion> = Vec::new();
    let mut i: usize = 0;
    while i < regions.len()
        invariant
            i <= regions.len(),
            count <= i,
            usable_bytes(regions@, i as int) >= 0,
            bytes == if usable_bytes(regions@, i as int) > u64::MAX {
                u64::MAX as int
            } else {
                usable_bytes(regions@, i as int)
            },
            count == usable_count(regions@, i as int),
            skipped@ == malformed(regions@, i as int),
        decreases regions.len() - i,
    {
        let r: MemoryRegion = regions[i];
        if r.kind == MemoryRegionKind::Usable {
            if r.end < r.start {
                skipped.push(r);
            } else {
                bytes = bytes.saturating_add(r.end - r.start);
                count = count + 1;
            }
        }
        i = i + 1;
    }
    UsableSummary { bytes, count, malformed: skipped }
}

/// Length and sum of the vector that the heap self-test fills.
pub struct HeapCheck {
    pub len: usize,
    pub sum: u64,
}

/// Exercise the heap: box a word, fill a vector, read both back. `None` when
/// the configuration skips the test.
pub fn self_test(region_count: u64, enabled: bool) -> (r: Option<HeapCheck>)
    requires
        enabled ==> region_count + 0xC0F_FEE + 2016 <= u64::MAX,
    ensures
        r is Some <==> enabled,
        r matches Some(c) ==> c.len == 66 && c.sum == 0xC0F_FEE + region_count + 2016,
{
    if !enabled {
        return None;
    }
    let b: Box<u64> = Box::new(0xC0F_FEEu64);
    let mut v: Vec<u64> = Vec::new();
    v.push(*b);
    v.push(region_count);
    let mut k: u64 = 0;
    while k < 64
        invariant
            k <= 64,
            v.len() == k + 2,
            v[0] == 0xC0F_FEE,
            v[1] == region_count,
            forall|i: int| 2 <= i < v.len() ==> v[i] == i - 2,
        decreases 64 - k,
    {
        v.push(k);
        k = k + 1;
    }
    let mut sum: u64 = v[0] + v[1];
    let mut i: usize = 2;
    while i < v.len()
        invariant
            2 <= i <= v.len(),
            v.len() == 66,
            forall|j: int| 2 <= j < v.len() ==> v[j] == j - 2,
            2 * (sum - 0xC0F_FEE - region_count) == (i - 2) * (i - 3),
            region_count + 0xC0F_FEE + 2016 <= u64::MAX,
        decreases v.len() - i,
    {
        proof {
            let n = i as int;
            assert((n - 2) * (n - 3) + 2 * (n - 2) == (n - 1) * (n - 2)) by (nonlinear_arith);
            assert((n - 1) * (n - 2) <= 4032) by (nonlinear_arith)
                requires
                    2 <= n <= 65,
            ;
        }
        sum = sum + v[i];
        i = i + 1;
    }
    assert((66 - 2) * (66 - 3) == 4032) by (nonlinear_arith);
    Some(HeapCheck { len: v.len(), sum })
}

/// Prove at run time that reclaim works: hand out one frame and give it back.
/// The free count drops by one in between and is back afterwards.
pub fn self_test_reclaim(alloc: &mut BuddyFrameAllocator) -> (free: u64)
    requires
        old(alloc)@.well_formed(),
        old(alloc)@.active,
        old(alloc)@.allocated < u64::MAX,
        0 < lists::frame_total(old(alloc)@.lists, BUDDY_ORDERS as int) <= u64::MAX,
    ensures
        final(alloc)@.well_formed(),
        free == lists::frame_total(old(alloc)@.lists, BUDDY_ORDERS as int),
        lists::frame_total(final(alloc)@.lists, BUDDY_ORDERS as int) == free,
        final(alloc)@ == (buddy::BuddyState {
            lists: lists::release(
                lists::take(old(alloc)@.lists, 0).1,
                0,
                lists::take(old(alloc)@.lists, 0).0->0 as int,
            ),
            ..old(alloc)@
        }),
{
    proof {
        lists::law_take_succeeds(alloc@.lists);
        lists::law_round_trip(alloc@.lists);
    }
    let before: u64 = alloc.free_frames();
    if let Some(frame) = alloc.allocate_frame() {
        alloc.deallocate_frame(frame);
    }
    let after: u64 = alloc.free_frames();
    assert(before == after);
    after
}

/// What memory bring-up reports once the heap is live.
pub struct MemoryReport {
    pub usable: UsableSummary,
    /// Free frames after the reclaim test.
    pub free: u64,
    /// Frames checked out.
    pub allocated: u64,
    /// Outcome of the heap self-test.
    pub heap: Option<HeapCheck>,
}

/// The part of memory bring-up that follows the carving of the free lists: sum
/// up the map, prove reclaim and exercise the heap.
pub fn init(alloc: &mut BuddyFrameAllocator, self_test_enabled: bool) -> (r: MemoryReport)
    requires
        old(alloc)@.well_formed(),
        old(alloc)@.active,
        old(alloc)@.allocated < u64::MAX,
        0 < lists::frame_total(old(alloc)@.lists, BUDDY_ORDERS as int) <= u64::MAX,
        self_test_enabled ==> old(alloc)@.cursor.regions.len() + 0xC0F_FEE + 2016 <= u64::MAX,
    ensures
        final(alloc)@.well_formed(),
        final(alloc)@ == (buddy::BuddyState {
            lists: lists::release(
                lists::take(old(alloc)@.lists, 0).1,
                0,
                lists::take(old(alloc)@.lists, 0).0->0 as int,
            ),
            ..old(alloc)@
        }),
        r.free == lists::frame_total(old(alloc)@.lists, BUDDY_ORDERS as int),
        r.allocated == old(alloc)@.allocated,
        r.usable.bytes == if usable_bytes(
            old(alloc)@.cursor.regions,
            old(alloc)@.cursor.regions.len() as int,
        ) > u64::MAX {
            u64::MAX as int
        } else {
            usable_bytes(
                old(alloc)@.cursor.regions,
                old(alloc)@.cursor.regions.len() as int,
            )
        },
        r.usable.count == usable_count(
            old(alloc)@.cursor.regions,
            old(alloc)@.cursor.regions.len() as int,
        ),
        r.usable.malformed@ == malformed(
            old(alloc)@.cursor.regions,
            old(alloc)@.cursor.regions.len() as int,
        ),
        r.heap is Some <==> self_test_enabled,
        r.heap matches Some(c) ==> c.len == 66 && c.sum == 0xC0F_FEE
            + old(alloc)@.cursor.regions.len() + 2016,
{
    let usable: UsableSummary = usable_summary(alloc.regions());
    let region_count: u64 = alloc.regions().len() as u64;
    let free: u64 = self_test_reclaim(alloc);
    let heap: Option<HeapCheck> = self_test(region_count, self_test_enabled);
    MemoryReport { usable, free, allocated: alloc.allocated_frames(), heap }
}

/// Law: what a map sums up to, region by region. An empty map is empty. One more
/// region changes nothing unless it is usable; a usable one adds its length, up to
/// where the sum no longer fits, and one to the count; one that ends before it
/// starts is reported instead.
pub proof fn law_summary_region_by_region(
    map: &[MemoryRegion],
    more: &[MemoryRegion],
    last: MemoryRegion,
    a: UsableSummary,
    b: UsableSummary,
)
    requires
        more@ == map@.push(last),
        call_ensures(usable_summary, (map,), a),
        call_ensures(usable_summary, (more,), b),
    ensures
        map@.len() == 0 ==> a.bytes == 0 && a.count == 0 && a.malformed@.len() == 0,
        last.kind != MemoryRegionKind::Usable ==> b.bytes == a.bytes && b.count == a.count
            && b.malformed@ == a.malformed@,
        last.kind == MemoryRegionKind::Usable && last.start <= last.end ==> {
            &&& b.count == a.count + 1
            &&& b.malformed@ == a.malformed@
            &&& b.bytes == if a.bytes + (last.end - last.start) <= u64::MAX {
                a.bytes + (last.end - last.start)
            } else {
                u64::MAX as int
            }
        },
        last.kind == MemoryRegionKind::Usable && last.end < last.start ==> {
            &&& b.bytes == a.bytes
            &&& b.count == a.count
            &&& b.malformed@ == a.malformed@.push(last)
        },
{
    let n = map@.len() as int;
    lemma_usable_prefix(map@, last, n);
    lemma_usable_not_negative(map@, n);
    assert(more@[n] == last);
}

proof fn lemma_usable_not_negative(regions: Seq<MemoryRegion>, n: int)
    ensures
        usable_bytes(regions, n) >= 0,
    decreases n,
{
    if n > 0 {
        lemma_usable_not_negative(regions, n - 1);
    }
}

proof fn lemma_usable_prefix(regions: Seq<MemoryRegion>, last: MemoryRegion, n: int)
    requires
        0 <= n <= regions.len(),
    ensures
        usable_bytes(regions.push(last), n) == usable_bytes(regions, n),
        usable_count(regions.push(last), n) == usable_count(regions, n),
        malformed(regions.push(last), n) == malformed(regions, n),
    decreases n,
{
    if n > 0 {
        lemma_usable_prefix(regions, last, n - 1);
        assert(regions.push(last)[n - 1] == regions[n - 1]);
    }
}

/// Law: the self-test of the heap runs exactly if it is asked for, and reports the
/// sixty-six words that it wrote and their sum: the marker, the number of regions
/// and the numbers below sixty-four.
pub proof fn law_heap_self_test(region_count: u64, enabled: bool, r: Option<HeapCheck>)
    requires
        call_ensures(self_test, (region_count, enabled), r),
    ensures
        r is Some <==> enabled,
        r matches Some(c) ==> c.len == 2 + 64 && c.sum == 0xC0F_FEE + region_count + 63 * 64 / 2,
{
}

/// Law: proving reclaim costs nothing. Afterwards as many frames are free and as
/// many are checked out as before, and every address is as free as it was.
pub proof fn law_reclaim_test_costs_nothing(
    alloc: &mut BuddyFrameAllocator,
    before: u64,
    out: u64,
    reported: u64,
    after: u64,
    out_after: u64,
)
    requires
        old(alloc)@.well_formed(),
        old(alloc)@.active,
        0 < lists::frame_total(old(alloc)@.lists, BUDDY_ORDERS as int) <= u64::MAX,
        call_ensures(BuddyFrameAllocator::free_frames, (&*old(alloc),), before),
        call_ensures(BuddyFrameAllocator::allocated_frames, (&*old(alloc),), out),
        call_ensures(self_test_reclaim, (alloc,), reported),
        call_ensures(BuddyFrameAllocator::free_frames, (&*final(alloc),), after),
        call_ensures(BuddyFrameAllocator::allocated_frames, (&*final(alloc),), out_after),
    ensures
        reported == before,
        after == before,
        out_after == out,
        forall|f: int| #[trigger]
            lists::free_copies(final(alloc)@.lists, f) == lists::free_copies(old(alloc)@.lists, f),
{
    lists::law_take_succeeds(old(alloc)@.lists);
    lists::law_round_trip(old(alloc)@.lists);
}

/// Law: what bring-up reports is what there is: the sum of the map, the frames that
/// are free, those that are checked out, and the self-test of the heap, with the
/// number of regions in its sum.
pub proof fn law_memory_report(
    alloc: &mut BuddyFrameAllocator,
    map: &'static [MemoryRegion],
    free: u64,
    out: u64,
    summary: UsableSummary,
    enabled: bool,
    report: MemoryReport,
)
    requires
        call_ensures(BuddyFrameAllocator::regions, (&*old(alloc),), map),
        call_ensures(BuddyFrameAllocator::free_frames, (&*old(alloc),), free),
        call_ensures(BuddyFrameAllocator::allocated_frames, (&*old(alloc),), out),
        call_ensures(usable_summary, (map,), summary),
        call_ensures(init, (alloc, enabled), report),
    ensures
        report.free == free,
        report.allocated == out,
        report.usable.bytes == summary.bytes,
        report.usable.count == summary.count,
        report.usable.malformed@ == summary.malformed@,
        report.heap is Some <==> enabled,
        report.heap matches Some(c) ==> c.sum == 0xC0F_FEE + map@.len() + 2016,
{
}

} // verus!
