//! Mapping plans: which virtual page is to be backed by which physical frame.
//!
//! Page tables are touched elsewhere. This module decides what is to be mapped,
//! in which order, and what a failure means.

use vstd::prelude::*;
use x86_64::structures::paging::{Page, PhysFrame, Size4KiB};
use x86_64::{PhysAddr, VirtAddr};
use crate::memory::region;

verus! {

/// Virtual address at which all physical memory is mapped.
pub const PHYS_MEM_OFFSET: u64 = 0xFFFF_8000_0000_0000;

/// Virtual start of the kernel heap.
pub const HEAP_START: u64 = 0xFFFF_9000_0000_0000;

/// Dedicated virtual window for one MMIO page. It lies outside the mapping of
/// physical memory, which uses huge pages with RAM flags.
pub const MMIO_WINDOW: u64 = 0xFFFF_A000_0000_0000;

/// Page-table entry bit: the page is present.
pub const PRESENT: u64 = 0x1;

/// Page-table entry bit: the page may be written.
pub const WRITABLE: u64 = 0x2;

/// Page-table entry bit: the page is not cached.
pub const NO_CACHE: u64 = 0x10;

/// Page-table entry bit: no code is fetched from the page.
pub const NO_EXECUTE: u64 = 0x8000_0000_0000_0000;

/// Flags of a heap page: `PRESENT | WRITABLE | NO_EXECUTE`.
pub const HEAP_FLAGS: u64 = 0x8000_0000_0000_0003;

/// Flags of a device page: `PRESENT | WRITABLE | NO_CACHE | NO_EXECUTE`.
pub const MMIO_FLAGS: u64 = 0x8000_0000_0000_0013;

/// Bits 63 to 47 of `addr` are all equal, as the processor demands.
pub open spec fn canonical(addr: int) -> bool {
    0 <= addr < 0x8000_0000_0000 || 0xFFFF_8000_0000_0000 <= addr <= u64::MAX
}

/// Two addresses on the same side of the gap between canonical halves.
pub open spec fn same_half(a: int, b: int) -> bool {
    a < 0x8000_0000_0000 <==> b < 0x8000_0000_0000
}

/// Base of the last page of the lower canonical half.
pub const LOWER_TOP_PAGE: u64 = 0x7FFF_FFFF_F000;

/// Base of the last page of the address space.
pub const UPPER_TOP_PAGE: u64 = 0xFFFF_FFFF_FFFF_F000;

/// Why memory bring-up refuses to go on.
#[derive(Debug, Clone, Copy, PartialEq, Eq, Structural)]
pub enum MemoryError {
    PhysOffsetMissing,
    PhysOffsetDrifted,
    HeapSizeZero,
    HeapRangeOverflows,
    OutOfFrames,
    OutOfTableFrames,
    HugePageInTheWay,
    PageAlreadyMapped,
    MmioUnaligned,
    MmioOccupied,
    MmioMapFailed,
}

/// How the page-table mapper can fail.
#[derive(Debug, Clone, Copy, PartialEq, Eq, Structural)]
pub enum MapFailure {
    FrameAllocationFailed,
    ParentEntryHugePage,
    PageAlreadyMapped,
}

impl MemoryError {
    /// The message as text.
    pub open spec fn text(self) -> Seq<char> {
        match self {
            MemoryError::PhysOffsetMissing =>
                "physical_memory_offset missing — is mappings.physical_memory set?"@,
            MemoryError::PhysOffsetDrifted =>
                "bootloader phys offset drifted from PHYS_MEM_OFFSET"@,
            MemoryError::HeapSizeZero => "heap size is zero"@,
            MemoryError::HeapRangeOverflows => "heap range overflows"@,
            MemoryError::OutOfFrames => "out of frames for heap"@,
            MemoryError::OutOfTableFrames => "heap map: out of frames for page tables"@,
            MemoryError::HugePageInTheWay => "heap map: huge page blocks heap range"@,
            MemoryError::PageAlreadyMapped => "heap page already mapped"@,
            MemoryError::MmioUnaligned => "mmio phys address is not 4KiB-aligned"@,
            MemoryError::MmioOccupied =>
                "mmio window already occupied — single-window kernel, one MMIO page max"@,
            MemoryError::MmioMapFailed => "mmio window map failed (frames out?)"@,
        }
    }

    /// The message that goes to the log.
    pub fn message(&self) -> (m: &'static str)
        ensures
            m@ == self.text(),
    {
        match self {
            MemoryError::PhysOffsetMissing =>
                "physical_memory_offset missing — is mappings.physical_memory set?",
            MemoryError::PhysOffsetDrifted => "bootloader phys offset drifted from PHYS_MEM_OFFSET",
            MemoryError::HeapSizeZero => "heap size is zero",
            MemoryError::HeapRangeOverflows => "heap range overflows",
            MemoryError::OutOfFrames => "out of frames for heap",
            MemoryError::OutOfTableFrames => "heap map: out of frames for page tables",
            MemoryError::HugePageInTheWay => "heap map: huge page blocks heap range",
            MemoryError::PageAlreadyMapped => "heap page already mapped",
            MemoryError::MmioUnaligned => "mmio phys address is not 4KiB-aligned",
            MemoryError::MmioOccupied =>
                "mmio window already occupied — single-window kernel, one MMIO page max",
            MemoryError::MmioMapFailed => "mmio window map failed (frames out?)",
        }
    }
}

/// One page-table entry to be made: `page` is backed by `frame` under `flags`.
#[derive(Debug, Clone, Copy, PartialEq, Eq, Structural)]
pub struct Mapping {
    pub page: u64,
    pub frame: u64,
    pub flags: u64,
}

/// Start of the 4 KiB page that contains a virtual address, by
/// `Page::containing_address` of the `x86_64` crate. Trusted: it rounds a
/// canonical address down to a multiple of 4096. A non-canonical address makes
/// `VirtAddr::new` panic.
#[verifier::external_body]
fn page_containing(addr: u64) -> (start: u64)
    requires
        canonical(addr as int),
    ensures
        start == region::frame_floor(addr as int),
{
    Page::<Size4KiB>::containing_address(VirtAddr::new(addr)).start_address().as_u64()
}

/// Start of the 4 KiB frame that contains a physical address, by
/// `PhysFrame::containing_address` of the `x86_64` crate. Trusted: it rounds an
/// address of at most 52 bits down to a multiple of 4096. A wider address
/// makes `PhysAddr::new` panic.
#[verifier::external_body]
fn frame_containing(addr: u64) -> (start: u64)
    requires
        addr < 0x10_0000_0000_0000,
    ensures
        start == region::frame_floor(addr as int),
{
    PhysFrame::<Size4KiB>::containing_address(PhysAddr::new(addr)).start_address().as_u64()
}

/// One step of the iterator `PageRangeInclusive` of the `x86_64` crate over the
/// pages `first..=last`. Trusted: while the range is not empty it yields
/// `first`, and what is left is the range without it, which at the very top of
/// the address space is written with a lowered end instead of a raised start.
/// Stepping out of the lower canonical half makes the crate panic.
#[verifier::external_body]
fn page_range_next(first: u64, last: u64) -> (r: Option<(u64, u64, u64)>)
    requires
        canonical(first as int),
        canonical(last as int),
        first % 4096 == 0,
        last % 4096 == 0,
        first <= last ==> first != LOWER_TOP_PAGE,
    ensures
        match r {
            Some((page, start, end)) => {
                &&& first <= last
                &&& page == first
                &&& first < UPPER_TOP_PAGE ==> start == first + 4096 && end == last
                &&& first == UPPER_TOP_PAGE ==> start == first && end == last - 4096
            },
            None => first > last,
        },
{
    let start = Page::<Size4KiB>::containing_address(VirtAddr::new(first));
    let end = Page::<Size4KiB>::containing_address(VirtAddr::new(last));
    let mut range = Page::range_inclusive(start, end);
    match range.next() {
        Some(page) => Some((
            page.start_address().as_u64(),
            range.start.start_address().as_u64(),
            range.end.start_address().as_u64(),
        )),
        None => None,
    }
}

/// The bootloader must map physical memory where the kernel expects it.
pub fn check_phys_offset(offset: Option<u64>) -> (r: Result<u64, MemoryError>)
    ensures
        r == match offset {
            None => Err::<u64, MemoryError>(MemoryError::PhysOffsetMissing),
            Some(o) => if o == PHYS_MEM_OFFSET {
                Ok(o)
            } else {
                Err(MemoryError::PhysOffsetDrifted)
            },
        },
{
    match offset {
        None => Err(MemoryError::PhysOffsetMissing),
        Some(o) => {
            if o == PHYS_MEM_OFFSET {
                Ok(o)
            } else {
                Err(MemoryError::PhysOffsetDrifted)
            }
        },
    }
}

/// Plan the mapping of one MMIO page into [`MMIO_WINDOW`]. `occupied` says
/// whether the window translates to anything yet.
pub fn map_mmio_window(phys: u64, occupied: bool) -> (r: Result<Mapping, MemoryError>)
    requires
        phys % 4096 == 0 && !occupied ==> phys < 0x10_0000_0000_0000,
    ensures
        r == if phys % 4096 != 0 {
            Err::<Mapping, MemoryError>(MemoryError::MmioUnaligned)
        } else if occupied {
            Err(MemoryError::MmioOccupied)
        } else {
            Ok(Mapping { page: MMIO_WINDOW, frame: phys, flags: MMIO_FLAGS })
        },
{
    if phys % 4096 != 0 {
        return Err(MemoryError::MmioUnaligned);
    }
    let page: u64 = page_containing(MMIO_WINDOW);
    if occupied {
        return Err(MemoryError::MmioOccupied);
    }
    let frame: u64 = frame_containing(phys);
    assert(0x1u64 | 0x2u64 | 0x10u64 | 0x8000_0000_0000_0000u64 == 0x8000_0000_0000_0013u64)
        by (bit_vector);
    Ok(Mapping { page, frame, flags: PRESENT | WRITABLE | NO_CACHE | NO_EXECUTE })
}

/// What the outcome of mapping the MMIO page means: the address of the window,
/// or a refusal.
pub fn mmio_mapped(outcome: Result<(), MapFailure>) -> (r: Result<u64, MemoryError>)
    ensures
        r == match outcome {
            Ok(_) => Ok::<u64, MemoryError>(MMIO_WINDOW),
            Err(_) => Err(MemoryError::MmioMapFailed),
        },
{
    match outcome {
        Ok(_) => Ok(MMIO_WINDOW),
        Err(_) => Err(MemoryError::MmioMapFailed),
    }
}

/// What is still to be mapped of a heap.
pub struct HeapMap {
    first: u64,
    last: u64,
}

impl HeapMap {
    /// The pages from `first` to `last` are pages, and the iterator over them
    /// stays in one canonical half.
    pub closed spec fn well_formed(&self) -> bool {
        &&& canonical(self.first as int)
        &&& canonical(self.last as int)
        &&& self.first % 4096 == 0
        &&& self.last % 4096 == 0
        &&& self.last != LOWER_TOP_PAGE
        &&& self.first <= self.last ==> same_half(self.first as int, self.last as int)
    }

    /// The pages that are left, in the order in which they are to be mapped.
    pub closed spec fn pages(&self) -> Seq<int> {
        page_run(self.first as int, self.last as int)
    }
}

/// The pages `first`, `first + 4096`, up to `last`.
pub open spec fn page_run(first: int, last: int) -> Seq<int> {
    if first <= last {
        Seq::new(((last - first) / 4096 + 1) as nat, |i: int| first + 4096 * i)
    } else {
        Seq::empty()
    }
}

/// Plan the mapping of `[start, start + size)`.
pub fn map_heap(start: u64, size: usize) -> (r: Result<HeapMap, MemoryError>)
    requires
        size != 0 && start + size <= u64::MAX ==> {
            &&& canonical(start as int)
            &&& canonical(start + size - 1)
            &&& same_half(start as int, start + size - 1)
            &&& !(LOWER_TOP_PAGE <= start + size - 1 < LOWER_TOP_PAGE + 4096)
        },
    ensures
        match r {
            Ok(plan) => {
                &&& size != 0
                &&& start + size <= u64::MAX
                &&& plan.well_formed()
                &&& plan.pages() == page_run(
                    region::frame_floor(start as int),
                    region::frame_floor(start + size - 1),
                )
            },
            Err(e) => if size == 0 {
                e == MemoryError::HeapSizeZero
            } else {
                start + size > u64::MAX && e == MemoryError::HeapRangeOverflows
            },
        },
{
    if size == 0 {
        return Err(MemoryError::HeapSizeZero);
    }
    let end_addr: u64 = match start.checked_add(size as u64) {
        Some(e) => e,
        None => {
            return Err(MemoryError::HeapRangeOverflows);
        },
    };
    let first: u64 = page_containing(start);
    let last: u64 = page_containing(end_addr - 1);
    Ok(HeapMap { first, last })
}

impl HeapMap {
    /// The page that is to be mapped next, if any is left.
    pub fn pending(&self) -> (page: Option<u64>)
        requires
            self.well_formed(),
        ensures
            match page {
                Some(p) => self.pages().len() > 0 && p == self.pages()[0],
                None => self.pages().len() == 0,
            },
    {
        if self.first <= self.last {
            Some(self.first)
        } else {
            None
        }
    }

    /// Back the pending page with `frame`, the answer of the frame allocator.
    pub fn supply(&mut self, frame: Option<u64>) -> (r: Result<Mapping, MemoryError>)
        requires
            old(self).well_formed(),
            old(self).pages().len() > 0,
        ensures
            final(self).well_formed(),
            final(self).pages() == old(self).pages().skip(1),
            r == match frame {
                Some(f) => Ok::<Mapping, MemoryError>(
                    Mapping { page: old(self).pages()[0] as u64, frame: f, flags: HEAP_FLAGS },
                ),
                None => Err(MemoryError::OutOfFrames),
            },
    {
        let ghost before = self.pages();
        let page: u64 = match page_range_next(self.first, self.last) {
            Some((page, first, last)) => {
                self.first = first;
                self.last = last;
                page
            },
            None => self.first,
        };
        assert(self.pages() =~= before.skip(1));
        assert(0x1u64 | 0x2u64 | 0x8000_0000_0000_0000u64 == 0x8000_0000_0000_0003u64)
            by (bit_vector);
        match frame {
            Some(f) => Ok(Mapping { page, frame: f, flags: PRESENT | WRITABLE | NO_EXECUTE }),
            None => Err(MemoryError::OutOfFrames),
        }
    }
}

/// What the outcome of mapping one heap page means. Running out of frames for
/// page tables and hitting a page that is in use are different disasters.
pub fn heap_mapped(outcome: Result<(), MapFailure>) -> (r: Result<(), MemoryError>)
    ensures
        r == match outcome {
            Ok(_) => Ok::<(), MemoryError>(()),
            Err(MapFailure::FrameAllocationFailed) => Err(MemoryError::OutOfTableFrames),
            Err(MapFailure::ParentEntryHugePage) => Err(MemoryError::HugePageInTheWay),
            Err(MapFailure::PageAlreadyMapped) => Err(MemoryError::PageAlreadyMapped),
        },
{
    match outcome {
        Ok(_) => Ok(()),
        Err(MapFailure::FrameAllocationFailed) => Err(MemoryError::OutOfTableFrames),
        Err(MapFailure::ParentEntryHugePage) => Err(MemoryError::HugePageInTheWay),
        Err(MapFailure::PageAlreadyMapped) => Err(MemoryError::PageAlreadyMapped),
    }
}

/// Law: the pages planned for a heap cover it. Every address of the heap lies
/// in exactly one of them, and each of them holds some address of the heap.
pub proof fn law_heap_pages_cover(start: int, size: int)
    requires
        0 <= start,
        0 < size,
    ensures
        ({
            let pages = page_run(
                region::frame_floor(start),
                region::frame_floor(start + size - 1),
            );
            &&& forall|i: int|
                0 <= i < pages.len() ==> (#[trigger] pages[i]) % 4096 == 0 && pages[i] < start
                    + size && start < pages[i] + 4096
            &&& forall|i: int, j: int| 0 <= i < j < pages.len() ==> pages[i] + 4096 <= pages[j]
            &&& forall|a: int|
                start <= a < start + size ==> #[trigger] pages.contains(region::frame_floor(a))
        }),
{
    let first = region::frame_floor(start);
    let last = region::frame_floor(start + size - 1);
    let pages = page_run(first, last);
    assert(first <= last);
    assert forall|a: int| start <= a < start + size implies #[trigger] pages.contains(
        region::frame_floor(a),
    ) by {
        let i = (region::frame_floor(a) - first) / 4096;
        assert(0 <= i < pages.len());
        assert(pages[i] == region::frame_floor(a));
    }
}

/// Law: how memory is mapped. A heap page is present, writable and never executed,
/// and cached; the device page is the same but not cached. Nothing else is set.
pub proof fn law_mapping_flags(
    plan: &mut HeapMap,
    frame: Option<u64>,
    heap: Result<Mapping, MemoryError>,
    phys: u64,
    occupied: bool,
    device: Result<Mapping, MemoryError>,
)
    requires
        old(plan).well_formed(),
        old(plan).pages().len() > 0,
        call_ensures(HeapMap::supply, (plan, frame), heap),
        call_ensures(map_mmio_window, (phys, occupied), device),
    ensures
        heap matches Ok(m) ==> m.flags == (1u64 << 0) + (1u64 << 1) + (1u64 << 63),
        device matches Ok(m) ==> m.flags == (1u64 << 0) + (1u64 << 1) + (1u64 << 4) + (1u64 << 63),
{
    assert(1u64 << 0 == 1 && 1u64 << 1 == 2 && 1u64 << 4 == 0x10 && 1u64 << 63
        == 0x8000_0000_0000_0000) by (bit_vector);
}

/// Law: the device window. The one page at its fixed address is backed by the very
/// frame that was asked for; a frame that is not aligned, or a window that is taken,
/// is refused, and so is a mapping that failed.
pub proof fn law_device_window(
    phys: u64,
    occupied: bool,
    r: Result<Mapping, MemoryError>,
    outcome: Result<(), MapFailure>,
    window: Result<u64, MemoryError>,
)
    requires
        phys % 4096 == 0 && !occupied ==> phys < 0x10_0000_0000_0000,
        call_ensures(map_mmio_window, (phys, occupied), r),
        call_ensures(mmio_mapped, (outcome,), window),
    ensures
        r is Ok <==> phys % 4096 == 0 && !occupied,
        r matches Ok(m) ==> m.page == 0xFFFF_A000_0000_0000 && m.frame == phys,
        r == Err::<Mapping, MemoryError>(MemoryError::MmioUnaligned) <==> phys % 4096 != 0,
        r == Err::<Mapping, MemoryError>(MemoryError::MmioOccupied) <==> phys % 4096 == 0
            && occupied,
        window is Ok <==> outcome is Ok,
        r is Ok && window is Ok ==> window->Ok_0 == r->Ok_0.page,
        window matches Err(e) ==> e == MemoryError::MmioMapFailed,
{
}

/// Law: a heap is mapped page by page. The plan holds the pages that the heap
/// touches, from the lowest to the highest; each is backed by the frame that was
/// supplied for it, and then it is done with. No size and a size beyond the address
/// space are refused, and so is a page without a frame.
pub proof fn law_heap_page_by_page(
    start: u64,
    size: usize,
    r: Result<HeapMap, MemoryError>,
    plan: &mut HeapMap,
    pending: Option<u64>,
    frame: Option<u64>,
    supplied: Result<Mapping, MemoryError>,
)
    requires
        call_ensures(map_heap, (start, size), r),
        old(plan).well_formed(),
        old(plan).pages().len() > 0,
        call_ensures(HeapMap::pending, (&*old(plan),), pending),
        call_ensures(HeapMap::supply, (plan, frame), supplied),
    ensures
        r is Ok <==> size != 0 && start + size <= u64::MAX,
        r == Err::<HeapMap, MemoryError>(MemoryError::HeapSizeZero) <==> size == 0,
        r matches Err(e) ==> e == MemoryError::HeapSizeZero || e
            == MemoryError::HeapRangeOverflows,
        r matches Ok(heap) ==> {
            &&& heap.pages().len() > 0
            &&& forall|i: int|
                0 <= i < heap.pages().len() ==> (#[trigger] heap.pages()[i]) % 4096 == 0
                    && heap.pages()[i] < start + size && start < heap.pages()[i] + 4096
            &&& forall|i: int, j: int|
                0 <= i < j < heap.pages().len() ==> heap.pages()[i] < heap.pages()[j]
            &&& forall|a: int|
                start <= a < start + size ==> #[trigger] heap.pages().contains(a - a % 4096)
        },
        pending matches Some(p) && p == old(plan).pages()[0],
        old(plan).pages() == seq![old(plan).pages()[0]] + final(plan).pages(),
        supplied is Ok <==> frame is Some,
        supplied matches Ok(m) ==> Some(m.frame) == frame && Some(m.page) == pending,
        supplied matches Err(e) ==> e == MemoryError::OutOfFrames,
{
    if let Ok(heap) = r {
        law_heap_pages_cover(start as int, size as int);
        assert forall|a: int| start <= a < start + size implies #[trigger] heap.pages().contains(
            a - a % 4096,
        ) by {
            assert(heap.pages().contains(region::frame_floor(a)));
        }
        assert(heap.pages().contains(region::frame_floor(start as int)));
    }
    assert(old(plan).pages() =~= seq![old(plan).pages()[0]] + final(plan).pages());
}

/// Law: a failure keeps its name. What the mapper ran into comes out under a
/// different error each time, and none of them as one of the heap's own.
pub proof fn law_failures_keep_their_name(
    a: Result<(), MapFailure>,
    b: Result<(), MapFailure>,
    x: Result<(), MemoryError>,
    y: Result<(), MemoryError>,
)
    requires
        call_ensures(heap_mapped, (a,), x),
        call_ensures(heap_mapped, (b,), y),
    ensures
        a is Err && b is Err ==> (x == y <==> a == b),
        x is Ok <==> a is Ok,
        x == Err::<(), MemoryError>(MemoryError::OutOfTableFrames) <==> a == Err::<(), MapFailure>(
            MapFailure::FrameAllocationFailed,
        ),
        x == Err::<(), MemoryError>(MemoryError::PageAlreadyMapped) <==> a == Err::<
            (),
            MapFailure,
        >(MapFailure::PageAlreadyMapped),
        x == Err::<(), MemoryError>(MemoryError::HugePageInTheWay) <==> a == Err::<(), MapFailure>(
            MapFailure::ParentEntryHugePage,
        ),
{
}

/// Law: the kernel goes on only if all physical memory lies where it was linked to
/// expect it, at the bottom of the upper half.
pub proof fn law_physical_memory_offset(offset: Option<u64>, r: Result<u64, MemoryError>)
    requires
        call_ensures(check_phys_offset, (offset,), r),
    ensures
        r is Ok <==> offset == Some(0xFFFF_8000_0000_0000u64),
        r matches Ok(o) ==> o == 0xFFFF_8000_0000_0000,
        r == Err::<u64, MemoryError>(MemoryError::PhysOffsetMissing) <==> offset is None,
        r matches Err(e) ==> e == MemoryError::PhysOffsetMissing || e
            == MemoryError::PhysOffsetDrifted,
{
}

/// Law: the areas of the address space are apart. A heap and a stretch of physical
/// memory, each of up to 16 TiB, touch neither each other nor the device window. The
/// top pages are the last of the lower half and the last of all.
pub proof fn law_areas_are_apart(heap: int, physical: int)
    requires
        0 <= heap <= 0x1000_0000_0000,
        0 <= physical <= 0x1000_0000_0000,
    ensures
        HEAP_START == 0xFFFF_9000_0000_0000,
        PHYS_MEM_OFFSET + physical <= HEAP_START,
        HEAP_START + heap <= MMIO_WINDOW,
        MMIO_WINDOW + 4096 <= u64::MAX,
        LOWER_TOP_PAGE + 4096 == 0x8000_0000_0000,
        UPPER_TOP_PAGE + 4095 == u64::MAX,
{
}

/// Law: what the log says of each failure.
pub proof fn law_words_of_memory_failures(e: MemoryError, m: &'static str)
    requires
        call_ensures(MemoryError::message, (&e,), m),
    ensures
        e == MemoryError::PhysOffsetMissing ==> m@ == "physical_memory_offset missing — is mappings.physical_memory set?"@,
        e == MemoryError::PhysOffsetDrifted ==> m@ == "bootloader phys offset drifted from PHYS_MEM_OFFSET"@,
        e == MemoryError::HeapSizeZero ==> m@ == "heap size is zero"@,
        e == MemoryError::HeapRangeOverflows ==> m@ == "heap range overflows"@,
        e == MemoryError::OutOfFrames ==> m@ == "out of frames for heap"@,
        e == MemoryError::OutOfTableFrames ==> m@ == "heap map: out of frames for page tables"@,
        e == MemoryError::HugePageInTheWay ==> m@ == "heap map: huge page blocks heap range"@,
        e == MemoryError::PageAlreadyMapped ==> m@ == "heap page already mapped"@,
        e == MemoryError::MmioUnaligned ==> m@ == "mmio phys address is not 4KiB-aligned"@,
        e == MemoryError::MmioOccupied ==> m@ == "mmio window already occupied — single-window kernel, one MMIO page max"@,
        e == MemoryError::MmioMapFailed ==> m@ == "mmio window map failed (frames out?)"@,
{
}

} // verus!
