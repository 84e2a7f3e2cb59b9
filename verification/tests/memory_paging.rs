use rustycore::memory::paging::{
    check_phys_offset, heap_mapped, map_heap, map_mmio_window, mmio_mapped, MapFailure, Mapping,
    MemoryError, HEAP_FLAGS, HEAP_START, MMIO_FLAGS, MMIO_WINDOW, PHYS_MEM_OFFSET,
};

const HEAP_SIZE: usize = 1_048_576;

#[test]
fn phys_offset_must_be_the_fixed_one() {
    assert_eq!(check_phys_offset(Some(PHYS_MEM_OFFSET)), Ok(PHYS_MEM_OFFSET));
    assert_eq!(check_phys_offset(None), Err(MemoryError::PhysOffsetMissing));
    assert_eq!(check_phys_offset(Some(0)), Err(MemoryError::PhysOffsetDrifted));
}

#[test]
fn mmio_window_takes_one_page() {
    assert_eq!(
        map_mmio_window(0xFEE0_0000, false),
        Ok(Mapping { page: MMIO_WINDOW, frame: 0xFEE0_0000, flags: MMIO_FLAGS })
    );
    assert_eq!(map_mmio_window(0xFEE0_0010, false), Err(MemoryError::MmioUnaligned));
    assert_eq!(map_mmio_window(0xFEE0_0000, true), Err(MemoryError::MmioOccupied));
}

#[test]
fn mmio_outcome() {
    assert_eq!(mmio_mapped(Ok(())), Ok(MMIO_WINDOW));
    assert_eq!(
        mmio_mapped(Err(MapFailure::FrameAllocationFailed)),
        Err(MemoryError::MmioMapFailed)
    );
}

#[test]
fn heap_plan_covers_every_page_in_order() {
    let mut plan = map_heap(HEAP_START, HEAP_SIZE).ok().unwrap();
    let mut frame: u64 = 0x10_0000;
    let mut expected = HEAP_START;
    while let Some(page) = plan.pending() {
        assert_eq!(page, expected);
        let m = plan.supply(Some(frame)).unwrap();
        assert_eq!(m, Mapping { page, frame, flags: HEAP_FLAGS });
        frame += 4096;
        expected += 4096;
    }
    assert_eq!(expected, HEAP_START + HEAP_SIZE as u64);
}

#[test]
fn heap_plan_rounds_to_pages() {
    let mut plan = map_heap(HEAP_START + 100, 5000).ok().unwrap();
    assert_eq!(plan.pending(), Some(HEAP_START));
    plan.supply(Some(0x1000)).unwrap();
    assert_eq!(plan.pending(), Some(HEAP_START + 4096));
    plan.supply(Some(0x2000)).unwrap();
    assert_eq!(plan.pending(), None);
}

#[test]
fn heap_plan_reaches_the_last_page() {
    let mut plan = map_heap(0xFFFF_FFFF_FFFF_F000, 4095).ok().unwrap();
    assert_eq!(plan.pending(), Some(0xFFFF_FFFF_FFFF_F000));
    plan.supply(Some(0x1000)).unwrap();
    assert_eq!(plan.pending(), None);
}

#[test]
fn heap_plan_refusals() {
    assert_eq!(map_heap(HEAP_START, 0).err(), Some(MemoryError::HeapSizeZero));
    assert_eq!(
        map_heap(0xFFFF_FFFF_FFFF_F000, 0x2000).err(),
        Some(MemoryError::HeapRangeOverflows)
    );
    let mut plan = map_heap(HEAP_START, HEAP_SIZE).ok().unwrap();
    assert_eq!(plan.supply(None), Err(MemoryError::OutOfFrames));
}

#[test]
fn heap_outcomes() {
    assert_eq!(heap_mapped(Ok(())), Ok(()));
    assert_eq!(
        heap_mapped(Err(MapFailure::FrameAllocationFailed)),
        Err(MemoryError::OutOfTableFrames)
    );
    assert_eq!(
        heap_mapped(Err(MapFailure::ParentEntryHugePage)),
        Err(MemoryError::HugePageInTheWay)
    );
    assert_eq!(
        heap_mapped(Err(MapFailure::PageAlreadyMapped)),
        Err(MemoryError::PageAlreadyMapped)
    );
}

#[test]
fn memory_messages() {
    assert_eq!(MemoryError::HeapSizeZero.message(), "heap size is zero");
    assert_eq!(MemoryError::OutOfFrames.message(), "out of frames for heap");
    assert_eq!(MemoryError::MmioUnaligned.message(), "mmio phys address is not 4KiB-aligned");
}
