use rustycore::memory::block::{block_size, buddy_addr};
use rustycore::memory::buddy::BuddyFrameAllocator;
use rustycore::memory::bump::BootFrameAllocator;
use rustycore::memory::region::{
    checked_frame_ceil, frame_floor_of, MemoryRegion, MemoryRegionKind,
};
use rustycore::memory::{init, self_test, self_test_reclaim, usable_summary};

fn usable(start: u64, end: u64) -> MemoryRegion {
    MemoryRegion { start, end, kind: MemoryRegionKind::Usable }
}

fn map(regions: Vec<MemoryRegion>) -> &'static [MemoryRegion] {
    Vec::leak(regions)
}

fn reserved(start: u64, end: u64) -> MemoryRegion {
    MemoryRegion { start, end, kind: MemoryRegionKind::Bootloader }
}

#[test]
fn block_sizes_double() {
    assert_eq!(block_size(0), 4096);
    assert_eq!(block_size(1), 8192);
    assert_eq!(block_size(12), 16 * 1024 * 1024);
}

#[test]
fn buddies_are_symmetric() {
    assert_eq!(buddy_addr(0x10_0000, 0), 0x10_1000);
    assert_eq!(buddy_addr(0x10_1000, 0), 0x10_0000);
    assert_eq!(buddy_addr(0x2000, 1), 0x0);
    assert_eq!(buddy_addr(0x4000, 1), 0x6000);
}

#[test]
fn rounding_to_frames() {
    assert_eq!(checked_frame_ceil(0), Some(0));
    assert_eq!(checked_frame_ceil(1), Some(4096));
    assert_eq!(checked_frame_ceil(4096), Some(4096));
    assert_eq!(checked_frame_ceil(u64::MAX), None);
    assert_eq!(frame_floor_of(8191), 4096);
}

#[test]
fn bump_walks_usable_frames_in_map_order() {
    let mut a = BootFrameAllocator::new(map(vec![
        reserved(0, 0x4000),
        usable(0x4000, 0x6000),
        usable(0x9001, 0xC000),
    ]));
    assert_eq!(a.allocate_frame(), Some(0x4000));
    assert_eq!(a.allocate_frame(), Some(0x5000));
    assert_eq!(a.allocate_frame(), Some(0xA000));
    assert_eq!(a.allocate_frame(), Some(0xB000));
    assert_eq!(a.allocate_frame(), None);
    assert_eq!(a.allocate_frame(), None);
}

#[test]
fn bump_never_hands_out_the_zero_page() {
    let mut a = BootFrameAllocator::new(map(vec![usable(0, 0x3000)]));
    assert_eq!(a.allocate_frame(), Some(0x1000));
    assert_eq!(a.allocate_frame(), Some(0x2000));
    assert_eq!(a.allocate_frame(), None);
}

#[test]
fn bump_skips_regions_without_a_whole_frame() {
    let mut a = BootFrameAllocator::new(map(vec![
        usable(0x1800, 0x2800),
        usable(0x5000, 0x4000),
        usable(0x8000, 0x9000),
    ]));
    assert_eq!(a.allocate_frame(), Some(0x8000));
    assert_eq!(a.allocate_frame(), None);
}

#[test]
fn inactive_buddy_bumps() {
    let mut a = BuddyFrameAllocator::new(map(vec![usable(0x10_0000, 0x10_2000)]));
    assert_eq!(a.allocate_frame(), Some(0x10_0000));
    assert_eq!(a.allocate_frame(), Some(0x10_1000));
    assert_eq!(a.allocate_frame(), None);
    assert_eq!(a.free_frames(), 0);
    assert_eq!(a.allocated_frames(), 2);
}

#[test]
fn activation_lists_what_the_cursor_left() {
    let mut a = BuddyFrameAllocator::new(map(vec![usable(0x10_0000, 0x11_0000)]));
    assert_eq!(a.allocate_frame(), Some(0x10_0000));
    assert!(a.can_activate());
    assert!(!a.is_active());
    a.activate();
    assert!(a.is_active());
    assert_eq!(a.checked_free_frames(), Some(15));
    assert_eq!(a.free_frames(), 15);
    let mut seen: Vec<u64> = Vec::new();
    while let Some(f) = a.allocate_frame() {
        assert_ne!(f, 0x10_0000);
        assert_eq!(f % 4096, 0);
        assert!(!seen.contains(&f));
        seen.push(f);
    }
    assert_eq!(seen.len(), 15);
    assert_eq!(a.free_frames(), 0);
}

#[test]
fn released_frames_coalesce_again() {
    let mut a = BuddyFrameAllocator::new(map(vec![usable(0x100_0000, 0x200_0000)]));
    a.activate();
    assert_eq!(a.free_frames(), 4096);
    let f = a.allocate_frame().unwrap();
    assert_eq!(a.free_frames(), 4095);
    assert_eq!(a.allocated_frames(), 1);
    a.deallocate_frame(f);
    assert_eq!(a.free_frames(), 4096);
    assert_eq!(a.allocated_frames(), 0);
    assert_eq!(a.allocate_frame(), Some(f));
}

#[test]
fn any_release_order_restores_the_pool() {
    let mut a = BuddyFrameAllocator::new(map(vec![usable(0x40_0000, 0x40_8000)]));
    a.activate();
    let mut frames: Vec<u64> = Vec::new();
    while let Some(f) = a.allocate_frame() {
        frames.push(f);
    }
    assert_eq!(frames.len(), 8);
    for k in [3, 0, 7, 1, 6, 2, 5, 4] {
        a.deallocate_frame(frames[k]);
    }
    assert_eq!(a.free_frames(), 8);
    let mut again: Vec<u64> = Vec::new();
    while let Some(f) = a.allocate_frame() {
        again.push(f);
    }
    again.sort();
    frames.sort();
    assert_eq!(again, frames);
}

#[test]
fn summary_counts_and_skips() {
    let s = usable_summary(&vec![
        usable(0x1000, 0x5000),
        reserved(0x5000, 0x9000),
        usable(0x9000, 0x8000),
        usable(0x10000, 0x10800),
    ]);
    assert_eq!(s.bytes, 0x4800);
    assert_eq!(s.count, 2);
    assert_eq!(s.malformed.len(), 1);
    assert_eq!(s.malformed[0].start, 0x9000);
}

#[test]
fn summary_saturates() {
    let s = usable_summary(&vec![usable(0, u64::MAX), usable(0, u64::MAX)]);
    assert_eq!(s.bytes, u64::MAX);
    assert_eq!(s.count, 2);
}

#[test]
fn heap_self_test_sums() {
    let c = self_test(3, true).unwrap();
    assert_eq!(c.len, 66);
    assert_eq!(c.sum, 0xC0FFEE + 3 + 2016);
    assert!(self_test(3, false).is_none());
}

#[test]
fn reclaim_self_test_keeps_the_free_count() {
    let mut a = BuddyFrameAllocator::new(map(vec![usable(0x40_0000, 0x40_8000)]));
    a.activate();
    assert_eq!(self_test_reclaim(&mut a), 8);
    assert_eq!(a.free_frames(), 8);
    assert_eq!(a.allocated_frames(), 0);
}

#[test]
fn memory_report() {
    let mut a = BuddyFrameAllocator::new(map(vec![usable(0x40_0000, 0x40_8000)]));
    a.activate();
    let r = init(&mut a, true);
    assert_eq!(r.usable.bytes, 0x8000);
    assert_eq!(r.usable.count, 1);
    assert_eq!(r.free, 8);
    assert_eq!(r.heap.unwrap().sum, 0xC0FFEE + 1 + 2016);
}
