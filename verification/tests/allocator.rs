use coral_os::addr::PAGE_SIZE;
use coral_os::frame_allocator::{BootInfoFrameAllocator, MemoryRegion, RegionKind};

fn usable(start: u64, len: u64) -> MemoryRegion {
    MemoryRegion { start, len, kind: RegionKind::Usable }
}

fn reserved(start: u64, len: u64) -> MemoryRegion {
    MemoryRegion { start, len, kind: RegionKind::Reserved }
}

fn drain(allocator: &mut BootInfoFrameAllocator) -> Vec<u64> {
    let mut out = Vec::new();
    while let Some(frame) = allocator.allocate_frame() {
        out.push(frame.start_address().as_u64());
    }
    out
}

#[test]
fn four_pages_then_empty() {
    let mut allocator = BootInfoFrameAllocator::init(vec![usable(0x100000, 0x4000)]);
    let mut got = Vec::new();
    for _ in 0..4 {
        got.push(allocator.allocate_frame().expect("frame").start_address().as_u64());
    }
    assert_eq!(got, vec![0x100000, 0x101000, 0x102000, 0x103000]);
    assert!(allocator.allocate_frame().is_none());
    assert!(allocator.allocate_frame().is_none());
}

#[test]
fn reserved_regions_give_nothing() {
    let mut allocator = BootInfoFrameAllocator::init(vec![
        reserved(0, 0x10000),
        usable(0x10000, 0x2000),
        reserved(0x12000, 0x1000),
        usable(0x20000, 0x1000),
    ]);
    assert_eq!(drain(&mut allocator), vec![0x10000, 0x11000, 0x20000]);
}

#[test]
fn empty_map_is_exhausted_at_once() {
    let mut allocator = BootInfoFrameAllocator::init(Vec::new());
    assert!(allocator.allocate_frame().is_none());
}

#[test]
fn unaligned_region_is_rounded_inward() {
    let mut allocator = BootInfoFrameAllocator::init(vec![usable(0x1800, 0x3000)]);
    // the region is 0x1800..0x4800: whole frames at 0x2000 and 0x3000
    assert_eq!(drain(&mut allocator), vec![0x2000, 0x3000]);
}

#[test]
fn region_smaller_than_a_page_gives_nothing() {
    let mut allocator = BootInfoFrameAllocator::init(vec![
        usable(0x1000, 0xfff),
        usable(0x2800, 0x1000),
        usable(0x5001, 0x1ffe),
    ]);
    assert_eq!(drain(&mut allocator), Vec::<u64>::new());
}

#[test]
fn usable_frames_counts_whole_frames() {
    assert_eq!(usable(0x100000, 0x4000).usable_frames(), 4);
    assert_eq!(usable(0x1800, 0x3000).usable_frames(), 2);
    assert_eq!(usable(0x1000, 0xfff).usable_frames(), 0);
    assert_eq!(reserved(0x100000, 0x4000).usable_frames(), 0);
    assert_eq!(usable(0xfff, 0x1001).usable_frames(), 1);
}

#[test]
fn region_past_physical_addressing_is_cut() {
    let limit = 1u64 << 52;
    assert_eq!(usable(limit - 0x2000, u64::MAX).usable_frames(), 2);
    assert_eq!(usable(limit, 0x4000).usable_frames(), 0);
    assert_eq!(usable(u64::MAX, u64::MAX).usable_frames(), 0);
    let mut allocator = BootInfoFrameAllocator::init(vec![usable(limit - 0x1000, 0x10000)]);
    assert_eq!(drain(&mut allocator), vec![limit - 0x1000]);
}

#[test]
fn capacity_of_n_pages_gives_n_distinct_aligned_frames() {
    let regions = vec![usable(0x8000, 0x5000), reserved(0xd000, 0x3000), usable(0x40000, 0x3000)];
    let n: u64 = regions.iter().map(|r| r.usable_frames()).sum();
    assert_eq!(n, 8);
    let mut allocator = BootInfoFrameAllocator::init(regions);
    let mut got = Vec::new();
    for _ in 0..n {
        got.push(allocator.allocate_frame().expect("frame").start_address().as_u64());
    }
    assert!(allocator.allocate_frame().is_none());
    for (i, a) in got.iter().enumerate() {
        assert_eq!(a % PAGE_SIZE, 0);
        for b in got.iter().skip(i + 1) {
            assert_ne!(a, b);
        }
    }
}
