use coral_os::addr::{Page, PhysAddr, PhysFrame, VirtAddr};
use coral_os::frame_allocator::{BootInfoFrameAllocator, MemoryRegion, RegionKind};
use coral_os::paging::{MapError, OffsetPageTable, PageTableEntry, PageTableFlags};

const FRAMES: usize = 8;

fn frame(start: u64) -> PhysFrame {
    PhysFrame::from_start_address(start).expect("aligned")
}

fn table(root: u64) -> OffsetPageTable {
    OffsetPageTable::init(VirtAddr::new(0xffff_8000_0000_0000), frame(root), vec![0u64; FRAMES * 512])
}

fn allocator(start: u64, len: u64) -> BootInfoFrameAllocator {
    BootInfoFrameAllocator::init(vec![MemoryRegion { start, len, kind: RegionKind::Usable }])
}

fn example_page() -> Page {
    Page::containing_address(VirtAddr::new(0xdeadbeaf000))
}

#[test]
fn empty_hierarchy_maps_nothing() {
    let mapper = table(0);
    for raw in [0u64, 0xb8000, 0x201008, 0x0100_0020_1a10, 0xffff_8000_0000_0000] {
        assert!(mapper.translate(VirtAddr::new(raw)).is_none());
    }
}

#[test]
fn translate_after_map() {
    let mut mapper = table(0);
    let mut frames = allocator(0x1000, 0x3000);
    let page = example_page();
    let r = mapper.map_page(page, frame(0xb8000), PageTableFlags::new(true), &mut frames);
    assert_eq!(r, Ok(()));
    let start = mapper.translate(page.start_address()).expect("mapped");
    assert_eq!(start.as_u64(), 0xb8000);
    let inside = mapper.translate(VirtAddr::new(0xdeadbeaf000 + 0xc80)).expect("mapped");
    assert_eq!(inside.as_u64(), 0xb8c80);
    // the neighbouring pages stay unmapped
    assert!(mapper.translate(VirtAddr::new(0xdeadbeb0000)).is_none());
    assert!(mapper.translate(VirtAddr::new(0xdeadbeae000)).is_none());
    // the three intermediate tables took the allocator's three frames
    assert!(frames.allocate_frame().is_none());
}

#[test]
fn map_links_fresh_tables_in_order() {
    let mut mapper = table(0);
    let mut frames = allocator(0x1000, 0x6000);
    let page = example_page();
    assert_eq!(mapper.map_page(page, frame(0x7000), PageTableFlags::new(false), &mut frames), Ok(()));
    let e4 = mapper.read_entry(0, 0x1b).expect("root");
    assert_eq!(e4.raw, 0x1000 | 3);
    let e3 = mapper.read_entry(0x1000, 0x1ab).expect("level 3");
    assert_eq!(e3.raw, 0x2000 | 3);
    let e2 = mapper.read_entry(0x2000, 0xdf).expect("level 2");
    assert_eq!(e2.raw, 0x3000 | 3);
    let e1 = mapper.read_entry(0x3000, 0xaf).expect("level 1");
    assert_eq!(e1.raw, 0x7000 | 1);
    assert_eq!(e1.addr(), 0x7000);
    assert_eq!(e1.flags(), 1);
    assert!(!e1.is_unused());
    // the next frame of the allocator is the fourth
    assert_eq!(frames.allocate_frame().expect("frame").start_address().as_u64(), 0x4000);
}

#[test]
fn second_page_reuses_the_tables() {
    let mut mapper = table(0);
    let mut frames = allocator(0x1000, 0x3000);
    assert_eq!(mapper.map_page(example_page(), frame(0x6000), PageTableFlags::new(true), &mut frames), Ok(()));
    let next = Page::containing_address(VirtAddr::new(0xdeadbeb0000));
    assert_eq!(mapper.map_page(next, frame(0x7000), PageTableFlags::new(true), &mut frames), Ok(()));
    assert_eq!(mapper.translate(VirtAddr::new(0xdeadbeb0008)).expect("mapped").as_u64(), 0x7008);
    assert_eq!(mapper.translate(VirtAddr::new(0xdeadbeaf008)).expect("mapped").as_u64(), 0x6008);
}

#[test]
fn write_then_read_through_a_new_mapping() {
    let mut mapper = table(0);
    let mut frames = allocator(0x1000, 0x3000);
    let page = example_page();
    assert_eq!(mapper.map_page(page, frame(0x7000), PageTableFlags::new(true), &mut frames), Ok(()));
    let at = VirtAddr::new(page.start_address().as_u64() + 400 * 8);
    assert_eq!(mapper.read_word(at), Some(0));
    assert!(mapper.write_word(at, 0x0f21_0f77_0f65_0f4e));
    assert_eq!(mapper.read_word(at), Some(0x0f21_0f77_0f65_0f4e));
    // the word stands in the frame, 400 words from its start
    assert_eq!(mapper.read_entry(0x7000, 400).expect("frame").raw, 0x0f21_0f77_0f65_0f4e);
}

#[test]
fn word_access_fails_where_nothing_is_mapped() {
    let mut mapper = table(0);
    let at = VirtAddr::new(0x201008);
    assert_eq!(mapper.read_word(at), None);
    assert!(!mapper.write_word(at, 7));
}

#[test]
fn word_access_fails_outside_the_memory() {
    let mut mapper = table(0);
    let mut frames = allocator(0x1000, 0x3000);
    let page = example_page();
    assert_eq!(mapper.map_page(page, frame(0xb8000), PageTableFlags::new(true), &mut frames), Ok(()));
    assert_eq!(mapper.read_word(page.start_address()), None);
    assert!(!mapper.write_word(page.start_address(), 1));
}

#[test]
fn exhausted_allocator_fails_the_mapping() {
    let mut mapper = table(0);
    let mut frames = allocator(0x1000, 0x2000);
    let r = mapper.map_page(example_page(), frame(0x7000), PageTableFlags::new(true), &mut frames);
    assert_eq!(r, Err(MapError::FrameAllocationFailed));
    assert!(mapper.translate(example_page().start_address()).is_none());
    let mut none = BootInfoFrameAllocator::init(Vec::new());
    let mut other = table(0);
    let r = other.map_page(example_page(), frame(0x7000), PageTableFlags::new(true), &mut none);
    assert_eq!(r, Err(MapError::FrameAllocationFailed));
}

#[test]
fn huge_parent_entry_fails_the_mapping() {
    let mut mapper = table(0);
    let mut frames = allocator(0x1000, 0x3000);
    assert!(mapper.write_entry(0, 0x1b, PageTableEntry { raw: 0x4000 | 0x80 | 1 }));
    let r = mapper.map_page(example_page(), frame(0x7000), PageTableFlags::new(true), &mut frames);
    assert_eq!(r, Err(MapError::ParentEntryHugePage));
    assert!(mapper.translate(example_page().start_address()).is_none());
}

#[test]
fn table_outside_memory_fails_the_mapping() {
    let mut mapper = table(0);
    let mut frames = allocator(0x100000, 0x3000);
    let r = mapper.map_page(example_page(), frame(0x7000), PageTableFlags::new(true), &mut frames);
    assert_eq!(r, Err(MapError::TableOutsideMemory));
    let mut far = table(0x100000);
    let mut near = allocator(0x1000, 0x3000);
    let r = far.map_page(example_page(), frame(0x7000), PageTableFlags::new(true), &mut near);
    assert_eq!(r, Err(MapError::TableOutsideMemory));
    assert!(far.translate(example_page().start_address()).is_none());
}

#[test]
fn unused_entry_at_each_level_is_unmapped() {
    let address = VirtAddr::new(0xdeadbeaf123);
    for cut in 0..4 {
        let mut mapper = table(0);
        let mut frames = allocator(0x1000, 0x3000);
        assert_eq!(mapper.map_page(example_page(), frame(0x7000), PageTableFlags::new(true), &mut frames), Ok(()));
        assert_eq!(mapper.translate(address).expect("mapped").as_u64(), 0x7123);
        let (at, index) = [(0u64, 0x1busize), (0x1000, 0x1ab), (0x2000, 0xdf), (0x3000, 0xaf)][cut];
        assert!(mapper.write_entry(at, index, PageTableEntry { raw: 0 }));
        assert!(mapper.translate(address).is_none());
    }
}

#[test]
fn entry_without_present_bit_is_unused() {
    let mut mapper = table(0);
    let mut frames = allocator(0x1000, 0x3000);
    assert_eq!(mapper.map_page(example_page(), frame(0x7000), PageTableFlags::new(true), &mut frames), Ok(()));
    assert!(mapper.write_entry(0x3000, 0xaf, PageTableEntry { raw: 0x7000 | 2 }));
    assert!(mapper.translate(example_page().start_address()).is_none());
}

#[test]
fn huge_entry_above_level_one_is_not_followed() {
    let mut mapper = table(0);
    let mut frames = allocator(0x1000, 0x3000);
    assert_eq!(mapper.map_page(example_page(), frame(0x7000), PageTableFlags::new(true), &mut frames), Ok(()));
    assert!(mapper.write_entry(0x2000, 0xdf, PageTableEntry { raw: 0x3000 | 0x80 | 3 }));
    assert!(mapper.translate(example_page().start_address()).is_none());
}

#[test]
fn entry_packs_frame_and_flags() {
    let e = PageTableEntry::new(frame(0xb8000), PageTableFlags::new(true));
    assert_eq!(e.raw, 0xb8003);
    assert_eq!(e.addr(), 0xb8000);
    assert_eq!(e.flags(), 3);
    assert!(!e.is_unused());
    assert!(!e.is_huge());
    let f = PageTableEntry::new(frame(0x1000), PageTableFlags::from_bits(0x80).expect("flags"));
    assert_eq!(f.raw, 0x1081);
    assert!(f.is_huge());
    assert!(PageTableEntry { raw: 0 }.is_unused());
    assert!(PageTableFlags::from_bits(0x1000).is_none());
    assert_eq!(PageTableFlags::new(false).bits(), 1);
}

#[test]
fn entry_address_ignores_bits_above_51() {
    let e = PageTableEntry { raw: 0x8000_0000_000b_8fff };
    assert_eq!(e.addr(), 0xb8000);
    assert_eq!(e.flags(), 0xfff);
}

#[test]
fn physical_memory_is_reached_at_the_offset() {
    let mapper = table(0);
    let p = PhysAddr::try_new(0xb8000).expect("physical");
    assert_eq!(mapper.phys_to_virt(p).expect("canonical").as_u64(), 0xffff_8000_000b_8000);
    let low = OffsetPageTable::init(VirtAddr::new(0x7fff_ffff_f000), frame(0), Vec::new());
    // the sum has bit 47 set and clear bits above: it is sign-extended
    assert_eq!(low.phys_to_virt(PhysAddr::try_new(0x1000).expect("physical")).expect("normalized").as_u64(),
        0xffff_8000_0000_0000);
    let wrap = OffsetPageTable::init(VirtAddr::new(u64::MAX), frame(0), Vec::new());
    assert!(wrap.phys_to_virt(PhysAddr::try_new(1).expect("physical")).is_none());
}

#[test]
fn read_entry_wants_a_table_inside_the_memory() {
    let mapper = table(0);
    assert!(mapper.read_entry(0x7000, 511).is_some());
    assert!(mapper.read_entry(0x8000, 0).is_none());
    assert!(mapper.read_entry(0x1008, 0).is_none());
}
