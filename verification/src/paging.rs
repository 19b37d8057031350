//! Four-level page tables over a model of physical memory: translation of a
//! virtual address, and the creation of a new mapping.
//!
//! Physical memory is a sequence of 64-bit words, the word `i` standing at
//! physical address `8 * i`. A page table is a frame of 512 such words. An
//! entry keeps its flags in bits 0 to 11 and a frame address in bits 12 to 51.
//! An entry whose present bit is clear is unused, whatever its other bits.

use vstd::prelude::*;
use crate::addr::{page_offset, table_index, Page, PhysAddr, PhysFrame, VirtAddr, PAGE_SIZE, PHYS_LIMIT, align_down};
use crate::frame_allocator::{candidates, lemma_candidate_origin, BootInfoFrameAllocator, MemoryRegion};

verus! {

/// Entries in a page table.
pub const ENTRY_COUNT: usize = 512;

/// Flag bit 0: the entry is in use.
pub const PRESENT: u64 = 1;

/// Flag bit 1: writes through the entry are allowed.
pub const WRITABLE: u64 = 2;

/// Flag bit 7: the entry maps a huge page instead of naming a table.
pub const HUGE_PAGE: u64 = 128;

/// Flags of an entry that links a parent table to a child: present, writable.
pub const LINK_FLAGS: u64 = 3;

pub open spec fn entry_present(raw: u64) -> bool {
    raw as int % 2 == 1
}

pub open spec fn entry_huge(raw: u64) -> bool {
    (raw as int / 128) % 2 == 1
}

/// The frame address in bits 12 to 51 of an entry.
pub open spec fn entry_addr(raw: u64) -> int {
    (raw as int % 0x10_0000_0000_0000) / 4096 * 4096
}

/// The flags in bits 0 to 11 of an entry.
pub open spec fn entry_flags(raw: u64) -> int {
    raw as int % 4096
}

/// Flags of a page-table entry: a value of 12 bits.
#[derive(Clone, Copy, Debug, PartialEq, Eq)]
pub struct PageTableFlags {
    bits: u64,
}

impl PageTableFlags {
    pub closed spec fn view(self) -> u64 {
        self.bits
    }

    pub open spec fn wf(self) -> bool {
        self@ < 4096
    }

    /// The flags of a present entry, writable or not.
    pub fn new(writable: bool) -> (r: PageTableFlags)
        ensures
            r@ == if writable { 3u64 } else { 1u64 },
            r.wf(),
    {
        PageTableFlags { bits: if writable { PRESENT + WRITABLE } else { PRESENT } }
    }

    /// Flags from their bits; bits above the low 12 are rejected.
    pub fn from_bits(bits: u64) -> (r: Option<PageTableFlags>)
        ensures
            r.is_some() <==> bits < 4096,
            r.is_some() ==> r.unwrap()@ == bits && r.unwrap().wf(),
    {
        if bits < PAGE_SIZE {
            Some(PageTableFlags { bits })
        } else {
            None
        }
    }

    pub fn bits(self) -> (r: u64)
        ensures
            r == self@,
    {
        self.bits
    }
}

/// The flags with the present bit set.
pub open spec fn with_present(flags: u64) -> int {
    flags as int - flags as int % 2 + 1
}

/// One entry of a page table.
#[derive(Clone, Copy, Debug, PartialEq, Eq)]
pub struct PageTableEntry {
    pub raw: u64,
}

impl PageTableEntry {
    /// An entry that names `frame` with `flags` and is present.
    pub fn new(frame: PhysFrame, flags: PageTableFlags) -> (r: PageTableEntry)
        requires
            frame.wf(),
            flags.wf(),
        ensures
            r.raw == frame@ + with_present(flags@),
            entry_present(r.raw),
            entry_addr(r.raw) == frame@,
            entry_flags(r.raw) == with_present(flags@),
    {
        let bits: u64 = flags.bits();
        let start: u64 = frame.start_address().as_u64();
        PageTableEntry { raw: start + (bits - bits % 2 + 1) }
    }

    pub fn is_unused(&self) -> (r: bool)
        ensures
            r == !entry_present(self.raw),
    {
        self.raw % 2 == 0
    }

    pub fn is_huge(&self) -> (r: bool)
        ensures
            r == entry_huge(self.raw),
    {
        (self.raw / HUGE_PAGE) % 2 == 1
    }

    /// The address of the frame or table that the entry names.
    pub fn addr(&self) -> (r: u64)
        ensures
            r == entry_addr(self.raw),
            r % 4096 == 0,
            r + 4096 <= PHYS_LIMIT,
    {
        (self.raw % PHYS_LIMIT) / PAGE_SIZE * PAGE_SIZE
    }

    pub fn flags(&self) -> (r: u64)
        ensures
            r == entry_flags(self.raw),
    {
        self.raw % PAGE_SIZE
    }
}

/// Why a mapping could not be made.
#[derive(Clone, Copy, Debug, PartialEq, Eq)]
pub enum MapError {
    /// An intermediate table was missing and the allocator had no frame left.
    FrameAllocationFailed,
    /// An intermediate entry maps a huge page.
    ParentEntryHugePage,
    /// A table of the walk does not lie inside the memory at hand.
    TableOutsideMemory,
}

/// Whether the frame at `table` lies whole inside the memory.
pub open spec fn table_in_memory(mem: Seq<u64>, table: int) -> bool {
    0 <= table && table % 4096 == 0 && table / 8 + 512 <= mem.len()
}

/// The word that holds entry `index` of the table at `table`.
pub open spec fn slot(table: int, index: int) -> int {
    table / 8 + index
}

/// Where the entry `index` of the table at `table` leads: nowhere if the
/// table is outside the memory, if the entry is unused, or if it is a
/// huge-page entry above the last level.
pub open spec fn follow(mem: Seq<u64>, table: int, index: int, leaf: bool) -> Option<int> {
    if !table_in_memory(mem, table) {
        None
    } else {
        let e = mem[slot(table, index)];
        if !entry_present(e) || (!leaf && entry_huge(e)) {
            None
        } else {
            Some(entry_addr(e))
        }
    }
}

/// The physical address that a virtual address resolves to through the
/// hierarchy rooted at `root`: levels 4 to 1 are followed by the four index
/// fields of the address, and the low 12 bits are kept.
pub open spec fn resolve(mem: Seq<u64>, root: int, va: u64) -> Option<int> {
    match follow(mem, root, table_index(va, 4), false) {
        None => None,
        Some(t3) => match follow(mem, t3, table_index(va, 3), false) {
            None => None,
            Some(t2) => match follow(mem, t2, table_index(va, 2), false) {
                None => None,
                Some(t1) => match follow(mem, t1, table_index(va, 1), true) {
                    None => None,
                    Some(frame) => Some(frame + page_offset(va)),
                },
            },
        },
    }
}

/// The index of the word that a virtual address reaches, if the address is
/// mapped and the word lies inside the memory.
pub open spec fn word_index(mem: Seq<u64>, root: int, va: u64) -> Option<int> {
    match resolve(mem, root, va) {
        Some(p) if p / 8 < mem.len() => Some(p / 8),
        _ => None,
    }
}

/// The memory with the frame at `frame` filled with zeros.
pub open spec fn zeroed(mem: Seq<u64>, frame: int) -> Seq<u64> {
    Seq::new(mem.len(), |i: int| if frame / 8 <= i < frame / 8 + 512 { 0u64 } else { mem[i] })
}

/// The state after one level of a mapping walk.
pub struct Descent {
    /// The memory after the step.
    pub mem: Seq<u64>,
    /// How many frames the allocator has handed out after the step.
    pub issued: nat,
    /// The table of the next level, or why the walk ends here.
    pub next: Result<int, MapError>,
}

/// One level of a mapping walk. A present entry leads to its table, unless it
/// maps a huge page. An unused entry takes the allocator's next frame, which
/// is zeroed and then linked from the entry as present and writable.
pub open spec fn descent(mem: Seq<u64>, table: int, index: int, frames: Seq<int>, issued: nat) -> Descent {
    if !table_in_memory(mem, table) {
        Descent { mem, issued, next: Err(MapError::TableOutsideMemory) }
    } else if entry_present(mem[slot(table, index)]) {
        if entry_huge(mem[slot(table, index)]) {
            Descent { mem, issued, next: Err(MapError::ParentEntryHugePage) }
        } else {
            Descent { mem, issued, next: Ok(entry_addr(mem[slot(table, index)])) }
        }
    } else if issued >= frames.len() {
        Descent { mem, issued, next: Err(MapError::FrameAllocationFailed) }
    } else if !table_in_memory(mem, frames[issued as int]) {
        Descent { mem, issued: issued + 1, next: Err(MapError::TableOutsideMemory) }
    } else {
        Descent {
            mem: zeroed(mem, frames[issued as int]).update(
                slot(table, index),
                (frames[issued as int] + 3) as u64,
            ),
            issued: issued + 1,
            next: Ok(frames[issued as int]),
        }
    }
}

/// A whole mapping walk for the address `va`: three levels of `descent` from
/// the root, then the entry `entry` written into the level-1 table. On
/// success `next` holds the level-1 table.
pub open spec fn map_outcome(
    mem: Seq<u64>,
    root: int,
    va: u64,
    entry: u64,
    frames: Seq<int>,
    issued: nat,
) -> Descent {
    let d4 = descent(mem, root, table_index(va, 4), frames, issued);
    match d4.next {
        Err(_) => d4,
        Ok(t3) => {
            let d3 = descent(d4.mem, t3, table_index(va, 3), frames, d4.issued);
            match d3.next {
                Err(_) => d3,
                Ok(t2) => {
                    let d2 = descent(d3.mem, t2, table_index(va, 2), frames, d3.issued);
                    match d2.next {
                        Err(_) => d2,
                        Ok(t1) => if table_in_memory(d2.mem, t1) {
                            Descent {
                                mem: d2.mem.update(slot(t1, table_index(va, 1)), entry),
                                issued: d2.issued,
                                next: Ok(t1),
                            }
                        } else {
                            Descent {
                                mem: d2.mem,
                                issued: d2.issued,
                                next: Err(MapError::TableOutsideMemory),
                            }
                        },
                    }
                },
            }
        },
    }
}

/// The tables that a successful mapping walk visits: the root, then the
/// tables of levels 3, 2 and 1.
pub open spec fn walk_tables(mem: Seq<u64>, root: int, va: u64, frames: Seq<int>, issued: nat) -> Seq<
    int,
> {
    let d4 = descent(mem, root, table_index(va, 4), frames, issued);
    let d3 = descent(d4.mem, d4.next.unwrap(), table_index(va, 3), frames, d4.issued);
    let d2 = descent(d3.mem, d3.next.unwrap(), table_index(va, 2), frames, d3.issued);
    seq![root, d4.next.unwrap(), d3.next.unwrap(), d2.next.unwrap()]
}

/// No table of the walk stands at two of its levels.
pub open spec fn tables_distinct(tables: Seq<int>) -> bool {
    forall|a: int, b: int| 0 <= a < b < tables.len() ==> tables[a] != tables[b]
}

proof fn lemma_slots_apart(a: int, b: int, i: int, j: int)
    requires
        a % 4096 == 0,
        b % 4096 == 0,
        a != b,
        0 <= i < 512,
        0 <= j < 512,
    ensures
        slot(a, i) != slot(b, j),
        !(b / 8 <= slot(a, i) < b / 8 + 512),
{
}

proof fn lemma_link_entry(f: int, flags: int)
    requires
        f % 4096 == 0,
        0 <= f,
        f + 4096 <= PHYS_LIMIT,
        0 <= flags < 4096,
        flags % 2 == 1,
    ensures
        entry_present((f + flags) as u64),
        flags / 128 % 2 == 0 ==> !entry_huge((f + flags) as u64),
        entry_addr((f + flags) as u64) == f,
{
}

proof fn lemma_descent_links(
    mem: Seq<u64>,
    table: int,
    index: int,
    regions: Seq<MemoryRegion>,
    issued: nat,
)
    requires
        0 <= index < 512,
        descent(mem, table, index, candidates(regions), issued).next is Ok,
    ensures
        ({
            let d = descent(mem, table, index, candidates(regions), issued);
            &&& d.mem.len() == mem.len()
            &&& table_in_memory(mem, table)
            &&& d.next.unwrap() % 4096 == 0
            &&& follow(d.mem, table, index, false) == Some(d.next.unwrap())
        }),
{
    let frames = candidates(regions);
    if !entry_present(mem[slot(table, index)]) {
        let k = lemma_candidate_origin(regions, issued as int);
        lemma_link_entry(frames[issued as int], 3);
    }
}

proof fn lemma_descent_keeps(
    mem: Seq<u64>,
    table: int,
    index: int,
    regions: Seq<MemoryRegion>,
    issued: nat,
    other: int,
    j: int,
)
    requires
        0 <= index < 512,
        0 <= j < 512,
        descent(mem, table, index, candidates(regions), issued).next is Ok,
        table_in_memory(mem, other),
        other != table,
        other != descent(mem, table, index, candidates(regions), issued).next.unwrap(),
    ensures
        follow(descent(mem, table, index, candidates(regions), issued).mem, other, j, false)
            == follow(mem, other, j, false),
{
    let frames = candidates(regions);
    if !entry_present(mem[slot(table, index)]) {
        let k = lemma_candidate_origin(regions, issued as int);
        lemma_slots_apart(other, frames[issued as int], j, 0);
        lemma_slots_apart(other, table, j, index);
    }
}

proof fn lemma_write_keeps(mem: Seq<u64>, table: int, index: int, entry: u64, other: int, j: int)
    requires
        0 <= index < 512,
        0 <= j < 512,
        table_in_memory(mem, table),
        table_in_memory(mem, other),
        other != table,
    ensures
        follow(mem.update(slot(table, index), entry), other, j, false) == follow(
            mem,
            other,
            j,
            false,
        ),
{
    lemma_slots_apart(other, table, j, index);
}

proof fn lemma_write_leaf(mem: Seq<u64>, table: int, index: int, frame: u64, flags: u64)
    requires
        0 <= index < 512,
        table_in_memory(mem, table),
        frame % 4096 == 0,
        frame < PHYS_LIMIT,
        flags < 4096,
    ensures
        follow(
            mem.update(slot(table, index), (frame + with_present(flags)) as u64),
            table,
            index,
            true,
        ) == Some(frame as int),
{
    lemma_link_entry(frame as int, with_present(flags));
}

proof fn lemma_aligned_div(va: int, m: int)
    requires
        0 <= va,
        0 < m,
    ensures
        (va - va % 4096) / (4096 * m) == va / (4096 * m),
{
    vstd::arithmetic::div_mod::lemma_div_denominator(va, 4096, m);
    vstd::arithmetic::div_mod::lemma_div_denominator(va - va % 4096, 4096, m);
    assert((va - va % 4096) / 4096 == va / 4096);
}

/// An address and the start of its page select the same entry at each level.
pub proof fn lemma_page_indices(va: u64)
    ensures
        table_index(align_down(va) as u64, 4) == table_index(va, 4),
        table_index(align_down(va) as u64, 3) == table_index(va, 3),
        table_index(align_down(va) as u64, 2) == table_index(va, 2),
        table_index(align_down(va) as u64, 1) == table_index(va, 1),
{
    lemma_aligned_div(va as int, 0x800_0000);
    lemma_aligned_div(va as int, 0x4_0000);
    lemma_aligned_div(va as int, 512);
    lemma_aligned_div(va as int, 1);
}

/// After a page has been mapped to a frame, every address of the page
/// translates to the same offset in the frame, provided that the walk met
/// four different tables: that no table serves at two levels, and that the
/// allocator handed out no frame that the walk already used as a table.
pub proof fn lemma_translate_after_map(
    mem: Seq<u64>,
    root: u64,
    va: u64,
    frame: u64,
    flags: u64,
    regions: Seq<MemoryRegion>,
    issued: nat,
)
    requires
        root % 4096 == 0,
        frame % 4096 == 0,
        frame < PHYS_LIMIT,
        flags < 4096,
        map_outcome(
            mem,
            root as int,
            align_down(va) as u64,
            (frame + with_present(flags)) as u64,
            candidates(regions),
            issued,
        ).next is Ok,
        tables_distinct(
            walk_tables(mem, root as int, align_down(va) as u64, candidates(regions), issued),
        ),
    ensures
        resolve(
            map_outcome(
                mem,
                root as int,
                align_down(va) as u64,
                (frame + with_present(flags)) as u64,
                candidates(regions),
                issued,
            ).mem,
            root as int,
            va,
        ) == Some(frame + page_offset(va)),
{
    let frames = candidates(regions);
    let page = align_down(va) as u64;
    let entry = (frame + with_present(flags)) as u64;
    lemma_page_indices(va);
    let i4 = table_index(va, 4);
    let i3 = table_index(va, 3);
    let i2 = table_index(va, 2);
    let i1 = table_index(va, 1);
    let tables = walk_tables(mem, root as int, page, frames, issued);
    let d4 = descent(mem, root as int, i4, frames, issued);
    let t3 = d4.next.unwrap();
    let d3 = descent(d4.mem, t3, i3, frames, d4.issued);
    let t2 = d3.next.unwrap();
    let d2 = descent(d3.mem, t2, i2, frames, d3.issued);
    let t1 = d2.next.unwrap();
    let out = map_outcome(mem, root as int, page, entry, frames, issued);
    assert(tables[0] == root && tables[1] == t3 && tables[2] == t2 && tables[3] == t1);
    assert(out.mem == d2.mem.update(slot(t1, i1), entry));
    lemma_descent_links(mem, root as int, i4, regions, issued);
    lemma_descent_links(d4.mem, t3, i3, regions, d4.issued);
    lemma_descent_links(d3.mem, t2, i2, regions, d3.issued);
    lemma_descent_keeps(d4.mem, t3, i3, regions, d4.issued, root as int, i4);
    lemma_descent_keeps(d3.mem, t2, i2, regions, d3.issued, root as int, i4);
    lemma_descent_keeps(d3.mem, t2, i2, regions, d3.issued, t3, i3);
    lemma_write_keeps(d2.mem, t1, i1, entry, root as int, i4);
    lemma_write_keeps(d2.mem, t1, i1, entry, t3, i3);
    lemma_write_keeps(d2.mem, t1, i1, entry, t2, i2);
    lemma_write_leaf(d2.mem, t1, i1, frame, flags);
    assert(follow(out.mem, root as int, i4, false) == Some(t3));
    assert(follow(out.mem, t3, i3, false) == Some(t2));
    assert(follow(out.mem, t2, i2, false) == Some(t1));
    assert(follow(out.mem, t1, i1, true) == Some(frame as int));
}

/// A walk that meets an unused entry at any level resolves to nothing.
pub proof fn lemma_unused_entry_unmapped(mem: Seq<u64>, root: int, va: u64)
    ensures
        ({
            let e4 = mem[slot(root, table_index(va, 4))];
            let e3 = mem[slot(entry_addr(e4), table_index(va, 3))];
            let e2 = mem[slot(entry_addr(e3), table_index(va, 2))];
            let e1 = mem[slot(entry_addr(e2), table_index(va, 1))];
            !entry_present(e4) || !entry_present(e3) || !entry_present(e2) || !entry_present(e1)
                ==> resolve(mem, root, va).is_none()
        }),
{
}

/// A word written through a mapping is the word read back through it, as
/// long as the write did not change where the address leads.
pub proof fn lemma_read_after_write(mem: Seq<u64>, root: int, va: u64, value: u64)
    requires
        word_index(mem, root, va).is_some(),
        resolve(mem.update(word_index(mem, root, va).unwrap(), value), root, va) == resolve(
            mem,
            root,
            va,
        ),
    ensures
        ({
            let i = word_index(mem, root, va).unwrap();
            let after = mem.update(i, value);
            word_index(after, root, va) == Some(i) && after[i] == value
        }),
{
}

/// Whatever a walk resolves to keeps the low 12 bits of the address and is
/// a physical address.
pub proof fn lemma_resolve_keeps_offset(mem: Seq<u64>, root: int, va: u64)
    requires
        resolve(mem, root, va).is_some(),
    ensures
        resolve(mem, root, va).unwrap() % 4096 == page_offset(va),
        0 <= resolve(mem, root, va).unwrap() < PHYS_LIMIT,
{
}

/// A translator over the hierarchy rooted at one level-4 table.
pub struct OffsetPageTable {
    offset: u64,
    root: u64,
    memory: Vec<u64>,
}

impl OffsetPageTable {
    /// The words of physical memory.
    pub closed spec fn memory(self) -> Seq<u64> {
        self.memory@
    }

    /// The physical address of the level-4 table.
    pub closed spec fn root(self) -> int {
        self.root as int
    }

    /// The virtual address at which physical address 0 is reachable.
    pub closed spec fn offset(self) -> u64 {
        self.offset
    }

    /// A translator for the hierarchy at `root` in the given memory.
    pub fn init(offset: VirtAddr, root: PhysFrame, memory: Vec<u64>) -> (r: OffsetPageTable)
        requires
            root.wf(),
        ensures
            r.offset() == offset@,
            r.root() == root@,
            r.memory() == memory@,
    {
        OffsetPageTable {
            offset: offset.as_u64(),
            root: root.start_address().as_u64(),
            memory,
        }
    }

    /// The virtual address at which a physical address is reachable: the
    /// offset plus the address, if that sum is a canonical address.
    pub fn phys_to_virt(&self, address: PhysAddr) -> (r: Option<VirtAddr>)
        requires
            address.wf(),
        ensures
            r.is_some() <==> self.offset() + address@ <= u64::MAX && crate::addr::canonical_form(
                (self.offset() + address@) as u64,
            ).is_some(),
            r.is_some() ==> r.unwrap()@ == crate::addr::canonical_form(
                (self.offset() + address@) as u64,
            ).unwrap(),
    {
        let raw: u64 = address.as_u64();
        if raw > u64::MAX - self.offset {
            None
        } else {
            VirtAddr::try_new(self.offset + raw)
        }
    }

    fn table_base(&self, table: u64) -> (r: Option<usize>)
        ensures
            r.is_some() <==> table_in_memory(self.memory@, table as int),
            r.is_some() ==> r.unwrap() == table as int / 8 && r.unwrap() + 512
                <= self.memory@.len(),
    {
        let len: usize = self.memory.len();
        if table % PAGE_SIZE == 0 && len >= ENTRY_COUNT && table / 8 <= (len - ENTRY_COUNT) as u64 {
            Some((table / 8) as usize)
        } else {
            None
        }
    }

    /// Reads entry `index` of the table at `table`, if the table lies inside
    /// the memory.
    pub fn read_entry(&self, table: u64, index: usize) -> (r: Option<PageTableEntry>)
        requires
            index < 512,
        ensures
            r.is_some() <==> table_in_memory(self.memory(), table as int),
            r.is_some() ==> r.unwrap().raw == self.memory()[slot(table as int, index as int)],
    {
        match self.table_base(table) {
            Some(base) => Some(PageTableEntry { raw: self.memory[base + index] }),
            None => None,
        }
    }

    /// Writes entry `index` of the table at `table`, if the table lies inside
    /// the memory; says whether it did.
    pub fn write_entry(&mut self, table: u64, index: usize, entry: PageTableEntry) -> (r: bool)
        requires
            index < 512,
        ensures
            r == table_in_memory(old(self).memory(), table as int),
            final(self).root() == old(self).root(),
            final(self).offset() == old(self).offset(),
            final(self).memory() == if r {
                old(self).memory().update(slot(table as int, index as int), entry.raw)
            } else {
                old(self).memory()
            },
    {
        match self.table_base(table) {
            Some(base) => {
                self.memory.set(base + index, entry.raw);
                true
            },
            None => false,
        }
    }

    fn follow_entry(&self, table: u64, index: usize, leaf: bool) -> (r: Option<u64>)
        requires
            index < 512,
        ensures
            match r {
                Some(t) => follow(self.memory@, table as int, index as int, leaf) == Some(t as int)
                    && t % 4096 == 0 && t + 4096 <= PHYS_LIMIT,
                None => follow(self.memory@, table as int, index as int, leaf).is_none(),
            },
    {
        match self.read_entry(table, index) {
            None => None,
            Some(entry) => {
                if entry.is_unused() || (!leaf && entry.is_huge()) {
                    None
                } else {
                    Some(entry.addr())
                }
            },
        }
    }

    /// Translates a virtual address: `None` where an entry of its walk is
    /// unused, is a huge-page entry above level 1, or names a table outside
    /// the memory.
    pub fn translate(&self, address: VirtAddr) -> (r: Option<PhysAddr>)
        ensures
            match resolve(self.memory(), self.root(), address@) {
                Some(p) => r.is_some() && r.unwrap()@ == p && r.unwrap().wf(),
                None => r.is_none(),
            },
    {
        let t3: u64 = match self.follow_entry(self.root, address.table_index(4), false) {
            Some(t) => t,
            None => { return None; },
        };
        let t2: u64 = match self.follow_entry(t3, address.table_index(3), false) {
            Some(t) => t,
            None => { return None; },
        };
        let t1: u64 = match self.follow_entry(t2, address.table_index(2), false) {
            Some(t) => t,
            None => { return None; },
        };
        let frame: u64 = match self.follow_entry(t1, address.table_index(1), true) {
            Some(t) => t,
            None => { return None; },
        };
        PhysAddr::try_new(frame + address.page_offset())
    }

    /// Reads the word that a virtual address reaches through its mapping.
    pub fn read_word(&self, address: VirtAddr) -> (r: Option<u64>)
        ensures
            match word_index(self.memory(), self.root(), address@) {
                Some(i) => r == Some(self.memory()[i]),
                None => r.is_none(),
            },
    {
        let len: usize = self.memory.len();
        match self.translate(address) {
            None => None,
            Some(p) => {
                let word: u64 = p.as_u64() / 8;
                if word < len as u64 {
                    Some(self.memory[word as usize])
                } else {
                    None
                }
            },
        }
    }

    /// Writes the word that a virtual address reaches through its mapping;
    /// says whether the address reached one.
    pub fn write_word(&mut self, address: VirtAddr, value: u64) -> (r: bool)
        ensures
            final(self).root() == old(self).root(),
            final(self).offset() == old(self).offset(),
            match word_index(old(self).memory(), old(self).root(), address@) {
                Some(i) => r && final(self).memory() == old(self).memory().update(i, value),
                None => !r && final(self).memory() == old(self).memory(),
            },
    {
        let len: usize = self.memory.len();
        match self.translate(address) {
            None => false,
            Some(p) => {
                let word: u64 = p.as_u64() / 8;
                if word < len as u64 {
                    self.memory.set(word as usize, value);
                    true
                } else {
                    false
                }
            },
        }
    }

    fn zero_frame(&mut self, frame: u64, base: usize)
        requires
            table_in_memory(old(self).memory@, frame as int),
            base == frame as int / 8,
        ensures
            final(self).memory@ == zeroed(old(self).memory@, frame as int),
            final(self).root == old(self).root,
            final(self).offset == old(self).offset,
    {
        let len: usize = self.memory.len();
        let mut i: usize = 0;
        while i < ENTRY_COUNT
            invariant
                i <= 512,
                base + 512 <= len,
                base == frame as int / 8,
                base + 512 <= self.memory@.len(),
                self.memory@.len() == old(self).memory@.len(),
                self.root == old(self).root,
                self.offset == old(self).offset,
                forall|k: int|
                    0 <= k < self.memory@.len() ==> self.memory@[k] == if base <= k < base + i {
                        0u64
                    } else {
                        old(self).memory@[k]
                    },
            decreases 512 - i,
        {
            self.memory.set(base + i, 0);
            i = i + 1;
        }
        assert(self.memory@ =~= zeroed(old(self).memory@, frame as int));
    }

    fn descend(&mut self, table: u64, index: usize, allocator: &mut BootInfoFrameAllocator) -> (r:
        Result<u64, MapError>)
        requires
            index < 512,
            old(allocator).wf(),
        ensures
            final(allocator).wf(),
            final(allocator).regions() == old(allocator).regions(),
            final(self).root == old(self).root,
            final(self).offset == old(self).offset,
            ({
                let step = descent(
                    old(self).memory@,
                    table as int,
                    index as int,
                    candidates(old(allocator).regions()),
                    old(allocator).issued(),
                );
                &&& final(self).memory@ == step.mem
                &&& final(allocator).issued() == step.issued
                &&& match r {
                    Ok(t) => step.next == Ok::<int, MapError>(t as int),
                    Err(e) => step.next == Err::<int, MapError>(e),
                }
            }),
    {
        let base: usize = match self.table_base(table) {
            Some(b) => b,
            None => { return Err(MapError::TableOutsideMemory); },
        };
        let entry: PageTableEntry = PageTableEntry { raw: self.memory[base + index] };
        if !entry.is_unused() {
            if entry.is_huge() {
                return Err(MapError::ParentEntryHugePage);
            }
            return Ok(entry.addr());
        }
        proof {
            allocator.lemma_issued_bounded();
        }
        let fresh: PhysFrame = match allocator.allocate_frame() {
            Some(f) => f,
            None => { return Err(MapError::FrameAllocationFailed); },
        };
        let start: u64 = fresh.start_address().as_u64();
        let fresh_base: usize = match self.table_base(start) {
            Some(b) => b,
            None => { return Err(MapError::TableOutsideMemory); },
        };
        self.zero_frame(start, fresh_base);
        self.memory.set(base + index, start + LINK_FLAGS);
        Ok(start)
    }

    /// Maps `page` to `frame`: walks levels 4 to 2, making each missing table
    /// from a fresh, zeroed frame of the allocator, and writes the level-1
    /// entry for the page, with the given flags and the present bit. What it
    /// leaves in memory, and what it takes from the allocator, is what
    /// `map_outcome` says, on success and on each error. After a success
    /// whose walk met four different tables, every address of the page
    /// translates into the frame.
    pub fn map_page(
        &mut self,
        page: Page,
        frame: PhysFrame,
        flags: PageTableFlags,
        allocator: &mut BootInfoFrameAllocator,
    ) -> (r: Result<(), MapError>)
        requires
            page.wf(),
            frame.wf(),
            flags.wf(),
            old(allocator).wf(),
        ensures
            final(allocator).wf(),
            final(allocator).regions() == old(allocator).regions(),
            final(self).root() == old(self).root(),
            final(self).offset() == old(self).offset(),
            ({
                let out = map_outcome(
                    old(self).memory(),
                    old(self).root(),
                    page@,
                    (frame@ + with_present(flags@)) as u64,
                    candidates(old(allocator).regions()),
                    old(allocator).issued(),
                );
                &&& final(self).memory() == out.mem
                &&& final(allocator).issued() == out.issued
                &&& match r {
                    Ok(_) => out.next is Ok,
                    Err(e) => out.next == Err::<int, MapError>(e),
                }
            }),
            r is Ok && tables_distinct(
                walk_tables(
                    old(self).memory(),
                    old(self).root(),
                    page@,
                    candidates(old(allocator).regions()),
                    old(allocator).issued(),
                ),
            ) ==> forall|va: u64|
                align_down(va) == page@ ==> #[trigger] resolve(
                    final(self).memory(),
                    final(self).root(),
                    va,
                ) == Some(frame@ + page_offset(va)),
    {
        let address: VirtAddr = page.start_address();
        let t3: u64 = match self.descend(self.root, address.table_index(4), allocator) {
            Ok(t) => t,
            Err(e) => { return Err(e); },
        };
        let t2: u64 = match self.descend(t3, address.table_index(3), allocator) {
            Ok(t) => t,
            Err(e) => { return Err(e); },
        };
        let t1: u64 = match self.descend(t2, address.table_index(2), allocator) {
            Ok(t) => t,
            Err(e) => { return Err(e); },
        };
        let entry: PageTableEntry = PageTableEntry::new(frame, flags);
        if self.write_entry(t1, address.table_index(1), entry) {
            proof {
                let mem = old(self).memory();
                let regions = old(allocator).regions();
                let issued = old(allocator).issued();
                if tables_distinct(
                    walk_tables(mem, self.root as int, page@, candidates(regions), issued),
                ) {
                    assert forall|va: u64| align_down(va) == page@ implies #[trigger] resolve(
                        self.memory(),
                        self.root(),
                        va,
                    ) == Some(frame@ + page_offset(va)) by {
                        lemma_translate_after_map(
                            mem,
                            self.root,
                            va,
                            frame@,
                            flags@,
                            regions,
                            issued,
                        );
                    }
                }
            }
            Ok(())
        } else {
            Err(MapError::TableOutsideMemory)
        }
    }
}

} // verus!
