//! A forward-only allocator of physical frames, fed by the boot memory map.

use vstd::prelude::*;
use crate::addr::{PhysFrame, PAGE_SIZE, PHYS_LIMIT};

verus! {

/// Whether the boot stage left a region free for the kernel.
#[derive(Clone, Copy, Debug, PartialEq, Eq)]
pub enum RegionKind {
    Usable,
    Reserved,
}

/// A contiguous range of physical memory: `len` bytes from `start`.
#[derive(Clone, Copy, Debug)]
pub struct MemoryRegion {
    pub start: u64,
    pub len: u64,
    pub kind: RegionKind,
}

impl MemoryRegion {
    /// One past the last byte of the region that physical addressing reaches.
    pub open spec fn end(self) -> int {
        if self.start + self.len <= PHYS_LIMIT {
            self.start + self.len
        } else {
            PHYS_LIMIT as int
        }
    }

    /// Number of the first frame that starts inside the region: the start,
    /// rounded up to a frame boundary.
    pub open spec fn first_frame(self) -> int {
        self.start as int / 4096 + if self.start as int % 4096 == 0 { 0int } else { 1int }
    }

    /// Number of the frame that holds the end: the end, rounded down.
    pub open spec fn end_frame(self) -> int {
        self.end() / 4096
    }

    /// How many whole frames a usable region holds; any other region holds
    /// none.
    pub open spec fn frame_count(self) -> nat {
        if self.kind is Usable && self.end_frame() > self.first_frame() {
            (self.end_frame() - self.first_frame()) as nat
        } else {
            0
        }
    }

    /// The start addresses of the region's frames, lowest first.
    pub open spec fn frames(self) -> Seq<int> {
        Seq::new(self.frame_count(), |i: int| (self.first_frame() + i) * 4096)
    }

    fn first_frame_number(&self) -> (r: u64)
        ensures
            r == self.first_frame(),
    {
        if self.start % PAGE_SIZE == 0 {
            self.start / PAGE_SIZE
        } else {
            self.start / PAGE_SIZE + 1
        }
    }

    /// How many frames the region offers.
    pub fn usable_frames(&self) -> (r: u64)
        ensures
            r == self.frame_count(),
    {
        let end: u64 = if self.start >= PHYS_LIMIT || self.len >= PHYS_LIMIT - self.start {
            PHYS_LIMIT
        } else {
            self.start + self.len
        };
        let first: u64 = self.first_frame_number();
        let last: u64 = end / PAGE_SIZE;
        match self.kind {
            RegionKind::Usable => if last > first { last - first } else { 0 },
            RegionKind::Reserved => 0,
        }
    }
}

/// Every frame that a memory map offers: the frames of its usable regions, in
/// the order of the map.
pub open spec fn candidates(regions: Seq<MemoryRegion>) -> Seq<int>
    decreases regions.len(),
{
    if regions.len() == 0 {
        Seq::empty()
    } else {
        candidates(regions.drop_last()) + regions.last().frames()
    }
}

/// The usable capacity of a memory map, in frames.
pub open spec fn usable_capacity(regions: Seq<MemoryRegion>) -> nat
    decreases regions.len(),
{
    if regions.len() == 0 {
        0
    } else {
        usable_capacity(regions.drop_last()) + regions.last().frame_count()
    }
}

/// No two regions of the map share a byte.
pub open spec fn non_overlapping(regions: Seq<MemoryRegion>) -> bool {
    forall|k: int, l: int|
        0 <= k < l < regions.len() ==> {
            ||| #[trigger] regions[k].start + regions[k].len <= (#[trigger] regions[l]).start
            ||| regions[l].start + regions[l].len <= regions[k].start
        }
}

proof fn lemma_take_step(regions: Seq<MemoryRegion>, k: int)
    requires
        0 <= k < regions.len(),
    ensures
        candidates(regions.take(k + 1)) == candidates(regions.take(k)) + regions[k].frames(),
{
    assert(regions.take(k + 1).drop_last() =~= regions.take(k));
}

proof fn lemma_prefix(regions: Seq<MemoryRegion>, k: int)
    requires
        0 <= k <= regions.len(),
    ensures
        candidates(regions.take(k)).len() <= candidates(regions).len(),
        forall|i: int|
            0 <= i < candidates(regions.take(k)).len() ==> candidates(regions)[i] == candidates(
                regions.take(k),
            )[i],
    decreases regions.len() - k,
{
    if k == regions.len() {
        assert(regions.take(k) =~= regions);
    } else {
        lemma_take_step(regions, k);
        lemma_prefix(regions, k + 1);
    }
}

/// The map offers as many frames as its usable capacity.
pub proof fn lemma_candidate_count(regions: Seq<MemoryRegion>)
    ensures
        candidates(regions).len() == usable_capacity(regions),
    decreases regions.len(),
{
    if regions.len() > 0 {
        lemma_candidate_count(regions.drop_last());
    }
}

/// Every frame that the map offers is page-aligned, is a physical address,
/// and lies whole inside one usable region of the map, whose index is the
/// result.
pub proof fn lemma_candidate_origin(regions: Seq<MemoryRegion>, i: int) -> (k: int)
    requires
        0 <= i < candidates(regions).len(),
    ensures
        0 <= k < regions.len(),
        regions[k].kind is Usable,
        regions[k].start <= candidates(regions)[i],
        candidates(regions)[i] + 4096 <= regions[k].start + regions[k].len,
        candidates(regions)[i] % 4096 == 0,
        candidates(regions)[i] + 4096 <= PHYS_LIMIT,
    decreases regions.len(),
{
    let rest = regions.drop_last();
    if i < candidates(rest).len() {
        lemma_candidate_origin(rest, i)
    } else {
        let r = regions.last();
        let j = i - candidates(rest).len();
        assert(candidates(regions)[i] == r.frames()[j]);
        assert(r.frames()[j] == (r.first_frame() + j) * 4096);
        regions.len() - 1
    }
}

/// Over a map whose regions do not overlap, no frame is offered twice.
pub proof fn lemma_candidates_distinct(regions: Seq<MemoryRegion>, i: int, j: int)
    requires
        non_overlapping(regions),
        0 <= i < j < candidates(regions).len(),
    ensures
        candidates(regions)[i] != candidates(regions)[j],
    decreases regions.len(),
{
    let rest = regions.drop_last();
    let split = candidates(rest).len() as int;
    if j < split {
        assert(non_overlapping(rest)) by {
            assert forall|k: int, l: int| 0 <= k < l < rest.len() implies {
                ||| #[trigger] rest[k].start + rest[k].len <= (#[trigger] rest[l]).start
                ||| rest[l].start + rest[l].len <= rest[k].start
            } by {
                assert(rest[k] == regions[k] && rest[l] == regions[l]);
            }
        }
        lemma_candidates_distinct(rest, i, j);
    } else if i >= split {
        let r = regions.last();
        assert(candidates(regions)[i] == r.frames()[i - split]);
        assert(candidates(regions)[j] == r.frames()[j - split]);
    } else {
        let k = lemma_candidate_origin(rest, i);
        let l = lemma_candidate_origin(regions, j);
        let r = regions.last();
        assert(candidates(regions)[j] == r.frames()[j - split]);
        assert(candidates(regions)[i] == candidates(rest)[i]);
        assert(rest[k] == regions[k]);
        let m = regions.len() - 1;
        assert(regions[k].start + regions[k].len <= regions[m].start || regions[m].start
            + regions[m].len <= regions[k].start);
        assert(regions[m].start <= r.first_frame() * 4096);
        assert(r.frames()[j - split] == (r.first_frame() + (j - split)) * 4096);
        assert(r.end_frame() * 4096 <= regions[m].start + regions[m].len);
    }
}

/// Hands out the frames of a memory map one at a time, each once, in the
/// order of `candidates`. Nothing is ever given back to it.
pub struct BootInfoFrameAllocator {
    regions: Vec<MemoryRegion>,
    region: usize,
    taken: u64,
}

impl BootInfoFrameAllocator {
    /// The memory map that the allocator draws from.
    pub closed spec fn regions(self) -> Seq<MemoryRegion> {
        self.regions@
    }

    /// How many frames the allocator has handed out.
    pub closed spec fn issued(self) -> nat {
        (candidates(self.regions@.take(self.region as int)).len() + self.taken) as nat
    }

    /// The cursor stands inside the map.
    pub closed spec fn wf(self) -> bool {
        &&& self.region <= self.regions.len()
        &&& self.region < self.regions.len() ==> self.taken
            <= self.regions[self.region as int].frame_count()
        &&& self.region == self.regions.len() ==> self.taken == 0
    }

    /// A well-formed allocator has never handed out more than the map offers.
    pub proof fn lemma_issued_bounded(self)
        requires
            self.wf(),
        ensures
            self.issued() <= candidates(self.regions()).len(),
    {
        if self.region < self.regions.len() {
            lemma_take_step(self.regions@, self.region as int);
            lemma_prefix(self.regions@, self.region as int + 1);
        } else {
            lemma_prefix(self.regions@, self.region as int);
        }
    }

    /// An allocator over the given memory map that has handed out nothing.
    pub fn init(regions: Vec<MemoryRegion>) -> (r: BootInfoFrameAllocator)
        ensures
            r.wf(),
            r.regions() == regions@,
            r.issued() == 0,
    {
        let r = BootInfoFrameAllocator { regions, region: 0, taken: 0 };
        proof {
            assert(r.regions@.take(0) =~= Seq::empty());
            if r.regions.len() == 0 {
            }
        }
        r
    }

    /// Hands out the next frame of the map, or `None` once every frame has
    /// been handed out.
    pub fn allocate_frame(&mut self) -> (r: Option<PhysFrame>)
        requires
            old(self).wf(),
        ensures
            final(self).wf(),
            final(self).regions() == old(self).regions(),
            match r {
                Some(frame) => {
                    &&& old(self).issued() < candidates(old(self).regions()).len()
                    &&& frame@ == candidates(old(self).regions())[old(self).issued() as int]
                    &&& frame.wf()
                    &&& final(self).issued() == old(self).issued() + 1
                },
                None => {
                    &&& old(self).issued() == candidates(old(self).regions()).len()
                    &&& final(self).issued() == old(self).issued()
                },
            },
    {
        while self.region < self.regions.len()
            invariant
                self.wf(),
                self.regions@ == old(self).regions@,
                self.issued() == old(self).issued(),
            decreases self.regions.len() - self.region,
        {
            let region: MemoryRegion = self.regions[self.region];
            let count: u64 = region.usable_frames();
            proof {
                lemma_take_step(self.regions@, self.region as int);
                lemma_prefix(self.regions@, self.region as int + 1);
            }
            if self.taken < count {
                let first: u64 = region.first_frame_number();
                let address: u64 = (first + self.taken) * PAGE_SIZE;
                proof {
                    let before = candidates(self.regions@.take(self.region as int));
                    let upto = candidates(self.regions@.take(self.region as int + 1));
                    assert(upto[before.len() + self.taken] == region.frames()[self.taken as int]);
                }
                self.taken = self.taken + 1;
                return PhysFrame::from_start_address(address);
            }
            self.region = self.region + 1;
            self.taken = 0;
        }
        proof {
            assert(self.regions@.take(self.region as int) =~= self.regions@);
        }
        None
    }
}

} // verus!
