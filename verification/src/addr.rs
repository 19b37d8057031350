//! Virtual and physical addresses, pages and frames.

use vstd::prelude::*;

verus! {

/// Size in bytes of a page and of a frame.
pub const PAGE_SIZE: u64 = 4096;

/// One past the largest physical address: physical addresses have 52 bits.
pub const PHYS_LIMIT: u64 = 0x10_0000_0000_0000;

/// Bits 48 to 63, all set.
pub const SIGN_EXTENSION: u64 = 0xffff_0000_0000_0000;

/// Bits 47 to 63 of a raw address, as a number.
pub open spec fn high_bits(raw: u64) -> int {
    raw as int / 0x8000_0000_0000
}

/// A raw value is canonical when bits 48 to 63 all equal bit 47.
pub open spec fn is_canonical(raw: u64) -> bool {
    high_bits(raw) == 0 || high_bits(raw) == 0x1ffff
}

/// The one policy by which a raw value becomes a virtual address: a canonical
/// value is taken as it is; a value whose bits 48 to 63 are clear while bit 47
/// is set is sign-extended; every other value is rejected.
pub open spec fn canonical_form(raw: u64) -> Option<u64> {
    if is_canonical(raw) {
        Some(raw)
    } else if high_bits(raw) == 1 {
        Some((raw + SIGN_EXTENSION) as u64)
    } else {
        None
    }
}

/// Whether a raw value fits in the 52 bits of a physical address.
pub open spec fn is_physical(raw: u64) -> bool {
    raw < PHYS_LIMIT
}

/// Calls `x86_64::VirtAddr::try_new` and hands back the address as a number.
/// The contract repeats the three arms of that function: bits 47 to 63 all
/// clear or all set keep the value, the pattern `1` is sign-extended, and
/// anything else is an error.
#[verifier::external_body]
fn checked_virtual(raw: u64) -> (r: Option<u64>)
    ensures
        r == canonical_form(raw),
{
    match x86_64::VirtAddr::try_new(raw) {
        Ok(a) => Some(a.as_u64()),
        Err(_) => None,
    }
}

/// Calls `x86_64::PhysAddr::try_new` and hands back the address as a number.
/// That function succeeds, with the value unchanged, exactly when bits 52 to
/// 63 are clear.
#[verifier::external_body]
fn checked_physical(raw: u64) -> (r: Option<u64>)
    ensures
        r == (if is_physical(raw) { Some(raw) } else { None::<u64> }),
{
    match x86_64::PhysAddr::try_new(raw) {
        Ok(a) => Some(a.as_u64()),
        Err(_) => None,
    }
}

/// A canonical 64-bit virtual address.
#[derive(Clone, Copy, Debug, PartialEq, Eq)]
pub struct VirtAddr {
    raw: u64,
}

impl VirtAddr {
    /// The address as a number.
    pub closed spec fn view(self) -> u64 {
        self.raw
    }

    /// Every value built by this module is canonical.
    pub open spec fn wf(self) -> bool {
        is_canonical(self@)
    }

    /// Builds a virtual address by the policy of `canonical_form`.
    pub fn try_new(raw: u64) -> (r: Option<VirtAddr>)
        ensures
            match canonical_form(raw) {
                Some(v) => r.is_some() && r.unwrap()@ == v && r.unwrap().wf(),
                None => r.is_none(),
            },
    {
        proof {
            lemma_canonical_form_is_canonical(raw);
        }
        match checked_virtual(raw) {
            Some(v) => Some(VirtAddr { raw: v }),
            None => None,
        }
    }

    /// Builds a virtual address from a value that the policy accepts.
    pub fn new(raw: u64) -> (r: VirtAddr)
        requires
            canonical_form(raw).is_some(),
        ensures
            r@ == canonical_form(raw).unwrap(),
            r.wf(),
    {
        proof {
            lemma_canonical_form_is_canonical(raw);
        }
        match checked_virtual(raw) {
            Some(v) => VirtAddr { raw: v },
            None => VirtAddr { raw: 0 },
        }
    }

    pub fn as_u64(self) -> (r: u64)
        ensures
            r == self@,
    {
        self.raw
    }

    /// The low 12 bits: the offset inside the page.
    pub fn page_offset(self) -> (r: u64)
        ensures
            r == page_offset(self@),
    {
        self.raw % PAGE_SIZE
    }

    /// The index into the table of the given level (4 is the root, 1 the last).
    pub fn table_index(self, level: u8) -> (r: usize)
        requires
            1 <= level <= 4,
        ensures
            r == table_index(self@, level as int),
            r < 512,
    {
        if level == 4 {
            ((self.raw / 0x80_0000_0000) % 512) as usize
        } else if level == 3 {
            ((self.raw / 0x4000_0000) % 512) as usize
        } else if level == 2 {
            ((self.raw / 0x20_0000) % 512) as usize
        } else {
            ((self.raw / 0x1000) % 512) as usize
        }
    }
}

/// The low 12 bits of an address.
pub open spec fn page_offset(raw: u64) -> int {
    raw as int % 4096
}

/// The 9-bit field of a virtual address that selects the entry at a level:
/// bits 39 to 47 at level 4, then 30 to 38, 21 to 29, and 12 to 20 at level 1.
pub open spec fn table_index(raw: u64, level: int) -> int {
    if level == 4 {
        (raw as int / 0x80_0000_0000) % 512
    } else if level == 3 {
        (raw as int / 0x4000_0000) % 512
    } else if level == 2 {
        (raw as int / 0x20_0000) % 512
    } else {
        (raw as int / 0x1000) % 512
    }
}

/// The start of the page or frame that holds an address.
pub open spec fn align_down(raw: u64) -> int {
    raw as int - raw as int % 4096
}

/// What the policy accepts, it turns into a canonical value; what is canonical
/// already, it keeps; what it rejects is not canonical.
pub proof fn lemma_canonical_form_is_canonical(raw: u64)
    ensures
        canonical_form(raw).is_some() ==> is_canonical(canonical_form(raw).unwrap()),
        is_canonical(raw) ==> canonical_form(raw) == Some(raw),
        canonical_form(raw).is_none() ==> !is_canonical(raw),
{
}

/// A physical address: a value of at most 52 bits.
#[derive(Clone, Copy, Debug, PartialEq, Eq)]
pub struct PhysAddr {
    raw: u64,
}

impl PhysAddr {
    pub closed spec fn view(self) -> u64 {
        self.raw
    }

    pub open spec fn wf(self) -> bool {
        is_physical(self@)
    }

    /// Builds a physical address; a value with any of bits 52 to 63 set is
    /// rejected.
    pub fn try_new(raw: u64) -> (r: Option<PhysAddr>)
        ensures
            is_physical(raw) ==> r.is_some() && r.unwrap()@ == raw && r.unwrap().wf(),
            !is_physical(raw) ==> r.is_none(),
    {
        match checked_physical(raw) {
            Some(v) => Some(PhysAddr { raw: v }),
            None => None,
        }
    }

    pub fn as_u64(self) -> (r: u64)
        ensures
            r == self@,
    {
        self.raw
    }
}

/// A 4 KiB page of virtual address space, named by its first address.
#[derive(Clone, Copy, Debug, PartialEq, Eq)]
pub struct Page {
    start: u64,
}

impl Page {
    /// The first address of the page.
    pub closed spec fn view(self) -> u64 {
        self.start
    }

    pub open spec fn wf(self) -> bool {
        self@ % 4096 == 0 && is_canonical(self@)
    }

    /// The page that holds the address.
    pub fn containing_address(address: VirtAddr) -> (r: Page)
        requires
            address.wf(),
        ensures
            r@ == align_down(address@),
            r.wf(),
    {
        let raw: u64 = address.as_u64();
        Page { start: raw - raw % PAGE_SIZE }
    }

    pub fn start_address(self) -> (r: VirtAddr)
        requires
            self.wf(),
        ensures
            r@ == self@,
            r.wf(),
    {
        VirtAddr { raw: self.start }
    }
}

/// A 4 KiB frame of physical memory, named by its first address.
#[derive(Clone, Copy, Debug, PartialEq, Eq)]
pub struct PhysFrame {
    start: u64,
}

impl PhysFrame {
    /// The first address of the frame.
    pub closed spec fn view(self) -> u64 {
        self.start
    }

    pub open spec fn wf(self) -> bool {
        self@ % 4096 == 0 && is_physical(self@)
    }

    /// The frame that holds the address.
    pub fn containing_address(address: PhysAddr) -> (r: PhysFrame)
        requires
            address.wf(),
        ensures
            r@ == align_down(address@),
            r.wf(),
    {
        let raw: u64 = address.as_u64();
        PhysFrame { start: raw - raw % PAGE_SIZE }
    }

    /// The frame that starts at an address, if the address is aligned and
    /// physical.
    pub fn from_start_address(raw: u64) -> (r: Option<PhysFrame>)
        ensures
            r.is_some() <==> raw % 4096 == 0 && is_physical(raw),
            r.is_some() ==> r.unwrap()@ == raw && r.unwrap().wf(),
    {
        if raw % PAGE_SIZE == 0 && raw < PHYS_LIMIT {
            Some(PhysFrame { start: raw })
        } else {
            None
        }
    }

    pub fn start_address(self) -> (r: PhysAddr)
        requires
            self.wf(),
        ensures
            r@ == self@,
            r.wf(),
    {
        PhysAddr { raw: self.start }
    }
}

} // verus!
