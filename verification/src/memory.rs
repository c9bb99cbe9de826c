use vstd::prelude::*;

verus! {

/// Size of one page.
pub const PAGE_SIZE: usize = 4096;

/// Virtual address of the `.swap` frame, the highest page of every address space.
pub const SWAP_FRAME_VA: usize = usize::MAX - PAGE_SIZE + 1;

/// Context-save page of the user program with address space `asid`.
pub open spec fn spec_swap_contex_va(asid: usize) -> int {
    SWAP_FRAME_VA - PAGE_SIZE * asid
}

/// The address at which the swap context of address space `asid` is saved:
/// one page per address space, counted downwards from the swap frame.
pub fn swap_contex_va(asid: usize) -> (va: usize)
    requires
        PAGE_SIZE * asid <= SWAP_FRAME_VA,
    ensures
        va == spec_swap_contex_va(asid),
{
    SWAP_FRAME_VA - PAGE_SIZE * asid
}

/// The swap context pages count down one page per address space from the
/// swap frame: the kernel's address space 0 saves at the swap frame, and
/// each next number one page lower.
pub proof fn lemma_swap_contex_pages(asid: usize)
    requires
        asid < usize::MAX,
    ensures
        spec_swap_contex_va(0) == SWAP_FRAME_VA,
        spec_swap_contex_va(asid) - spec_swap_contex_va((asid + 1) as usize) == PAGE_SIZE,
{
}

/// Offset of the kernel's linear mapping of physical memory.
pub const KERNEL_MAP_OFFSET: u64 = 0xffff_ffff_4000_0000;

/// The page number of the swap context page of address space `asid`.
pub fn swap_cx_vpn(asid: usize) -> (vpn: usize)
    requires
        PAGE_SIZE * asid <= SWAP_FRAME_VA,
    ensures
        vpn == spec_swap_contex_va(asid) / PAGE_SIZE as int,
{
    swap_contex_va(asid) / PAGE_SIZE
}

/// The kernel virtual address at which physical page `ppn` is mapped
/// (wrapping around the top of the address space, as the kernel computes
/// it).
pub fn page_kernel_va(ppn: u64) -> (va: u64)
    requires
        ppn <= u64::MAX / 4096,
    ensures
        va == (ppn * 4096 + KERNEL_MAP_OFFSET) % 0x1_0000_0000_0000_0000,
{
    let pa = ppn * 4096;
    pa.wrapping_add(KERNEL_MAP_OFFSET)
}

} // verus!

verus! {

/// Address space number; in Sv39 it lies in `[0, 2^16)`.
#[derive(Clone, Copy, Debug, PartialEq, Eq, Hash, Structural)]
pub struct AddressSpaceId(u16);

impl AddressSpaceId {
    /// The number of this address space.
    pub closed spec fn spec_value(self) -> nat {
        self.0 as nat
    }

    /// The address space numbered `asid`, keeping the low 16 bits.
    pub closed spec fn spec_from_raw(asid: usize) -> Self {
        AddressSpaceId((asid % 0x10000) as u16)
    }

    /// The address space numbered `asid`; only the low 16 bits are kept.
    pub fn from_raw(asid: usize) -> (r: AddressSpaceId)
        ensures
            r == Self::spec_from_raw(asid),
            r.spec_value() == asid % 0x10000,
    {
        assert(asid as u16 == (asid % 0x10000) as u16) by (bit_vector);
        AddressSpaceId(#[verifier::truncate] (asid as u16))
    }

    /// The number of this address space.
    pub fn into_inner(self) -> (r: usize)
        ensures
            r == self.spec_value(),
            r < 0x10000,
    {
        self.0 as usize
    }
}

/// The `satp` register value that selects a page table.
#[derive(Clone, Copy, Debug, PartialEq, Eq, Structural)]
pub struct Satp(pub usize);

/// A user address space as the hart sees it: its number and the `satp`
/// value of its page table.
#[derive(Clone, Copy, Debug, PartialEq, Eq, Structural)]
pub struct MemorySet {
    pub address_space_id: AddressSpaceId,
    pub satp: Satp,
}

impl MemorySet {
    /// The `satp` value that switches to this address space.
    pub fn satp(&self) -> (r: Satp)
        ensures
            r == self.satp,
    {
        self.satp
    }
}

/// An address space is its number: two address spaces are the same exactly
/// when their numbers are, and a number is below `2^16`.
pub proof fn lemma_address_space_id_eq(a: AddressSpaceId, b: AddressSpaceId)
    ensures
        (a.spec_value() == b.spec_value()) == (a == b),
        a.spec_value() < 0x10000,
{
}

/// Turning an address space into its number and back gives it back.
pub proof fn lemma_from_raw_into_inner(a: AddressSpaceId)
    ensures
        AddressSpaceId::spec_from_raw(a.spec_value() as usize) == a,
{
    assert((a.0 as usize % 0x10000) as u16 == a.0);
}

} // verus!
