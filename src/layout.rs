//! Physical memory partitioning: every guest id owns one fixed segment of
//! physical memory, split into data, stack, heap, page-table and guest-RAM
//! regions.
use vstd::prelude::*;

verus! {

/// Physical address at which the hypervisor (and the host's RAM) starts.
pub const PHYS_OFFSET: u64 = 0x8000_0000;

/// Size of the physical segment owned by one guest id.
pub const HART_SEGMENT_SIZE: u64 = 0x4000_0000;

/// Offset of the stack region inside a segment.
pub const STACK_OFFSET: u64 = 0x20_0000;

/// Offset of the heap region (device tree and initrd staging) inside a segment.
pub const HEAP_OFFSET: u64 = 0x40_0000;

/// Size of the heap region; an initrd must fit in it.
pub const HEAP_SIZE: u64 = 0x1c0_0000;

/// Offset of the page-table region inside a segment.
pub const PAGE_TABLE_OFFSET: u64 = 0x200_0000;

/// Offset of the guest RAM region inside a segment.
pub const GUEST_RAM_OFFSET: u64 = 0x400_0000;

/// Offset of the device-tree copy inside a segment, just after the boot page table.
pub const FDT_COPY_OFFSET: u64 = 0x1000;

/// Virtual address at which physical address zero appears in the direct map.
pub const DIRECT_MAP_OFFSET: u64 = 0xffff_ffc0_0000_0000;

/// Number of bytes of physical memory the direct map covers: 255 GiB, the
/// last gigapage of the address space being the hypervisor's own alias.
pub const DIRECT_MAP_SIZE: u64 = 0x3f_c000_0000;

/// Largest guest id whose segment still lies inside the direct map.
pub const MAX_GUEST_ID: u64 = 252;

/// A physical address.
#[derive(Clone, Copy, Debug, PartialEq, Eq, Structural)]
pub struct PhysicalAddress {
    pub addr: u64,
}

/// A virtual address in the hypervisor's address space.
#[derive(Clone, Copy, Debug, PartialEq, Eq, Structural)]
pub struct VirtualAddress {
    pub addr: u64,
}

/// Translates a physical address to its alias in the direct map, if the
/// direct map covers it.
pub fn pa2va(pa: PhysicalAddress) -> (r: Option<VirtualAddress>)
    ensures
        pa.addr < DIRECT_MAP_SIZE ==> r == Some(VirtualAddress { addr: (pa.addr + DIRECT_MAP_OFFSET) as u64 }),
        pa.addr >= DIRECT_MAP_SIZE ==> r is None,
{
    if pa.addr < DIRECT_MAP_SIZE {
        Some(VirtualAddress { addr: pa.addr + DIRECT_MAP_OFFSET })
    } else {
        None
    }
}

/// Translates a direct-map virtual address back to its physical address, if
/// it lies in the direct map. The last gigabyte of the address space, the
/// hypervisor's own alias, is not part of the direct map.
pub fn va2pa(va: VirtualAddress) -> (r: Option<PhysicalAddress>)
    ensures
        va.addr >= DIRECT_MAP_OFFSET && va.addr - DIRECT_MAP_OFFSET < DIRECT_MAP_SIZE ==> r == Some(
            PhysicalAddress { addr: (va.addr - DIRECT_MAP_OFFSET) as u64 },
        ),
        !(va.addr >= DIRECT_MAP_OFFSET && va.addr - DIRECT_MAP_OFFSET < DIRECT_MAP_SIZE) ==> r is None,
{
    if va.addr >= DIRECT_MAP_OFFSET && va.addr - DIRECT_MAP_OFFSET < DIRECT_MAP_SIZE {
        Some(PhysicalAddress { addr: va.addr - DIRECT_MAP_OFFSET })
    } else {
        None
    }
}

/// Translating to the direct map and back gives the address one started with.
pub proof fn lemma_pa2va_round_trip(pa: u64)
    requires
        pa < DIRECT_MAP_SIZE,
    ensures
        ((pa + DIRECT_MAP_OFFSET) as u64) >= DIRECT_MAP_OFFSET,
        (((pa + DIRECT_MAP_OFFSET) as u64) - DIRECT_MAP_OFFSET) as u64 == pa,
{
}

/// A half-open range `[start, end)` of physical addresses.
#[derive(Clone, Copy, Debug, PartialEq, Eq, Structural)]
pub struct Region {
    pub start: u64,
    pub end: u64,
}

/// The physical regions owned by one guest id.
#[derive(Clone, Copy, Debug, PartialEq, Eq, Structural)]
pub struct HartSlot {
    pub guest_id: u64,
    /// Start of the segment; its first page holds the hart's boot page table.
    pub base: u64,
    /// Boot page table, then the hart's copy of the device tree.
    pub data: Region,
    pub stack: Region,
    /// Staging area for the initrd.
    pub heap: Region,
    pub page_tables: Region,
    pub guest_ram: Region,
}

/// Start of the segment owned by guest id `g`.
pub open spec fn segment_base(g: int) -> int {
    PHYS_OFFSET + g * HART_SEGMENT_SIZE
}

pub open spec fn region_at(base: int, from: u64, to: u64) -> Region {
    Region { start: (base + from) as u64, end: (base + to) as u64 }
}

/// The layout of guest id `g`'s segment.
pub open spec fn slot_of(g: u64) -> HartSlot {
    let b = segment_base(g as int);
    HartSlot {
        guest_id: g,
        base: b as u64,
        data: region_at(b, 0, STACK_OFFSET),
        stack: region_at(b, STACK_OFFSET, HEAP_OFFSET),
        heap: region_at(b, HEAP_OFFSET, (HEAP_OFFSET + HEAP_SIZE) as u64),
        page_tables: region_at(b, PAGE_TABLE_OFFSET, GUEST_RAM_OFFSET),
        guest_ram: region_at(b, GUEST_RAM_OFFSET, HART_SEGMENT_SIZE),
    }
}

/// Guest ids that own a segment: the orchestrator keeps segment zero.
pub open spec fn valid_guest_id(g: u64) -> bool {
    1 <= g <= MAX_GUEST_ID
}

impl HartSlot {
    /// The slot's regions, lowest address first.
    pub open spec fn regions(self) -> Seq<Region> {
        seq![self.data, self.stack, self.heap, self.page_tables, self.guest_ram]
    }

    /// Top of the stack, as seen through the direct map.
    pub open spec fn stack_top_va(self) -> int {
        self.stack.end + DIRECT_MAP_OFFSET
    }
}

/// Computes the layout of guest id `g`'s segment.
pub fn segment(g: u64) -> (r: HartSlot)
    requires
        valid_guest_id(g),
    ensures
        r == slot_of(g),
        r.guest_ram.end <= DIRECT_MAP_SIZE,
{
    let b: u64 = PHYS_OFFSET + g * HART_SEGMENT_SIZE;
    HartSlot {
        guest_id: g,
        base: b,
        data: Region { start: b, end: b + STACK_OFFSET },
        stack: Region { start: b + STACK_OFFSET, end: b + HEAP_OFFSET },
        heap: Region { start: b + HEAP_OFFSET, end: b + HEAP_OFFSET + HEAP_SIZE },
        page_tables: Region { start: b + PAGE_TABLE_OFFSET, end: b + GUEST_RAM_OFFSET },
        guest_ram: Region { start: b + GUEST_RAM_OFFSET, end: b + HART_SEGMENT_SIZE },
    }
}

/// Within one slot the regions are non-empty, in increasing address order,
/// pairwise disjoint, and contained in the slot's segment; the guest RAM
/// ends exactly where the next guest id's segment starts.
pub proof fn lemma_slot_well_formed(g: u64)
    requires
        valid_guest_id(g),
    ensures
        forall|i: int| 0 <= i < 5 ==> #[trigger] slot_of(g).regions()[i].start < slot_of(g).regions()[i].end,
        forall|i: int, j: int|
            0 <= i < j < 5 ==> #[trigger] slot_of(g).regions()[i].end <= #[trigger] slot_of(g).regions()[j].start,
        forall|i: int| 0 <= i < 5 ==> slot_of(g).base <= #[trigger] slot_of(g).regions()[i].start,
        slot_of(g).guest_ram.end == segment_base(g + 1),
{
    assert(segment_base(g + 1) <= DIRECT_MAP_SIZE) by (nonlinear_arith)
        requires g <= MAX_GUEST_ID;
}

/// For guest ids `g1 < g2`, every region of `g1`'s slot lies below every
/// region of `g2`'s slot: slots are pairwise disjoint and increase with the
/// guest id.
pub proof fn lemma_segments_disjoint(g1: u64, g2: u64)
    requires
        valid_guest_id(g1),
        valid_guest_id(g2),
        g1 < g2,
    ensures
        forall|i: int, j: int|
            0 <= i < 5 && 0 <= j < 5 ==> #[trigger] slot_of(g1).regions()[i].end <= #[trigger] slot_of(g2).regions()[j].start,
        slot_of(g1).base < slot_of(g2).base,
{
    assert(segment_base(g1 + 1) <= segment_base(g2 as int)) by (nonlinear_arith)
        requires g1 < g2;
    assert(segment_base(g2 + 1) <= DIRECT_MAP_SIZE) by (nonlinear_arith)
        requires g2 <= MAX_GUEST_ID;
    lemma_slot_well_formed(g1);
    lemma_slot_well_formed(g2);
}

/// Top of hart 0's machine-mode stack; hart `h`'s stack ends `h` strides higher.
pub const M_MODE_STACK_BASE: u64 = 0x8081_0000;

/// Size of one hart's machine-mode stack.
pub const M_MODE_STACK_STRIDE: u64 = 0x1_0000;

/// Number of harts that have a machine-mode stack.
pub const M_MODE_STACKS: u64 = 16;

/// Top of hart `hartid`'s machine-mode stack, used as its stack pointer at
/// reset and as its machine-mode scratch value; none for a hart without one.
pub fn m_mode_stack_top(hartid: u64) -> (r: Option<u64>)
    ensures
        hartid < M_MODE_STACKS ==> r == Some((M_MODE_STACK_BASE + M_MODE_STACK_STRIDE * hartid) as u64),
        hartid >= M_MODE_STACKS ==> r is None,
{
    if hartid < M_MODE_STACKS {
        Some(M_MODE_STACK_BASE + M_MODE_STACK_STRIDE * hartid)
    } else {
        None
    }
}

} // verus!
