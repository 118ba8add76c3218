//! The transient Sv39 page tables used to survive the drop from machine mode
//! into supervisor mode, and the address-translation register that selects
//! them.
use vstd::prelude::*;
use crate::layout::{DIRECT_MAP_SIZE, PHYS_OFFSET};

verus! {

/// Entry flag: valid.
pub const PTE_V: u64 = 0x01;
/// Leaf flags of a readable, writable, executable page (accessed and dirty preset).
pub const PTE_RWX: u64 = 0xcf;
/// Leaf flags of a readable, executable page (accessed and dirty preset).
pub const PTE_RX: u64 = 0xcb;
/// Leaf flags of a readable, writable page (accessed and dirty preset).
pub const PTE_RW: u64 = 0xc7;
/// Entries in one page-table page.
pub const PTE_COUNT: u64 = 512;
/// Size of one page-table page.
pub const PAGE_SIZE: u64 = 0x1000;
/// Size of a page mapped by a second-level leaf.
pub const MEGAPAGE_SIZE: u64 = 0x20_0000;
/// Size of a page mapped by a root-level leaf.
pub const GIGAPAGE_SIZE: u64 = 0x4000_0000;
/// Root index of the gigapage that holds the hypervisor's high alias
/// (virtual `0xffffffffc0000000`).
pub const HIGH_ALIAS_INDEX: u64 = 511;
/// Root index at which the direct map starts (virtual `0xffffffc000000000`).
pub const DIRECT_MAP_INDEX: u64 = 256;

/// A leaf entry mapping the page at physical address `pa` with `flags`.
pub open spec fn pte_leaf(pa: u64, flags: u64) -> u64 {
    (pa >> 2) | flags
}

/// A non-leaf entry pointing at the page-table page at physical address `pa`.
pub open spec fn pte_table(pa: u64) -> u64 {
    (pa >> 2) | PTE_V
}

/// Entry `i` of the machine-mode boot table at `table`: the root page
/// (entries `0 .. 512`) maps the low gigabyte and the gigabyte at
/// `0xc0000000` to themselves, and sends both the hypervisor's gigabyte and
/// its high alias to the second page (entries `512 .. 1024`), which maps the
/// hypervisor's text read/execute and the rest of its memory read/write in
/// 2 MiB pages.
pub open spec fn mboot_entry(table: u64, i: int) -> u64 {
    if i == 0 {
        pte_leaf(0, PTE_RWX)
    } else if i == 2 || i == HIGH_ALIAS_INDEX {
        pte_table((table + PAGE_SIZE) as u64)
    } else if i == 3 {
        pte_leaf(0xc000_0000, PTE_RWX)
    } else if i == PTE_COUNT {
        pte_leaf(PHYS_OFFSET, PTE_RX)
    } else if PTE_COUNT < i < 2 * PTE_COUNT {
        pte_leaf((PHYS_OFFSET + (i - PTE_COUNT) * MEGAPAGE_SIZE) as u64, PTE_RW)
    } else {
        0
    }
}

/// Entry `i` of a secondary hart's boot table: the low gigabyte and the
/// hypervisor's gigabyte map to themselves, the direct map covers physical
/// memory from zero in gigapages, and the last entry is the high alias of
/// the hypervisor.
pub open spec fn hart_boot_entry(i: int) -> u64 {
    if i == 0 {
        pte_leaf(0, PTE_RWX)
    } else if i == 2 || i == HIGH_ALIAS_INDEX {
        pte_leaf(PHYS_OFFSET, PTE_RWX)
    } else if DIRECT_MAP_INDEX <= i < HIGH_ALIAS_INDEX {
        pte_leaf(((i - DIRECT_MAP_INDEX) * GIGAPAGE_SIZE) as u64, PTE_RW)
    } else {
        0
    }
}

/// A page-table page address the builders accept: page aligned, with both
/// pages of the machine-mode table inside the direct map.
pub open spec fn table_address_ok(table: u64) -> bool {
    table % PAGE_SIZE == 0 && table + 2 * PAGE_SIZE <= DIRECT_MAP_SIZE
}

fn mboot_entry_at(table: u64, i: u64) -> (r: u64)
    requires
        table_address_ok(table),
        i < 2 * PTE_COUNT,
    ensures
        r == mboot_entry(table, i as int),
{
    if i == 0 {
        (0u64 >> 2) | PTE_RWX
    } else if i == 2 || i == HIGH_ALIAS_INDEX {
        ((table + PAGE_SIZE) >> 2) | PTE_V
    } else if i == 3 {
        (0xc000_0000u64 >> 2) | PTE_RWX
    } else if i == PTE_COUNT {
        (PHYS_OFFSET >> 2) | PTE_RX
    } else if i > PTE_COUNT {
        ((PHYS_OFFSET + (i - PTE_COUNT) * MEGAPAGE_SIZE) >> 2) | PTE_RW
    } else {
        0
    }
}

/// Builds the two pages of the machine-mode boot table that will sit at
/// physical address `table`, root page first.
pub fn mboot_page_table(table: u64) -> (r: Vec<u64>)
    requires
        table_address_ok(table),
    ensures
        r@.len() == 2 * PTE_COUNT,
        forall|i: int| 0 <= i < 2 * PTE_COUNT ==> #[trigger] r@[i] == mboot_entry(table, i),
{
    let mut r: Vec<u64> = Vec::new();
    let mut i: u64 = 0;
    while i < 2 * PTE_COUNT
        invariant
            table_address_ok(table),
            i <= 2 * PTE_COUNT,
            r@.len() == i,
            forall|k: int| 0 <= k < i ==> #[trigger] r@[k] == mboot_entry(table, k),
        decreases 2 * PTE_COUNT - i,
    {
        let e = mboot_entry_at(table, i);
        r.push(e);
        i = i + 1;
    }
    r
}

fn hart_boot_entry_at(i: u64) -> (r: u64)
    requires
        i < PTE_COUNT,
    ensures
        r == hart_boot_entry(i as int),
{
    if i == 0 {
        (0u64 >> 2) | PTE_RWX
    } else if i == 2 || i == HIGH_ALIAS_INDEX {
        (PHYS_OFFSET >> 2) | PTE_RWX
    } else if i >= DIRECT_MAP_INDEX {
        (((i - DIRECT_MAP_INDEX) * GIGAPAGE_SIZE) >> 2) | PTE_RW
    } else {
        0
    }
}

/// Builds the one-page boot table of a secondary hart.
pub fn hart_boot_page_table() -> (r: Vec<u64>)
    ensures
        r@.len() == PTE_COUNT,
        forall|i: int| 0 <= i < PTE_COUNT ==> #[trigger] r@[i] == hart_boot_entry(i),
{
    let mut r: Vec<u64> = Vec::new();
    let mut i: u64 = 0;
    while i < PTE_COUNT
        invariant
            i <= PTE_COUNT,
            r@.len() == i,
            forall|k: int| 0 <= k < i ==> #[trigger] r@[k] == hart_boot_entry(k),
        decreases PTE_COUNT - i,
    {
        let e = hart_boot_entry_at(i);
        r.push(e);
        i = i + 1;
    }
    r
}

/// Sv39 translation mode in the `satp` register.
pub const SATP_MODE_SV39: u64 = 0x8000_0000_0000_0000;

/// Value of `satp` that selects the Sv39 table at physical address `table`.
pub open spec fn satp_of(table: u64) -> u64 {
    SATP_MODE_SV39 | (table >> 12)
}

/// Computes the `satp` value that selects the Sv39 table at `table`.
pub fn satp_for(table: u64) -> (r: u64)
    ensures
        r == satp_of(table),
{
    SATP_MODE_SV39 | (table >> 12)
}

} // verus!
