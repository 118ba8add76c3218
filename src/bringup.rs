//! What each activated hart decides on its own before entering its guest:
//! where the guest's device tree goes, what that tree says, and the
//! register file the guest starts with.
use vstd::prelude::*;
use crate::fdt::{check_header, check_spec, mask_memory, mask_spec, FdtError};

verus! {

/// Alignment of the guest device tree's address.
pub const GUEST_FDT_ALIGN: u64 = 0x20_0000;
/// Number of general-purpose registers.
pub const REGISTER_COUNT: usize = 32;
/// Index of `a0`, which carries the hart id; the guest sees hart zero.
pub const REG_A0: usize = 10;
/// Index of `a1`, which carries the device tree's address.
pub const REG_A1: usize = 11;

/// The first 2 MiB-aligned address above `max_addr`.
pub open spec fn guest_fdt_spec(max_addr: u64) -> int {
    (max_addr / GUEST_FDT_ALIGN + 1) * GUEST_FDT_ALIGN
}

/// Places the guest's device tree at the first 2 MiB-aligned address above
/// the highest address the loaded kernel image touches; none if there is no
/// such address.
pub fn guest_fdt_address(max_addr: u64) -> (r: Option<u64>)
    ensures
        guest_fdt_spec(max_addr) <= u64::MAX ==> r == Some(guest_fdt_spec(max_addr) as u64),
        guest_fdt_spec(max_addr) > u64::MAX ==> r is None,
        r matches Some(a) ==> a % GUEST_FDT_ALIGN == 0 && max_addr < a <= max_addr + GUEST_FDT_ALIGN,
{
    let q: u64 = max_addr / GUEST_FDT_ALIGN;
    assert(q * GUEST_FDT_ALIGN <= max_addr < (q + 1) * GUEST_FDT_ALIGN) by (nonlinear_arith)
        requires q == max_addr / GUEST_FDT_ALIGN;
    assert(((q + 1) * 0x20_0000int) % 0x20_0000int == 0) by (nonlinear_arith);
    if q >= u64::MAX / GUEST_FDT_ALIGN {
        assert((q + 1) * GUEST_FDT_ALIGN > u64::MAX) by (nonlinear_arith)
            requires q >= u64::MAX / GUEST_FDT_ALIGN;
        None
    } else {
        assert((q + 1) * GUEST_FDT_ALIGN <= u64::MAX) by (nonlinear_arith)
            requires q < u64::MAX / GUEST_FDT_ALIGN;
        Some((q + 1) * GUEST_FDT_ALIGN)
    }
}

/// The device tree a guest is given: the first `total_size` bytes of the
/// hart's copy of the host tree, with the memory size cut to the guest's
/// RAM extent.
pub open spec fn guest_tree_spec(host: Seq<u8>, guest_memory: u64) -> Result<Seq<u8>, FdtError> {
    match check_spec(host) {
        Err(e) => Err(e),
        Ok(h) => mask_spec(host.subrange(0, h.total_size as int), guest_memory),
    }
}

/// Builds the device tree a guest is given from the hart's copy of the host
/// tree and the size of the guest's RAM.
pub fn guest_device_tree(host: &Vec<u8>, guest_memory: u64) -> (r: Result<Vec<u8>, FdtError>)
    ensures
        match (r, guest_tree_spec(host@, guest_memory)) {
            (Ok(g), Ok(t)) => g@ == t,
            (Err(e), Err(f)) => e == f,
            _ => false,
        },
{
    let h = match check_header(host) {
        Ok(h) => h,
        Err(e) => return Err(e),
    };
    let total: usize = h.total_size as usize;
    let mut g: Vec<u8> = Vec::new();
    let mut i: usize = 0;
    while i < total
        invariant
            i <= total,
            total <= host@.len(),
            g@ == host@.subrange(0, i as int),
        decreases total - i,
    {
        g.push(host[i]);
        i = i + 1;
        assert(g@ =~= host@.subrange(0, i as int));
    }
    match mask_memory(&mut g, guest_memory) {
        Ok(()) => Ok(g),
        Err(e) => Err(e),
    }
}

/// The register file a guest starts with: every register zero (no
/// hypervisor value survives into the guest), except `a1`, which holds the
/// guest device tree's address.
pub fn scrubbed_registers(guest_fdt: u64) -> (r: Vec<u64>)
    ensures
        r@.len() == REGISTER_COUNT,
        r@[REG_A1 as int] == guest_fdt,
        forall|i: int| 0 <= i < REGISTER_COUNT && i != REG_A1 ==> #[trigger] r@[i] == 0,
{
    let mut r: Vec<u64> = Vec::new();
    let mut i: usize = 0;
    while i < REGISTER_COUNT
        invariant
            i <= REGISTER_COUNT,
            r@.len() == i,
            forall|k: int| 0 <= k < i ==> #[trigger] r@[k] == (if k == REG_A1 { guest_fdt } else { 0 }),
        decreases REGISTER_COUNT - i,
    {
        if i == REG_A1 {
            r.push(guest_fdt);
        } else {
            r.push(0);
        }
        i = i + 1;
    }
    r
}

} // verus!
