//! The machine summary read from the host's device tree, and the checks
//! made on it before any hart is dispatched.
use vstd::prelude::*;
use crate::layout::{HART_SEGMENT_SIZE, HEAP_SIZE, PHYS_OFFSET};

verus! {

/// One hart listed under the device tree's `/cpus` node.
#[derive(Clone, Copy, Debug, PartialEq, Eq, Structural)]
pub struct Hart {
    pub hartid: u64,
    /// The interrupt-controller context through which the PLIC reaches this
    /// hart in supervisor mode.
    pub plic_context: u64,
}

/// One virtio-mmio device.
#[derive(Clone, Copy, Debug, PartialEq, Eq, Structural)]
pub struct VirtioDevice {
    pub address: u64,
    pub irq: u64,
}

/// The kind of UART the device tree declares.
#[derive(Clone, Copy, Debug, PartialEq, Eq, Structural)]
pub enum UartType {
    Ns16550a,
    SiFive,
}

/// Host hardware facts, extracted once from the device tree.
#[derive(Clone, Debug)]
pub struct MachineDescription {
    pub physical_memory_offset: u64,
    pub physical_memory_size: u64,
    pub uart_address: u64,
    pub uart_type: Option<UartType>,
    pub plic_address: u64,
    pub clint_address: u64,
    pub harts: Vec<Hart>,
    pub virtio: Vec<VirtioDevice>,
    pub initrd_start: u64,
    pub initrd_end: u64,
}

/// A configuration the hypervisor refuses to boot with.
#[derive(Clone, Copy, Debug, PartialEq, Eq, Structural)]
pub enum ConfigError {
    /// The initrd ends before it starts.
    InitrdReversed,
    /// The initrd does not lie inside the hypervisor's own segment.
    InitrdOutOfRange,
    /// The initrd is larger than a hart's heap.
    InitrdTooLarge,
    /// More harts than the machine's memory, or the direct map, has
    /// segments for.
    TooManyHarts,
    /// The machine's memory does not start where the segments are laid out.
    MemoryOffsetMismatch,
    /// A virtio interrupt number outside the PLIC enable word.
    IrqOutOfRange,
    /// A device register lies outside the direct map.
    AddressOutOfRange,
}

/// Result of the initrd checks made before any hart is dispatched.
pub open spec fn initrd_check_spec(m: MachineDescription) -> Result<(), ConfigError> {
    if m.initrd_end < m.initrd_start {
        Err(ConfigError::InitrdReversed)
    } else if m.initrd_end > PHYS_OFFSET + HART_SEGMENT_SIZE {
        Err(ConfigError::InitrdOutOfRange)
    } else if m.initrd_end - m.initrd_start > HEAP_SIZE {
        Err(ConfigError::InitrdTooLarge)
    } else {
        Ok(())
    }
}

/// Checks that the initrd is well formed, lies in the hypervisor's own
/// segment (the one at `PHYS_OFFSET`), and fits in a hart's heap, where it
/// will be copied.
pub fn check_initrd(m: &MachineDescription) -> (r: Result<(), ConfigError>)
    ensures
        r == initrd_check_spec(*m),
{
    if m.initrd_end < m.initrd_start {
        Err(ConfigError::InitrdReversed)
    } else if m.initrd_end > PHYS_OFFSET + HART_SEGMENT_SIZE {
        Err(ConfigError::InitrdOutOfRange)
    } else if m.initrd_end - m.initrd_start > HEAP_SIZE {
        Err(ConfigError::InitrdTooLarge)
    } else {
        Ok(())
    }
}

} // verus!
