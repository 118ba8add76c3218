use rvirt::dispatch::{
    irq_mask_for, mmio_address, plan_dispatch, plic_priority_registers, secondary_harts, IPI_WAKE_VALUE,
    PLIC_PRIORITY_VALUE, PLIC_THRESHOLD_VALUE,
};
use rvirt::election::Reason;
use rvirt::layout::{segment, HEAP_SIZE, MAX_GUEST_ID};
use rvirt::machine::{check_initrd, ConfigError, Hart, MachineDescription, UartType, VirtioDevice};

fn machine(n_harts: u64, n_virtio: u64) -> MachineDescription {
    MachineDescription {
        physical_memory_offset: 0x8000_0000,
        physical_memory_size: 0x1_0000_0000,
        uart_address: 0x1000_0000,
        uart_type: Some(UartType::Ns16550a),
        plic_address: 0x0c00_0000,
        clint_address: 0x0200_0000,
        harts: (0..n_harts).map(|h| Hart { hartid: h, plic_context: 2 * h + 1 }).collect(),
        virtio: (0..n_virtio).map(|i| VirtioDevice { address: 0x1000_1000 + 0x1000 * i, irq: i + 1 }).collect(),
        initrd_start: 0x8400_0000,
        initrd_end: 0x8500_0000,
    }
}

#[test]
fn four_harts_orchestrator_two() {
    let m = machine(4, 8);
    let plan = plan_dispatch(&m, 2, 0x8000_1234).unwrap();
    assert_eq!(plan.len(), 3);
    let ids: Vec<(u64, u64)> = plan.iter().map(|d| (d.hartid, d.guest_id)).collect();
    assert_eq!(ids, vec![(0, 1), (1, 2), (3, 3)]);
    // guest 1 gets virtio 0..4 (irqs 1..=4), guest 2 gets virtio 4..8 (irqs 5..=8), guest 3 none
    assert_eq!(plan[0].irq_mask, 0b1_1110);
    assert_eq!(plan[1].irq_mask, 0b1_1110_0000);
    assert_eq!(plan[2].irq_mask, 0);
    let ipis: Vec<u64> = plan.iter().map(|d| d.ipi_register).collect();
    assert_eq!(ipis, vec![0x0200_0000, 0x0200_0004, 0x0200_000c]);
    assert_eq!(plan[2].threshold_register, 0x0c00_0000 + 0x20_0000 + 0x1000 * 7);
    assert_eq!(plan[2].enable_register, 0x0c00_0000 + 0x2000 + 0x80 * 7);
    assert_eq!(plan[0].slot, segment(1));
    assert_eq!(plan[2].fdt_copy, 0x1_4000_1000);
    assert_eq!(plan[2].initrd_copy, 0x1_4040_0000);
    assert_eq!(
        plan[2].reason,
        Reason::EnterSupervisor {
            a0: 3,
            a1: 0x1_4000_1000,
            a2: 0x1_4000_0000,
            a3: 3,
            sp: 0x1_4040_0000 + 0xffff_ffc0_0000_0000,
            satp: 8 << 60 | (0x1_4000_0000u64 >> 12),
            mepc: 0x8000_1234,
        }
    );
}

#[test]
fn secondaries_skip_orchestrator() {
    let m = machine(4, 0);
    let ids: Vec<u64> = secondary_harts(&m.harts, 0).iter().map(|h| h.hartid).collect();
    assert_eq!(ids, vec![1, 2, 3]);
    assert_eq!(secondary_harts(&m.harts, 9).len(), 4);
}

#[test]
fn initrd_exactly_heap_size_passes() {
    let mut m = machine(4, 0);
    m.initrd_end = m.initrd_start + HEAP_SIZE;
    assert_eq!(check_initrd(&m), Ok(()));
    assert!(plan_dispatch(&m, 0, 0).is_ok());
}

#[test]
fn initrd_one_byte_over_fails() {
    let mut m = machine(4, 0);
    m.initrd_end = m.initrd_start + HEAP_SIZE + 1;
    assert_eq!(check_initrd(&m), Err(ConfigError::InitrdTooLarge));
    assert_eq!(plan_dispatch(&m, 0, 0), Err(ConfigError::InitrdTooLarge));
}

#[test]
fn initrd_errors() {
    let mut m = machine(2, 0);
    m.initrd_end = m.initrd_start - 1;
    assert_eq!(check_initrd(&m), Err(ConfigError::InitrdReversed));
    m.initrd_start = 0xc000_0000;
    m.initrd_end = 0xc000_0010;
    assert_eq!(check_initrd(&m), Err(ConfigError::InitrdOutOfRange));
    m.initrd_start = 0;
    m.initrd_end = 0;
    assert_eq!(check_initrd(&m), Ok(()));
}

#[test]
fn irq_out_of_range_is_refused() {
    let mut m = machine(3, 4);
    m.virtio[2].irq = 32;
    assert_eq!(irq_mask_for(&m.virtio, 1), Err(ConfigError::IrqOutOfRange));
    assert_eq!(irq_mask_for(&m.virtio, 2), Ok(0));
    assert_eq!(plan_dispatch(&m, 0, 0), Err(ConfigError::IrqOutOfRange));
    m.virtio[2].irq = 31;
    assert_eq!(irq_mask_for(&m.virtio, 1), Ok((1 << 31) | 0b1_0110));
}

#[test]
fn register_outside_direct_map_is_refused() {
    let mut m = machine(2, 0);
    m.clint_address = 0x3f_c000_0000;
    assert_eq!(plan_dispatch(&m, 0, 0), Err(ConfigError::AddressOutOfRange));
    assert_eq!(mmio_address(0x100, 0x20, 4, 3), Some(0x12c));
    assert_eq!(mmio_address(0x3f_bfff_fff0, 0, 4, 4), None);
}

#[test]
fn too_many_harts_is_refused() {
    let m = machine(MAX_GUEST_ID + 2, 0);
    assert_eq!(plan_dispatch(&m, 0, 0), Err(ConfigError::TooManyHarts));
    let mut m = machine(MAX_GUEST_ID + 1, 0);
    m.physical_memory_size = (MAX_GUEST_ID + 1) * 0x4000_0000;
    assert_eq!(plan_dispatch(&m, 0, 0).unwrap().len() as u64, MAX_GUEST_ID);
}

#[test]
fn plic_priorities() {
    let v = plic_priority_registers(0x0c00_0000).unwrap();
    assert_eq!(v.len(), 126);
    assert_eq!(v[0], 0x0c00_0004);
    assert_eq!(v[125], 0x0c00_0000 + 126 * 4);
    assert_eq!(plic_priority_registers(0x3f_c000_0000 - 126 * 4), Err(ConfigError::AddressOutOfRange));
    assert!(plic_priority_registers(0x3f_c000_0000 - 126 * 4 - 1).is_ok());
}

#[test]
fn memory_too_small_for_guests() {
    // 1 GiB at 0x8000_0000 holds only the hypervisor's own segment
    let mut m = machine(2, 0);
    m.physical_memory_size = 0x4000_0000;
    assert_eq!(plan_dispatch(&m, 0, 0), Err(ConfigError::TooManyHarts));
    // one byte short of the last guest's RAM
    let mut m = machine(4, 0);
    m.physical_memory_size = 0x1_0000_0000 - 1;
    assert_eq!(plan_dispatch(&m, 2, 0), Err(ConfigError::TooManyHarts));
    m.physical_memory_size = 0x1_0000_0000;
    let plan = plan_dispatch(&m, 2, 0).unwrap();
    assert_eq!(plan[2].slot.guest_ram.end, m.physical_memory_offset + m.physical_memory_size);
    // an orchestrator alone needs no guest segment
    let mut m = machine(1, 0);
    m.physical_memory_size = 0x4000_0000;
    assert_eq!(plan_dispatch(&m, 0, 0), Ok(vec![]));
}

#[test]
fn memory_base_must_match_layout() {
    let mut m = machine(4, 0);
    m.physical_memory_offset = 0x4000_0000;
    assert_eq!(plan_dispatch(&m, 0, 0), Err(ConfigError::MemoryOffsetMismatch));
}

#[test]
fn guest_ids_follow_ascending_hart_ids() {
    let mut m = machine(4, 0);
    m.harts.reverse();
    let plan = plan_dispatch(&m, 2, 0).unwrap();
    let ids: Vec<(u64, u64)> = plan.iter().map(|d| (d.hartid, d.guest_id)).collect();
    assert_eq!(ids, vec![(0, 1), (1, 2), (3, 3)]);
    assert_eq!(plan[2].ipi_register, 0x0200_000c);
}

#[test]
fn repeated_hart_id_dispatched_once() {
    let mut m = machine(3, 0);
    m.harts.push(Hart { hartid: 1, plic_context: 3 });
    let ids: Vec<u64> = secondary_harts(&m.harts, 0).iter().map(|h| h.hartid).collect();
    assert_eq!(ids, vec![1, 2]);
    assert_eq!(plan_dispatch(&m, 0, 0).unwrap().len(), 2);
}

#[test]
fn register_values() {
    assert_eq!(PLIC_PRIORITY_VALUE, 1);
    assert_eq!(PLIC_THRESHOLD_VALUE, 0);
    assert_eq!(IPI_WAKE_VALUE, 1);
}
