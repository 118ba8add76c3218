use rvirt::election::{start, HartRole, Lottery, Mailbox, ProtocolError, Reason};
use rvirt::layout::{
    m_mode_stack_top, pa2va, segment, va2pa, PhysicalAddress, Region, VirtualAddress, DIRECT_MAP_SIZE, HEAP_SIZE, MAX_GUEST_ID,
};

#[test]
fn segment_of_first_guest() {
    let s = segment(1);
    assert_eq!(s.base, 0xc000_0000);
    assert_eq!(s.data, Region { start: 0xc000_0000, end: 0xc020_0000 });
    assert_eq!(s.stack, Region { start: 0xc020_0000, end: 0xc040_0000 });
    assert_eq!(s.heap, Region { start: 0xc040_0000, end: 0xc200_0000 });
    assert_eq!(s.page_tables, Region { start: 0xc200_0000, end: 0xc400_0000 });
    assert_eq!(s.guest_ram, Region { start: 0xc400_0000, end: 0x1_0000_0000 });
    assert_eq!(s.heap.end - s.heap.start, HEAP_SIZE);
}

#[test]
fn segments_are_disjoint_and_increasing() {
    let mut prev_end = 0u64;
    for g in 1..=MAX_GUEST_ID {
        let s = segment(g);
        let regions = [s.data, s.stack, s.heap, s.page_tables, s.guest_ram];
        for r in regions.iter() {
            assert!(r.start >= prev_end);
            assert!(r.start < r.end);
            prev_end = r.end;
        }
    }
    assert!(prev_end <= DIRECT_MAP_SIZE);
    assert_eq!(segment(3).base, 0x1_4000_0000);
}

#[test]
fn direct_map_translation() {
    let va = pa2va(PhysicalAddress { addr: 0x8020_0000 }).unwrap();
    assert_eq!(va.addr, 0xffff_ffc0_8020_0000);
    assert_eq!(va2pa(va), Some(PhysicalAddress { addr: 0x8020_0000 }));
    assert_eq!(pa2va(PhysicalAddress { addr: DIRECT_MAP_SIZE }), None);
    assert_eq!(va2pa(VirtualAddress { addr: 0x8000_0000 }), None);
    assert_eq!(va2pa(VirtualAddress { addr: 0xffff_ffff_c000_0000 }), None);
    assert_eq!(va2pa(VirtualAddress { addr: 0xffff_ffff_bfff_ffff }), Some(PhysicalAddress { addr: 0x3f_bfff_ffff }));
}

#[test]
fn lottery_has_one_winner() {
    let mut lottery = Lottery::new();
    let roles: Vec<HartRole> = (0..4).map(|_| start(&mut lottery)).collect();
    assert_eq!(roles[0], HartRole::Orchestrator);
    assert_eq!(roles.iter().filter(|r| **r == HartRole::Orchestrator).count(), 1);
    assert!(!lottery.open);
    assert!(!lottery.draw());
}

fn reason(a0: u64) -> Reason {
    Reason::EnterSupervisor { a0, a1: 2, a2: 3, a3: 4, sp: 5, satp: 6, mepc: 7 }
}

#[test]
fn mailbox_read_once() {
    let mut mb = Mailbox::new(4);
    mb.post(3, reason(3));
    assert_eq!(mb.wake(3), Ok(reason(3)));
    assert_eq!(mb.wake(3), Err(ProtocolError::SpuriousWake));
    assert_eq!(mb.take(3), None);
    assert_eq!(mb.slots.len(), 4);
}

#[test]
fn mailbox_slots_are_separate() {
    let mut mb = Mailbox::new(3);
    mb.post(1, reason(1));
    mb.post(2, reason(2));
    assert_eq!(mb.wake(0), Err(ProtocolError::SpuriousWake));
    assert_eq!(mb.take(1), Some(reason(1)));
    assert_eq!(mb.slots[2], Some(reason(2)));
}

#[test]
fn machine_mode_stacks() {
    assert_eq!(m_mode_stack_top(0), Some(0x8081_0000));
    assert_eq!(m_mode_stack_top(3), Some(0x8084_0000));
    assert_eq!(m_mode_stack_top(15), Some(0x8090_0000));
    assert_eq!(m_mode_stack_top(16), None);
}
