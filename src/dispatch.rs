//! The orchestrator's plan for starting every other hart: guest id, memory
//! slot, interrupt routing, staging copies and the mailbox reason.
use vstd::prelude::*;
use crate::boot_table::{satp_for, satp_of};
use crate::election::Reason;
use crate::layout::{
    segment, slot_of, HartSlot, DIRECT_MAP_OFFSET, DIRECT_MAP_SIZE, FDT_COPY_OFFSET, HART_SEGMENT_SIZE, MAX_GUEST_ID,
    PHYS_OFFSET,
};
use crate::machine::{check_initrd, initrd_check_spec, ConfigError, Hart, MachineDescription, VirtioDevice};

verus! {

/// Offset of the per-context priority-threshold registers from the PLIC base.
pub const PLIC_THRESHOLD_OFFSET: u64 = 0x20_0000;
/// Distance between two contexts' priority-threshold registers.
pub const PLIC_THRESHOLD_STRIDE: u64 = 0x1000;
/// Offset of the per-context enable bitmasks from the PLIC base.
pub const PLIC_ENABLE_OFFSET: u64 = 0x2000;
/// Distance between two contexts' enable bitmasks.
pub const PLIC_ENABLE_STRIDE: u64 = 0x80;
/// Distance between two harts' inter-processor-interrupt trigger registers.
pub const IPI_STRIDE: u64 = 4;
/// Number of virtio devices routed to each guest id.
pub const VIRTIO_PER_GUEST: u64 = 4;
/// Number of interrupt sources whose priority the orchestrator sets.
pub const PLIC_SOURCES: u64 = 127;
/// Value written to each register of `plic_priority_registers`.
pub const PLIC_PRIORITY_VALUE: u32 = 1;
/// Value written to a dispatched hart's priority-threshold register: the
/// hart accepts every enabled interrupt.
pub const PLIC_THRESHOLD_VALUE: u32 = 0;
/// Value written to a hart's inter-processor-interrupt register to wake it.
pub const IPI_WAKE_VALUE: u32 = 1;

/// Everything the orchestrator does for one secondary hart before it signals it.
#[derive(Clone, Copy, Debug, PartialEq, Eq, Structural)]
pub struct Dispatch {
    pub hartid: u64,
    pub guest_id: u64,
    pub slot: HartSlot,
    /// Receives `PLIC_THRESHOLD_VALUE`.
    pub threshold_register: u64,
    /// Receives `irq_mask`.
    pub enable_register: u64,
    /// The interrupts of the virtio devices assigned to this guest id.
    pub irq_mask: u32,
    /// Receives `IPI_WAKE_VALUE`, after the mailbox is written, to wake the hart.
    pub ipi_register: u64,
    /// Where the hart's copy of the device tree goes.
    pub fdt_copy: u64,
    /// Where the hart's copy of the initrd goes.
    pub initrd_copy: u64,
    /// What the orchestrator leaves in the hart's mailbox.
    pub reason: Reason,
}

/// `base + offset + stride * index`, if it lies inside the direct map.
pub open spec fn mmio_spec(base: u64, offset: u64, stride: u64, index: u64) -> Option<u64> {
    let a = base + offset + stride * index;
    if a < DIRECT_MAP_SIZE {
        Some(a as u64)
    } else {
        None
    }
}

/// Computes a device register's physical address, refusing one that the
/// direct map does not cover.
pub fn mmio_address(base: u64, offset: u64, stride: u64, index: u64) -> (r: Option<u64>)
    ensures
        r == mmio_spec(base, offset, stride, index),
{
    assert(stride * index <= 0xffff_ffff_ffff_ffff * 0xffff_ffff_ffff_ffffint) by (nonlinear_arith)
        requires stride <= 0xffff_ffff_ffff_ffffint, index <= 0xffff_ffff_ffff_ffffint, 0 <= stride, 0 <= index;
    let a: u128 = base as u128 + offset as u128 + (stride as u128) * (index as u128);
    if a < DIRECT_MAP_SIZE as u128 {
        Some(a as u64)
    } else {
        None
    }
}

/// The priority registers of interrupt sources `1 .. PLIC_SOURCES`, each
/// four bytes after the previous, which the orchestrator sets to
/// `PLIC_PRIORITY_VALUE` before dispatching; an error if the last lies outside the direct map.
pub fn plic_priority_registers(plic_address: u64) -> (r: Result<Vec<u64>, ConfigError>)
    ensures
        plic_address + 4 * (PLIC_SOURCES - 1) < DIRECT_MAP_SIZE ==> (r matches Ok(v) && v@.len() == PLIC_SOURCES - 1
            && forall|i: int| 0 <= i < PLIC_SOURCES - 1 ==> #[trigger] v@[i] == plic_address + 4 * (i + 1)),
        plic_address + 4 * (PLIC_SOURCES - 1) >= DIRECT_MAP_SIZE ==> r == Err::<Vec<u64>, ConfigError>(
            ConfigError::AddressOutOfRange,
        ),
{
    if plic_address >= DIRECT_MAP_SIZE - 4 * (PLIC_SOURCES - 1) {
        return Err(ConfigError::AddressOutOfRange);
    }
    let mut v: Vec<u64> = Vec::new();
    let mut i: u64 = 1;
    while i < PLIC_SOURCES
        invariant
            1 <= i <= PLIC_SOURCES,
            plic_address + 4 * (PLIC_SOURCES - 1) < DIRECT_MAP_SIZE,
            v@.len() == i - 1,
            forall|k: int| 0 <= k < i - 1 ==> #[trigger] v@[k] == plic_address + 4 * (k + 1),
        decreases PLIC_SOURCES - i,
    {
        v.push(plic_address + 4 * i);
        i = i + 1;
    }
    Ok(v)
}

/// Index into the virtio list of the `j`-th device of guest id `g`.
pub open spec fn virtio_index(g: u64, j: int) -> int {
    (g - 1) * VIRTIO_PER_GUEST + j
}

/// The enable bit contributed by the `j`-th virtio device of guest id `g`:
/// none where the list has no such device.
pub open spec fn irq_bit(v: Seq<VirtioDevice>, g: u64, j: int) -> u32 {
    let i = virtio_index(g, j);
    if 0 <= i < v.len() {
        1u32 << (v[i].irq as u32)
    } else {
        0
    }
}

/// The enable bits of the first `j` virtio devices of guest id `g`.
pub open spec fn irq_mask_upto(v: Seq<VirtioDevice>, g: u64, j: nat) -> u32
    decreases j,
{
    if j == 0 {
        0
    } else {
        irq_mask_upto(v, g, (j - 1) as nat) | irq_bit(v, g, j - 1)
    }
}

/// Bit `k` of `m` is set.
pub open spec fn bit_set(m: u32, k: u32) -> bool {
    (m >> k) & 1 == 1
}

proof fn lemma_or_bit(m: u32, x: u32, k: u32)
    requires
        x < 32,
        k < 32,
    ensures
        bit_set(m | (1u32 << x), k) == (bit_set(m, k) || x == k),
        !bit_set(0, k),
        m | 0 == m,
{
    assert(((m | (1u32 << x)) >> k) & 1 == 1 <==> ((m >> k) & 1 == 1 || x == k)) by (bit_vector)
        requires x < 32, k < 32;
    assert((0u32 >> k) & 1 != 1) by (bit_vector);
    assert(m | 0 == m) by (bit_vector);
}

/// Among the first `j` virtio devices of guest id `g`, one has interrupt `k`.
pub open spec fn routes_irq(v: Seq<VirtioDevice>, g: u64, j: int, k: u32) -> bool {
    exists|i: int| 0 <= i < j && 0 <= #[trigger] virtio_index(g, i) < v.len() && v[virtio_index(g, i)].irq == k
}

/// The enable mask of a guest id whose interrupts fit has bit `k` set
/// exactly when one of its virtio devices raises interrupt `k`: the hart
/// receives its own devices' interrupts and no others.
pub proof fn lemma_irq_mask_bits(v: Seq<VirtioDevice>, g: u64, k: u32)
    requires
        irqs_fit(v, g),
        k < 32,
    ensures
        bit_set(irq_mask_upto(v, g, VIRTIO_PER_GUEST as nat), k) == routes_irq(v, g, VIRTIO_PER_GUEST as int, k),
{
    lemma_irq_mask_bits_upto(v, g, k, VIRTIO_PER_GUEST as nat);
}

proof fn lemma_irq_mask_bits_upto(v: Seq<VirtioDevice>, g: u64, k: u32, j: nat)
    requires
        irqs_fit(v, g),
        k < 32,
        j <= VIRTIO_PER_GUEST,
    ensures
        bit_set(irq_mask_upto(v, g, j), k) == routes_irq(v, g, j as int, k),
    decreases j,
{
    if j == 0 {
        lemma_or_bit(0, 0, k);
    } else {
        let jj = (j - 1) as nat;
        lemma_irq_mask_bits_upto(v, g, k, jj);
        let prev = irq_mask_upto(v, g, jj);
        let i = virtio_index(g, jj as int);
        if 0 <= i < v.len() {
            let x = v[i].irq;
            assert(x < 32);
            lemma_or_bit(prev, x as u32, k);
            if x == k {
                assert(routes_irq(v, g, j as int, k));
            } else if routes_irq(v, g, j as int, k) {
                let w = choose|w: int| 0 <= w < j && 0 <= #[trigger] virtio_index(g, w) < v.len() && v[virtio_index(g, w)].irq == k;
                assert(w < jj);
            }
        } else {
            lemma_or_bit(prev, 0, k);
            if routes_irq(v, g, j as int, k) {
                let w = choose|w: int| 0 <= w < j && 0 <= #[trigger] virtio_index(g, w) < v.len() && v[virtio_index(g, w)].irq == k;
                assert(w < jj);
            }
        }
    }
}

/// Every virtio device of guest id `g` has an interrupt that fits the mask.
pub open spec fn irqs_fit(v: Seq<VirtioDevice>, g: u64) -> bool {
    forall|j: int|
        0 <= j < VIRTIO_PER_GUEST && 0 <= #[trigger] virtio_index(g, j) < v.len() ==> v[virtio_index(g, j)].irq < 32
}

/// The reason that starts hart `hartid` as guest id `slot.guest_id`, entering
/// at `entry`.
pub open spec fn reason_spec(hartid: u64, slot: HartSlot, entry: u64) -> Reason {
    Reason::EnterSupervisor {
        a0: hartid,
        a1: (slot.base + FDT_COPY_OFFSET) as u64,
        a2: slot.base,
        a3: slot.guest_id,
        sp: slot.stack_top_va() as u64,
        satp: satp_of(slot.base),
        mepc: entry,
    }
}

/// What the orchestrator does for hart `h` as guest id `g`.
pub open spec fn dispatch_spec(m: MachineDescription, h: Hart, g: u64, entry: u64) -> Result<Dispatch, ConfigError> {
    let thr = mmio_spec(m.plic_address, PLIC_THRESHOLD_OFFSET, PLIC_THRESHOLD_STRIDE, h.plic_context);
    let en = mmio_spec(m.plic_address, PLIC_ENABLE_OFFSET, PLIC_ENABLE_STRIDE, h.plic_context);
    let ipi = mmio_spec(m.clint_address, 0, IPI_STRIDE, h.hartid);
    if !irqs_fit(m.virtio@, g) {
        Err(ConfigError::IrqOutOfRange)
    } else if thr is None || en is None || ipi is None {
        Err(ConfigError::AddressOutOfRange)
    } else {
        let slot = slot_of(g);
        Ok(
            Dispatch {
                hartid: h.hartid,
                guest_id: g,
                slot,
                threshold_register: thr->0,
                enable_register: en->0,
                irq_mask: irq_mask_upto(m.virtio@, g, VIRTIO_PER_GUEST as nat),
                ipi_register: ipi->0,
                fdt_copy: (slot.base + FDT_COPY_OFFSET) as u64,
                initrd_copy: slot.heap.start,
                reason: reason_spec(h.hartid, slot, entry),
            },
        )
    }
}

/// Every listed hart but the orchestrator `own`, in the order listed.
pub open spec fn others(harts: Seq<Hart>, own: u64) -> Seq<Hart> {
    harts.filter(|h: Hart| h.hartid != own)
}

/// The hart of `s` with the smallest id above `lo` (the first listed, among
/// equal ids).
pub open spec fn min_above(s: Seq<Hart>, lo: int) -> Option<Hart>
    decreases s.len(),
{
    if s.len() == 0 {
        None
    } else {
        let r = min_above(s.drop_last(), lo);
        let x = s.last();
        if x.hartid > lo && (r is None || x.hartid < r->0.hartid) {
            Some(x)
        } else {
            r
        }
    }
}

/// Up to `k` harts of `s` with ids above `lo`, smallest id first, one per id.
pub open spec fn ascending(s: Seq<Hart>, lo: int, k: nat) -> Seq<Hart>
    decreases k,
{
    if k == 0 {
        seq![]
    } else {
        match min_above(s, lo) {
            None => seq![],
            Some(h) => seq![h] + ascending(s, h.hartid as int, (k - 1) as nat),
        }
    }
}

/// The harts the orchestrator dispatches: every listed hart but itself, in
/// ascending hart-id order, each hart id once.
pub open spec fn secondaries(harts: Seq<Hart>, own: u64) -> Seq<Hart> {
    ascending(others(harts, own), -1, harts.len())
}

/// Plans for `hs`, giving guest ids `1, 2, ...` in order; the first hart
/// that cannot be planned decides the error.
pub open spec fn plan_entries(m: MachineDescription, hs: Seq<Hart>, entry: u64) -> Result<Seq<Dispatch>, ConfigError>
    decreases hs.len(),
{
    if hs.len() == 0 {
        Ok(seq![])
    } else {
        match plan_entries(m, hs.drop_last(), entry) {
            Err(e) => Err(e),
            Ok(p) => if hs.len() > MAX_GUEST_ID {
                Err(ConfigError::TooManyHarts)
            } else {
                match dispatch_spec(m, hs.last(), hs.len() as u64, entry) {
                    Err(e) => Err(e),
                    Ok(d) => Ok(p.push(d)),
                }
            },
        }
    }
}

/// The machine's memory holds the segments of guest ids `1 ..= n`: the
/// last guest's RAM ends no later than the memory does.
pub open spec fn memory_holds(m: MachineDescription, n: int) -> bool {
    n == 0 || slot_of(n as u64).guest_ram.end <= m.physical_memory_offset + m.physical_memory_size
}

/// The whole plan of orchestrator `own`: the memory must start at
/// `PHYS_OFFSET`, the initrd must pass its checks, and the memory must hold
/// one segment per secondary hart; then one dispatch per secondary hart, or
/// the first error met.
pub open spec fn plan_spec(m: MachineDescription, own: u64, entry: u64) -> Result<Seq<Dispatch>, ConfigError> {
    let hs = secondaries(m.harts@, own);
    if m.physical_memory_offset != PHYS_OFFSET {
        Err(ConfigError::MemoryOffsetMismatch)
    } else if initrd_check_spec(m) is Err {
        Err(initrd_check_spec(m)->Err_0)
    } else if hs.len() > MAX_GUEST_ID || !memory_holds(m, hs.len() as int) {
        Err(ConfigError::TooManyHarts)
    } else {
        plan_entries(m, hs, entry)
    }
}

/// Builds the enable mask of guest id `g` from its virtio devices, or
/// reports an interrupt number that does not fit.
pub fn irq_mask_for(virtio: &Vec<VirtioDevice>, g: u64) -> (r: Result<u32, ConfigError>)
    requires
        1 <= g <= MAX_GUEST_ID,
    ensures
        r == (if irqs_fit(virtio@, g) {
            Ok(irq_mask_upto(virtio@, g, VIRTIO_PER_GUEST as nat))
        } else {
            Err(ConfigError::IrqOutOfRange)
        }),
{
    let mut mask: u32 = 0;
    let mut j: u64 = 0;
    while j < VIRTIO_PER_GUEST
        invariant
            1 <= g <= MAX_GUEST_ID,
            j <= VIRTIO_PER_GUEST,
            mask == irq_mask_upto(virtio@, g, j as nat),
            forall|k: int|
                0 <= k < j && 0 <= #[trigger] virtio_index(g, k) < virtio@.len() ==> virtio@[virtio_index(g, k)].irq < 32,
        decreases VIRTIO_PER_GUEST - j,
    {
        let index: u64 = (g - 1) * VIRTIO_PER_GUEST + j;
        if index < virtio.len() as u64 {
            let irq = virtio[index as usize].irq;
            if irq >= 32 {
                assert(!irqs_fit(virtio@, g)) by {
                    assert(virtio_index(g, j as int) == index);
                }
                return Err(ConfigError::IrqOutOfRange);
            }
            mask = mask | (1u32 << (irq as u32));
        }
        assert(irq_bit(virtio@, g, j as int) == (if index < virtio@.len() {
            1u32 << (virtio@[index as int].irq as u32)
        } else {
            0u32
        }));
        assert(mask | 0u32 == mask) by (bit_vector);
        j = j + 1;
    }
    Ok(mask)
}

/// Plans the dispatch of hart `h` as guest id `g`.
pub fn dispatch_one(m: &MachineDescription, h: Hart, g: u64, entry: u64) -> (r: Result<Dispatch, ConfigError>)
    requires
        1 <= g <= MAX_GUEST_ID,
    ensures
        r == dispatch_spec(*m, h, g, entry),
{
    let irq_mask = match irq_mask_for(&m.virtio, g) {
        Ok(mask) => mask,
        Err(e) => return Err(e),
    };
    let thr = mmio_address(m.plic_address, PLIC_THRESHOLD_OFFSET, PLIC_THRESHOLD_STRIDE, h.plic_context);
    let en = mmio_address(m.plic_address, PLIC_ENABLE_OFFSET, PLIC_ENABLE_STRIDE, h.plic_context);
    let ipi = mmio_address(m.clint_address, 0, IPI_STRIDE, h.hartid);
    match (thr, en, ipi) {
        (Some(threshold_register), Some(enable_register), Some(ipi_register)) => {
            let slot = segment(g);
            let fdt_copy: u64 = slot.base + FDT_COPY_OFFSET;
            let reason = Reason::EnterSupervisor {
                a0: h.hartid,
                a1: fdt_copy,
                a2: slot.base,
                a3: g,
                sp: slot.stack.end + DIRECT_MAP_OFFSET,
                satp: satp_for(slot.base),
                mepc: entry,
            };
            Ok(
                Dispatch {
                    hartid: h.hartid,
                    guest_id: g,
                    slot,
                    threshold_register,
                    enable_register,
                    irq_mask,
                    ipi_register,
                    fdt_copy,
                    initrd_copy: slot.heap.start,
                    reason,
                },
            )
        },
        _ => Err(ConfigError::AddressOutOfRange),
    }
}

/// The hart of `s` with the smallest id above `lo`, or above every id when
/// `bounded` is false.
fn min_hart_above(s: &Vec<Hart>, bounded: bool, lo: u64) -> (r: Option<Hart>)
    ensures
        r == min_above(s@, if bounded { lo as int } else { -1 }),
{
    let ghost low: int = if bounded { lo as int } else { -1 };
    let mut best: Option<Hart> = None;
    let mut i: usize = 0;
    while i < s.len()
        invariant
            i <= s@.len(),
            low == (if bounded { lo as int } else { -1 }),
            best == min_above(s@.subrange(0, i as int), low),
        decreases s@.len() - i,
    {
        assert(s@.subrange(0, i + 1).drop_last() == s@.subrange(0, i as int));
        let x = s[i];
        let above = !bounded || x.hartid > lo;
        let smaller = match best {
            None => true,
            Some(b) => x.hartid < b.hartid,
        };
        if above && smaller {
            best = Some(x);
        }
        i = i + 1;
    }
    assert(s@.subrange(0, s@.len() as int) == s@);
    best
}

/// Lists the harts of `harts` other than `own`, in ascending hart-id order,
/// each hart id once: the order in which they get guest ids.
pub fn secondary_harts(harts: &Vec<Hart>, own: u64) -> (r: Vec<Hart>)
    ensures
        r@ == secondaries(harts@, own),
{
    let cand = other_harts(harts, own);
    let n: usize = harts.len();
    let mut r: Vec<Hart> = Vec::new();
    let mut bounded: bool = false;
    let mut lo: u64 = 0;
    let mut k: usize = 0;
    while k < n
        invariant
            k <= n,
            n == harts@.len(),
            cand@ == others(harts@, own),
            secondaries(harts@, own) == r@ + ascending(cand@, if bounded { lo as int } else { -1 }, (n - k) as nat),
        decreases n - k,
    {
        match min_hart_above(&cand, bounded, lo) {
            None => {
                k = n;
                assert(r@ + seq![] =~= r@);
            },
            Some(h) => {
                let ghost before = r@;
                r.push(h);
                assert(before + (seq![h] + ascending(cand@, h.hartid as int, (n - k - 1) as nat)) =~= r@
                    + ascending(cand@, h.hartid as int, (n - k - 1) as nat));
                bounded = true;
                lo = h.hartid;
                k = k + 1;
            },
        }
    }
    assert(r@ + seq![] =~= r@);
    r
}

/// Lists the harts of `harts` other than `own`, keeping their order.
fn other_harts(harts: &Vec<Hart>, own: u64) -> (r: Vec<Hart>)
    ensures
        r@ == others(harts@, own),
{
    let mut r: Vec<Hart> = Vec::new();
    let mut i: usize = 0;
    while i < harts.len()
        invariant
            i <= harts@.len(),
            r@ == others(harts@.subrange(0, i as int), own),
        decreases harts@.len() - i,
    {
        proof {
            let pre = harts@.subrange(0, i as int);
            assert(harts@.subrange(0, i + 1) == pre.push(harts@[i as int]));
            pre.lemma_filter_push(harts@[i as int], |h: Hart| h.hartid != own);
        }
        if harts[i].hartid != own {
            r.push(harts[i]);
        }
        i = i + 1;
    }
    assert(harts@.subrange(0, harts@.len() as int) == harts@);
    r
}

/// An error in planning a prefix of the harts is the error of the whole plan.
proof fn lemma_plan_prefix_err(m: MachineDescription, hs: Seq<Hart>, k: int, entry: u64)
    requires
        0 <= k <= hs.len(),
        plan_entries(m, hs.subrange(0, k), entry) is Err,
    ensures
        plan_entries(m, hs, entry) == plan_entries(m, hs.subrange(0, k), entry),
    decreases hs.len(),
{
    if k == hs.len() {
        assert(hs.subrange(0, k) == hs);
    } else {
        assert(hs.drop_last().subrange(0, k) == hs.subrange(0, k));
        lemma_plan_prefix_err(m, hs.drop_last(), k, entry);
    }
}

/// Plans the orchestrator's work for every hart of `m` other than `own`:
/// after the memory and initrd checks, the harts are given guest ids
/// `1, 2, 3, ...` in ascending hart-id order (a hart id listed twice is
/// dispatched once), each with its memory slot, interrupt routing, staging
/// copies and mailbox reason entering at `entry`. The whole plan is made
/// before any hart is touched; one wake signal is owed per entry.
pub fn plan_dispatch(m: &MachineDescription, own: u64, entry: u64) -> (r: Result<Vec<Dispatch>, ConfigError>)
    ensures
        match (r, plan_spec(*m, own, entry)) {
            (Ok(p), Ok(q)) => p@ == q,
            (Err(e), Err(f)) => e == f,
            _ => false,
        },
{
    if m.physical_memory_offset != PHYS_OFFSET {
        return Err(ConfigError::MemoryOffsetMismatch);
    }
    match check_initrd(m) {
        Err(e) => return Err(e),
        Ok(()) => {},
    }
    let hs = secondary_harts(&m.harts, own);
    let n: u64 = hs.len() as u64;
    if n > MAX_GUEST_ID {
        return Err(ConfigError::TooManyHarts);
    }
    if n > 0 && (n + 1) * HART_SEGMENT_SIZE > m.physical_memory_size {
        return Err(ConfigError::TooManyHarts);
    }
    let mut plan: Vec<Dispatch> = Vec::new();
    let mut k: usize = 0;
    while k < hs.len()
        invariant
            k <= hs@.len(),
            hs@ == secondaries(m.harts@, own),
            plan_entries(*m, hs@.subrange(0, k as int), entry) == Ok::<Seq<Dispatch>, ConfigError>(plan@),
            plan_spec(*m, own, entry) == plan_entries(*m, hs@, entry),
        decreases hs@.len() - k,
    {
        let ghost pre = hs@.subrange(0, k as int);
        let ghost post = hs@.subrange(0, k + 1);
        assert(post.drop_last() == pre);
        if k as u64 >= MAX_GUEST_ID {
            proof { lemma_plan_prefix_err(*m, hs@, k + 1, entry); }
            return Err(ConfigError::TooManyHarts);
        }
        let g: u64 = k as u64 + 1;
        match dispatch_one(m, hs[k], g, entry) {
            Ok(d) => {
                plan.push(d);
            },
            Err(e) => {
                proof { lemma_plan_prefix_err(*m, hs@, k + 1, entry); }
                return Err(e);
            },
        }
        k = k + 1;
    }
    assert(hs@.subrange(0, hs@.len() as int) == hs@);
    Ok(plan)
}

/// A successful plan has one entry per hart it was given, in the same
/// order, the `i`-th with guest id `i + 1` and that guest id's slot, so no
/// two entries share memory.
pub proof fn lemma_plan_shape(m: MachineDescription, hs: Seq<Hart>, entry: u64)
    requires
        plan_entries(m, hs, entry) is Ok,
    ensures
        ({
            let p = plan_entries(m, hs, entry)->Ok_0;
            &&& p.len() == hs.len()
            &&& hs.len() <= MAX_GUEST_ID
            &&& forall|i: int| 0 <= i < p.len() ==> (#[trigger] p[i]).hartid == hs[i].hartid
                && p[i].guest_id == i + 1 && p[i].slot == slot_of((i + 1) as u64)
                && p[i].fdt_copy == p[i].slot.base + FDT_COPY_OFFSET && p[i].initrd_copy == p[i].slot.heap.start
        }),
    decreases hs.len(),
{
    if hs.len() > 0 {
        lemma_plan_shape(m, hs.drop_last(), entry);
    }
}

/// In a successful plan the guests' slots are pairwise disjoint and rise
/// with the guest id, all lie above the hypervisor's own segment and inside
/// the machine's memory, and every write made for a guest (its boot page
/// table at the slot's base, its device-tree copy, its initrd copy) lands in
/// that guest's slot. No entry is for the orchestrator itself.
pub proof fn lemma_plan_slots(m: MachineDescription, own: u64, entry: u64)
    requires
        plan_spec(m, own, entry) is Ok,
    ensures
        ({
            let p = plan_spec(m, own, entry)->Ok_0;
            &&& forall|i: int, j: int| 0 <= i < j < p.len() ==> (#[trigger] p[i]).slot.guest_ram.end <= (#[trigger] p[j]).slot.base
            &&& forall|i: int| 0 <= i < p.len() ==> {
                let d = #[trigger] p[i];
                &&& d.hartid != own
                &&& PHYS_OFFSET + HART_SEGMENT_SIZE <= d.slot.base
                &&& d.slot.guest_ram.end <= m.physical_memory_offset + m.physical_memory_size
                &&& d.slot.data.start == d.slot.base
                &&& d.slot.data.start < d.fdt_copy
                &&& d.fdt_copy + crate::fdt::MAX_TOTAL_SIZE <= d.slot.data.end
                &&& d.initrd_copy == d.slot.heap.start
                &&& d.slot.heap.end - d.slot.heap.start == crate::layout::HEAP_SIZE
            }
        }),
{
    let hs = secondaries(m.harts@, own);
    let p = plan_spec(m, own, entry)->Ok_0;
    lemma_plan_shape(m, hs, entry);
    let n: int = hs.len() as int;
    assert forall|i: int, j: int| 0 <= i < j < p.len() implies (#[trigger] p[i]).slot.guest_ram.end <= (#[trigger] p[j]).slot.base by {
        crate::layout::lemma_segments_disjoint((i + 1) as u64, (j + 1) as u64);
        assert(slot_of((i + 1) as u64).regions()[4].end <= slot_of((j + 1) as u64).regions()[0].start);
    }
    assert forall|i: int| 0 <= i < p.len() implies {
        let d = #[trigger] p[i];
        &&& d.hartid != own
        &&& PHYS_OFFSET + HART_SEGMENT_SIZE <= d.slot.base
        &&& d.slot.guest_ram.end <= m.physical_memory_offset + m.physical_memory_size
        &&& d.slot.data.start == d.slot.base
        &&& d.slot.data.start < d.fdt_copy
        &&& d.fdt_copy + crate::fdt::MAX_TOTAL_SIZE <= d.slot.data.end
        &&& d.initrd_copy == d.slot.heap.start
        &&& d.slot.heap.end - d.slot.heap.start == crate::layout::HEAP_SIZE
    } by {
        lemma_secondaries(m.harts@, own);
        let g = i + 1;
        assert(crate::layout::segment_base(g + 1) <= crate::layout::segment_base(n + 1)) by (nonlinear_arith)
            requires g <= n;
        assert(crate::layout::segment_base(n + 1) <= DIRECT_MAP_SIZE) by (nonlinear_arith)
            requires n <= MAX_GUEST_ID;
        assert(crate::layout::segment_base(g) >= PHYS_OFFSET + HART_SEGMENT_SIZE) by (nonlinear_arith)
            requires g >= 1;
    }
}

proof fn lemma_min_above(s: Seq<Hart>, lo: int)
    ensures
        min_above(s, lo) matches Some(h) ==> s.contains(h) && h.hartid > lo,
    decreases s.len(),
{
    if s.len() > 0 {
        let rest = s.drop_last();
        lemma_min_above(rest, lo);
        if min_above(s, lo) == min_above(rest, lo) && min_above(rest, lo) is Some {
            let h = min_above(rest, lo)->0;
            let k = choose|k: int| 0 <= k < rest.len() && rest[k] == h;
            assert(s[k] == h);
        } else if min_above(s, lo) is Some {
            assert(s[s.len() - 1] == s.last());
        }
    }
}

/// The harts `ascending` lists come from `s`, have ids above `lo`, and
/// strictly increasing ids.
proof fn lemma_ascending(s: Seq<Hart>, lo: int, k: nat)
    ensures
        forall|i: int| 0 <= i < ascending(s, lo, k).len() ==> s.contains(#[trigger] ascending(s, lo, k)[i])
            && ascending(s, lo, k)[i].hartid > lo,
        forall|i: int, j: int| 0 <= i < j < ascending(s, lo, k).len() ==> (#[trigger] ascending(s, lo, k)[i]).hartid
            < (#[trigger] ascending(s, lo, k)[j]).hartid,
    decreases k,
{
    if k > 0 {
        lemma_min_above(s, lo);
        if min_above(s, lo) is Some {
            let h = min_above(s, lo)->0;
            lemma_ascending(s, h.hartid as int, (k - 1) as nat);
            let tail = ascending(s, h.hartid as int, (k - 1) as nat);
            assert(ascending(s, lo, k) == seq![h] + tail);
            assert forall|i: int| 0 < i < ascending(s, lo, k).len() implies ascending(s, lo, k)[i] == tail[i - 1] by {}
        }
    }
}

/// Each secondary hart is listed in the machine description and is not the
/// orchestrator, and the secondaries' ids strictly increase.
proof fn lemma_secondaries(harts: Seq<Hart>, own: u64)
    ensures
        forall|i: int| 0 <= i < secondaries(harts, own).len() ==> (#[trigger] secondaries(harts, own)[i]).hartid != own
            && harts.contains(secondaries(harts, own)[i]),
        forall|i: int, j: int| 0 <= i < j < secondaries(harts, own).len() ==> (#[trigger] secondaries(harts, own)[i]).hartid
            < (#[trigger] secondaries(harts, own)[j]).hartid,
{
    let pred = |h: Hart| h.hartid != own;
    let o = others(harts, own);
    lemma_ascending(o, -1, harts.len());
    assert forall|i: int| 0 <= i < secondaries(harts, own).len() implies (#[trigger] secondaries(harts, own)[i]).hartid
        != own && harts.contains(secondaries(harts, own)[i]) by {
        let x = secondaries(harts, own)[i];
        let k = choose|k: int| 0 <= k < o.len() && o[k] == x;
        harts.lemma_filter_pred(pred, k);
        harts.lemma_filter_contains_rev(pred, x);
    }
}

/// A successful plan has one entry, and so one mailbox write, per hart id,
/// in ascending hart-id order.
pub proof fn lemma_plan_one_write_per_hart(m: MachineDescription, own: u64, entry: u64)
    requires
        plan_spec(m, own, entry) is Ok,
    ensures
        forall|i: int, j: int| 0 <= i < j < plan_spec(m, own, entry)->Ok_0.len() ==> (#[trigger] plan_spec(m, own, entry)->Ok_0[i]).hartid
            < (#[trigger] plan_spec(m, own, entry)->Ok_0[j]).hartid,
{
    let hs = secondaries(m.harts@, own);
    lemma_plan_shape(m, hs, entry);
    lemma_secondaries(m.harts@, own);
}

} // verus!
