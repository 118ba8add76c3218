//! Physical memory protection windows that keep supervisor and guest code
//! away from the hypervisor's own text and shared data.
use vstd::prelude::*;
use crate::layout::PHYS_OFFSET;

verus! {

/// Window permission: read.
pub const PMP_READ: u8 = 0x01;
/// Window permission: write.
pub const PMP_WRITE: u8 = 0x02;
/// Window permission: execute.
pub const PMP_EXEC: u8 = 0x04;
/// Address-matching mode: naturally aligned power of two.
pub const PMP_NAPOT: u8 = 0x18;
/// Lock bit: the window binds machine mode too and cannot be changed until reset.
pub const PMP_LOCK: u8 = 0x80;
/// Size of the hypervisor's text segment, and of its shared-data segment.
pub const SEGMENT_WINDOW_SIZE: u64 = 0x20_0000;
/// Index of the lowest-priority window, which opens all other memory.
pub const CATCH_ALL_INDEX: u8 = 7;
/// Address register value that makes a NAPOT window cover all memory.
pub const CATCH_ALL_ADDRESS: u64 = 0xffff_ffff_ffff_ffff;

/// One PMP entry: its index, its address register and its configuration byte.
#[derive(Clone, Copy, Debug, PartialEq, Eq, Structural)]
pub struct PmpWindow {
    pub index: u8,
    pub address: u64,
    pub config: u8,
}

pub open spec fn is_power_of_two(n: nat) -> bool
    decreases n,
{
    if n <= 1 {
        n == 1
    } else {
        n % 2 == 0 && is_power_of_two(n / 2)
    }
}

/// The address register of a NAPOT window over `[base, base + size)`: the
/// base in units of four bytes, with the low bits filled with ones up to
/// half the size.
pub open spec fn napot_spec(base: u64, size: u64) -> u64 {
    ((base + size / 2 - 1) / 4) as u64
}

/// Encodes the NAPOT address register for `[base, base + size)`.
pub fn napot_address(base: u64, size: u64) -> (r: u64)
    requires
        size >= 8,
        is_power_of_two(size as nat),
        base % size == 0,
        base + size <= u64::MAX,
    ensures
        r == napot_spec(base, size),
{
    (base + (size / 2 - 1)) / 4
}

/// A NAPOT window with permissions `perms`, numbered `index`.
pub fn napot_window(index: u8, perms: u8, base: u64, size: u64) -> (r: PmpWindow)
    requires
        size >= 8,
        is_power_of_two(size as nat),
        base % size == 0,
        base + size <= u64::MAX,
    ensures
        r == (PmpWindow { index, address: napot_spec(base, size), config: perms | PMP_NAPOT }),
{
    PmpWindow { index, address: napot_address(base, size), config: perms | PMP_NAPOT }
}

/// The windows the orchestrator installs before leaving machine mode: the
/// text segment locked read/execute, the shared-data segment locked
/// read/write, and a last, unlocked window that leaves the rest of memory
/// to the page tables.
pub open spec fn hypervisor_windows_spec() -> Seq<PmpWindow> {
    seq![
        PmpWindow {
            index: 0,
            address: napot_spec(PHYS_OFFSET, SEGMENT_WINDOW_SIZE),
            config: PMP_LOCK | PMP_READ | PMP_EXEC | PMP_NAPOT,
        },
        PmpWindow {
            index: 1,
            address: napot_spec((PHYS_OFFSET + SEGMENT_WINDOW_SIZE) as u64, SEGMENT_WINDOW_SIZE),
            config: PMP_LOCK | PMP_READ | PMP_WRITE | PMP_NAPOT,
        },
        PmpWindow {
            index: CATCH_ALL_INDEX,
            address: CATCH_ALL_ADDRESS,
            config: PMP_READ | PMP_WRITE | PMP_EXEC | PMP_NAPOT,
        },
    ]
}

/// Lists the windows the orchestrator installs, in installation order.
pub fn hypervisor_windows() -> (r: Vec<PmpWindow>)
    ensures
        r@ == hypervisor_windows_spec(),
{
    assert(is_power_of_two(SEGMENT_WINDOW_SIZE as nat)) by {
        reveal_with_fuel(is_power_of_two, 23);
    }
    let text = napot_window(0, PMP_LOCK | PMP_READ | PMP_EXEC, PHYS_OFFSET, SEGMENT_WINDOW_SIZE);
    let data = napot_window(
        1,
        PMP_LOCK | PMP_READ | PMP_WRITE,
        PHYS_OFFSET + SEGMENT_WINDOW_SIZE,
        SEGMENT_WINDOW_SIZE,
    );
    let all = PmpWindow {
        index: CATCH_ALL_INDEX,
        address: CATCH_ALL_ADDRESS,
        config: PMP_READ | PMP_WRITE | PMP_EXEC | PMP_NAPOT,
    };
    let r = vec![text, data, all];
    assert(r@ =~= hypervisor_windows_spec());
    r
}

/// The bits window `w` contributes to the packed configuration register.
pub open spec fn config_bits(w: PmpWindow) -> u64 {
    (w.config as u64) << (8 * w.index as u64)
}

/// Packs the configuration bytes of `windows` into one configuration
/// register value, each byte at eight times its window's index.
pub open spec fn packed_config(windows: Seq<PmpWindow>) -> u64
    decreases windows.len(),
{
    if windows.len() == 0 {
        0
    } else {
        packed_config(windows.drop_last()) | config_bits(windows.last())
    }
}

/// Computes the packed configuration register value of `windows`.
pub fn pack_config(windows: &Vec<PmpWindow>) -> (r: u64)
    requires
        forall|i: int| 0 <= i < windows@.len() ==> #[trigger] windows@[i].index < 8,
    ensures
        r == packed_config(windows@),
{
    let mut r: u64 = 0;
    let mut i: usize = 0;
    while i < windows.len()
        invariant
            i <= windows@.len(),
            forall|k: int| 0 <= k < windows@.len() ==> #[trigger] windows@[k].index < 8,
            r == packed_config(windows@.subrange(0, i as int)),
        decreases windows@.len() - i,
    {
        let w = windows[i];
        assert(windows@.subrange(0, i + 1).drop_last() == windows@.subrange(0, i as int));
        r = r | ((w.config as u64) << (8 * w.index as u64));
        i = i + 1;
    }
    assert(windows@.subrange(0, windows@.len() as int) == windows@);
    r
}

} // verus!
