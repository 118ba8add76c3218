//! Hart election and the per-hart mailboxes through which the orchestrator
//! starts the other harts.
use vstd::prelude::*;

verus! {

/// The one-shot lottery: the first hart to swap the flag to `false` wins.
///
/// The hardware version is a single atomic swap with full ordering; this
/// type models that swap, so each `draw` stands for one linearized swap.
#[derive(Debug)]
pub struct Lottery {
    pub open: bool,
}

/// The role a hart takes after drawing in the lottery.
#[derive(Clone, Copy, Debug, PartialEq, Eq, Structural)]
pub enum HartRole {
    /// Sets up isolation and page tables, then dispatches every other hart.
    Orchestrator,
    /// Waits for a wake interrupt and a filled mailbox.
    Secondary,
}

/// Outcome of one swap on a flag that is `open`: the flag afterwards, and
/// whether this swap won.
pub open spec fn swap_spec(open: bool) -> (bool, bool) {
    (false, open)
}

/// What `n` successive draws observe, starting from a flag that is `open`.
pub open spec fn draws(open: bool, n: nat) -> Seq<bool>
    decreases n,
{
    if n == 0 {
        seq![]
    } else {
        seq![swap_spec(open).1] + draws(swap_spec(open).0, (n - 1) as nat)
    }
}

impl Lottery {
    /// A fresh lottery, not yet won.
    pub fn new() -> (r: Lottery)
        ensures
            r.open,
    {
        Lottery { open: true }
    }

    /// Swaps the flag to `false` and reports whether it was `true` before.
    pub fn draw(&mut self) -> (won: bool)
        ensures
            (final(self).open, won) == swap_spec(old(self).open),
    {
        let won = self.open;
        self.open = false;
        won
    }
}

/// A hart's first decision at reset: draw in the lottery, and become the
/// orchestrator if it won, a secondary hart otherwise.
pub fn start(lottery: &mut Lottery) -> (r: HartRole)
    ensures
        r == (if old(lottery).open { HartRole::Orchestrator } else { HartRole::Secondary }),
        !final(lottery).open,
{
    if lottery.draw() {
        HartRole::Orchestrator
    } else {
        HartRole::Secondary
    }
}

/// However many harts race on a fresh lottery, exactly one swap wins: the
/// first, and every later one loses.
pub proof fn lemma_single_winner(n: nat)
    requires
        n >= 1,
    ensures
        draws(true, n).len() == n,
        draws(true, n)[0],
        forall|i: int| 1 <= i < n ==> !#[trigger] draws(true, n)[i],
        draws(true, n).filter(|w: bool| w).len() == 1,
{
    lemma_closed_draws_lose(n);
    lemma_closed_draws_lose((n - 1) as nat);
    let rest = draws(false, (n - 1) as nat);
    assert(draws(true, n) == seq![true] + rest);
    let win = |w: bool| w;
    assert(rest.all(|x: bool| !win(x)));
    rest.lemma_all_neg_filter_empty(win);
    rest.lemma_filter_prepend(true, win);
    assert((seq![true] + rest).filter(win) =~= seq![true] + rest.filter(win));
}

proof fn lemma_closed_draws_lose(n: nat)
    ensures
        draws(false, n).len() == n,
        forall|i: int| 0 <= i < n ==> !#[trigger] draws(false, n)[i],
        draws(true, n).len() == n,
    decreases n,
{
    if n > 0 {
        lemma_closed_draws_lose((n - 1) as nat);
        assert forall|i: int| 0 <= i < n implies !#[trigger] draws(false, n)[i] by {
            if i > 0 {
                assert(draws(false, n)[i] == draws(false, (n - 1) as nat)[i - 1]);
            }
        }
    }
}

/// The instruction the orchestrator leaves in a secondary hart's mailbox.
#[derive(Clone, Copy, Debug, PartialEq, Eq, Structural)]
pub enum Reason {
    /// Resume in supervisor mode with these argument registers, stack
    /// pointer, address-translation register and entry point.
    EnterSupervisor { a0: u64, a1: u64, a2: u64, a3: u64, sp: u64, satp: u64, mepc: u64 },
}

/// A wake interrupt found its hart's mailbox empty.
#[derive(Clone, Copy, Debug, PartialEq, Eq, Structural)]
pub enum ProtocolError {
    SpuriousWake,
}

/// One slot per hart id, written only by the orchestrator and read and
/// cleared only by the hart it belongs to.
#[derive(Debug)]
pub struct Mailbox {
    pub slots: Vec<Option<Reason>>,
}

/// The slots after hart `h` has read and cleared its own, and what it read.
pub open spec fn take_spec(slots: Seq<Option<Reason>>, h: int) -> (Seq<Option<Reason>>, Option<Reason>) {
    (slots.update(h, None), slots[h])
}

impl Mailbox {
    pub open spec fn view(&self) -> Seq<Option<Reason>> {
        self.slots@
    }

    /// Empty mailboxes for harts `0 .. n`.
    pub fn new(n: usize) -> (r: Mailbox)
        ensures
            r.view().len() == n,
            forall|i: int| 0 <= i < n ==> #[trigger] r.view()[i] is None,
    {
        let mut slots: Vec<Option<Reason>> = Vec::new();
        let mut i: usize = 0;
        while i < n
            invariant
                i <= n,
                slots@.len() == i,
                forall|k: int| 0 <= k < i ==> #[trigger] slots@[k] is None,
            decreases n - i,
        {
            slots.push(None);
            i = i + 1;
        }
        Mailbox { slots }
    }

    /// Leaves `reason` in hart `h`'s slot; the other slots are untouched.
    pub fn post(&mut self, h: usize, reason: Reason)
        requires
            h < old(self).view().len(),
        ensures
            final(self).view() == old(self).view().update(h as int, Some(reason)),
    {
        self.slots.set(h, Some(reason));
    }

    /// Hart `h` reads its slot and clears it.
    pub fn take(&mut self, h: usize) -> (r: Option<Reason>)
        requires
            h < old(self).view().len(),
        ensures
            (final(self).view(), r) == take_spec(old(self).view(), h as int),
    {
        let r = self.slots[h];
        self.slots.set(h, None);
        r
    }

    /// The wake handler of hart `h`: takes the reason the orchestrator left,
    /// and reports a protocol violation if the slot was empty.
    pub fn wake(&mut self, h: usize) -> (r: Result<Reason, ProtocolError>)
        requires
            h < old(self).view().len(),
        ensures
            final(self).view() == take_spec(old(self).view(), h as int).0,
            r == (match old(self).view()[h as int] {
                Some(reason) => Ok(reason),
                None => Err(ProtocolError::SpuriousWake),
            }),
    {
        match self.take(h) {
            Some(reason) => Ok(reason),
            None => Err(ProtocolError::SpuriousWake),
        }
    }
}

/// Once a hart has read and cleared its slot, reading it again finds it empty
/// (no stale reason), and no other hart's slot has changed.
pub proof fn lemma_no_stale_reason(slots: Seq<Option<Reason>>, h: int)
    requires
        0 <= h < slots.len(),
    ensures
        take_spec(take_spec(slots, h).0, h).1 is None,
        forall|k: int| 0 <= k < slots.len() && k != h ==> #[trigger] take_spec(slots, h).0[k] == slots[k],
{
}

} // verus!
