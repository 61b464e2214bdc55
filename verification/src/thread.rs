//! Per-thread state carried alongside a task: its saved trap context and
//! its signal words.

use vstd::prelude::*;

verus! {

/// The registers saved when a thread traps into the kernel: the 32
/// general-purpose registers, the user program counter and the status word.
#[derive(Clone, Copy, PartialEq, Eq, Debug)]
pub struct TrapContext {
    pub user_regs: [usize; 32],
    pub sepc: usize,
    pub sstatus: usize,
}

/// A set of signal numbers, one bit per signal.
#[derive(Clone, Copy, PartialEq, Eq, Structural, Debug)]
pub struct KSignalSet(pub u64);

/// Whether signal `n` is in the set.
pub open spec fn signal_in(s: KSignalSet, n: u64) -> bool {
    s.0 & (1u64 << n) != 0
}

impl KSignalSet {
    /// The empty set.
    pub fn empty() -> (r: KSignalSet)
        ensures
            r.0 == 0,
    {
        KSignalSet(0)
    }

    /// Whether signal `n` is pending in this set.
    pub fn contains(&self, n: u64) -> (r: bool)
        requires
            n < 64,
        ensures
            r == signal_in(*self, n),
    {
        self.0 & (1u64 << n) != 0
    }

    /// The set with signal `n` added.
    pub fn insert(&self, n: u64) -> (r: KSignalSet)
        requires
            n < 64,
        ensures
            r.0 == self.0 | (1u64 << n),
    {
        KSignalSet(self.0 | (1u64 << n))
    }
}

/// The mutable core of one thread: its saved trap context, the address
/// cleared on exit, and its signal mask and pending-signal queue.
pub struct ThreadInner {
    pub trap_context: TrapContext,
    pub clear_child_tid: usize,
    pub signal_mask: KSignalSet,
    pub pending_signal: KSignalSet,
}

} // verus!
