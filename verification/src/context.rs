//! Saved processor contexts: the privilege mode, the trap frame a trap
//! handler receives, and the callee-saved task context used to switch
//! between kernel threads.
use vstd::prelude::*;

verus! {

/// The privilege mode a trap was taken from.
#[derive(Copy, Clone, Debug, PartialEq, Eq, Structural)]
pub enum Privilege {
    /// User mode.
    User,
    /// Supervisor mode.
    Supervisor,
}

/// The register snapshot saved on a trap, reduced to the plain values
/// the dispatcher reads: the general registers, the privilege mode the
/// processor came from, and the program counter at the trap.
pub struct TrapFrame {
    /// The general-purpose registers.
    pub x: [u64; 32],
    /// The privilege mode the trap was taken from.
    pub spp: Privilege,
    /// The saved program counter; execution resumes there.
    pub sepc: u64,
}

/// The callee-saved context of a suspended kernel thread.
pub struct TaskContextImpl {
    /// The return address the thread resumes at.
    pub ra: u64,
    /// The translation-root token of the thread's address space.
    pub satp: u64,
    /// The callee-saved registers.
    pub s: [u64; 12],
}

impl TaskContextImpl {
    /// Set the resume address, leaving the rest of the context alone.
    pub fn set_ra(&mut self, value: u64)
        ensures
            final(self).ra == value,
            final(self).satp == old(self).satp,
            final(self).s == old(self).s,
    {
        self.ra = value;
    }
}

} // verus!
