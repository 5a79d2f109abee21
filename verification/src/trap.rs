//! Trap dispatcher: a classification function over the hardware-reported
//! trap cause.  Timer interrupts advance the tick path, breakpoints
//! resume past the trapping instruction, page and access faults are
//! reported and (for now) fatal, and everything else is fatal with full
//! diagnostics.  The surrounding kernel reads the cause and value
//! registers, calls the dispatcher, and carries out the returned action.
use vstd::prelude::*;

use crate::context::{Privilege, TrapFrame};

verus! {

/// Highest user-space program counter: user-mode traps must come from
/// the low half of the address space.
pub const USER_PC_LIMIT: u64 = 0x0000_003f_ffff_ffff;

/// Lowest kernel-space program counter: supervisor-mode traps must come
/// from the kernel's mapped-offset region.
pub const KERNEL_PC_BASE: u64 = 0xffff_ffc0_0000_0000;

/// The decoded trap cause: the interrupt bit and cause code of the
/// hardware cause register, named.
#[derive(Copy, Clone, Debug, PartialEq, Eq, Structural)]
pub enum TrapCause {
    /// Supervisor timer interrupt.
    TimerInterrupt,
    /// Supervisor external interrupt.
    ExternalInterrupt,
    /// Any other interrupt.
    OtherInterrupt,
    /// Breakpoint instruction.
    Breakpoint,
    /// Page fault on an instruction fetch.
    InstructionPageFault,
    /// Page fault on a load.
    LoadPageFault,
    /// Page fault on a store.
    StorePageFault,
    /// Access fault on an instruction fetch.
    InstructionFault,
    /// Access fault on a load.
    LoadFault,
    /// Access fault on a store.
    StoreFault,
    /// Any other exception.
    OtherException,
}

/// Whether the cause register value reports an interrupt: its top bit.
pub open spec fn spec_is_interrupt(bits: u64) -> bool {
    bits >> 63 == 1
}

/// The cause code of the cause register value: all bits below the top.
pub open spec fn spec_cause_code(bits: u64) -> u64 {
    bits & 0x7fff_ffff_ffff_ffff
}

/// The decoded cause of a cause register value, by the architecture's
/// cause-code assignments.
pub open spec fn spec_decode(bits: u64) -> TrapCause {
    let code = spec_cause_code(bits);
    if spec_is_interrupt(bits) {
        if code == 5 {
            TrapCause::TimerInterrupt
        } else if code == 9 {
            TrapCause::ExternalInterrupt
        } else {
            TrapCause::OtherInterrupt
        }
    } else {
        if code == 3 {
            TrapCause::Breakpoint
        } else if code == 12 {
            TrapCause::InstructionPageFault
        } else if code == 13 {
            TrapCause::LoadPageFault
        } else if code == 15 {
            TrapCause::StorePageFault
        } else if code == 1 {
            TrapCause::InstructionFault
        } else if code == 5 {
            TrapCause::LoadFault
        } else if code == 7 {
            TrapCause::StoreFault
        } else {
            TrapCause::OtherException
        }
    }
}

/// Decode a raw cause register value.
pub fn decode_scause(bits: u64) -> (r: TrapCause)
    ensures
        r == spec_decode(bits),
{
    let is_interrupt: bool = (bits >> 63) == 1;
    let code: u64 = bits & 0x7fff_ffff_ffff_ffff;
    if is_interrupt {
        if code == 5 {
            TrapCause::TimerInterrupt
        } else if code == 9 {
            TrapCause::ExternalInterrupt
        } else {
            TrapCause::OtherInterrupt
        }
    } else {
        if code == 3 {
            TrapCause::Breakpoint
        } else if code == 12 {
            TrapCause::InstructionPageFault
        } else if code == 13 {
            TrapCause::LoadPageFault
        } else if code == 15 {
            TrapCause::StorePageFault
        } else if code == 1 {
            TrapCause::InstructionFault
        } else if code == 5 {
            TrapCause::LoadFault
        } else if code == 7 {
            TrapCause::StoreFault
        } else {
            TrapCause::OtherException
        }
    }
}

/// Whether the decoded cause is one of the page or access faults the
/// dispatcher reports as a (for now) fatal memory fault.
pub open spec fn spec_is_memory_fault(c: TrapCause) -> bool {
    ||| c == TrapCause::InstructionPageFault
    ||| c == TrapCause::LoadPageFault
    ||| c == TrapCause::StorePageFault
    ||| c == TrapCause::InstructionFault
    ||| c == TrapCause::LoadFault
    ||| c == TrapCause::StoreFault
}

/// What the kernel must do after classifying a trap.
#[derive(Copy, Clone, Debug, PartialEq, Eq, Structural)]
pub enum TrapAction {
    /// Advance the tick counter and re-arm the timer, then return at
    /// once; this path must not recursively take traps.
    TimerTick,
    /// Run the breakpoint handler and resume at the given program
    /// counter, past the breakpoint instruction.
    BreakpointResume {
        /// The program counter to resume at.
        resume_pc: u64,
    },
    /// Report the memory fault — cause, faulting address, program
    /// counter — and halt: the designed extension point for a future
    /// demand-paging policy.
    FatalMemoryFault {
        /// The decoded cause.
        cause: TrapCause,
        /// The faulting address the hardware reported.
        stval: u64,
        /// The program counter at the trap.
        sepc: u64,
    },
    /// Report the unrecognized cause with full diagnostics and halt.
    FatalUnsupported {
        /// The decoded cause.
        cause: TrapCause,
        /// The value register the hardware reported.
        stval: u64,
        /// The program counter at the trap.
        sepc: u64,
    },
    /// The saved privilege mode and program counter contradict each
    /// other: the trap frame is corrupt, abort rather than proceed.
    FatalFrameCorrupted,
}

/// The entry invariant: the saved privilege mode and saved program
/// counter are mutually consistent — a user-mode program counter lies in
/// the low half of the address space, a supervisor-mode one in the
/// kernel's mapped-offset region.
pub open spec fn spec_frame_consistent(tf: TrapFrame) -> bool {
    ||| (tf.spp == Privilege::User && tf.sepc <= USER_PC_LIMIT)
    ||| (tf.spp == Privilege::Supervisor && tf.sepc >= KERNEL_PC_BASE)
}

/// Check the trap-entry invariant on a saved frame.
pub fn frame_consistent(tf: &TrapFrame) -> (r: bool)
    ensures
        r == spec_frame_consistent(*tf),
{
    match tf.spp {
        Privilege::User => tf.sepc <= USER_PC_LIMIT,
        Privilege::Supervisor => tf.sepc >= KERNEL_PC_BASE,
    }
}

/// The breakpoint handler; currently nothing to do.
pub fn breakpoint(sepc: &mut u64)
    ensures
        *final(sepc) == *old(sepc),
{
}

/// The page-fault handler: the single place a recoverable policy would
/// be inserted; currently nothing to do before the dispatcher halts.
pub fn handle_pagefault(stval: u64) {
}

/// The trap dispatcher.
pub struct TrapImpl;

impl TrapImpl {
    /// Classify one trap: checks the entry invariant, decodes the
    /// cause, and returns the action the kernel must carry out.
    pub fn dispatch(tf: &TrapFrame, scause: u64, stval: u64) -> (r: TrapAction)
        ensures
            !spec_frame_consistent(*tf) ==> r == TrapAction::FatalFrameCorrupted,
            spec_frame_consistent(*tf) && spec_decode(scause) == TrapCause::TimerInterrupt ==> r
                == TrapAction::TimerTick,
            spec_frame_consistent(*tf) && spec_decode(scause) == TrapCause::Breakpoint ==> r
                == (TrapAction::BreakpointResume {
                resume_pc: vstd::wrapping::u64_specs::wrapping_add(tf.sepc, 4),
            }),
            spec_frame_consistent(*tf) && spec_is_memory_fault(spec_decode(scause)) ==> r
                == (TrapAction::FatalMemoryFault { cause: spec_decode(scause), stval, sepc: tf.sepc }),
            spec_frame_consistent(*tf) && spec_decode(scause) != TrapCause::TimerInterrupt
                && spec_decode(scause) != TrapCause::Breakpoint && !spec_is_memory_fault(
                spec_decode(scause),
            ) ==> r == (TrapAction::FatalUnsupported {
                cause: spec_decode(scause),
                stval,
                sepc: tf.sepc,
            }),
    {
        if !frame_consistent(tf) {
            return TrapAction::FatalFrameCorrupted;
        }
        let cause = decode_scause(scause);
        match cause {
            TrapCause::TimerInterrupt => TrapAction::TimerTick,
            TrapCause::Breakpoint => {
                let mut sepc = tf.sepc;
                breakpoint(&mut sepc);
                TrapAction::BreakpointResume { resume_pc: sepc.wrapping_add(4) }
            },
            TrapCause::InstructionPageFault
            | TrapCause::LoadPageFault
            | TrapCause::StorePageFault
            | TrapCause::InstructionFault
            | TrapCause::LoadFault
            | TrapCause::StoreFault => {
                handle_pagefault(stval);
                TrapAction::FatalMemoryFault { cause, stval, sepc: tf.sepc }
            },
            _ => TrapAction::FatalUnsupported { cause, stval, sepc: tf.sepc },
        }
    }
}

} // verus!
