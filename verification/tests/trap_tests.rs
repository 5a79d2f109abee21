//! Trap classification, timer bookkeeping, thread ids, and contexts.
use tos::config::{KERNEL_STACK_SIZE, KERNEL_STACK_TOP, TICK_INTERVAL};
use tos::context::{Privilege, TaskContextImpl, TrapFrame};
use tos::thread::{get_kernel_stack_range, Tid, TidAllocator, TidError};
use tos::timer::{next_deadline, TickCounter};
use tos::trap::{decode_scause, frame_consistent, TrapAction, TrapCause, TrapImpl};

const INTERRUPT_BIT: u64 = 1 << 63;

fn kernel_frame(sepc: u64) -> TrapFrame {
    TrapFrame { x: [0; 32], spp: Privilege::Supervisor, sepc }
}

#[test]
fn decode_recognizes_the_dispatched_causes() {
    assert_eq!(decode_scause(INTERRUPT_BIT | 5), TrapCause::TimerInterrupt);
    assert_eq!(decode_scause(INTERRUPT_BIT | 9), TrapCause::ExternalInterrupt);
    assert_eq!(decode_scause(INTERRUPT_BIT | 1), TrapCause::OtherInterrupt);
    assert_eq!(decode_scause(3), TrapCause::Breakpoint);
    assert_eq!(decode_scause(12), TrapCause::InstructionPageFault);
    assert_eq!(decode_scause(13), TrapCause::LoadPageFault);
    assert_eq!(decode_scause(15), TrapCause::StorePageFault);
    assert_eq!(decode_scause(1), TrapCause::InstructionFault);
    assert_eq!(decode_scause(5), TrapCause::LoadFault);
    assert_eq!(decode_scause(7), TrapCause::StoreFault);
    assert_eq!(decode_scause(8), TrapCause::OtherException);
}

#[test]
fn timer_interrupts_take_the_tick_path() {
    let tf = kernel_frame(0xffff_ffc0_8020_0000);
    let action = TrapImpl::dispatch(&tf, INTERRUPT_BIT | 5, 0);
    assert_eq!(action, TrapAction::TimerTick);
}

#[test]
fn breakpoints_resume_past_the_instruction() {
    let tf = kernel_frame(0xffff_ffc0_8020_0100);
    let action = TrapImpl::dispatch(&tf, 3, 0);
    assert_eq!(action, TrapAction::BreakpointResume { resume_pc: 0xffff_ffc0_8020_0104 });
}

#[test]
fn page_faults_are_reported_with_full_context() {
    let tf = kernel_frame(0xffff_ffc0_8020_0200);
    let action = TrapImpl::dispatch(&tf, 13, 0xdead_b000);
    assert_eq!(
        action,
        TrapAction::FatalMemoryFault {
            cause: TrapCause::LoadPageFault,
            stval: 0xdead_b000,
            sepc: 0xffff_ffc0_8020_0200,
        }
    );
}

#[test]
fn unknown_causes_are_fatal_with_diagnostics() {
    let tf = kernel_frame(0xffff_ffc0_8020_0200);
    let action = TrapImpl::dispatch(&tf, 8, 0x42);
    assert_eq!(
        action,
        TrapAction::FatalUnsupported {
            cause: TrapCause::OtherException,
            stval: 0x42,
            sepc: 0xffff_ffc0_8020_0200,
        }
    );
}

#[test]
fn inconsistent_frames_abort_before_dispatch() {
    // a user-mode frame whose program counter lies in kernel space
    let tf = TrapFrame { x: [0; 32], spp: Privilege::User, sepc: 0xffff_ffc0_8020_0000 };
    assert!(!frame_consistent(&tf));
    assert_eq!(TrapImpl::dispatch(&tf, INTERRUPT_BIT | 5, 0), TrapAction::FatalFrameCorrupted);
    // a supervisor-mode frame in the low half is just as corrupt
    let tf = TrapFrame { x: [0; 32], spp: Privilege::Supervisor, sepc: 0x1000 };
    assert_eq!(TrapImpl::dispatch(&tf, 3, 0), TrapAction::FatalFrameCorrupted);
    // consistent frames of both modes pass the check
    assert!(frame_consistent(&TrapFrame { x: [0; 32], spp: Privilege::User, sepc: 0x1000 }));
    assert!(frame_consistent(&kernel_frame(0xffff_ffc0_0000_0000)));
}

#[test]
fn ticks_count_up_and_report_whole_seconds() {
    let mut counter = TickCounter::new();
    for _ in 0..99 {
        assert_eq!(counter.tick(), None);
    }
    assert_eq!(counter.tick(), Some(1));
    assert_eq!(counter.ticks, 100);
    for _ in 0..99 {
        assert_eq!(counter.tick(), None);
    }
    assert_eq!(counter.tick(), Some(2));
}

#[test]
fn next_deadline_is_one_interval_ahead() {
    assert_eq!(TICK_INTERVAL, 10_000_000 / 100 - 1);
    assert_eq!(next_deadline(0), TICK_INTERVAL);
    assert_eq!(next_deadline(1_000_000), 1_000_000 + TICK_INTERVAL);
}

#[test]
fn thread_ids_start_after_the_reserved_pair() {
    let mut tids = TidAllocator::new();
    assert_eq!(tids.allocate().0, 2);
    assert_eq!(tids.allocate().0, 3);
    assert_eq!(tids.allocate().0, 4);
}

#[test]
fn thread_ids_are_recycled_in_reverse_order() {
    let mut tids = TidAllocator::new();
    let a = tids.allocate();
    let b = tids.allocate();
    assert_eq!(tids.dealloc(a.0), Ok(()));
    assert_eq!(tids.dealloc(b.0), Ok(()));
    assert_eq!(tids.allocate().0, 3);
    assert_eq!(tids.allocate().0, 2);
}

#[test]
fn thread_id_misuse_is_detected() {
    let mut tids = TidAllocator::new();
    let Tid(t) = tids.allocate();
    assert_eq!(tids.dealloc(9), Err(TidError::NotAllocated));
    assert_eq!(tids.dealloc(t), Ok(()));
    assert_eq!(tids.dealloc(t), Err(TidError::DoubleFree));
}

#[test]
fn kernel_stacks_descend_by_thread_id() {
    let r0 = get_kernel_stack_range(0);
    assert_eq!(r0.end.0, KERNEL_STACK_TOP);
    assert_eq!(r0.start.0, KERNEL_STACK_TOP - KERNEL_STACK_SIZE);
    let r1 = get_kernel_stack_range(1);
    assert_eq!(r1.end.0, KERNEL_STACK_TOP - 0x4000);
    assert!(r1.end.0 <= r0.start.0);
}

#[test]
fn set_ra_changes_only_the_return_address() {
    let mut cx = TaskContextImpl { ra: 0, satp: 7, s: [3; 12] };
    cx.set_ra(0x8020_0000);
    assert_eq!(cx.ra, 0x8020_0000);
    assert_eq!(cx.satp, 7);
    assert_eq!(cx.s, [3; 12]);
}

#[test]
fn external_interrupts_are_not_supported_yet() {
    let tf = kernel_frame(0xffff_ffc0_8020_0000);
    let action = TrapImpl::dispatch(&tf, INTERRUPT_BIT | 9, 0);
    assert_eq!(
        action,
        TrapAction::FatalUnsupported {
            cause: TrapCause::ExternalInterrupt,
            stval: 0,
            sepc: 0xffff_ffc0_8020_0000,
        }
    );
}
