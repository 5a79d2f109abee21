//! Platform constants: page geometry, the kernel's linear-map offset and
//! the physical memory window, stack and heap sizes, and the timer rate.
use vstd::prelude::*;

verus! {

/// Offset of the kernel's linear mapping: a virtual address in the
/// kernel image equals the physical address plus this constant.
pub const KERNEL_MAP_OFFSET: u64 = 0xFFFF_FFC0_0000_0000;

/// Size of one page: `1 << PAGE_SIZE_BITS`.
pub const PAGE_SIZE: u64 = 0x1000;

/// Number of offset bits within a page.
pub const PAGE_SIZE_BITS: u64 = 12;

/// The kernel linear-map offset expressed in pages.
pub const KERNEL_MAP_OFFSET_PAGES: u64 = 0xF_FFFF_FC00_0000;

/// Size of a user stack.
pub const USER_STACK_SIZE: u64 = 0x2000;

/// Each kernel stack top is a multiple of `1 << KERNEL_STACK_ALIGN_BITS`.
pub const KERNEL_STACK_ALIGN_BITS: u64 = 14;

/// Alignment distance between kernel stack tops.
pub const KERNEL_STACK_ALIGN_SIZE: u64 = 0x4000;

/// Size of one kernel stack.
pub const KERNEL_STACK_SIZE: u64 = 0x2000;

/// Top of the highest kernel stack.
pub const KERNEL_STACK_TOP: u64 = u64::MAX - (KERNEL_STACK_ALIGN_SIZE - 1);

/// Size of the kernel heap backing store.
pub const KERNEL_HEAP_SIZE: u64 = 0x30_0000;

/// First virtual address of the physical-memory window.
pub const MEMORY_START: u64 = 0xFFFF_FFC0_8000_0000;

/// Size of the physical-memory window.
pub const MEMORY_SIZE: u64 = 0x80_0000;

/// One past the last virtual address of the physical-memory window.
pub const MEMORY_END: u64 = MEMORY_START + MEMORY_SIZE;

/// Platform clock frequency in ticks per second.
pub const CLOCK_FREQ: u64 = 10_000_000;

/// Timer interrupts per second.
pub const TICKS_PER_SEC: u64 = 100;

/// Clock ticks between two timer interrupts.
pub const TICK_INTERVAL: u64 = CLOCK_FREQ / TICKS_PER_SEC - 1;

/// The page-size constants agree: the page size is two to the
/// page-size bit width, and the offset in pages times the page size is
/// the byte offset.
pub proof fn lemma_config_consistent()
    ensures
        PAGE_SIZE == (1u64 << PAGE_SIZE_BITS),
        KERNEL_MAP_OFFSET_PAGES * PAGE_SIZE == KERNEL_MAP_OFFSET,
        KERNEL_STACK_ALIGN_SIZE == (1u64 << KERNEL_STACK_ALIGN_BITS),
{
    assert(0x1000u64 == 1u64 << 12) by (bit_vector);
    assert(0x4000u64 == 1u64 << 14) by (bit_vector);
}

} // verus!
