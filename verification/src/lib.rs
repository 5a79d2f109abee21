//! Virtual-memory subsystem of a small bare-metal kernel for a 64-bit
//! RISC-style processor with a three-level radix page table (SV39-style:
//! 4 KiB pages, 9-bit page-table indices per level).
//!
//! The crate covers the address-type algebra, the physical frame
//! allocator, the multi-level page table, the address-space abstraction
//! (mapped regions and their aggregate, the memory set), and the trap
//! dispatcher that classifies hardware trap causes.  Hardware access
//! (control registers, raw physical memory, the platform timer) is left
//! to the surrounding kernel; this crate holds the decisions and the
//! bookkeeping, with their contracts.
pub mod address;
pub mod config;
pub mod frame_allocator;
pub mod page_table;
pub mod space;
pub mod context;
pub mod trap;
pub mod timer;
pub mod thread;
pub mod heap_allocator;
