//! Backing store for the kernel heap.  The heap allocator itself is an
//! external collaborator; this module only defines the page-aligned
//! storage the kernel hands it at boot.
use vstd::prelude::*;

verus! {

/// Size of the kernel heap backing store in bytes.
pub const KERNEL_HEAP_BYTES: usize = 0x30_0000;

/// The kernel heap's backing store: a block of bytes handed to the heap
/// allocator once at boot.
pub struct HeapSpace(pub [u8; KERNEL_HEAP_BYTES]);

impl HeapSpace {
    /// The size of the backing store in bytes.
    pub fn len(&self) -> (r: usize)
        ensures
            r == KERNEL_HEAP_BYTES,
    {
        KERNEL_HEAP_BYTES
    }
}

} // verus!
