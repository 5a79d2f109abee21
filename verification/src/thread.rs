//! Thread-side bookkeeping the memory subsystem serves: thread-id
//! allocation with last-in-first-out reuse, and the kernel-stack range
//! each thread id is assigned below the top of the address space.
use vstd::prelude::*;

use crate::address::{VARange, VA};
use crate::config::{KERNEL_STACK_ALIGN_SIZE, KERNEL_STACK_SIZE, KERNEL_STACK_TOP};

verus! {

/// A thread id, owned by the thread for as long as it lives.
#[derive(Debug)]
pub struct Tid(pub u64);

/// Why a thread-id deallocation was refused; both cases are fatal usage
/// errors, detected loudly.
#[derive(Copy, Clone, Debug, PartialEq, Eq, Structural)]
pub enum TidError {
    /// The id was never issued.
    NotAllocated,
    /// The id is already in the recycle pool.
    DoubleFree,
}

/// Issues thread ids, reusing returned ids in last-in-first-out order
/// before extending the high-water mark.  Ids 0 and 1 are reserved for
/// the scheduling threads.
pub struct TidAllocator {
    /// The next never-issued id.
    pub current: u64,
    /// Returned ids, reissued in reverse order of their return.
    pub recycled: Vec<u64>,
}

impl TidAllocator {
    /// The bookkeeping is sound: recycled ids are distinct and below
    /// the high-water mark.
    pub open spec fn wf(self) -> bool {
        &&& forall|i: int| 0 <= i < self.recycled@.len() ==> self.recycled@[i] < self.current
        &&& forall|i: int, j: int|
            0 <= i < j < self.recycled@.len() ==> self.recycled@[i] != self.recycled@[j]
    }

    /// A fresh allocator with ids 0 and 1 reserved.
    pub fn new() -> (r: TidAllocator)
        ensures
            r.current == 2,
            r.recycled@ =~= Seq::<u64>::empty(),
            r.wf(),
    {
        TidAllocator { current: 2, recycled: Vec::new() }
    }

    /// Issue a thread id, preferring the most recently returned one.
    pub fn allocate(&mut self) -> (r: Tid)
        requires
            old(self).wf(),
            old(self).current < u64::MAX,
        ensures
            final(self).wf(),
            old(self).recycled@.len() > 0 ==> r.0 == old(self).recycled@.last() && final(self).recycled@ == old(self).recycled@.drop_last() && final(self).current == old(self).current,
            old(self).recycled@.len() == 0 ==> r.0 == old(self).current && final(self).current
                == old(self).current + 1 && final(self).recycled@ == old(self).recycled@,
    {
        if let Some(tid) = self.recycled.pop() {
            Tid(tid)
        } else {
            let tid = self.current;
            self.current = self.current + 1;
            Tid(tid)
        }
    }

    /// Return a thread id to the recycle pool; refused, as a detected
    /// fatal usage error, when the id was never issued or is already in
    /// the pool.
    #[verifier::loop_isolation(false)]
    pub fn dealloc(&mut self, tid: u64) -> (r: Result<(), TidError>)
        requires
            old(self).wf(),
        ensures
            final(self).wf(),
            final(self).current == old(self).current,
            tid >= old(self).current ==> r == Err::<(), TidError>(TidError::NotAllocated) && final(self).recycled@ == old(self).recycled@,
            tid < old(self).current && old(self).recycled@.contains(tid) ==> r == Err::<
                (),
                TidError,
            >(TidError::DoubleFree) && final(self).recycled@ == old(self).recycled@,
            tid < old(self).current && !old(self).recycled@.contains(tid) ==> r == Ok::<
                (),
                TidError,
            >(()) && final(self).recycled@ == old(self).recycled@.push(tid),
    {
        if tid >= self.current {
            return Err(TidError::NotAllocated);
        }
        let mut i: usize = 0;
        while i < self.recycled.len()
            invariant
                0 <= i <= self.recycled@.len(),
                forall|j: int| 0 <= j < i ==> self.recycled@[j] != tid,
                self.recycled@ == old(self).recycled@,
            decreases self.recycled@.len() - i,
        {
            if self.recycled[i] == tid {
                return Err(TidError::DoubleFree);
            }
            i = i + 1;
        }
        self.recycled.push(tid);
        Ok(())
    }
}

/// The kernel-stack address range assigned to the thread id `tid`: each
/// stack top sits one alignment step below the previous one, and the
/// stack occupies the top of its slot.
pub fn get_kernel_stack_range(tid: u64) -> (r: VARange)
    requires
        tid * KERNEL_STACK_ALIGN_SIZE + KERNEL_STACK_SIZE <= KERNEL_STACK_TOP,
    ensures
        r.end.0 == KERNEL_STACK_TOP - tid * KERNEL_STACK_ALIGN_SIZE,
        r.start.0 == r.end.0 - KERNEL_STACK_SIZE,
{
    let kernel_stack_top: u64 = KERNEL_STACK_TOP - tid * KERNEL_STACK_ALIGN_SIZE;
    VARange { start: VA(kernel_stack_top - KERNEL_STACK_SIZE), end: VA(kernel_stack_top) }
}

/// Kernel stacks never collide: the slots of two distinct thread ids
/// are disjoint address ranges, because each stack is smaller than the
/// alignment step between stack tops.
pub proof fn lemma_kernel_stacks_disjoint(t1: u64, t2: u64)
    requires
        t1 < t2,
        t2 * KERNEL_STACK_ALIGN_SIZE + KERNEL_STACK_SIZE <= KERNEL_STACK_TOP,
    ensures
        KERNEL_STACK_TOP - t2 * KERNEL_STACK_ALIGN_SIZE <= KERNEL_STACK_TOP - t1
            * KERNEL_STACK_ALIGN_SIZE - KERNEL_STACK_SIZE,
{
    assert(t1 * KERNEL_STACK_ALIGN_SIZE + KERNEL_STACK_ALIGN_SIZE <= t2 * KERNEL_STACK_ALIGN_SIZE)
        by (nonlinear_arith)
        requires
            t1 < t2,
    ;
}

} // verus!
