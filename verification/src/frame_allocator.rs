//! Physical frame allocator: issues ownership-tracked frame handles from
//! a fixed range of physical page numbers, preferring recycled pages in
//! last-in-first-out order over extending the high-water mark, and
//! detecting deallocation of pages it never issued.
use vstd::prelude::*;

use crate::address::PPN;

verus! {

/// Ownership handle over one physical page frame.  A frame is created
/// only by the allocator and returned to it when its holder is done;
/// the handle is deliberately neither copyable nor cloneable.
#[derive(Debug)]
pub struct Frame {
    /// The physical page number this handle owns.
    pub ppn: PPN,
}

impl Frame {
    /// Wrap a page number in a frame handle.  The allocator is not
    /// told to zero pages; holders that need zeroed memory clear the
    /// page themselves.
    pub fn new(ppn: PPN) -> (r: Frame)
        ensures
            r.ppn == ppn,
    {
        Frame { ppn }
    }
}

/// Why a deallocation was refused; each case is a fatal usage error for
/// the kernel, detected loudly rather than ignored.
#[derive(Copy, Clone, Debug, PartialEq, Eq, Structural)]
pub enum FrameDeallocError {
    /// The page number lies at or above the high-water mark, so it was
    /// never issued by this allocator.
    NotAllocated,
    /// The page number is already in the recycle pool.
    DoubleFree,
}

/// Stack-style frame allocator over the physical page-number range
/// `[current, end)`, with a last-in-first-out pool of recycled pages.
pub struct StackFrameAllocator {
    /// First physical page number never yet issued (the high-water mark).
    pub current: u64,
    /// One past the last physical page number available for issue.
    pub end: u64,
    /// Page numbers returned to the allocator, reissued in reverse
    /// order of their return.
    pub recycled: Vec<u64>,
}

impl StackFrameAllocator {
    /// The allocator's bookkeeping is sound: the range bounds are
    /// ordered and the recycle pool holds distinct page numbers, all
    /// below the high-water mark.
    pub open spec fn wf(self) -> bool {
        &&& self.current <= self.end
        &&& forall|i: int| 0 <= i < self.recycled@.len() ==> self.recycled@[i] < self.current
        &&& forall|i: int, j: int|
            0 <= i < j < self.recycled@.len() ==> self.recycled@[i] != self.recycled@[j]
    }

    /// Whether the page number `p` is currently issued to some holder:
    /// below the high-water mark and not in the recycle pool.
    pub open spec fn live(self, p: u64) -> bool {
        p < self.current && !self.recycled@.contains(p)
    }

    /// How many more allocations can succeed before the range is
    /// exhausted.
    pub open spec fn free_count(self) -> int {
        self.recycled@.len() + self.end - self.current
    }

    /// The exact effect of a successful allocation: the page `p` is
    /// issued — the most recently recycled page if any is pooled,
    /// otherwise the high-water mark, which then advances.
    pub open spec fn issues_page(pre: StackFrameAllocator, post: StackFrameAllocator, p: u64) -> bool {
        &&& post.end == pre.end
        &&& if pre.recycled@.len() > 0 {
            &&& p == pre.recycled@.last()
            &&& post.recycled@ == pre.recycled@.drop_last()
            &&& post.current == pre.current
        } else {
            &&& pre.current < pre.end
            &&& p == pre.current
            &&& post.current == pre.current + 1
            &&& post.recycled@ == pre.recycled@
        }
    }

    /// The exact effect of a successful deallocation: the page `p` goes
    /// to the back of the recycle pool and nothing else moves.
    pub open spec fn returns_page(pre: StackFrameAllocator, post: StackFrameAllocator, p: u64) -> bool {
        &&& pre.live(p)
        &&& post.recycled@ == pre.recycled@.push(p)
        &&& post.current == pre.current
        &&& post.end == pre.end
    }

    /// An allocator with an empty range; unusable until `init` sets the
    /// free range.
    pub fn new() -> (r: StackFrameAllocator)
        ensures
            r.current == 0,
            r.end == 0,
            r.recycled@ =~= Seq::<u64>::empty(),
            r.wf(),
    {
        StackFrameAllocator { current: 0, end: 0, recycled: Vec::new() }
    }

    /// Establish the free physical page-number range `[c, e)`.  Must run
    /// exactly once, before any allocation.
    pub fn init(&mut self, c: PPN, e: PPN)
        requires
            old(self).recycled@.len() == 0,
            c.0 <= e.0,
        ensures
            final(self).current == c.0,
            final(self).end == e.0,
            final(self).recycled@ == old(self).recycled@,
            final(self).wf(),
    {
        self.current = c.0;
        self.end = e.0;
    }

    /// Issue a fresh frame, preferring the most recently recycled page
    /// number over extending the high-water mark; absent (not fatal)
    /// once the range is exhausted with nothing recycled.
    ///
    /// No double issue: the returned page number was not live before
    /// the call, is live after it, and no other page changes state, so
    /// no two frames issued and not yet returned ever share a page
    /// number.
    pub fn allocate(&mut self) -> (r: Option<Frame>)
        requires
            old(self).wf(),
        ensures
            final(self).wf(),
            final(self).end == old(self).end,
            // Exhaustion: absent exactly when nothing is recycled and
            // the high-water mark has reached the end of the range.
            r is None <==> old(self).free_count() == 0,
            r is None ==> final(self).current == old(self).current && final(self).recycled@
                == old(self).recycled@,
            // Recycled pages are reused first, in reverse order of
            // their return.
            old(self).recycled@.len() > 0 ==> (r matches Some(f) && f.ppn.0 == old(self).recycled@.last() && final(self).recycled@ == old(self).recycled@.drop_last()
                && final(self).current == old(self).current),
            // Otherwise the high-water mark advances.
            old(self).recycled@.len() == 0 && old(self).current < old(self).end ==> (r matches
                Some(f) && f.ppn.0 == old(self).current && final(self).current == old(self).current + 1 && final(self).recycled@ == old(self).recycled@),
            // Freshness and framing of the live set.
            r matches Some(f) ==> !old(self).live(f.ppn.0) && final(self).live(f.ppn.0),
            r matches Some(f) ==> forall|p: u64|
                p != f.ppn.0 ==> final(self).live(p) == old(self).live(p),
            r matches Some(f) ==> final(self).free_count() == old(self).free_count() - 1,
            r matches Some(f) ==> StackFrameAllocator::issues_page(
                *old(self),
                *final(self),
                f.ppn.0,
            ),
    {
        if let Some(ppn) = self.recycled.pop() {
            proof {
                assert(old(self).recycled@.drop_last().contains(ppn) ==> exists|i: int|
                    0 <= i < old(self).recycled@.len() - 1 && old(self).recycled@[i] == ppn);
                assert forall|p: u64| p != ppn implies self.live(p) == old(self).live(p) by {
                    if old(self).recycled@.contains(p) {
                        let i = choose|i: int|
                            0 <= i < old(self).recycled@.len() && old(self).recycled@[i] == p;
                        assert(i < old(self).recycled@.len() - 1);
                        assert(self.recycled@[i] == p);
                    }
                    if self.recycled@.contains(p) {
                        let i = choose|i: int|
                            0 <= i < self.recycled@.len() && self.recycled@[i] == p;
                        assert(old(self).recycled@[i] == p);
                    }
                }
            }
            Some(Frame::new(PPN(ppn)))
        } else if self.current == self.end {
            None
        } else {
            let ppn = self.current;
            self.current = self.current + 1;
            Some(Frame::new(PPN(ppn)))
        }
    }

    /// Whether at least `n` more allocations can succeed.
    pub fn has_free(&self, n: u64) -> (r: bool)
        requires
            self.wf(),
        ensures
            r == (self.free_count() >= n),
    {
        let pooled: u64 = self.recycled.len() as u64;
        if pooled >= n {
            true
        } else {
            self.end - self.current >= n - pooled
        }
    }

    /// Return the page number `ppn` to the recycle pool; refused, as a
    /// detected fatal usage error, when the page was never issued or is
    /// already in the pool (a double free).
    pub fn dealloc(&mut self, ppn: PPN) -> (r: Result<(), FrameDeallocError>)
        requires
            old(self).wf(),
        ensures
            final(self).wf(),
            final(self).current == old(self).current,
            final(self).end == old(self).end,
            ppn.0 >= old(self).current ==> r == Err::<(), FrameDeallocError>(
                FrameDeallocError::NotAllocated,
            ) && final(self).recycled@ == old(self).recycled@,
            ppn.0 < old(self).current && old(self).recycled@.contains(ppn.0) ==> r == Err::<
                (),
                FrameDeallocError,
            >(FrameDeallocError::DoubleFree) && final(self).recycled@ == old(self).recycled@,
            // Exactly the live page stops being live.
            old(self).live(ppn.0) ==> r == Ok::<(), FrameDeallocError>(()) && final(self).recycled@ == old(self).recycled@.push(ppn.0),
            r is Ok ==> !final(self).live(ppn.0) && forall|p: u64|
                p != ppn.0 ==> final(self).live(p) == old(self).live(p),
            r is Ok ==> final(self).free_count() == old(self).free_count() + 1,
            r is Ok ==> StackFrameAllocator::returns_page(*old(self), *final(self), ppn.0),
    {
        if ppn.0 >= self.current {
            return Err(FrameDeallocError::NotAllocated);
        }
        if vec_contains(&self.recycled, ppn.0) {
            return Err(FrameDeallocError::DoubleFree);
        }
        self.recycled.push(ppn.0);
        proof {
            assert forall|p: u64| p != ppn.0 implies self.live(p) == old(self).live(p) by {
                if old(self).recycled@.contains(p) {
                    let i = choose|i: int|
                        0 <= i < old(self).recycled@.len() && old(self).recycled@[i] == p;
                    assert(self.recycled@[i] == p);
                }
                if self.recycled@.contains(p) {
                    let i = choose|i: int|
                        0 <= i < self.recycled@.len() && self.recycled@[i] == p;
                    assert(i < self.recycled@.len() - 1);
                    assert(old(self).recycled@[i] == p);
                }
            }
            assert(self.recycled@.last() == ppn.0);
        }
        Ok(())
    }

    /// Consume a frame handle and return its page to the recycle pool.
    pub fn dealloc_frame(&mut self, frame: Frame) -> (r: Result<(), FrameDeallocError>)
        requires
            old(self).wf(),
        ensures
            final(self).wf(),
            final(self).current == old(self).current,
            final(self).end == old(self).end,
            r is Ok <==> old(self).live(frame.ppn.0),
            r is Ok ==> final(self).recycled@ == old(self).recycled@.push(frame.ppn.0),
            r is Ok ==> !final(self).live(frame.ppn.0) && forall|p: u64|
                p != frame.ppn.0 ==> final(self).live(p) == old(self).live(p),
            r is Ok ==> final(self).free_count() == old(self).free_count() + 1,
            r is Err ==> final(self).recycled@ == old(self).recycled@,
    {
        self.dealloc(frame.ppn)
    }
}

/// No double issue: across any two consecutive successful allocations,
/// the issued pages differ, and both are live afterwards — by
/// induction, no two frames issued and not yet returned ever hold the
/// same page number.
pub proof fn lemma_no_double_issue(
    a0: StackFrameAllocator,
    a1: StackFrameAllocator,
    a2: StackFrameAllocator,
    p1: u64,
    p2: u64,
)
    requires
        a0.wf(),
        a1.wf(),
        StackFrameAllocator::issues_page(a0, a1, p1),
        !a0.live(p1),
        a1.live(p1),
        forall|q: u64| q != p1 ==> a1.live(q) == a0.live(q),
        StackFrameAllocator::issues_page(a1, a2, p2),
        !a1.live(p2),
        a2.live(p2),
        forall|q: u64| q != p2 ==> a2.live(q) == a1.live(q),
    ensures
        p1 != p2,
        a2.live(p1),
        a2.live(p2),
{
}

/// Last-in-first-out reuse: after two pages are returned, the next two
/// allocations reissue exactly those pages, in reverse order of their
/// release, without moving the high-water mark.
pub proof fn lemma_lifo_reuse(
    a0: StackFrameAllocator,
    a1: StackFrameAllocator,
    a2: StackFrameAllocator,
    a3: StackFrameAllocator,
    a4: StackFrameAllocator,
    p: u64,
    q: u64,
    r1: u64,
    r2: u64,
)
    requires
        StackFrameAllocator::returns_page(a0, a1, p),
        StackFrameAllocator::returns_page(a1, a2, q),
        StackFrameAllocator::issues_page(a2, a3, r1),
        StackFrameAllocator::issues_page(a3, a4, r2),
    ensures
        r1 == q,
        r2 == p,
        a4.current == a0.current,
        a4.recycled@ == a0.recycled@,
{
    assert(a2.recycled@ == a0.recycled@.push(p).push(q));
    assert(a3.recycled@ == a0.recycled@.push(p)) by {
        assert(a2.recycled@.drop_last() =~= a0.recycled@.push(p));
    }
    assert(a4.recycled@ =~= a0.recycled@);
}

/// Whether some frame at index `lo` or later holds the page `p`.
pub open spec fn frames_contain(fs: Seq<Frame>, lo: int, p: u64) -> bool {
    exists|k: int| lo <= k < fs.len() && fs[k].ppn.0 == p
}

impl StackFrameAllocator {
    /// Return a batch of owned frames, e.g. at teardown of the structure
    /// that held them.  Refused exactly when some page of the batch is
    /// not live or the batch repeats a page — either way the ownership
    /// bookkeeping is corrupt, a fatal kernel bug.
    #[verifier::loop_isolation(false)]
    #[verifier::rlimit(30)]
    pub fn release_frames(&mut self, frames: Vec<Frame>) -> (r: Result<(), FrameDeallocError>)
        requires
            old(self).wf(),
        ensures
            final(self).wf(),
            final(self).current == old(self).current,
            final(self).end == old(self).end,
            final(self).free_count() >= old(self).free_count(),
            forall|p: u64| final(self).live(p) ==> old(self).live(p),
            forall|p: u64| !frames_contain(frames@, 0, p) ==> final(self).live(p) == old(self).live(p),
            r is Ok <==> (forall|k: int|
                0 <= k < frames@.len() ==> old(self).live(#[trigger] frames@[k].ppn.0)) && (forall|
                k1: int,
                k2: int,
            |
                0 <= k1 < k2 < frames@.len() ==> frames@[k1].ppn.0 != frames@[k2].ppn.0),
            r is Ok ==> final(self).free_count() == old(self).free_count() + frames@.len(),
            r is Ok ==> forall|k: int|
                0 <= k < frames@.len() ==> !final(self).live(#[trigger] frames@[k].ppn.0),
    {
        let ghost orig = frames@;
        let mut frames = frames;
        proof {
            assert(frames@ =~= orig.subrange(0, orig.len() as int));
        }
        while frames.len() > 0
            invariant
                frames@.len() <= orig.len(),
                frames@ == orig.subrange(0, frames@.len() as int),
                self.wf(),
                self.current == old(self).current,
                self.end == old(self).end,
                self.free_count() == old(self).free_count() + orig.len() - frames@.len(),
                forall|k: int|
                    frames@.len() <= k < orig.len() ==> old(self).live(#[trigger] orig[k].ppn.0),
                forall|k1: int, k2: int|
                    frames@.len() <= k1 < k2 < orig.len() ==> orig[k1].ppn.0 != orig[k2].ppn.0,
                forall|p: u64|
                    self.live(p) == (old(self).live(p) && !frames_contain(
                        orig,
                        frames@.len() as int,
                        p,
                    )),
            decreases frames@.len(),
        {
            let ghost n = frames@.len() as int;
            let ghost pre_frames = frames@;
            let f = match frames.pop() {
                Some(f) => f,
                None => {
                    proof {
                        assert(false);
                    }
                    return Err(FrameDeallocError::NotAllocated);
                },
            };
            let ghost p0 = f.ppn.0;
            proof {
                assert(pre_frames == orig.subrange(0, n));
                assert(orig.subrange(0, n)[n - 1] == orig[n - 1]);
                assert(f == orig[n - 1]);
                assert(frames@ == pre_frames.subrange(0, n - 1));
                assert(frames@ =~= orig.subrange(0, n - 1));
            }
            let ghost pre = *self;
            match self.dealloc_frame(f) {
                Ok(_) => {
                    proof {
                        assert(pre.live(p0));
                        assert(old(self).live(p0) && !frames_contain(orig, n, p0));
                        assert forall|p: u64|
                            self.live(p) == (old(self).live(p) && !frames_contain(
                                orig,
                                n - 1,
                                p,
                            )) by {
                            if p != p0 {
                                assert(self.live(p) == pre.live(p));
                                assert(frames_contain(orig, n - 1, p) == frames_contain(
                                    orig,
                                    n,
                                    p,
                                )) by {
                                    if frames_contain(orig, n - 1, p) {
                                        let k = choose|k: int|
                                            n - 1 <= k < orig.len() && orig[k].ppn.0 == p;
                                        assert(k >= n);
                                    }
                                }
                            } else {
                                assert(frames_contain(orig, n - 1, p0));
                            }
                        }
                    }
                },
                Err(e) => {
                    proof {
                        assert(!pre.live(p0));
                        if old(self).live(p0) {
                            assert(frames_contain(orig, n, p0));
                            let k = choose|k: int| n <= k < orig.len() && orig[k].ppn.0 == p0;
                            assert(orig[n - 1].ppn.0 == orig[k].ppn.0);
                        }
                        assert forall|p: u64|
                            !frames_contain(orig, 0, p) implies self.live(p) == old(self).live(
                            p,
                        ) by {
                            if frames_contain(orig, n, p) {
                                let k = choose|k: int| n <= k < orig.len() && orig[k].ppn.0 == p;
                                assert(frames_contain(orig, 0, p));
                            }
                        }
                    }
                    return Err(e);
                },
            }
        }
        proof {
            assert(orig.subrange(0, 0) =~= Seq::<Frame>::empty());
            assert forall|p: u64|
                !frames_contain(orig, 0, p) implies self.live(p) == old(self).live(p) by {}
        }
        Ok(())
    }
}

/// A run of `k` consecutive successful allocations: `states` holds the
/// allocator before and after each one, `pages` the issued page numbers.
pub open spec fn issues_run(states: Seq<StackFrameAllocator>, pages: Seq<u64>) -> bool {
    &&& states.len() == pages.len() + 1
    &&& forall|i: int|
        0 <= i < pages.len() ==> StackFrameAllocator::issues_page(
            states[i],
            states[i + 1],
            #[trigger] pages[i],
        )
}

/// Last-in-first-out reuse at any depth: when the recycle pool ends
/// with the pages `qs` (in order of their return), the next `qs.len()`
/// allocations reissue exactly those pages in reverse order of release,
/// never move the high-water mark, and leave the pool as it was before
/// the `qs` were returned.
pub proof fn lemma_lifo_reuse_general(
    states: Seq<StackFrameAllocator>,
    pages: Seq<u64>,
    base: Seq<u64>,
    qs: Seq<u64>,
)
    requires
        issues_run(states, pages),
        pages.len() == qs.len(),
        states[0].recycled@ == base + qs,
    ensures
        forall|i: int| 0 <= i < pages.len() ==> pages[i] == qs[qs.len() - 1 - i],
        states.last().recycled@ =~= base,
        states.last().current == states[0].current,
    decreases qs.len(),
{
    if qs.len() == 0 {
        assert(states.last() == states[0]);
        assert(states[0].recycled@ =~= base);
    } else {
        assert(StackFrameAllocator::issues_page(states[0], states[1], pages[0]));
        assert(states[0].recycled@.last() == qs.last());
        assert(states[1].recycled@ =~= base + qs.drop_last()) by {
            assert((base + qs).drop_last() =~= base + qs.drop_last());
        }
        let states2 = states.subrange(1, states.len() as int);
        let pages2 = pages.subrange(1, pages.len() as int);
        assert(issues_run(states2, pages2)) by {
            assert forall|i: int|
                0 <= i < pages2.len() implies StackFrameAllocator::issues_page(
                states2[i],
                states2[i + 1],
                #[trigger] pages2[i],
            ) by {
                assert(StackFrameAllocator::issues_page(
                    states[i + 1],
                    states[i + 2],
                    pages[i + 1],
                ));
            }
        }
        lemma_lifo_reuse_general(states2, pages2, base, qs.drop_last());
        assert(states2.last() == states.last());
        assert forall|i: int| 0 <= i < pages.len() implies pages[i] == qs[qs.len() - 1 - i] by {
            if i > 0 {
                assert(pages2[i - 1] == qs.drop_last()[qs.len() - 1 - i]);
            }
        }
    }
}

/// Whether the vector holds the value `x`.
fn vec_contains(v: &Vec<u64>, x: u64) -> (r: bool)
    ensures
        r == v@.contains(x),
{
    let mut i: usize = 0;
    while i < v.len()
        invariant
            0 <= i <= v@.len(),
            forall|j: int| 0 <= j < i ==> v@[j] != x,
        decreases v@.len() - i,
    {
        if v[i] == x {
            return true;
        }
        i = i + 1;
    }
    false
}

} // verus!
