//! Frame allocator: issue, recycling order, exhaustion, double-free
//! detection.
use tos::address::PPN;
use tos::frame_allocator::{Frame, FrameDeallocError, StackFrameAllocator};

fn fresh(start: u64, end: u64) -> StackFrameAllocator {
    let mut a = StackFrameAllocator::new();
    a.init(PPN(start), PPN(end));
    a
}

#[test]
fn allocates_ascending_from_the_range_start() {
    let mut a = fresh(0x100, 0x110);
    assert_eq!(a.allocate().unwrap().ppn.0, 0x100);
    assert_eq!(a.allocate().unwrap().ppn.0, 0x101);
    assert_eq!(a.allocate().unwrap().ppn.0, 0x102);
}

#[test]
fn exhaustion_returns_none_not_a_crash() {
    // a range of exactly three free pages
    let mut a = fresh(7, 10);
    assert!(a.allocate().is_some());
    assert!(a.allocate().is_some());
    assert!(a.allocate().is_some());
    // the fourth allocation is absent, not fatal
    assert!(a.allocate().is_none());
    // and stays absent
    assert!(a.allocate().is_none());
}

#[test]
fn no_two_live_frames_share_a_page_number() {
    let mut a = fresh(0, 8);
    let mut live: Vec<Frame> = Vec::new();
    for _ in 0..4 {
        live.push(a.allocate().unwrap());
    }
    // return two, then allocate three more
    let f = live.remove(1);
    a.dealloc_frame(f).unwrap();
    let f = live.remove(2);
    a.dealloc_frame(f).unwrap();
    for _ in 0..3 {
        live.push(a.allocate().unwrap());
    }
    for i in 0..live.len() {
        for j in (i + 1)..live.len() {
            assert_ne!(live[i].ppn.0, live[j].ppn.0);
        }
    }
}

#[test]
fn recycled_pages_are_reused_in_reverse_order() {
    let mut a = fresh(0, 0x100);
    let mut frames: Vec<Frame> = Vec::new();
    for _ in 0..5 {
        frames.push(a.allocate().unwrap());
    }
    let first_batch: Vec<u64> = frames.iter().map(|f| f.ppn.0).collect();
    assert_eq!(first_batch, vec![0, 1, 2, 3, 4]);
    // drop all five, in order of allocation
    for f in frames {
        a.dealloc_frame(f).unwrap();
    }
    // the second batch reuses exactly the recycled pages, last-released
    // first, without extending the high-water mark
    let mut second_batch: Vec<u64> = Vec::new();
    for _ in 0..5 {
        second_batch.push(a.allocate().unwrap().ppn.0);
    }
    assert_eq!(second_batch, vec![4, 3, 2, 1, 0]);
    // the next allocation extends the high-water mark again
    assert_eq!(a.allocate().unwrap().ppn.0, 5);
}

#[test]
fn double_free_in_a_row_is_detected() {
    let mut a = fresh(0, 4);
    let f = a.allocate().unwrap();
    let ppn = f.ppn;
    assert_eq!(a.dealloc_frame(f), Ok(()));
    // freeing the same page again without an intervening allocation
    assert_eq!(a.dealloc(ppn), Err(FrameDeallocError::DoubleFree));
}

#[test]
fn freeing_an_unissued_page_is_detected() {
    let mut a = fresh(0, 4);
    let _f = a.allocate().unwrap();
    // page 3 is above the high-water mark: never issued
    assert_eq!(a.dealloc(PPN(3)), Err(FrameDeallocError::NotAllocated));
}

#[test]
fn has_free_counts_pool_and_range() {
    let mut a = fresh(0, 2);
    assert!(a.has_free(2));
    assert!(!a.has_free(3));
    let f = a.allocate().unwrap();
    assert!(a.has_free(1));
    assert!(!a.has_free(2));
    a.dealloc_frame(f).unwrap();
    assert!(a.has_free(2));
}

#[test]
fn releasing_an_unissued_frame_is_detected() {
    let mut a = fresh(0, 8);
    let r = a.release_frames(vec![Frame::new(PPN(0x5000))]);
    assert_eq!(r, Err(FrameDeallocError::NotAllocated));
}

#[test]
fn releasing_a_page_twice_in_one_batch_is_detected() {
    let mut a = fresh(0, 8);
    let f = a.allocate().unwrap();
    let p = f.ppn;
    let r = a.release_frames(vec![f, Frame::new(p)]);
    assert_eq!(r, Err(FrameDeallocError::DoubleFree));
}

#[test]
fn releasing_a_batch_returns_every_page() {
    let mut a = fresh(0, 8);
    let mut batch = Vec::new();
    for _ in 0..4 {
        batch.push(a.allocate().unwrap());
    }
    assert!(!a.has_free(5));
    assert_eq!(a.release_frames(batch), Ok(()));
    assert!(a.has_free(8));
}
