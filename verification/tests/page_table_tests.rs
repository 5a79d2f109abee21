//! Page table: entry packing, the map/lookup/unmap round trip, re-map
//! rejection, and exhaustion during the walk.
use tos::address::{PPN, VPN};
use tos::frame_allocator::StackFrameAllocator;
use tos::page_table::{MapError, PTEFlags, PageTable, PTE, PTE_R, PTE_V, PTE_W};

fn fresh_alloc(pages: u64) -> StackFrameAllocator {
    let mut a = StackFrameAllocator::new();
    a.init(PPN(0x1000), PPN(0x1000 + pages));
    a
}

#[test]
fn pte_packs_and_unpacks() {
    let pte = PTE::new(PPN(0x80200), PTEFlags(PTE_V | PTE_R | PTE_W));
    assert_eq!(pte.ppn().0, 0x80200);
    assert_eq!(pte.flags().0, PTE_V | PTE_R | PTE_W);
    assert!(pte.is_valid());
    assert_eq!(pte.bits, (0x80200 << 10) | 0x07);
}

#[test]
fn empty_pte_is_invalid() {
    let pte = PTE::empty();
    assert_eq!(pte.bits, 0);
    assert!(!pte.is_valid());
    let no_valid_bit = PTE::new(PPN(5), PTEFlags(PTE_R));
    assert!(!no_valid_bit.is_valid());
}

#[test]
fn flag_set_algebra() {
    let rw = PTEFlags(PTE_R).union(PTEFlags(PTE_W));
    assert_eq!(rw.0, 0x06);
    assert_eq!(rw.intersect(PTEFlags(PTE_R)).0, PTE_R);
    assert!(rw.contains(PTEFlags(PTE_R)));
    assert!(!rw.contains(PTEFlags(PTE_V)));
    assert_eq!(PTEFlags::empty().0, 0);
}

#[test]
fn map_then_lookup_then_unmap_round_trip() {
    let mut alloc = fresh_alloc(16);
    let mut pt = PageTable::new(&mut alloc).unwrap();
    let vpn = VPN((1 << 18) | (2 << 9) | 3);
    let ppn = PPN(0x4242);
    assert_eq!(pt.map_one(vpn, ppn, PTEFlags(PTE_R | PTE_W), &mut alloc), Ok(()));
    // an immediate lookup yields the mapped page number with the valid
    // bit set
    let e = pt.read_entry(vpn);
    assert!(e.is_valid());
    assert_eq!(e.ppn().0, 0x4242);
    assert_eq!(e.flags().0, PTE_R | PTE_W | PTE_V);
    // unmapping leaves an invalid entry
    assert_eq!(pt.unmap(vpn), Ok(()));
    assert!(!pt.read_entry(vpn).is_valid());
}

#[test]
fn remapping_without_unmap_is_rejected() {
    let mut alloc = fresh_alloc(16);
    let mut pt = PageTable::new(&mut alloc).unwrap();
    let vpn = VPN(0x123);
    assert_eq!(pt.map_one(vpn, PPN(7), PTEFlags(PTE_R), &mut alloc), Ok(()));
    // the second map of the same page, with any target, is refused
    assert_eq!(
        pt.map_one(vpn, PPN(8), PTEFlags(PTE_R), &mut alloc),
        Err(MapError::AlreadyMapped)
    );
    // the original mapping is untouched
    assert_eq!(pt.read_entry(vpn).ppn().0, 7);
    // after an unmap the page can be mapped again
    assert_eq!(pt.unmap(vpn), Ok(()));
    assert_eq!(pt.map_one(vpn, PPN(8), PTEFlags(PTE_R), &mut alloc), Ok(()));
    assert_eq!(pt.read_entry(vpn).ppn().0, 8);
}

#[test]
fn unmapping_an_invalid_entry_is_rejected() {
    let mut alloc = fresh_alloc(16);
    let mut pt = PageTable::new(&mut alloc).unwrap();
    assert_eq!(pt.unmap(VPN(0x55)), Err(MapError::NotMapped));
}

#[test]
fn walk_fails_cleanly_when_frames_run_out() {
    // one frame: enough for the root, nothing for the walk
    let mut alloc = fresh_alloc(1);
    let mut pt = PageTable::new(&mut alloc).unwrap();
    assert_eq!(pt.needed_frames(VPN(0)), 2);
    assert_eq!(
        pt.map_one(VPN(0), PPN(1), PTEFlags(PTE_R), &mut alloc),
        Err(MapError::OutOfFrames)
    );
    // nothing was consumed or installed
    assert_eq!(pt.needed_frames(VPN(0)), 2);
    assert!(!pt.read_entry(VPN(0)).is_valid());
}

#[test]
fn creating_a_table_fails_cleanly_without_frames() {
    let mut alloc = fresh_alloc(0);
    assert!(PageTable::new(&mut alloc).is_err());
}

#[test]
fn walk_reuses_intermediate_tables_of_neighbours() {
    let mut alloc = fresh_alloc(8);
    let mut pt = PageTable::new(&mut alloc).unwrap();
    // first mapping creates a middle and a leaf table
    assert_eq!(pt.needed_frames(VPN(0x40)), 2);
    assert_eq!(pt.map_one(VPN(0x40), PPN(1), PTEFlags(PTE_R), &mut alloc), Ok(()));
    // a neighbour in the same leaf table needs no new frames
    assert_eq!(pt.needed_frames(VPN(0x41)), 0);
    // a page under the same middle table needs only a leaf table
    assert_eq!(pt.needed_frames(VPN(0x40 + 512)), 1);
}

#[test]
fn find_pte_creates_the_path_and_reports_the_entry() {
    let mut alloc = fresh_alloc(8);
    let mut pt = PageTable::new(&mut alloc).unwrap();
    let vpn = VPN(0x777);
    let e = pt.find_pte(vpn, &mut alloc).unwrap();
    assert!(!e.is_valid());
    assert_eq!(pt.needed_frames(vpn), 0);
    assert_eq!(pt.map_one(vpn, PPN(9), PTEFlags(PTE_R), &mut alloc), Ok(()));
    let e = pt.find_pte(vpn, &mut alloc).unwrap();
    assert!(e.is_valid());
    assert_eq!(e.ppn().0, 9);
}

#[test]
fn token_packs_mode_and_root_page_number() {
    let mut alloc = fresh_alloc(4);
    let pt = PageTable::new(&mut alloc).unwrap();
    // the root frame is the first page the allocator issued
    assert_eq!(pt.root.ppn.0, 0x1000);
    assert_eq!(pt.token(), (8u64 << 60) | 0x1000);
}

#[test]
fn congruent_page_numbers_share_a_leaf_entry() {
    let mut alloc = fresh_alloc(8);
    let mut pt = PageTable::new(&mut alloc).unwrap();
    let vpn = VPN(0x12345);
    assert_eq!(pt.map_one(vpn, PPN(3), PTEFlags(PTE_R), &mut alloc), Ok(()));
    // only the low 27 bits of a page number reach the radix walk
    let alias = VPN(0x12345 + (1 << 27));
    let e = pt.read_entry(alias);
    assert!(e.is_valid());
    assert_eq!(e.ppn().0, 3);
}

#[test]
fn find_pte_fails_cleanly_without_frames() {
    let mut alloc = fresh_alloc(1);
    let mut pt = PageTable::new(&mut alloc).unwrap();
    // the path to the page is missing and no frames are left to build it
    assert_eq!(pt.find_pte(VPN(0x99), &mut alloc), Err(MapError::OutOfFrames));
}
