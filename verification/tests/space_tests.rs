//! Address spaces: regions, linear-mapping identity, framed regions,
//! region conflicts, population policies, and the kernel memory set.
use tos::address::{VARange, VA, VPN};
use tos::config::{KERNEL_MAP_OFFSET, KERNEL_MAP_OFFSET_PAGES, MEMORY_END};
use tos::frame_allocator::StackFrameAllocator;
use tos::page_table::PTE_V;
use tos::space::{
    populate_policy, KernelLayout, MapArea, MapPermission, MapType, MemorySet, PopulatePolicy,
    SpaceError, MAP_PERM_R, MAP_PERM_RW, MAP_PERM_RX, MAP_PERM_W, MAP_PERM_X,
};

const PPN_START: u64 = 0x1000;

fn fresh_allocator(pages: u64) -> StackFrameAllocator {
    let mut a = StackFrameAllocator::new();
    a.init(tos::address::PPN(PPN_START), tos::address::PPN(PPN_START + pages));
    a
}

#[test]
fn map_area_rounds_its_range_to_pages() {
    let area = MapArea::new(VA(0x5234), VA(0x7001), MapType::Framed, MapPermission(MAP_PERM_R));
    assert_eq!(area.vpn_range.get_start().0, 5);
    assert_eq!(area.vpn_range.get_end().0, 8);
    assert!(area.data_frames.is_empty());
}

#[test]
fn linear_region_maps_through_the_kernel_offset() {
    let mut alloc = fresh_allocator(64);
    let mut pt = tos::page_table::PageTable::new(&mut alloc).unwrap();
    let start = KERNEL_MAP_OFFSET + 0x8020_0000;
    let end = start + 0x3000;
    let mut area = MapArea::new(
        VA(start),
        VA(end),
        MapType::Linear,
        MapPermission(MAP_PERM_R | MAP_PERM_W),
    );
    assert_eq!(area.map(&mut pt, &mut alloc), Ok(()));
    // the physical page of every page in the range is the virtual page
    // number minus the fixed kernel offset in pages
    for i in 0..3u64 {
        let vpn = VPN((start >> 12) + i);
        let e = pt.read_entry(vpn);
        assert!(e.is_valid());
        assert_eq!(e.ppn().0, vpn.0 - KERNEL_MAP_OFFSET_PAGES);
        assert_eq!(e.flags().0, MAP_PERM_R | MAP_PERM_W | PTE_V);
    }
    // a linear region owns no frames
    assert!(area.data_frames.is_empty());
}

#[test]
fn framed_region_records_one_distinct_frame_per_page() {
    let mut alloc = fresh_allocator(64);
    let mut ms = MemorySet::new(&mut alloc).unwrap();
    let range = VARange { start: VA(0x10000), end: VA(0x14000) };
    let pol = ms
        .insert_framed_area(range, MapPermission(MAP_PERM_R | MAP_PERM_W), None, &mut alloc)
        .unwrap();
    assert_eq!(pol, PopulatePolicy::Untouched);
    assert_eq!(ms.areas.len(), 1);
    let area = &ms.areas[0];
    assert_eq!(area.data_frames.len(), 4);
    for k in 0..4 {
        let df = &area.data_frames[k];
        assert_eq!(df.vpn.0, 0x10 + k as u64);
        let e = ms.page_table.read_entry(df.vpn);
        assert!(e.is_valid());
        assert_eq!(e.ppn().0, df.frame.ppn.0);
    }
    for i in 0..4 {
        for j in (i + 1)..4 {
            assert_ne!(area.data_frames[i].frame.ppn.0, area.data_frames[j].frame.ppn.0);
        }
    }
}

#[test]
fn contained_range_is_an_insertion_conflict() {
    let mut alloc = fresh_allocator(64);
    let mut ms = MemorySet::new(&mut alloc).unwrap();
    let outer = VARange { start: VA(0x10000), end: VA(0x18000) };
    let inner = VARange { start: VA(0x12000), end: VA(0x13000) };
    ms.insert_framed_area(outer, MapPermission(MAP_PERM_R), None, &mut alloc).unwrap();
    // a range contained in an existing region compares equal to it
    // under the overlap ordering and is refused before any change
    let r = ms.insert_framed_area(inner, MapPermission(MAP_PERM_R), None, &mut alloc);
    assert_eq!(r, Err(SpaceError::RegionConflict));
    assert_eq!(ms.areas.len(), 1);
}

#[test]
fn partial_overlap_is_caught_by_the_walk() {
    let mut alloc = fresh_allocator(64);
    let mut ms = MemorySet::new(&mut alloc).unwrap();
    let first = VARange { start: VA(0x10000), end: VA(0x14000) };
    let second = VARange { start: VA(0x12000), end: VA(0x16000) };
    ms.insert_framed_area(first, MapPermission(MAP_PERM_R), None, &mut alloc).unwrap();
    // partial overlap does not compare equal, so the containment check
    // passes; the page walk then rejects the shared page
    let r = ms.insert_framed_area(second, MapPermission(MAP_PERM_R), None, &mut alloc);
    assert_eq!(r, Err(SpaceError::AlreadyMapped));
}

#[test]
fn exhaustion_while_inserting_reports_out_of_frames() {
    // one frame for the root and two for the first walk: the second
    // page has no data frame left
    let mut alloc = fresh_allocator(4);
    let mut ms = MemorySet::new(&mut alloc).unwrap();
    let range = VARange { start: VA(0x10000), end: VA(0x14000) };
    let r = ms.insert_framed_area(range, MapPermission(MAP_PERM_R), None, &mut alloc);
    assert_eq!(r, Err(SpaceError::OutOfFrames));
}

#[test]
fn population_policy_follows_kind_and_payload() {
    let bytes = [1u8, 2, 3];
    assert_eq!(
        populate_policy(MapType::Linear, Some(&bytes)),
        PopulatePolicy::CopyContiguous
    );
    assert_eq!(populate_policy(MapType::Framed, Some(&bytes)), PopulatePolicy::CopyPaged);
    assert_eq!(populate_policy(MapType::Framed, Some(&[])), PopulatePolicy::ZeroFill);
    assert_eq!(populate_policy(MapType::Framed, None), PopulatePolicy::Untouched);
    assert_eq!(populate_policy(MapType::Linear, None), PopulatePolicy::Untouched);
}

fn sample_layout() -> KernelLayout {
    let base = KERNEL_MAP_OFFSET + 0x8020_0000;
    KernelLayout {
        stext: VA(base),
        etext: VA(base + 0x2000),
        srodata: VA(base + 0x2000),
        erodata: VA(base + 0x3000),
        sdata: VA(base + 0x3000),
        edata: VA(base + 0x5000),
        sbss: VA(base + 0x5000),
        ebss: VA(base + 0x15000),
        ekernel: VA(base + 0x15000),
    }
}

#[test]
fn kernel_space_has_five_linear_regions_with_expected_permissions() {
    // the platform's physical window holds 2048 page frames; the
    // construction must succeed within that budget
    let mut alloc = fresh_allocator(2048);
    let layout = sample_layout();
    let ms = MemorySet::new_kernel(layout, &mut alloc).unwrap();
    assert_eq!(ms.areas.len(), 5);
    let expected_perms = [MAP_PERM_RX, MAP_PERM_R, MAP_PERM_RW, MAP_PERM_RW, MAP_PERM_RW];
    assert_eq!(MAP_PERM_RX, MAP_PERM_X | MAP_PERM_R);
    assert_eq!(MAP_PERM_RW, MAP_PERM_R | MAP_PERM_W);
    let starts = [layout.stext, layout.srodata, layout.sdata, layout.sbss, layout.ekernel];
    let ends = [layout.etext, layout.erodata, layout.edata, layout.ebss, VA(MEMORY_END)];
    for i in 0..5 {
        let area = &ms.areas[i];
        assert!(matches!(area.map_type, MapType::Linear));
        assert_eq!(area.map_perm.0, expected_perms[i]);
        assert_eq!(area.va_range.0.start.0, starts[i].0);
        assert_eq!(area.va_range.0.end.0, ends[i].0);
        assert!(area.data_frames.is_empty());
    }
}

#[test]
fn every_kernel_page_translates_without_a_fault() {
    let mut alloc = fresh_allocator(2048);
    let layout = sample_layout();
    let ms = MemorySet::new_kernel(layout, &mut alloc).unwrap();
    let starts = [layout.stext, layout.srodata, layout.sdata, layout.sbss, layout.ekernel];
    let ends = [layout.etext, layout.erodata, layout.edata, layout.ebss, VA(MEMORY_END)];
    let expected_perms = [MAP_PERM_RX, MAP_PERM_R, MAP_PERM_RW, MAP_PERM_RW, MAP_PERM_RW];
    for i in 0..5 {
        let mut vpn = starts[i].0 >> 12;
        while vpn < ends[i].0 >> 12 {
            let e = ms.page_table.read_entry(VPN(vpn));
            assert!(e.is_valid());
            assert_eq!(e.ppn().0, vpn - KERNEL_MAP_OFFSET_PAGES);
            assert_eq!(e.flags().0, expected_perms[i] | PTE_V);
            vpn += 1;
        }
    }
    // a page outside every region stays unmapped
    let outside = (layout.stext.0 >> 12) - 1;
    assert!(!ms.page_table.read_entry(VPN(outside)).is_valid());
}

#[test]
fn memory_set_token_reflects_its_root() {
    let mut alloc = fresh_allocator(8);
    let ms = MemorySet::new(&mut alloc).unwrap();
    assert_eq!(ms.token(), (8u64 << 60) | ms.page_table.root.ppn.0);
}

#[test]
fn empty_range_region_maps_nothing() {
    let mut alloc = fresh_allocator(8);
    let mut ms = MemorySet::new(&mut alloc).unwrap();
    let range = VARange { start: VA(0x10000), end: VA(0x10000) };
    let pol = ms.insert_framed_area(range, MapPermission(MAP_PERM_R), None, &mut alloc).unwrap();
    assert_eq!(pol, PopulatePolicy::Untouched);
    assert_eq!(ms.areas.len(), 1);
    assert!(ms.areas[0].data_frames.is_empty());
    assert!(!ms.page_table.read_entry(VPN(0x10)).is_valid());
}

#[test]
fn permission_projection_masks_to_the_shared_bits() {
    // the region permission set and the page-table flag set exchange
    // exactly the read/write/execute/user bits
    let perm = MapPermission(0xff);
    assert_eq!(perm.to_pte().0, 0x1e);
    let flags = tos::page_table::PTEFlags(0xff);
    assert_eq!(flags.to_perm().0, 0x1e);
}

#[test]
fn teardown_returns_every_owned_frame() {
    let mut alloc = fresh_allocator(64);
    let mut ms = MemorySet::new(&mut alloc).unwrap();
    let range = VARange { start: VA(0x10000), end: VA(0x12000) };
    ms.insert_framed_area(range, MapPermission(MAP_PERM_R), None, &mut alloc).unwrap();
    // issued so far: the root, one middle and one leaf table, two data
    // frames — teardown must hand back exactly those five
    let frames = ms.into_frames();
    assert_eq!(frames.len(), 5);
    assert_eq!(alloc.release_frames(frames), Ok(()));
    // the allocator holds its full range again
    assert!(alloc.has_free(64));
}
