//! Address-space abstraction: a mapped region is a contiguous virtual
//! page range with a mapping policy and a permission set; a memory set
//! is one page table plus the regions populating it.  Region insertion
//! eagerly populates the page table; framed regions own the physical
//! frames backing their pages.
use vstd::prelude::*;

use crate::address::{
    lemma_idx_bounds, lemma_norm_injective_window, spec_ceil, spec_floor, spec_idx1, spec_idx2,
    spec_norm, spec_page_offset, spec_range_eq_overlap,
    SimpleRange, VARange, VARangeOrd, PPN, VA, VPN,
};
use crate::config::{KERNEL_MAP_OFFSET, KERNEL_MAP_OFFSET_PAGES, MEMORY_END, PAGE_SIZE};
use crate::frame_allocator::{Frame, StackFrameAllocator};
use crate::page_table::{spec_make_pte, MapError, PTEFlags, PageTable, PTE_V};

verus! {

/// Readable.
pub const MAP_PERM_R: u8 = 0x02;

/// Writable.
pub const MAP_PERM_W: u8 = 0x04;

/// Executable.
pub const MAP_PERM_X: u8 = 0x08;

/// Accessible to user mode.
pub const MAP_PERM_U: u8 = 0x10;

/// The bits that are meaningful in a region permission set.
pub const MAP_PERM_MASK: u8 = 0x1e;

/// How a region's virtual pages find their physical pages.
#[derive(Copy, Clone, Debug, PartialEq, Eq, Structural)]
pub enum MapType {
    /// The physical page number is the virtual page number minus the
    /// fixed kernel offset; no frames are owned.
    Linear,
    /// Each virtual page is backed by an individually allocated,
    /// individually owned physical frame.
    Framed,
}

/// A mapped region's permission set: the coarser companion of the
/// page-table flag set.
#[derive(Copy, Clone, Debug, PartialEq, Eq, Structural)]
pub struct MapPermission(pub u8);

impl MapPermission {
    /// Project this permission set onto page-table flag bits: a masking
    /// projection keeping the read/write/execute/user bits.
    pub fn to_pte(&self) -> (r: PTEFlags)
        ensures
            r.0 == self.0 & MAP_PERM_MASK,
    {
        PTEFlags(self.0 & MAP_PERM_MASK)
    }

    /// Set union of two permission sets.
    pub fn union(self, other: MapPermission) -> (r: MapPermission)
        ensures
            r.0 == self.0 | other.0,
    {
        MapPermission(self.0 | other.0)
    }
}

impl PTEFlags {
    /// Project page-table flag bits onto a region permission set: the
    /// same masking projection, dropping status bits.
    pub fn to_perm(&self) -> (r: MapPermission)
        ensures
            r.0 == self.0 & MAP_PERM_MASK,
    {
        MapPermission(self.0 & MAP_PERM_MASK)
    }
}

/// The leaf-entry flag bits a region with permission bits `perm`
/// installs: the masked permissions plus the valid bit.
pub open spec fn spec_area_flags(perm: u8) -> u8 {
    (perm & MAP_PERM_MASK) | PTE_V
}

/// The page range covering an address range spans at most two pages
/// more than the address span divided by the page size, and rounding
/// keeps the bounds ordered.
proof fn lemma_vpn_span(s: u64, e: u64)
    requires
        s <= e,
        e <= u64::MAX - (PAGE_SIZE - 1),
    ensures
        spec_floor(s) <= spec_ceil(e),
        spec_ceil(e) - spec_floor(s) <= (e - s) as int / PAGE_SIZE as int + 2,
{
    let ps = PAGE_SIZE as int;
    let q = s as int / ps;
    let r = s as int % ps;
    let d = e as int - s as int;
    vstd::arithmetic::div_mod::lemma_fundamental_div_mod(s as int, ps);
    assert((e + PAGE_SIZE - 1) as int == ps * q + (r + d + ps - 1));
    vstd::arithmetic::div_mod::lemma_hoist_over_denominator(r + d + ps - 1, q, PAGE_SIZE as nat);
    vstd::arithmetic::div_mod::lemma_div_is_ordered(r + d + ps - 1, d + 2 * ps - 2, ps);
    vstd::arithmetic::div_mod::lemma_hoist_over_denominator(d, 2, PAGE_SIZE as nat);
    vstd::arithmetic::div_mod::lemma_div_is_ordered(d + 2 * ps - 2, d + 2 * ps, ps);
    vstd::arithmetic::div_mod::lemma_div_is_ordered(s as int, e as int, ps);
    vstd::arithmetic::div_mod::lemma_div_is_ordered(e as int, (e + PAGE_SIZE - 1) as int, ps);
}

/// An address range inside the kernel's linear window rounds to page
/// numbers whose distance from the offset fits the entry's page-number
/// field.
proof fn lemma_linear_window(s: u64, e: u64)
    requires
        s <= e,
        s >= KERNEL_MAP_OFFSET,
        e - KERNEL_MAP_OFFSET <= 0xff_ffff_f000,
    ensures
        spec_floor(s) >= KERNEL_MAP_OFFSET_PAGES,
        spec_ceil(e) - KERNEL_MAP_OFFSET_PAGES < 0x1000_0000_0000,
{
    let ps = PAGE_SIZE as int;
    vstd::arithmetic::div_mod::lemma_div_is_ordered(KERNEL_MAP_OFFSET as int, s as int, ps);
    assert(KERNEL_MAP_OFFSET as int / ps == KERNEL_MAP_OFFSET_PAGES);
    let x: int = 0xff_ffff_f000 + (PAGE_SIZE - 1);
    vstd::arithmetic::div_mod::lemma_div_is_ordered(
        (e + PAGE_SIZE - 1) as int,
        ps * (KERNEL_MAP_OFFSET_PAGES as int) + x,
        ps,
    );
    vstd::arithmetic::div_mod::lemma_hoist_over_denominator(
        x,
        KERNEL_MAP_OFFSET_PAGES as int,
        PAGE_SIZE as nat,
    );
}

/// One virtual page of a framed region and the physical frame backing
/// it.
pub struct DataFrame {
    /// The virtual page.
    pub vpn: VPN,
    /// The owned physical frame mapped at that page.
    pub frame: Frame,
}

/// A mapped region: a contiguous virtual page-number range, a mapping
/// kind, a permission set, and — for framed regions — the owned frames
/// backing its pages.
pub struct MapArea {
    /// The virtual address range the region was requested over.
    pub va_range: VARangeOrd,
    /// The page range covering that address range.
    pub vpn_range: SimpleRange,
    /// For framed regions: one owned frame per mapped page, in
    /// ascending page order.
    pub data_frames: Vec<DataFrame>,
    /// The mapping kind.
    pub map_type: MapType,
    /// The region's permission set.
    pub map_perm: MapPermission,
}

impl MapArea {
    /// Basic shape of a region: the page range is ordered and spans
    /// less than the radix capacity, so distinct pages of the region
    /// never collide in the table.
    pub open spec fn wf(self) -> bool {
        &&& self.vpn_range.l.0 <= self.vpn_range.r.0
        &&& self.vpn_range.r.0 - self.vpn_range.l.0 <= 0x800_0000
        &&& self.map_type == MapType::Linear ==> self.vpn_range.l.0 >= KERNEL_MAP_OFFSET_PAGES
            && self.vpn_range.r.0 - KERNEL_MAP_OFFSET_PAGES < 0x1000_0000_0000
    }

    /// Number of pages the region covers.
    pub open spec fn page_count(self) -> int {
        self.vpn_range.r.0 - self.vpn_range.l.0
    }

    /// Whether the page number `v` lies in the region's range.
    pub open spec fn covers(self, v: u64) -> bool {
        self.vpn_range.l.0 <= v < self.vpn_range.r.0
    }

    /// The page table holds, for every page of this region, exactly the
    /// leaf entry the region's kind and permissions call for: linear
    /// pages translate to the page number minus the kernel offset,
    /// framed pages to the recorded owned frame.
    pub open spec fn mapped_in(self, pt: PageTable) -> bool {
        &&& self.map_type == MapType::Linear ==> forall|v: u64|
            self.covers(v) ==> pt.entry_bits(v) == spec_make_pte(
                (v - KERNEL_MAP_OFFSET_PAGES) as u64,
                spec_area_flags(self.map_perm.0),
            )
        &&& self.map_type == MapType::Linear ==> self.data_frames@.len() == 0
        &&& self.map_type == MapType::Framed ==> self.data_frames@.len() == self.page_count()
        &&& self.map_type == MapType::Framed ==> forall|k: int|
            0 <= k < self.data_frames@.len() ==> (#[trigger] self.data_frames@[k]).vpn.0
                == self.vpn_range.l.0 + k && pt.entry_bits((self.vpn_range.l.0 + k) as u64)
                == spec_make_pte(
                self.data_frames@[k].frame.ppn.0,
                spec_area_flags(self.map_perm.0),
            ) && self.data_frames@[k].frame.ppn.0 < 0x1000_0000_0000
    }

    /// Round the start address down and the end address up to page
    /// boundaries and record the resulting page range; no pages are
    /// mapped yet.
    pub fn new(start_va: VA, end_va: VA, map_type: MapType, permission: MapPermission) -> (r:
        MapArea)
        requires
            start_va.0 <= end_va.0,
            end_va.0 <= u64::MAX - (PAGE_SIZE - 1),
            end_va.0 - start_va.0 <= 0x7_ffff_e000,
            map_type == MapType::Linear ==> start_va.0 >= KERNEL_MAP_OFFSET && end_va.0
                - KERNEL_MAP_OFFSET <= 0xff_ffff_f000,
        ensures
            r.va_range.0.start == start_va,
            r.va_range.0.end == end_va,
            r.vpn_range.l.0 == spec_floor(start_va.0),
            r.vpn_range.r.0 == spec_ceil(end_va.0),
            r.data_frames@.len() == 0,
            r.map_type == map_type,
            r.map_perm == permission,
            r.wf(),
    {
        let va_range = VARangeOrd(VARange { start: start_va, end: end_va });
        proof {
            lemma_vpn_span(start_va.0, end_va.0);
            if map_type == MapType::Linear {
                lemma_linear_window(start_va.0, end_va.0);
            }
        }
        let vpn_range = va_range.vpn_range();
        MapArea { va_range, vpn_range, data_frames: Vec::new(), map_type, map_perm: permission }
    }

    /// Map one page of the region: derive the physical page for linear
    /// regions, or allocate and record an owned frame for framed ones,
    /// then install the leaf entry.  Refused exactly when the page is
    /// already mapped or the allocator cannot supply every frame the
    /// page needs; nothing changes in the refused cases.
    pub fn map_one(
        &mut self,
        page_table: &mut PageTable,
        vpn: VPN,
        alloc: &mut StackFrameAllocator,
    ) -> (r: Result<(), MapError>)
        requires
            old(self).wf(),
            old(self).covers(vpn.0),
            old(page_table).wf(),
            old(alloc).wf(),
            old(self).map_type == MapType::Framed ==> old(alloc).end <= 0x1000_0000_0000,
        ensures
            final(self).wf(),
            final(page_table).wf(),
            final(alloc).wf(),
            final(alloc).end == old(alloc).end,
            final(self).va_range == old(self).va_range,
            final(self).vpn_range == old(self).vpn_range,
            final(self).map_type == old(self).map_type,
            final(self).map_perm == old(self).map_perm,
            final(page_table).spec_root() == old(page_table).spec_root(),
            // Re-map rejection.
            old(page_table).mapped(vpn.0) ==> r == Err::<(), MapError>(MapError::AlreadyMapped)
                && PageTable::same_tables(*old(page_table), *final(page_table)) && final(alloc).recycled@ == old(alloc).recycled@ && final(alloc).current == old(alloc).current
                && final(self).data_frames@ == old(self).data_frames@,
            // Exhaustion: the walk's frames plus one data frame for a
            // framed region.
            !old(page_table).mapped(vpn.0) && old(alloc).free_count() < old(page_table).frames_needed(vpn.0) + (if old(self).map_type == MapType::Framed {
                1int
            } else {
                0int
            }) ==> r == Err::<(), MapError>(MapError::OutOfFrames) && PageTable::same_tables(
                *old(page_table),
                *final(page_table),
            ) && final(alloc).recycled@ == old(alloc).recycled@ && final(alloc).current == old(alloc).current && final(self).data_frames@ == old(self).data_frames@,
            // Success on every other input.
            !old(page_table).mapped(vpn.0) && old(alloc).free_count() >= old(page_table).frames_needed(vpn.0) + (if old(self).map_type == MapType::Framed {
                1int
            } else {
                0int
            }) ==> r == Ok::<(), MapError>(()),
            r is Ok && old(self).map_type == MapType::Linear ==> final(page_table).entry_bits(
                vpn.0,
            ) == spec_make_pte(
                (vpn.0 - KERNEL_MAP_OFFSET_PAGES) as u64,
                spec_area_flags(old(self).map_perm.0),
            ) && final(self).data_frames@ == old(self).data_frames@,
            r is Ok && old(self).map_type == MapType::Framed ==> final(self).data_frames@.len()
                == old(self).data_frames@.len() + 1 && final(self).data_frames@.subrange(
                0,
                old(self).data_frames@.len() as int,
            ) == old(self).data_frames@ && final(self).data_frames@.last().vpn == vpn && final(page_table).entry_bits(vpn.0) == spec_make_pte(
                final(self).data_frames@.last().frame.ppn.0,
                spec_area_flags(old(self).map_perm.0),
            ) && final(self).data_frames@.last().frame.ppn.0 < 0x1000_0000_0000 && !old(alloc).live(final(self).data_frames@.last().frame.ppn.0) && final(alloc).live(
                final(self).data_frames@.last().frame.ppn.0,
            ),
            r is Ok ==> final(page_table).mapped(vpn.0),
            r is Ok ==> forall|w: u64|
                spec_norm(w) != spec_norm(vpn.0) ==> final(page_table).entry_bits(w) == old(page_table).entry_bits(w),
            // A valid entry is never overwritten.
            forall|w: u64|
                crate::page_table::spec_pte_valid(old(page_table).entry_bits(w)) ==> final(page_table).entry_bits(w) == old(page_table).entry_bits(w),
            r is Ok ==> final(alloc).free_count() == old(alloc).free_count() - old(page_table).frames_needed(vpn.0) - (
            if old(self).map_type == MapType::Framed {
                1int
            } else {
                0int
            }),
            r is Ok ==> forall|p: u64| old(alloc).live(p) ==> final(alloc).live(p),
            r is Ok ==> final(page_table).leaf_present_i(
                spec_idx2(vpn.0) as int,
                spec_idx1(vpn.0) as int,
            ),
            r is Ok ==> forall|x: int, y: int|
                0 <= x < 512 && 0 <= y < 512 && old(page_table).leaf_present_i(x, y) ==> final(page_table).leaf_present_i(x, y),
    {
        let entry = page_table.read_entry(vpn);
        if entry.is_valid() {
            proof {
                assert(PageTable::same_tables(*old(page_table), *final(page_table)));
            }
            return Err(MapError::AlreadyMapped);
        }
        match self.map_type {
            MapType::Linear => {
                let ppn = PPN(vpn.0 - KERNEL_MAP_OFFSET_PAGES);
                let res = page_table.map_one(vpn, ppn, self.map_perm.to_pte(), alloc);
                proof {
                    lemma_idx_bounds(vpn.0);
                }
                res
            },
            MapType::Framed => {
                let walk_needed = page_table.needed_frames(vpn);
                if !alloc.has_free(walk_needed + 1) {
                    proof {
                        assert(PageTable::same_tables(*old(page_table), *final(page_table)));
                    }
                    return Err(MapError::OutOfFrames);
                }
                let frame = match alloc.allocate() {
                    Some(f) => f,
                    None => {
                        proof {
                            assert(false);
                        }
                        return Err(MapError::OutOfFrames);
                    },
                };
                let ppn = frame.ppn;
                let res = page_table.map_one(vpn, ppn, self.map_perm.to_pte(), alloc);
                proof {
                    assert(res is Ok);
                    lemma_idx_bounds(vpn.0);
                }
                match res {
                    Ok(_) => {
                        self.data_frames.push(DataFrame { vpn, frame });
                        Ok(())
                    },
                    Err(e) => {
                        proof {
                            assert(false);
                        }
                        Err(e)
                    },
                }
            },
        }
    }
    /// Walk every page of the region and install it, in ascending page
    /// order.  Refused with `AlreadyMapped`, before any change, exactly
    /// when some page of the range already has a valid entry; refused
    /// with `OutOfFrames` when the allocator runs out part way, leaving
    /// the pages walked so far mapped and recorded.  Success is owed
    /// whenever no page conflicts and the allocator holds one frame per
    /// page to be backed plus the walk's per-level table cap.
    #[verifier::loop_isolation(false)]
    pub fn map(&mut self, page_table: &mut PageTable, alloc: &mut StackFrameAllocator) -> (r:
        Result<(), MapError>)
        requires
            old(self).wf(),
            old(self).data_frames@.len() == 0,
            old(page_table).wf(),
            old(alloc).wf(),
            old(self).map_type == MapType::Framed ==> old(alloc).end <= 0x1000_0000_0000,
        ensures
            final(self).wf(),
            final(page_table).wf(),
            final(alloc).wf(),
            final(alloc).end == old(alloc).end,
            final(self).va_range == old(self).va_range,
            final(self).vpn_range == old(self).vpn_range,
            final(self).map_type == old(self).map_type,
            final(self).map_perm == old(self).map_perm,
            final(page_table).spec_root() == old(page_table).spec_root(),
            // Entries no page of the range can reach are untouched.
            forall|w: u64|
                !spec_norm_touches(w, old(self).vpn_range.l.0, old(self).vpn_range.r.0) ==> final(page_table).entry_bits(w) == old(page_table).entry_bits(w),
            // A valid entry is never overwritten.
            forall|w: u64|
                crate::page_table::spec_pte_valid(old(page_table).entry_bits(w)) ==> final(page_table).entry_bits(w) == old(page_table).entry_bits(w),
            forall|p: u64| old(alloc).live(p) ==> final(alloc).live(p),
            final(alloc).free_count() <= old(alloc).free_count(),
            final(alloc).free_count() >= old(alloc).free_count() - (
            if old(self).map_type == MapType::Framed {
                old(self).page_count()
            } else {
                0int
            }) - walk_frames_cap(old(self).vpn_range.l.0, old(self).vpn_range.r.0),
            // Re-map rejection, before any change.
            r == Err::<(), MapError>(MapError::AlreadyMapped) <==> exists|v: u64|
                old(self).covers(v) && old(page_table).mapped(v),
            r == Err::<(), MapError>(MapError::AlreadyMapped) ==> PageTable::same_tables(
                *old(page_table),
                *final(page_table),
            ) && final(alloc).recycled@ == old(alloc).recycled@ && final(alloc).current == old(alloc).current && final(self).data_frames@ == old(self).data_frames@,
            // Success is owed with one data frame per page (for framed
            // regions) plus the walk's table cap.
            (forall|v: u64| old(self).covers(v) ==> !old(page_table).mapped(v)) && old(alloc).free_count() >= (
            if old(self).map_type == MapType::Framed {
                old(self).page_count()
            } else {
                0int
            }) + walk_frames_cap(old(self).vpn_range.l.0, old(self).vpn_range.r.0) ==> r == Ok::<
                (),
                MapError,
            >(()),
            r == Err::<(), MapError>(MapError::OutOfFrames) ==> forall|v: u64|
                old(self).covers(v) ==> !old(page_table).mapped(v),
            r != Err::<(), MapError>(MapError::NotMapped),
            r is Ok ==> final(self).mapped_in(*final(page_table)),
            r is Ok ==> forall|v: u64| old(self).covers(v) ==> final(page_table).mapped(v),
            r is Ok && old(self).map_type == MapType::Framed ==> forall|k1: int, k2: int|
                0 <= k1 < k2 < final(self).data_frames@.len() ==> final(self).data_frames@[k1].frame.ppn.0 != final(self).data_frames@[k2].frame.ppn.0,
            r is Ok && old(self).map_type == MapType::Framed ==> forall|k: int|
                0 <= k < final(self).data_frames@.len() ==> final(alloc).live(
                    #[trigger] final(self).data_frames@[k].frame.ppn.0,
                ),
    {
        let s: u64 = self.vpn_range.get_start().0;
        let e: u64 = self.vpn_range.get_end().0;
        let mut v: u64 = s;
        while v < e
            invariant
                s == self.vpn_range.l.0,
                e == self.vpn_range.r.0,
                s <= v <= e,
                self.wf(),
                page_table.wf(),
                forall|u: u64| s <= u < v ==> !page_table.mapped(u),
            decreases e - v,
        {
            let pte = page_table.read_entry(VPN(v));
            if pte.is_valid() {
                proof {
                    assert(old(self).covers(v));
                    assert(old(page_table).entry_bits(v) == pte.bits);
                    assert(old(page_table).mapped(v));
                    lemma_block_monotone(s, (e - 1) as u64);
                }
                return Err(MapError::AlreadyMapped);
            }
            v = v + 1;
        }
        let ghost flags: u8 = spec_area_flags(self.map_perm.0);
        let mut v: u64 = s;
        while v < e
            invariant
                s == self.vpn_range.l.0,
                e == self.vpn_range.r.0,
                s <= v <= e,
                e - s <= 0x800_0000,
                self.wf(),
                self.va_range == old(self).va_range,
                self.vpn_range == old(self).vpn_range,
                self.map_type == old(self).map_type,
                self.map_perm == old(self).map_perm,
                flags == spec_area_flags(self.map_perm.0),
                page_table.wf(),
                alloc.wf(),
                alloc.end == old(alloc).end,
                page_table.spec_root() == old(page_table).spec_root(),
                self.map_type == MapType::Framed ==> alloc.end <= 0x1000_0000_0000,
                forall|u: u64| s <= u < e ==> !old(page_table).mapped(u),
                forall|u: u64|
                    v <= u < e ==> page_table.entry_bits(u) == old(page_table).entry_bits(u),
                forall|w: u64|
                    !spec_norm_touches(w, s, e) ==> page_table.entry_bits(w) == old(page_table).entry_bits(w),
                forall|w: u64|
                    crate::page_table::spec_pte_valid(old(page_table).entry_bits(w))
                        ==> page_table.entry_bits(w) == old(page_table).entry_bits(w),
                self.map_type == MapType::Linear ==> self.data_frames@.len() == 0,
                self.map_type == MapType::Linear ==> forall|u: u64|
                    s <= u < v ==> page_table.entry_bits(u) == spec_make_pte(
                        (u - KERNEL_MAP_OFFSET_PAGES) as u64,
                        flags,
                    ),
                self.map_type == MapType::Framed ==> self.data_frames@.len() == v - s,
                self.map_type == MapType::Framed ==> forall|k: int|
                    0 <= k < self.data_frames@.len() ==> (#[trigger] self.data_frames@[k]).vpn.0
                        == s + k && page_table.entry_bits((s + k) as u64) == spec_make_pte(
                        self.data_frames@[k].frame.ppn.0,
                        flags,
                    ) && self.data_frames@[k].frame.ppn.0 < 0x1000_0000_0000 && alloc.live(
                        self.data_frames@[k].frame.ppn.0,
                    ),
                self.map_type == MapType::Framed ==> forall|k1: int, k2: int|
                    0 <= k1 < k2 < self.data_frames@.len() ==> self.data_frames@[k1].frame.ppn.0
                        != self.data_frames@[k2].frame.ppn.0,
                forall|p: u64| old(alloc).live(p) ==> alloc.live(p),
                alloc.free_count() <= old(alloc).free_count(),
                alloc.free_count() >= old(alloc).free_count() - (
                if self.map_type == MapType::Framed {
                    v - s
                } else {
                    0int
                }) - walk_frames_cap(s, v),
                forall|u: u64|
                    s <= u < v ==> page_table.leaf_present_i(
                        spec_idx2(u) as int,
                        spec_idx1(u) as int,
                    ),
            decreases e - v,
        {
            let ghost pt_prev = *page_table;
            let ghost alloc_prev = *alloc;
            let ghost df_prev = self.data_frames@;
            proof {
                assert(page_table.entry_bits(v) == old(page_table).entry_bits(v));
                assert(!old(page_table).mapped(v));
                assert(!page_table.mapped(v));
            }
            let res = self.map_one(page_table, VPN(v), alloc);
            match res {
                Ok(_) => {},
                Err(err) => {
                    proof {
                        assert(err == MapError::OutOfFrames);
                        assert forall|w: u64| !spec_norm_touches(w, s, e) implies page_table
                            .entry_bits(w) == old(page_table).entry_bits(w) by {
                            lemma_idx_bounds(w);
                            assert(spec_norm(w) != spec_norm(v)) by {
                                if spec_norm(w) == spec_norm(v) {
                                    assert(s <= v < e && spec_norm(v) == spec_norm(w));
                                    assert(spec_norm_touches(w, s, e));
                                }
                            }
                            assert(page_table.entry_bits(w) == pt_prev.entry_bits(w));
                        }
                        lemma_step_cap(pt_prev, s, v);
                        if v > s {
                            lemma_block_monotone((v - 1) as u64, (e - 1) as u64);
                        } else {
                            lemma_block_monotone(s, (e - 1) as u64);
                        }
                        if old(alloc).free_count() >= (
                        if self.map_type == MapType::Framed {
                            old(self).page_count()
                        } else {
                            0int
                        }) + walk_frames_cap(s, e) {
                            lemma_block_monotone(v, (e - 1) as u64);
                            assert(walk_frames_cap(s, e) >= walk_frames_cap(s, (v + 1) as u64));
                            assert(alloc_prev.free_count() >= pt_prev.frames_needed(v) + (
                            if self.map_type == MapType::Framed {
                                1int
                            } else {
                                0int
                            }));
                            assert(false);
                        }
                    }
                    return Err(err);
                },
            }
            proof {
                lemma_step_cap(pt_prev, s, v);
                assert forall|u: u64|
                    s <= u < v + 1 implies page_table.leaf_present_i(
                    spec_idx2(u) as int,
                    spec_idx1(u) as int,
                ) by {
                    lemma_idx_bounds(u);
                    if u < v {
                        assert(pt_prev.leaf_present_i(spec_idx2(u) as int, spec_idx1(u) as int));
                    }
                }
                assert forall|u: u64| v + 1 <= u < e implies page_table.entry_bits(u) == old(page_table).entry_bits(u) by {
                    lemma_norm_injective_window(v, u);
                    assert(page_table.entry_bits(u) == pt_prev.entry_bits(u));
                }
                assert forall|w: u64| !spec_norm_touches(w, s, e) implies page_table.entry_bits(w)
                    == old(page_table).entry_bits(w) by {
                    assert(spec_norm(w) != spec_norm(v)) by {
                        if spec_norm(w) == spec_norm(v) {
                            assert(s <= v < e && spec_norm(v) == spec_norm(w));
                            assert(spec_norm_touches(w, s, e));
                        }
                    }
                    assert(page_table.entry_bits(w) == pt_prev.entry_bits(w));
                }
                assert forall|w: u64|
                    crate::page_table::spec_pte_valid(old(page_table).entry_bits(w)) implies
                    page_table.entry_bits(w) == old(page_table).entry_bits(w) by {
                    assert(pt_prev.entry_bits(w) == old(page_table).entry_bits(w));
                    assert(crate::page_table::spec_pte_valid(pt_prev.entry_bits(w)));
                    assert(page_table.entry_bits(w) == pt_prev.entry_bits(w));
                }
                if self.map_type == MapType::Linear {
                    assert forall|u: u64| s <= u < v + 1 implies page_table.entry_bits(u)
                        == spec_make_pte((u - KERNEL_MAP_OFFSET_PAGES) as u64, flags) by {
                        if u < v {
                            lemma_norm_injective_window(u, v);
                            assert(page_table.entry_bits(u) == pt_prev.entry_bits(u));
                        }
                    }
                }
                if self.map_type == MapType::Framed {
                    assert forall|k: int| 0 <= k < self.data_frames@.len() implies (
                    #[trigger] self.data_frames@[k]).vpn.0 == s + k && page_table.entry_bits(
                        (s + k) as u64,
                    ) == spec_make_pte(self.data_frames@[k].frame.ppn.0, flags)
                        && self.data_frames@[k].frame.ppn.0 < 0x1000_0000_0000 && alloc.live(
                        self.data_frames@[k].frame.ppn.0,
                    ) by {
                        if k < self.data_frames@.len() - 1 {
                            assert(self.data_frames@[k] == df_prev[k]);
                            lemma_norm_injective_window((s + k) as u64, v);
                            assert(page_table.entry_bits((s + k) as u64) == pt_prev.entry_bits(
                                (s + k) as u64,
                            ));
                        }
                    }
                    assert forall|k1: int, k2: int|
                        0 <= k1 < k2 < self.data_frames@.len() implies self
                        .data_frames@[k1].frame.ppn.0 != self.data_frames@[k2].frame.ppn.0 by {
                        if k2 == self.data_frames@.len() - 1 {
                            assert(df_prev[k1] == self.data_frames@[k1]);
                            assert(alloc_prev.live(df_prev[k1].frame.ppn.0));
                            assert(!alloc_prev.live(self.data_frames@.last().frame.ppn.0));
                        } else {
                            assert(self.data_frames@[k1] == df_prev[k1]);
                            assert(self.data_frames@[k2] == df_prev[k2]);
                        }
                    }
                }
            }
            v = v + 1;
        }
        proof {
            if self.map_type == MapType::Linear {
                assert forall|u: u64| self.covers(u) implies page_table.entry_bits(u)
                    == spec_make_pte((u - KERNEL_MAP_OFFSET_PAGES) as u64, flags) by {}
            }
            assert forall|u: u64| old(self).covers(u) implies page_table.mapped(u) by {
                if self.map_type == MapType::Linear {
                    lemma_area_entry((u - KERNEL_MAP_OFFSET_PAGES) as u64, self.map_perm.0);
                } else {
                    let k: int = u - s;
                    assert(self.data_frames@[k].vpn.0 == s + k);
                    lemma_area_entry(self.data_frames@[k].frame.ppn.0, self.map_perm.0);
                }
            }
        }
        Ok(())
    }

}

/// An upper bound on the intermediate-table frames a walk over the
/// consecutive page range `[s, e)` can allocate: one leaf table per
/// 512-page block the range touches and one middle table per
/// 262144-page block, counted by the block numbers of the range's ends.
pub open spec fn walk_frames_cap(s: u64, e: u64) -> int {
    if e <= s {
        0
    } else {
        (((e - 1) as u64 >> 9) - (s >> 9)) + (((e - 1) as u64 >> 18) - (s >> 18)) + 2
    }
}

/// Block numbers of consecutive page numbers rise by at most one, and a
/// page keeps its middle-level block whenever it keeps its leaf-level
/// block.
proof fn lemma_block_step(v: u64)
    requires
        v > 0,
    ensures
        ((v - 1) as u64 >> 9) <= (v >> 9) <= ((v - 1) as u64 >> 9) + 1,
        ((v - 1) as u64 >> 18) <= (v >> 18) <= ((v - 1) as u64 >> 18) + 1,
        v >> 9 == (v - 1) as u64 >> 9 ==> v >> 18 == (v - 1) as u64 >> 18,
{
    let u: u64 = (v - 1) as u64;
    assert((u >> 9) <= (v >> 9) <= (u >> 9) + 1 && (u >> 18) <= (v >> 18) <= (u >> 18) + 1 && (v
        >> 9 == u >> 9 ==> v >> 18 == u >> 18)) by (bit_vector)
        requires
            v == u + 1,
    ;
}

/// Pages in the same 512-page block walk through the same leaf table.
proof fn lemma_same_block_same_path(u: u64, v: u64)
    requires
        u >> 9 == v >> 9,
    ensures
        spec_idx2(u) == spec_idx2(v),
        spec_idx1(u) == spec_idx1(v),
{
    assert((u >> 18) & 0x1ff == (v >> 18) & 0x1ff && (u >> 9) & 0x1ff == (v >> 9) & 0x1ff)
        by (bit_vector)
        requires
            u >> 9 == v >> 9,
    ;
}

/// Pages in the same 262144-page block walk through the same middle
/// table.
proof fn lemma_same_superblock_same_top(u: u64, v: u64)
    requires
        u >> 18 == v >> 18,
    ensures
        spec_idx2(u) == spec_idx2(v),
{
    assert((u >> 18) & 0x1ff == (v >> 18) & 0x1ff) by (bit_vector)
        requires
            u >> 18 == v >> 18,
    ;
}

/// Block numbers never fall as page numbers rise.
proof fn lemma_block_monotone(u: u64, v: u64)
    requires
        u <= v,
    ensures
        u >> 9 <= v >> 9,
        u >> 18 <= v >> 18,
{
    assert(u >> 9 <= v >> 9 && u >> 18 <= v >> 18) by (bit_vector)
        requires
            u <= v,
    ;
}

/// One walk step stays inside the cap: when every page before `v` in
/// the range already has its leaf table, the walk for `v` allocates no
/// more frames than the cap grows by from `v` to `v + 1`.
proof fn lemma_step_cap(pt: PageTable, s: u64, v: u64)
    requires
        pt.wf(),
        s <= v < u64::MAX,
        v > s ==> pt.leaf_present_i(
            spec_idx2((v - 1) as u64) as int,
            spec_idx1((v - 1) as u64) as int,
        ),
    ensures
        pt.frames_needed(v) <= walk_frames_cap(s, (v + 1) as u64) - walk_frames_cap(s, v),
        walk_frames_cap(s, (v + 1) as u64) >= walk_frames_cap(s, v),
{
    if v == s {
        assert(walk_frames_cap(s, (v + 1) as u64) == 2);
    } else {
        let u: u64 = (v - 1) as u64;
        lemma_block_step(v);
        if v >> 9 == u >> 9 {
            lemma_same_block_same_path(u, v);
            pt.lemma_leaf_implies_mid(spec_idx2(v) as int, spec_idx1(v) as int);
        } else if v >> 18 == u >> 18 {
            lemma_same_superblock_same_top(u, v);
            pt.lemma_leaf_implies_mid(spec_idx2(u) as int, spec_idx1(u) as int);
        }
    }
}

impl MapArea {
    /// Dismantle the region and hand back the frames it owns, one per
    /// recorded page, in recorded order; the caller returns them to the
    /// allocator once the pages are unmapped or the table is gone.
    pub fn into_frames(self) -> (r: Vec<Frame>)
        ensures
            r@.len() == self.data_frames@.len(),
            forall|k: int| 0 <= k < r@.len() ==> r@[k] == self.data_frames@[k].frame,
    {
        let ghost me = self;
        let MapArea { data_frames, .. } = self;
        let mut data_frames = data_frames;
        let mut frames: Vec<Frame> = Vec::new();
        proof {
            assert(data_frames@ =~= me.data_frames@.subrange(
                frames@.len() as int,
                me.data_frames@.len() as int,
            ));
        }
        while data_frames.len() > 0
            invariant
                frames@.len() + data_frames@.len() == me.data_frames@.len(),
                data_frames@ == me.data_frames@.subrange(
                    frames@.len() as int,
                    me.data_frames@.len() as int,
                ),
                forall|k: int| 0 <= k < frames@.len() ==> frames@[k] == me.data_frames@[k].frame,
            decreases data_frames@.len(),
        {
            let ghost done = frames@.len() as int;
            let ghost pre = data_frames@;
            let df = data_frames.remove(0);
            proof {
                assert(pre[0] == me.data_frames@[done]);
                assert(data_frames@ =~= me.data_frames@.subrange(
                    done + 1,
                    me.data_frames@.len() as int,
                ));
            }
            frames.push(df.frame);
        }
        frames
    }
}

/// Whether some page of the range `[s, e)` reaches the same leaf entry
/// as the page number `w`.
pub open spec fn spec_norm_touches(w: u64, s: u64, e: u64) -> bool {
    exists|v: u64| s <= v < e && spec_norm(v) == spec_norm(w)
}

/// The leaf entry a region installs for physical page `p` is valid and
/// yields `p` back: the linear-mapping identity is read off the entry.
pub proof fn lemma_area_entry(p: u64, perm: u8)
    requires
        p < 0x1000_0000_0000,
    ensures
        crate::page_table::spec_pte_valid(spec_make_pte(p, spec_area_flags(perm))),
        crate::page_table::spec_pte_ppn(spec_make_pte(p, spec_area_flags(perm))) == p,
        crate::page_table::spec_pte_flags(spec_make_pte(p, spec_area_flags(perm)))
            == spec_area_flags(perm) as u64,
{
    crate::page_table::lemma_pte_pack(p, spec_area_flags(perm));
    let q: u8 = perm;
    assert((((q & 0x1e) | 0x01) as u64) & 1 == 1) by (bit_vector);
}

/// Why a region could not be inserted into a memory set.
#[derive(Copy, Clone, Debug, PartialEq, Eq, Structural)]
pub enum SpaceError {
    /// The new region's address range and an existing region's compare
    /// equal under the containment-overlap ordering.
    RegionConflict,
    /// Some page of the region already has a valid entry.
    AlreadyMapped,
    /// The frame allocator ran out of pages.
    OutOfFrames,
}

/// What the caller still has to do to physical memory after a region is
/// inserted: the one-shot population policy the payload selects.
#[derive(Copy, Clone, Debug, PartialEq, Eq, Structural)]
pub enum PopulatePolicy {
    /// Linear region with a payload: copy the payload directly into the
    /// destination range, which this mapping scheme keeps contiguous.
    CopyContiguous,
    /// Framed region with a non-empty payload: copy the payload page by
    /// page into the freshly allocated frames.
    CopyPaged,
    /// Framed region with an explicitly empty payload: zero-fill the
    /// freshly allocated frames.
    ZeroFill,
    /// No payload: leave the pages' contents alone.
    Untouched,
}

/// The population policy a mapping kind and payload select.
pub open spec fn spec_populate_policy(map_type: MapType, data: Option<&[u8]>) -> PopulatePolicy {
    match data {
        Some(d) => if map_type == MapType::Linear {
            PopulatePolicy::CopyContiguous
        } else if d@.len() > 0 {
            PopulatePolicy::CopyPaged
        } else {
            PopulatePolicy::ZeroFill
        },
        None => PopulatePolicy::Untouched,
    }
}

/// Select the one-shot population policy for a mapping kind and payload.
pub fn populate_policy(map_type: MapType, data: Option<&[u8]>) -> (r: PopulatePolicy)
    ensures
        r == spec_populate_policy(map_type, data),
{
    match data {
        Some(d) => {
            match map_type {
                MapType::Linear => PopulatePolicy::CopyContiguous,
                MapType::Framed => {
                    if d.len() > 0 {
                        PopulatePolicy::CopyPaged
                    } else {
                        PopulatePolicy::ZeroFill
                    }
                },
            }
        },
        None => PopulatePolicy::Untouched,
    }
}

/// One complete address space: a page table plus the ordered collection
/// of mapped regions populating it.
pub struct MemorySet {
    /// The page table the regions are installed in.
    pub page_table: PageTable,
    /// The regions, in insertion order, with pairwise ranges that never
    /// compare equal under the containment-overlap ordering.
    pub areas: Vec<MapArea>,
}

impl MemorySet {
    /// The set's page table and every region are well formed.
    pub open spec fn wf(self) -> bool {
        &&& self.page_table.wf()
        &&& forall|i: int| 0 <= i < self.areas@.len() ==> (#[trigger] self.areas@[i]).wf()
    }

    /// Whether the range of the region `area` compares equal, under the
    /// containment-overlap ordering, to some region already in the set.
    pub open spec fn region_conflict(self, area: MapArea) -> bool {
        exists|i: int|
            0 <= i < self.areas@.len() && spec_range_eq_overlap(
                (#[trigger] self.areas@[i]).va_range,
                area.va_range,
            )
    }

    /// An empty set with a fresh page table; absent exactly when the
    /// allocator is exhausted.
    pub fn new(alloc: &mut StackFrameAllocator) -> (r: Result<MemorySet, SpaceError>)
        requires
            old(alloc).wf(),
        ensures
            final(alloc).wf(),
            final(alloc).end == old(alloc).end,
            r is Err <==> old(alloc).free_count() == 0,
            r is Err ==> r == Err::<MemorySet, SpaceError>(SpaceError::OutOfFrames) && final(alloc).recycled@ == old(alloc).recycled@ && final(alloc).current == old(alloc).current,
            r matches Ok(ms) ==> ms.wf() && ms.areas@.len() == 0 && final(alloc).free_count()
                == old(alloc).free_count() - 1,
            r matches Ok(ms) ==> forall|v: u64| !ms.page_table.mapped(v)
                && ms.page_table.entry_bits(v) == 0,
            r matches Ok(ms) ==> forall|p: u64| old(alloc).live(p) ==> final(alloc).live(p),
    {
        match PageTable::new(alloc) {
            Ok(page_table) => Ok(MemorySet { page_table, areas: Vec::new() }),
            Err(_) => Err(SpaceError::OutOfFrames),
        }
    }

    /// The hardware-format root-pointer token of this set's page table.
    pub fn token(&self) -> (r: u64)
        ensures
            r == (8u64 << 60) | self.page_table.spec_root().ppn.0,
    {
        self.page_table.token()
    }

    /// Insert a region: map every page of it, then record it.  Refused
    /// with `RegionConflict`, before any change, when its range
    /// compares equal to an existing region's; then as the region's
    /// walk decides.  Returns the population policy the payload selects,
    /// for the caller to carry out on physical memory.
    #[verifier::loop_isolation(false)]
    pub fn push(
        &mut self,
        area: MapArea,
        data: Option<&[u8]>,
        alloc: &mut StackFrameAllocator,
    ) -> (r: Result<PopulatePolicy, SpaceError>)
        requires
            old(self).wf(),
            area.wf(),
            area.data_frames@.len() == 0,
            old(alloc).wf(),
            area.map_type == MapType::Framed ==> old(alloc).end <= 0x1000_0000_0000,
        ensures
            final(self).wf(),
            final(alloc).wf(),
            final(alloc).end == old(alloc).end,
            final(self).page_table.spec_root() == old(self).page_table.spec_root(),
            forall|p: u64| old(alloc).live(p) ==> final(alloc).live(p),
            final(alloc).free_count() <= old(alloc).free_count(),
            final(alloc).free_count() >= old(alloc).free_count() - (
            if area.map_type == MapType::Framed {
                area.page_count()
            } else {
                0int
            }) - walk_frames_cap(area.vpn_range.l.0, area.vpn_range.r.0),
            // Range conflict, before any change.
            r == Err::<PopulatePolicy, SpaceError>(SpaceError::RegionConflict) <==> old(self).region_conflict(area),
            r == Err::<PopulatePolicy, SpaceError>(SpaceError::RegionConflict) ==> final(self).areas@
                == old(self).areas@ && PageTable::same_tables(
                old(self).page_table,
                final(self).page_table,
            ) && final(alloc).recycled@ == old(alloc).recycled@ && final(alloc).current == old(alloc).current,
            // Re-map rejection, before any change to the table.
            r == Err::<PopulatePolicy, SpaceError>(SpaceError::AlreadyMapped) <==> !old(self).region_conflict(area) && exists|v: u64|
                area.covers(v) && old(self).page_table.mapped(v),
            r == Err::<PopulatePolicy, SpaceError>(SpaceError::AlreadyMapped) ==> final(self).areas@
                == old(self).areas@ && PageTable::same_tables(
                old(self).page_table,
                final(self).page_table,
            ) && final(alloc).recycled@ == old(alloc).recycled@ && final(alloc).current == old(alloc).current,
            // Success is owed with one data frame per page (for framed
            // regions) plus the walk's per-level table cap.
            !old(self).region_conflict(area) && (forall|v: u64|
                area.covers(v) ==> !old(self).page_table.mapped(v)) && old(alloc).free_count() >= (
            if area.map_type == MapType::Framed {
                area.page_count()
            } else {
                0int
            }) + walk_frames_cap(area.vpn_range.l.0, area.vpn_range.r.0) ==> r is Ok,
            r == Err::<PopulatePolicy, SpaceError>(SpaceError::OutOfFrames) ==> final(self).areas@
                == old(self).areas@ && !old(self).region_conflict(area) && forall|v: u64|
                area.covers(v) ==> !old(self).page_table.mapped(v),
            // Entries no page of the region reaches are untouched.
            forall|w: u64|
                !spec_norm_touches(w, area.vpn_range.l.0, area.vpn_range.r.0) ==> final(self).page_table.entry_bits(w) == old(self).page_table.entry_bits(w),
            // A valid entry is never overwritten: regions already in
            // place keep their mappings through every later insertion.
            forall|w: u64|
                crate::page_table::spec_pte_valid(old(self).page_table.entry_bits(w)) ==> final(self).page_table.entry_bits(w) == old(self).page_table.entry_bits(w),
            // The region is recorded, mapped, and hands back its policy.
            r matches Ok(pol) ==> pol == spec_populate_policy(area.map_type, data),
            r is Ok ==> final(self).areas@.len() == old(self).areas@.len() + 1 && final(self).areas@.subrange(0, old(self).areas@.len() as int) == old(self).areas@,
            r is Ok ==> final(self).areas@.last().va_range == area.va_range && final(self).areas@.last().vpn_range == area.vpn_range && final(self).areas@.last().map_type
                == area.map_type && final(self).areas@.last().map_perm == area.map_perm,
            r is Ok ==> final(self).areas@.last().mapped_in(final(self).page_table),
            r is Ok ==> forall|v: u64| area.covers(v) ==> final(self).page_table.mapped(v),
    {
        let mut i: usize = 0;
        while i < self.areas.len()
            invariant
                0 <= i <= self.areas@.len(),
                forall|k: int|
                    0 <= k < i ==> !spec_range_eq_overlap(
                        (#[trigger] self.areas@[k]).va_range,
                        area.va_range,
                    ),
            decreases self.areas@.len() - i,
        {
            if self.areas[i].va_range.eq(&area.va_range) {
                proof {
                    if area.vpn_range.l.0 < area.vpn_range.r.0 {
                        lemma_block_monotone(
                            area.vpn_range.l.0,
                            (area.vpn_range.r.0 - 1) as u64,
                        );
                    }
                }
                return Err(SpaceError::RegionConflict);
            }
            i = i + 1;
        }
        let mut area = area;
        match area.map(&mut self.page_table, alloc) {
            Ok(_) => {
                let policy = populate_policy(area.map_type, data);
                self.areas.push(area);
                Ok(policy)
            },
            Err(MapError::AlreadyMapped) => Err(SpaceError::AlreadyMapped),
            Err(_) => Err(SpaceError::OutOfFrames),
        }
    }

    /// Insert a framed region over a virtual range: the common-case
    /// helper for dynamically sized carve-outs such as kernel stacks.
    /// Refused exactly as `push` refuses — a range comparing equal to an
    /// existing region's under the containment-overlap ordering, or a
    /// page of the rounded range already mapped — and success is owed
    /// with one frame per page plus the walk's per-level table cap.
    pub fn insert_framed_area(
        &mut self,
        va_range: VARange,
        map_perm: MapPermission,
        data: Option<&[u8]>,
        alloc: &mut StackFrameAllocator,
    ) -> (r: Result<PopulatePolicy, SpaceError>)
        requires
            old(self).wf(),
            va_range.start.0 <= va_range.end.0,
            va_range.end.0 <= u64::MAX - (PAGE_SIZE - 1),
            va_range.end.0 - va_range.start.0 <= 0x7_ffff_e000,
            old(alloc).wf(),
            old(alloc).end <= 0x1000_0000_0000,
        ensures
            final(self).wf(),
            final(alloc).wf(),
            final(alloc).end == old(alloc).end,
            final(self).page_table.spec_root() == old(self).page_table.spec_root(),
            forall|p: u64| old(alloc).live(p) ==> final(alloc).live(p),
            final(alloc).free_count() <= old(alloc).free_count(),
            // Range conflict, before any change.
            r == Err::<PopulatePolicy, SpaceError>(SpaceError::RegionConflict) <==> exists|k: int|
                0 <= k < old(self).areas@.len() && spec_range_eq_overlap(
                    (#[trigger] old(self).areas@[k]).va_range,
                    VARangeOrd(va_range),
                ),
            r == Err::<PopulatePolicy, SpaceError>(SpaceError::RegionConflict) ==> final(self).areas@
                == old(self).areas@ && PageTable::same_tables(
                old(self).page_table,
                final(self).page_table,
            ) && final(alloc).recycled@ == old(alloc).recycled@ && final(alloc).current == old(alloc).current,
            // Re-map rejection, before any change to the table.
            r == Err::<PopulatePolicy, SpaceError>(SpaceError::AlreadyMapped) <==> !(exists|k: int|
                0 <= k < old(self).areas@.len() && spec_range_eq_overlap(
                    (#[trigger] old(self).areas@[k]).va_range,
                    VARangeOrd(va_range),
                )) && exists|v: u64|
                spec_floor(va_range.start.0) <= v < spec_ceil(va_range.end.0) && old(self).page_table.mapped(v),
            r == Err::<PopulatePolicy, SpaceError>(SpaceError::AlreadyMapped) ==> final(self).areas@
                == old(self).areas@ && PageTable::same_tables(
                old(self).page_table,
                final(self).page_table,
            ) && final(alloc).recycled@ == old(alloc).recycled@ && final(alloc).current == old(alloc).current,
            // Success is owed with one frame per page of the rounded
            // range plus the walk's per-level table cap.
            !(exists|k: int|
                0 <= k < old(self).areas@.len() && spec_range_eq_overlap(
                    (#[trigger] old(self).areas@[k]).va_range,
                    VARangeOrd(va_range),
                )) && (forall|v: u64|
                spec_floor(va_range.start.0) <= v < spec_ceil(va_range.end.0) ==> !old(self).page_table.mapped(v)) && old(alloc).free_count() >= (spec_ceil(va_range.end.0)
                - spec_floor(va_range.start.0)) + walk_frames_cap(
                spec_floor(va_range.start.0) as u64,
                spec_ceil(va_range.end.0) as u64,
            ) ==> r is Ok,
            r == Err::<PopulatePolicy, SpaceError>(SpaceError::OutOfFrames) ==> final(self).areas@
                == old(self).areas@ && forall|v: u64|
                spec_floor(va_range.start.0) <= v < spec_ceil(va_range.end.0) ==> !old(self).page_table.mapped(v),
            // A valid entry is never overwritten.
            forall|w: u64|
                crate::page_table::spec_pte_valid(old(self).page_table.entry_bits(w)) ==> final(self).page_table.entry_bits(w) == old(self).page_table.entry_bits(w),
            // The region is recorded, mapped, and hands back its policy.
            r is Ok ==> final(self).areas@.len() == old(self).areas@.len() + 1 && final(self).areas@.subrange(0, old(self).areas@.len() as int) == old(self).areas@,
            r is Ok ==> final(self).areas@.last().map_type == MapType::Framed && final(self).areas@.last().map_perm == map_perm && final(self).areas@.last().va_range.0
                == va_range && final(self).areas@.last().mapped_in(final(self).page_table),
            r is Ok ==> forall|v: u64|
                spec_floor(va_range.start.0) <= v < spec_ceil(va_range.end.0) ==> final(self).page_table.mapped(v),
            r matches Ok(pol) ==> pol == spec_populate_policy(MapType::Framed, data),
    {
        let area = MapArea::new(va_range.start, va_range.end, MapType::Framed, map_perm);
        let ghost a = area;
        proof {
            assert(a.va_range == VARangeOrd(va_range));
        }
        let res = self.push(area, data, alloc);
        proof {
            let l = spec_floor(va_range.start.0);
            let h = spec_ceil(va_range.end.0);
            if res == Err::<PopulatePolicy, SpaceError>(SpaceError::AlreadyMapped) {
                let v = choose|v: u64| a.covers(v) && old(self).page_table.mapped(v);
                assert(l <= v < h && old(self).page_table.mapped(v));
            }
            if !(exists|k: int|
                0 <= k < old(self).areas@.len() && spec_range_eq_overlap(
                    (#[trigger] old(self).areas@[k]).va_range,
                    VARangeOrd(va_range),
                )) && (exists|v: u64| l <= v < h && old(self).page_table.mapped(v)) {
                let v = choose|v: u64| l <= v < h && old(self).page_table.mapped(v);
                assert(a.covers(v) && old(self).page_table.mapped(v));
            }
            if res == Err::<PopulatePolicy, SpaceError>(SpaceError::OutOfFrames) {
                assert forall|v: u64| l <= v < h implies !old(self).page_table.mapped(v) by {
                    assert(a.covers(v));
                }
            }
            if res is Ok {
                assert forall|v: u64| l <= v < h implies self.page_table.mapped(v) by {
                    assert(a.covers(v));
                }
            }
        }
        res
    }

    /// Tear the address space down: hand back every frame it owns — the
    /// data frames of each region in turn, then the page table's own
    /// frames, its root first among them.  Returning them to the
    /// allocator completes the teardown; the address space must no
    /// longer be the active one.
    #[verifier::loop_isolation(false)]
    pub fn into_frames(self) -> (r: Vec<Frame>)
        requires
            self.wf(),
        ensures
            r@.len() == data_frames_count(self.areas@, self.areas@.len() as int)
                + self.page_table.owned_table_frames(),
    {
        let ghost me = self;
        let MemorySet { page_table, areas } = self;
        let mut areas = areas;
        let mut frames: Vec<Frame> = Vec::new();
        proof {
            assert(areas@ =~= me.areas@.subrange(0, me.areas@.len() as int));
        }
        while areas.len() > 0
            invariant
                areas@.len() <= me.areas@.len(),
                areas@ == me.areas@.subrange(
                    me.areas@.len() - areas@.len(),
                    me.areas@.len() as int,
                ),
                frames@.len() == data_frames_count(
                    me.areas@,
                    me.areas@.len() - areas@.len(),
                ),
            decreases areas@.len(),
        {
            let ghost done = me.areas@.len() - areas@.len() as int;
            let ghost pre = areas@;
            let area = areas.remove(0);
            proof {
                assert(me.areas@.subrange(done, me.areas@.len() as int)[0] == me.areas@[done]);
                assert(pre[0] == me.areas@[done]);
                assert(areas@ =~= me.areas@.subrange(done + 1, me.areas@.len() as int));
                assert(data_frames_count(me.areas@, done + 1) == data_frames_count(me.areas@, done)
                    + me.areas@[done].data_frames@.len());
            }
            let mut af = area.into_frames();
            frames.append(&mut af);
        }
        let mut tf = page_table.into_frames();
        frames.append(&mut tf);
        frames
    }
}

/// Frames recorded by the first `j` regions of `areas`, counted
/// together.
pub open spec fn data_frames_count(areas: Seq<MapArea>, j: int) -> int
    decreases j,
{
    if j <= 0 {
        0
    } else {
        data_frames_count(areas, j - 1) + areas[j - 1].data_frames@.len()
    }
}

/// Linear-mapping identity: in any table a linear region is installed
/// in, every page of the region translates to its own page number minus
/// the fixed kernel offset, with a valid entry.
pub proof fn lemma_linear_mapping_identity(area: MapArea, pt: PageTable, v: u64)
    requires
        area.wf(),
        area.map_type == MapType::Linear,
        area.mapped_in(pt),
        area.covers(v),
    ensures
        crate::page_table::spec_pte_valid(pt.entry_bits(v)),
        crate::page_table::spec_pte_ppn(pt.entry_bits(v)) == v - KERNEL_MAP_OFFSET_PAGES,
{
    lemma_area_entry((v - KERNEL_MAP_OFFSET_PAGES) as u64, area.map_perm.0);
}

/// Link-time section boundaries of the kernel image, read once at
/// kernel-space construction time.  All addresses are in the kernel's
/// linearly mapped window and page-aligned; each section is nonempty.
#[derive(Copy, Clone, Debug, PartialEq, Eq, Structural)]
pub struct KernelLayout {
    /// Start of the code section.
    pub stext: VA,
    /// End of the code section.
    pub etext: VA,
    /// Start of the read-only data section.
    pub srodata: VA,
    /// End of the read-only data section.
    pub erodata: VA,
    /// Start of the writable data section.
    pub sdata: VA,
    /// End of the writable data section.
    pub edata: VA,
    /// Start of the zero-initialized section (with the boot stack).
    pub sbss: VA,
    /// End of the zero-initialized section.
    pub ebss: VA,
    /// End of the kernel image; the rest of the window up to the end of
    /// physical memory is mapped as ordinary memory.
    pub ekernel: VA,
}

/// Permission bits of the kernel code section: execute and read.
pub const MAP_PERM_RX: u8 = 0x0a;

/// Permission bits of the writable kernel sections: read and write.
pub const MAP_PERM_RW: u8 = 0x06;

/// The named permission combinations are the unions of their parts.
pub proof fn lemma_perm_combinations()
    ensures
        MAP_PERM_RX == MAP_PERM_R | MAP_PERM_X,
        MAP_PERM_RW == MAP_PERM_R | MAP_PERM_W,
{
    assert(0x0au8 == 0x02u8 | 0x08u8 && 0x06u8 == 0x02u8 | 0x04u8) by (bit_vector);
}

/// Pages in the kernel's linearly mapped window.
pub open spec fn kernel_window_pages() -> int {
    (MEMORY_END - KERNEL_MAP_OFFSET) as int / PAGE_SIZE as int
}

impl KernelLayout {
    /// The boundaries are page-aligned, ordered, inside the linear
    /// window, and each section is nonempty.
    pub open spec fn wf(self) -> bool {
        &&& spec_page_offset(self.stext.0) == 0
        &&& spec_page_offset(self.etext.0) == 0
        &&& spec_page_offset(self.srodata.0) == 0
        &&& spec_page_offset(self.erodata.0) == 0
        &&& spec_page_offset(self.sdata.0) == 0
        &&& spec_page_offset(self.edata.0) == 0
        &&& spec_page_offset(self.sbss.0) == 0
        &&& spec_page_offset(self.ebss.0) == 0
        &&& spec_page_offset(self.ekernel.0) == 0
        &&& KERNEL_MAP_OFFSET <= self.stext.0
        &&& self.stext.0 < self.etext.0
        &&& self.etext.0 <= self.srodata.0
        &&& self.srodata.0 < self.erodata.0
        &&& self.erodata.0 <= self.sdata.0
        &&& self.sdata.0 < self.edata.0
        &&& self.edata.0 <= self.sbss.0
        &&& self.sbss.0 < self.ebss.0
        &&& self.ebss.0 <= self.ekernel.0
        &&& self.ekernel.0 < MEMORY_END
    }

    /// Start address of the kernel's `i`-th region.
    pub open spec fn sec_start(self, i: int) -> u64 {
        if i == 0 {
            self.stext.0
        } else if i == 1 {
            self.srodata.0
        } else if i == 2 {
            self.sdata.0
        } else if i == 3 {
            self.sbss.0
        } else {
            self.ekernel.0
        }
    }

    /// End address of the kernel's `i`-th region.
    pub open spec fn sec_end(self, i: int) -> u64 {
        if i == 0 {
            self.etext.0
        } else if i == 1 {
            self.erodata.0
        } else if i == 2 {
            self.edata.0
        } else if i == 3 {
            self.ebss.0
        } else {
            MEMORY_END
        }
    }

    /// Permission bits of the kernel's `i`-th region: execute and read
    /// for code, read only for constants, read and write for the rest.
    pub open spec fn sec_perm(self, i: int) -> u8 {
        if i == 0 {
            MAP_PERM_RX
        } else if i == 1 {
            MAP_PERM_R
        } else {
            MAP_PERM_RW
        }
    }

    /// First page number of the kernel's `i`-th region.
    pub open spec fn sec_svpn(self, i: int) -> int {
        self.sec_start(i) as int / PAGE_SIZE as int
    }

    /// One past the last page number of the kernel's `i`-th region.
    pub open spec fn sec_evpn(self, i: int) -> int {
        self.sec_end(i) as int / PAGE_SIZE as int
    }

    /// Walk-table cap of the kernel's `i`-th region.
    pub open spec fn sec_cap(self, i: int) -> int {
        walk_frames_cap(self.sec_svpn(i) as u64, self.sec_evpn(i) as u64)
    }

    /// Walk-table caps of the kernel's first `j` regions, summed.
    pub open spec fn caps_before(self, j: int) -> int
        decreases j,
    {
        if j <= 0 {
            0
        } else {
            self.caps_before(j - 1) + self.sec_cap(j - 1)
        }
    }

    /// Frames the kernel-space construction can consume at most: one
    /// root frame plus the walk-table caps of the five regions.
    pub open spec fn frames_cap(self) -> int {
        1 + self.caps_before(5)
    }
}

/// A page-aligned nonempty address range rounds to the exact page range
/// between its bounds' page numbers, in order.
proof fn lemma_aligned_section(s: u64, e: u64)
    requires
        spec_page_offset(s) == 0,
        spec_page_offset(e) == 0,
        s < e,
        e <= u64::MAX - (PAGE_SIZE - 1),
    ensures
        spec_floor(s) == s as int / PAGE_SIZE as int,
        spec_ceil(e) == e as int / PAGE_SIZE as int,
        (s as int / PAGE_SIZE as int) < (e as int / PAGE_SIZE as int),
{
    crate::address::lemma_alignment_round_trip(e);
    let ps = PAGE_SIZE as int;
    vstd::arithmetic::div_mod::lemma_fundamental_div_mod(s as int, ps);
    vstd::arithmetic::div_mod::lemma_fundamental_div_mod(e as int, ps);
    let qs = s as int / ps;
    let qe = e as int / ps;
    assert(ps * qs < ps * qe) by (nonlinear_arith)
        requires
            ps * qs == s,
            ps * qe == e,
            s < e,
            ps > 0,
    ;
    assert(qs < qe) by (nonlinear_arith)
        requires
            ps * qs < ps * qe,
            ps > 0,
    ;
}

/// The kernel window's ordering facts in page-number space: each region
/// rounds exactly, regions are ordered and nonempty, and everything lies
/// in the window.
proof fn lemma_layout_vpns(l: KernelLayout)
    requires
        l.wf(),
    ensures
        forall|i: int|
            0 <= i < 5 ==> #[trigger] l.sec_svpn(i) < l.sec_evpn(i) && KERNEL_MAP_OFFSET_PAGES
                <= l.sec_svpn(i) && l.sec_evpn(i) <= KERNEL_MAP_OFFSET_PAGES
                + kernel_window_pages(),
        forall|i: int| 0 <= i < 4 ==> #[trigger] l.sec_evpn(i) <= l.sec_svpn(i + 1),
        kernel_window_pages() == 0x80800,
{
    let ps = PAGE_SIZE as int;
    assert forall|i: int| 0 <= i < 5 implies #[trigger] l.sec_svpn(i) < l.sec_evpn(i)
        && KERNEL_MAP_OFFSET_PAGES <= l.sec_svpn(i) && l.sec_evpn(i) <= KERNEL_MAP_OFFSET_PAGES
        + kernel_window_pages() by {
        lemma_aligned_section(l.sec_start(i), l.sec_end(i));
        vstd::arithmetic::div_mod::lemma_div_is_ordered(
            KERNEL_MAP_OFFSET as int,
            l.sec_start(i) as int,
            ps,
        );
        vstd::arithmetic::div_mod::lemma_div_is_ordered(l.sec_end(i) as int, MEMORY_END as int, ps);
    }
    assert forall|i: int| 0 <= i < 4 implies #[trigger] l.sec_evpn(i) <= l.sec_svpn(i + 1) by {
        vstd::arithmetic::div_mod::lemma_div_is_ordered(
            l.sec_end(i) as int,
            l.sec_start(i + 1) as int,
            ps,
        );
    }
}

/// Each kernel region's walk-table cap is nonnegative.
proof fn lemma_sec_cap_nonneg(l: KernelLayout, i: int)
    requires
        l.wf(),
        0 <= i < 5,
    ensures
        l.sec_cap(i) >= 0,
{
    lemma_layout_vpns(l);
    lemma_block_monotone(l.sec_svpn(i) as u64, (l.sec_evpn(i) - 1) as u64);
}

/// The summed walk-table caps of the first `j` kernel regions are
/// nonnegative and never exceed the sum over all five.
proof fn lemma_caps_before_monotone(l: KernelLayout, j: int)
    requires
        l.wf(),
        0 <= j <= 5,
    ensures
        l.caps_before(j) >= 0,
        l.caps_before(5) >= l.caps_before(j),
    decreases 5 - j, j,
{
    if j > 0 {
        lemma_sec_cap_nonneg(l, j - 1);
        lemma_caps_nonneg(l, j - 1);
    }
    if j < 5 {
        lemma_sec_cap_nonneg(l, j);
        lemma_caps_before_monotone(l, j + 1);
    }
}

/// The summed walk-table caps of the first `j` kernel regions are
/// nonnegative.
proof fn lemma_caps_nonneg(l: KernelLayout, j: int)
    requires
        l.wf(),
        0 <= j <= 5,
    ensures
        l.caps_before(j) >= 0,
    decreases j,
{
    if j > 0 {
        lemma_sec_cap_nonneg(l, j - 1);
        lemma_caps_nonneg(l, j - 1);
    }
}

/// An entry outside an installed range of the kernel window is as it
/// was: pages of the window reach pairwise distinct leaf entries.
proof fn lemma_outside_range_untouched(prev: PageTable, cur: PageTable, sj: u64, ej: u64, v: u64)
    requires
        forall|w: u64| !spec_norm_touches(w, sj, ej) ==> cur.entry_bits(w) == prev.entry_bits(w),
        KERNEL_MAP_OFFSET_PAGES <= sj,
        ej <= KERNEL_MAP_OFFSET_PAGES + 0x80_0000,
        KERNEL_MAP_OFFSET_PAGES <= v,
        v < KERNEL_MAP_OFFSET_PAGES + 0x80_0000,
        !(sj <= v < ej),
    ensures
        cur.entry_bits(v) == prev.entry_bits(v),
{
    if spec_norm_touches(v, sj, ej) {
        let u = choose|u: u64| sj <= u < ej && spec_norm(u) == spec_norm(v);
        if u < v {
            lemma_norm_injective_window(u, v);
        } else {
            lemma_norm_injective_window(v, u);
        }
        assert(false);
    }
}

impl MemorySet {
    /// Assemble the kernel's address space: one linear region per
    /// link-time section — code (execute and read), read-only data
    /// (read), writable data, zero-initialized data, and the remaining
    /// physical memory (read and write) — each mapped through the fixed
    /// kernel offset.  Success is owed whenever the allocator holds the
    /// layout's frame cap: one root frame plus the regions' per-level
    /// walk-table caps.
    #[verifier::loop_isolation(false)]
    #[verifier::rlimit(50)]
    pub fn new_kernel(layout: KernelLayout, alloc: &mut StackFrameAllocator) -> (r: Result<
        MemorySet,
        SpaceError,
    >)
        requires
            layout.wf(),
            old(alloc).wf(),
        ensures
            final(alloc).wf(),
            final(alloc).end == old(alloc).end,
            forall|p: u64| old(alloc).live(p) ==> final(alloc).live(p),
            old(alloc).free_count() >= layout.frames_cap() ==> r is Ok,
            r matches Ok(ms) ==> ms.wf() && ms.areas@.len() == 5,
            r matches Ok(ms) ==> forall|i: int|
                0 <= i < 5 ==> (#[trigger] ms.areas@[i]).map_type == MapType::Linear
                    && ms.areas@[i].map_perm.0 == layout.sec_perm(i)
                    && ms.areas@[i].va_range.0.start.0 == layout.sec_start(i)
                    && ms.areas@[i].va_range.0.end.0 == layout.sec_end(i)
                    && ms.areas@[i].vpn_range.l.0 == layout.sec_svpn(i)
                    && ms.areas@[i].vpn_range.r.0 == layout.sec_evpn(i)
                    && ms.areas@[i].mapped_in(ms.page_table),
            r matches Ok(ms) ==> forall|i: int, v: u64|
                #![trigger layout.sec_svpn(i), ms.page_table.entry_bits(v)]
                0 <= i < 5 && layout.sec_svpn(i) <= v < layout.sec_evpn(i)
                    ==> ms.page_table.mapped(v) && crate::page_table::spec_pte_ppn(
                    ms.page_table.entry_bits(v),
                ) == v - KERNEL_MAP_OFFSET_PAGES,
    {
        proof {
            lemma_layout_vpns(layout);
        }
        let mut ms = match MemorySet::new(alloc) {
            Ok(m) => m,
            Err(e) => {
                proof {
                    lemma_caps_nonneg(layout, 5);
                }
                return Err(e);
            },
        };
        let mut sections: Vec<(VA, VA, MapPermission)> = Vec::new();
        sections.push((layout.stext, layout.etext, MapPermission(MAP_PERM_RX)));
        sections.push((layout.srodata, layout.erodata, MapPermission(MAP_PERM_R)));
        sections.push((layout.sdata, layout.edata, MapPermission(MAP_PERM_RW)));
        sections.push((layout.sbss, layout.ebss, MapPermission(MAP_PERM_RW)));
        sections.push((layout.ekernel, VA(MEMORY_END), MapPermission(MAP_PERM_RW)));
        proof {
            assert forall|i: int| 0 <= i < 5 implies (#[trigger] sections@[i]).0.0
                == layout.sec_start(i) && sections@[i].1.0 == layout.sec_end(i)
                && sections@[i].2.0 == layout.sec_perm(i) by {}
        }
        let ghost free0 = old(alloc).free_count();
        let mut j: usize = 0;
        while j < 5
            invariant
                0 <= j <= 5,
                sections@.len() == 5,
                forall|i: int|
                    0 <= i < 5 ==> (#[trigger] sections@[i]).0.0 == layout.sec_start(i)
                        && sections@[i].1.0 == layout.sec_end(i) && sections@[i].2.0
                        == layout.sec_perm(i),
                ms.wf(),
                ms.areas@.len() == j,
                alloc.wf(),
                alloc.end == old(alloc).end,
                forall|p: u64| old(alloc).live(p) ==> alloc.live(p),
                alloc.free_count() >= free0 - 1 - layout.caps_before(j as int),
                forall|i: int|
                    0 <= i < j ==> (#[trigger] ms.areas@[i]).map_type == MapType::Linear
                        && ms.areas@[i].map_perm.0 == layout.sec_perm(i)
                        && ms.areas@[i].va_range.0.start.0 == layout.sec_start(i)
                        && ms.areas@[i].va_range.0.end.0 == layout.sec_end(i)
                        && ms.areas@[i].vpn_range.l.0 == layout.sec_svpn(i)
                        && ms.areas@[i].vpn_range.r.0 == layout.sec_evpn(i)
                        && ms.areas@[i].mapped_in(ms.page_table),
                forall|i: int, v: u64|
                    #![trigger layout.sec_svpn(i), ms.page_table.entry_bits(v)]
                    j <= i < 5 && layout.sec_svpn(i) <= v < layout.sec_evpn(i)
                        ==> ms.page_table.entry_bits(v) == 0,
            decreases 5 - j,
        {
            let (sva, eva, perm) = sections[j];
            proof {
                lemma_aligned_section(sva.0, eva.0);
            }
            let area = MapArea::new(sva, eva, MapType::Linear, perm);
            let ghost svpn: u64 = (layout.sec_svpn(j as int)) as u64;
            let ghost evpn: u64 = (layout.sec_evpn(j as int)) as u64;
            let ghost ms_prev = ms;
            let ghost alloc_prev = *alloc;
            proof {
                assert(!ms.region_conflict(area)) by {
                    assert forall|k: int| 0 <= k < ms.areas@.len() implies !spec_range_eq_overlap(
                        (#[trigger] ms.areas@[k]).va_range,
                        area.va_range,
                    ) by {
                        assert(layout.sec_end(k) <= layout.sec_start(j as int));
                    }
                }
                assert forall|v: u64| area.covers(v) implies !ms.page_table.mapped(v) by {
                    assert(ms.page_table.entry_bits(v) == 0);
                    assert(!(0u64 & 1 == 1)) by (bit_vector);
                }
            }
            match ms.push(area, None, alloc) {
                Ok(_) => {},
                Err(e) => {
                    proof {
                        if free0 >= layout.frames_cap() {
                            lemma_caps_before_monotone(layout, (j + 1) as int);
                            assert(layout.caps_before(j as int + 1) == layout.caps_before(
                                j as int,
                            ) + layout.sec_cap(j as int));
                            assert(alloc_prev.free_count() >= layout.sec_cap(j as int));
                            assert(false);
                        }
                    }
                    return Err(e);
                },
            }
            proof {
                assert(layout.caps_before(j as int + 1) == layout.caps_before(j as int)
                    + layout.sec_cap(j as int));
                assert forall|i: int|
                    0 <= i < j + 1 implies (#[trigger] ms.areas@[i]).map_type == MapType::Linear
                    && ms.areas@[i].map_perm.0 == layout.sec_perm(i)
                    && ms.areas@[i].va_range.0.start.0 == layout.sec_start(i)
                    && ms.areas@[i].va_range.0.end.0 == layout.sec_end(i)
                    && ms.areas@[i].vpn_range.l.0 == layout.sec_svpn(i)
                    && ms.areas@[i].vpn_range.r.0 == layout.sec_evpn(i) by {
                    if i < j {
                        assert(ms.areas@[i] == ms_prev.areas@[i]);
                    }
                }
                assert forall|i: int| 0 <= i < j + 1 implies (#[trigger] ms.areas@[i]).mapped_in(
                    ms.page_table,
                ) by {
                    if i < j {
                        let a = ms.areas@[i];
                        assert(a == ms_prev.areas@[i]);
                        assert(a.map_type == MapType::Linear);
                        assert forall|v: u64| a.covers(v) implies ms.page_table.entry_bits(v)
                            == spec_make_pte(
                            (v - KERNEL_MAP_OFFSET_PAGES) as u64,
                            spec_area_flags(a.map_perm.0),
                        ) by {
                            lemma_outside_range_untouched(
                                ms_prev.page_table,
                                ms.page_table,
                                svpn,
                                evpn,
                                v,
                            );
                        }
                    }
                }
                assert forall|i: int, v: u64|
                    #![trigger layout.sec_svpn(i), ms.page_table.entry_bits(v)]
                    j + 1 <= i < 5 && layout.sec_svpn(i) <= v < layout.sec_evpn(
                        i,
                    ) implies ms.page_table.entry_bits(v) == 0 by {
                    lemma_outside_range_untouched(ms_prev.page_table, ms.page_table, svpn, evpn, v);
                }
            }
            j = j + 1;
        }
        proof {
            assert forall|i: int, v: u64|
                #![trigger layout.sec_svpn(i), ms.page_table.entry_bits(v)]
                0 <= i < 5 && layout.sec_svpn(i) <= v < layout.sec_evpn(i) implies ms
                .page_table.mapped(v) && crate::page_table::spec_pte_ppn(
                ms.page_table.entry_bits(v),
            ) == v - KERNEL_MAP_OFFSET_PAGES by {
                let a = ms.areas@[i];
                assert(a.covers(v));
                assert(ms.page_table.entry_bits(v) == spec_make_pte(
                    (v - KERNEL_MAP_OFFSET_PAGES) as u64,
                    spec_area_flags(a.map_perm.0),
                ));
                lemma_area_entry((v - KERNEL_MAP_OFFSET_PAGES) as u64, a.map_perm.0);
            }
        }
        Ok(ms)
    }
}

} // verus!
