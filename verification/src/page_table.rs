//! Multi-level page table: a per-address-space radix tree of page-table
//! entries.  Walks create missing intermediate-level tables on demand
//! from the frame allocator; the table owns the frames that hold the
//! root and every intermediate level, while leaf data frames belong to
//! the mapped region that requested the mapping.
use vstd::prelude::*;

use crate::address::{
    lemma_idx_bounds, lemma_idx_norm, spec_idx0, spec_idx1, spec_idx2, spec_norm, PPN, VPN,
};
use crate::frame_allocator::{Frame, StackFrameAllocator};

verus! {

/// Valid bit: the entry is installed.
pub const PTE_V: u8 = 0x01;

/// Readable.
pub const PTE_R: u8 = 0x02;

/// Writable.
pub const PTE_W: u8 = 0x04;

/// Executable.
pub const PTE_X: u8 = 0x08;

/// Accessible to user mode.
pub const PTE_U: u8 = 0x10;

/// Global mapping.
pub const PTE_G: u8 = 0x20;

/// Accessed.
pub const PTE_A: u8 = 0x40;

/// Dirty.
pub const PTE_D: u8 = 0x80;

/// Page-table entry permission/status bits as a fixed-width bit set.
#[derive(Copy, Clone, Debug, PartialEq, Eq, Structural)]
pub struct PTEFlags(pub u8);

impl PTEFlags {
    /// The empty bit set.
    pub fn empty() -> (r: PTEFlags)
        ensures
            r.0 == 0,
    {
        PTEFlags(0)
    }

    /// Set union of two bit sets.
    pub fn union(self, other: PTEFlags) -> (r: PTEFlags)
        ensures
            r.0 == self.0 | other.0,
    {
        PTEFlags(self.0 | other.0)
    }

    /// Set intersection of two bit sets.
    pub fn intersect(self, other: PTEFlags) -> (r: PTEFlags)
        ensures
            r.0 == self.0 & other.0,
    {
        PTEFlags(self.0 & other.0)
    }

    /// Whether every bit of `other` is set in `self`.
    pub fn contains(self, other: PTEFlags) -> (r: bool)
        ensures
            r == (self.0 & other.0 == other.0),
    {
        self.0 & other.0 == other.0
    }
}

/// Physical page number packed into the entry word `bits`.
pub open spec fn spec_pte_ppn(bits: u64) -> u64 {
    (bits >> 10) & 0xfff_ffff_ffff
}

/// Flag bits packed into the entry word `bits`.
pub open spec fn spec_pte_flags(bits: u64) -> u64 {
    bits & 0xff
}

/// Whether the entry word `bits` has its valid bit set.
pub open spec fn spec_pte_valid(bits: u64) -> bool {
    bits & 1 == 1
}

/// The entry word that packs the page number `ppn` with the flag bits
/// `flags`.
pub open spec fn spec_make_pte(ppn: u64, flags: u8) -> u64 {
    (ppn << 10) | flags as u64
}

/// Packing an in-range page number and flags into an entry word and
/// reading them back yields the original values, and the entry is valid
/// exactly when the valid flag bit was set.
pub proof fn lemma_pte_pack(ppn: u64, flags: u8)
    requires
        ppn < 0x1000_0000_0000,
    ensures
        spec_pte_ppn(spec_make_pte(ppn, flags)) == ppn,
        spec_pte_flags(spec_make_pte(ppn, flags)) == flags as u64,
        spec_pte_valid(spec_make_pte(ppn, flags)) == (flags as u64 & 1 == 1),
{
    let f: u64 = flags as u64;
    assert((((ppn << 10) | f) >> 10) & 0xfff_ffff_ffff == ppn && ((ppn << 10) | f) & 0xff == f && (
    ((ppn << 10) | f) & 1 == 1) == (f & 1 == 1)) by (bit_vector)
        requires
            ppn < 0x1000_0000_0000,
            f < 0x100,
    ;
}

/// Map/lookup round trip: an entry installed for the physical page
/// `ppn` — as a successful map installs it — decodes back to `ppn` with
/// the valid bit set, whatever permission bits came along.
pub proof fn lemma_map_lookup_round_trip(pt: PageTable, vpn: u64, ppn: u64, flags: u8)
    requires
        ppn < 0x1000_0000_0000,
        pt.entry_bits(vpn) == spec_make_pte(ppn, flags | PTE_V),
    ensures
        pt.mapped(vpn),
        spec_pte_ppn(pt.entry_bits(vpn)) == ppn,
{
    lemma_pte_pack(ppn, flags | PTE_V);
    let f: u8 = flags;
    assert(((f | 1) as u64) & 1 == 1) by (bit_vector);
}

/// A page-table entry: a fixed-width word packing a physical page
/// number and a flag bit set.
#[derive(Copy, Clone, Debug, PartialEq, Eq, Structural)]
pub struct PTE {
    /// The packed entry word.
    pub bits: u64,
}

impl PTE {
    /// Pack the page number `ppn` and the flag set `flags` into an
    /// entry word.
    pub fn new(ppn: PPN, flags: PTEFlags) -> (r: PTE)
        requires
            ppn.0 < 0x1000_0000_0000,
        ensures
            r.bits == spec_make_pte(ppn.0, flags.0),
    {
        let p: u64 = ppn.0;
        let f: u64 = flags.0 as u64;
        PTE { bits: (p << 10) | f }
    }

    /// The all-zero entry: invalid, pointing nowhere.
    pub fn empty() -> (r: PTE)
        ensures
            r.bits == 0,
            !spec_pte_valid(r.bits),
    {
        proof {
            assert(!(0u64 & 1 == 1)) by (bit_vector);
        }
        PTE { bits: 0 }
    }

    /// The physical page number this entry points at.
    pub fn ppn(&self) -> (r: PPN)
        ensures
            r.0 == spec_pte_ppn(self.bits),
    {
        PPN((self.bits >> 10) & 0xfff_ffff_ffff)
    }

    /// The flag bits of this entry.
    pub fn flags(&self) -> (r: PTEFlags)
        ensures
            r.0 == spec_pte_flags(self.bits),
    {
        let b: u64 = self.bits;
        proof {
            assert(b & 0xff < 0x100) by (bit_vector);
        }
        PTEFlags((b & 0xff) as u8)
    }

    /// Whether the valid bit is set.
    pub fn is_valid(&self) -> (r: bool)
        ensures
            r == spec_pte_valid(self.bits),
    {
        self.bits & 1 == 1
    }
}

/// Why a page-table operation was refused.
#[derive(Copy, Clone, Debug, PartialEq, Eq, Structural)]
pub enum MapError {
    /// The leaf entry is already valid; re-mapping without an
    /// intervening unmap is a protocol violation.
    AlreadyMapped,
    /// The leaf entry is not valid, so there is nothing to unmap.
    NotMapped,
    /// The frame allocator could not supply the frames the walk needs.
    OutOfFrames,
}

/// One leaf-level table: the frame that would hold it in physical
/// memory, and its entries.
struct LeafTable {
    /// The physical frame backing this table, owned by the page table.
    frame: Frame,
    /// The 512 leaf entries.
    entries: Vec<PTE>,
}

impl LeafTable {
    spec fn wf(self) -> bool {
        self.entries@.len() == 512
    }

    spec fn entry_at(self, c: int) -> u64 {
        self.entries@[c].bits
    }

    /// A zero-initialized leaf table backed by `frame`.
    fn new(frame: Frame) -> (r: LeafTable)
        ensures
            r.wf(),
            r.frame == frame,
            forall|c: int| 0 <= c < 512 ==> r.entry_at(c) == 0,
    {
        let mut entries: Vec<PTE> = Vec::new();
        let mut i: usize = 0;
        while i < 512
            invariant
                i == entries@.len(),
                i <= 512,
                forall|c: int| 0 <= c < i ==> entries@[c].bits == 0,
            decreases 512 - i,
        {
            entries.push(PTE::empty());
            i = i + 1;
        }
        LeafTable { frame, entries }
    }

    /// Overwrite the entry at index `c`.
    fn set_entry(&mut self, c: usize, pte: PTE)
        requires
            old(self).wf(),
            c < 512,
        ensures
            final(self).wf(),
            final(self).frame == old(self).frame,
            final(self).entry_at(c as int) == pte.bits,
            forall|x: int| 0 <= x < 512 && x != c ==> final(self).entry_at(x) == old(self).entry_at(x),
    {
        self.entries.set(c, pte);
    }
}

/// One middle-level table: its backing frame and the leaf tables below
/// it.
struct MidTable {
    /// The physical frame backing this table, owned by the page table.
    frame: Frame,
    /// The 512 slots, one per possible leaf table.
    slots: Vec<Option<LeafTable>>,
}

impl MidTable {
    spec fn wf(self) -> bool {
        &&& self.slots@.len() == 512
        &&& forall|b: int|
            0 <= b < 512 ==> (#[trigger] self.slots@[b] matches Some(l) ==> l.wf())
    }

    spec fn leaf_present(self, b: int) -> bool {
        self.slots@[b] is Some
    }

    spec fn entry_at(self, b: int, c: int) -> u64 {
        match self.slots@[b] {
            Some(l) => l.entry_at(c),
            None => 0,
        }
    }

    /// An empty middle table backed by `frame`, with no leaf tables.
    fn new(frame: Frame) -> (r: MidTable)
        ensures
            r.wf(),
            r.frame == frame,
            forall|b: int| 0 <= b < 512 ==> !r.leaf_present(b),
            forall|b: int, c: int| 0 <= b < 512 && 0 <= c < 512 ==> r.entry_at(b, c) == 0,
    {
        let mut slots: Vec<Option<LeafTable>> = Vec::new();
        let mut i: usize = 0;
        while i < 512
            invariant
                i == slots@.len(),
                i <= 512,
                forall|b: int| 0 <= b < i ==> slots@[b] is None,
            decreases 512 - i,
        {
            slots.push(None);
            i = i + 1;
        }
        MidTable { frame, slots }
    }

    /// Install a fresh zero-initialized leaf table at index `b`.
    fn install_leaf(&mut self, b: usize, frame: Frame)
        requires
            old(self).wf(),
            b < 512,
            !old(self).leaf_present(b as int),
        ensures
            final(self).wf(),
            final(self).frame == old(self).frame,
            final(self).leaf_present(b as int),
            forall|x: int| 0 <= x < 512 && x != b ==> final(self).leaf_present(x) == old(self).leaf_present(x),
            forall|x: int, y: int|
                0 <= x < 512 && 0 <= y < 512 ==> final(self).entry_at(x, y) == old(self).entry_at(
                    x,
                    y,
                ),
    {
        let leaf = LeafTable::new(frame);
        self.slots.set(b, Some(leaf));
        proof {
            assert forall|x: int, y: int|
                0 <= x < 512 && 0 <= y < 512 implies self.entry_at(x, y) == old(self).entry_at(
                x,
                y,
            ) by {
                if x == b {
                    assert(old(self).entry_at(x, y) == 0);
                }
            }
        }
    }

    /// Overwrite the entry at leaf index `b`, entry index `c`.
    fn set_entry(&mut self, b: usize, c: usize, pte: PTE)
        requires
            old(self).wf(),
            b < 512,
            c < 512,
            old(self).leaf_present(b as int),
        ensures
            final(self).wf(),
            final(self).frame == old(self).frame,
            forall|x: int| 0 <= x < 512 ==> final(self).leaf_present(x) == old(self).leaf_present(
                x,
            ),
            final(self).entry_at(b as int, c as int) == pte.bits,
            forall|x: int, y: int|
                0 <= x < 512 && 0 <= y < 512 && !(x == b && y == c) ==> final(self).entry_at(x, y)
                    == old(self).entry_at(x, y),
    {
        let slot = &mut self.slots[b];
        match slot {
            Some(leaf) => {
                leaf.set_entry(c, pte);
            },
            None => {
                proof {
                    assert(false);
                }
            },
        }
    }
}

/// Number of leaf tables present below the first `k` slots of a
/// middle-level table.
spec fn leaf_count_in(m: MidTable, k: int) -> int
    decreases k,
{
    if k <= 0 {
        0
    } else {
        leaf_count_in(m, k - 1) + if m.slots@[k - 1] is Some {
            1int
        } else {
            0int
        }
    }
}

/// A three-level radix page table.  The `root` frame would hold the
/// top-level table in physical memory; the table owns it and every
/// intermediate frame it allocates, for as long as the table lives.
pub struct PageTable {
    /// The frame of the top-level table; its page number feeds the
    /// hardware root-pointer token.
    pub root: Frame,
    slots: Vec<Option<MidTable>>,
}

impl PageTable {
    /// The radix tree is well formed: each level holds exactly 512
    /// slots.
    pub closed spec fn wf(self) -> bool {
        &&& self.slots@.len() == 512
        &&& forall|a: int|
            0 <= a < 512 ==> (#[trigger] self.slots@[a] matches Some(m) ==> m.wf())
    }

    /// The frame that backs the top-level table.
    pub closed spec fn spec_root(self) -> Frame {
        self.root
    }

    /// Whether a middle-level table exists at top-level index `a`.
    pub closed spec fn mid_present_i(self, a: int) -> bool {
        self.slots@[a] is Some
    }

    /// Whether a leaf-level table exists under top-level index `a`,
    /// middle index `b`.
    pub closed spec fn leaf_present_i(self, a: int, b: int) -> bool {
        match self.slots@[a] {
            Some(m) => m.leaf_present(b),
            None => false,
        }
    }

    /// The leaf entry word at radix indices `(a, b, c)`; zero where the
    /// path does not exist.
    pub closed spec fn entry_at(self, a: int, b: int, c: int) -> u64 {
        match self.slots@[a] {
            Some(m) => m.entry_at(b, c),
            None => 0,
        }
    }

    /// The leaf entry word reached by walking the three radix indices
    /// of the virtual page number `vpn`.
    pub open spec fn entry_bits(self, vpn: u64) -> u64 {
        self.entry_at(spec_idx2(vpn) as int, spec_idx1(vpn) as int, spec_idx0(vpn) as int)
    }

    /// Whether `vpn` has a valid leaf entry.
    pub open spec fn mapped(self, vpn: u64) -> bool {
        spec_pte_valid(self.entry_bits(vpn))
    }

    /// How many intermediate-table frames a walk to `vpn` would have to
    /// allocate.
    pub open spec fn frames_needed(self, vpn: u64) -> int {
        (if self.mid_present_i(spec_idx2(vpn) as int) {
            0int
        } else {
            1int
        }) + (if self.leaf_present_i(spec_idx2(vpn) as int, spec_idx1(vpn) as int) {
            0int
        } else {
            1int
        })
    }

    /// Two page tables translate identically and own the same root.
    pub open spec fn same_tables(a: PageTable, b: PageTable) -> bool {
        &&& a.spec_root() == b.spec_root()
        &&& forall|v: u64| a.entry_bits(v) == b.entry_bits(v)
        &&& forall|x: int| 0 <= x < 512 ==> a.mid_present_i(x) == b.mid_present_i(x)
        &&& forall|x: int, y: int|
            0 <= x < 512 && 0 <= y < 512 ==> a.leaf_present_i(x, y) == b.leaf_present_i(x, y)
        &&& forall|x: int, y: int, z: int|
            0 <= x < 512 && 0 <= y < 512 && 0 <= z < 512 ==> a.entry_at(x, y, z) == b.entry_at(
                x,
                y,
                z,
            )
    }

    /// A leaf table only exists under an existing middle table.
    pub proof fn lemma_leaf_implies_mid(self, a: int, b: int)
        requires
            self.leaf_present_i(a, b),
        ensures
            self.mid_present_i(a),
    {
    }

    /// Leaf entries depend only on the retained low bits of the page
    /// number: page numbers with equal radix indices share one entry.
    pub proof fn lemma_entry_norm(self, v: u64, w: u64)
        requires
            spec_norm(v) == spec_norm(w),
        ensures
            self.entry_bits(v) == self.entry_bits(w),
    {
        lemma_idx_norm(v, w);
    }

    /// Create a page table with a fresh root frame and no mappings;
    /// absent exactly when the allocator is exhausted.
    pub fn new(alloc: &mut StackFrameAllocator) -> (r: Result<PageTable, MapError>)
        requires
            old(alloc).wf(),
        ensures
            final(alloc).wf(),
            final(alloc).end == old(alloc).end,
            r is Err <==> old(alloc).free_count() == 0,
            r is Err ==> r == Err::<PageTable, MapError>(MapError::OutOfFrames) && final(alloc).recycled@ == old(alloc).recycled@ && final(alloc).current == old(alloc).current,
            r matches Ok(pt) ==> pt.wf() && !old(alloc).live(pt.spec_root().ppn.0) && final(alloc).live(pt.spec_root().ppn.0) && final(alloc).free_count() == old(alloc).free_count() - 1,
            r matches Ok(pt) ==> forall|p: u64|
                p != pt.spec_root().ppn.0 ==> final(alloc).live(p) == old(alloc).live(p),
            r matches Ok(pt) ==> forall|a: int| 0 <= a < 512 ==> !pt.mid_present_i(a),
            r matches Ok(pt) ==> forall|v: u64| !pt.mapped(v) && pt.entry_bits(v) == 0,
    {
        let frame = match alloc.allocate() {
            Some(f) => f,
            None => {
                return Err(MapError::OutOfFrames);
            },
        };
        let mut slots: Vec<Option<MidTable>> = Vec::new();
        let mut i: usize = 0;
        while i < 512
            invariant
                i == slots@.len(),
                i <= 512,
                forall|a: int| 0 <= a < i ==> slots@[a] is None,
            decreases 512 - i,
        {
            slots.push(None);
            i = i + 1;
        }
        let pt = PageTable { root: frame, slots };
        proof {
            assert forall|v: u64| !pt.mapped(v) && pt.entry_bits(v) == 0 by {
                lemma_idx_bounds(v);
                assert(!(0u64 & 1 == 1)) by (bit_vector);
            }
        }
        Ok(pt)
    }

    /// The page number of the root frame, tied to the spec-level root
    /// so callers can connect the token to the frame they hold.
    pub fn root_ppn(&self) -> (r: PPN)
        ensures
            r == self.spec_root().ppn,
    {
        self.root.ppn
    }

    /// Number of middle-level and leaf-level table frames owned below
    /// the first `k` top-level slots.
    pub closed spec fn table_count_upto(self, k: int) -> int
        decreases k,
    {
        if k <= 0 {
            0
        } else {
            self.table_count_upto(k - 1) + match self.slots@[k - 1] {
                Some(m) => 1 + leaf_count_in(m, 512),
                None => 0int,
            }
        }
    }

    /// Number of frames the table owns: its root plus one per present
    /// middle-level and leaf-level table.
    pub open spec fn owned_table_frames(self) -> int {
        1 + self.table_count_upto(512)
    }

    /// Dismantle the table and hand back every frame it owns, the root
    /// first; the table, and the translations it held, are gone.  The
    /// caller returns the frames to the allocator — the leaf data
    /// frames are not here, they belong to the mapped regions.
    #[verifier::loop_isolation(false)]
    pub fn into_frames(self) -> (r: Vec<Frame>)
        requires
            self.wf(),
        ensures
            r@.len() == self.owned_table_frames(),
            r@[0] == self.spec_root(),
    {
        let ghost me = self;
        let PageTable { root, slots } = self;
        let mut slots = slots;
        let mut frames: Vec<Frame> = Vec::new();
        frames.push(root);
        proof {
            assert(slots@ =~= me.slots@.subrange(0, slots@.len() as int));
        }
        while slots.len() > 0
            invariant
                slots@.len() <= 512,
                slots@ == me.slots@.subrange(0, slots@.len() as int),
                frames@.len() == 1 + me.table_count_upto(512) - me.table_count_upto(
                    slots@.len() as int,
                ),
                frames@.len() >= 1,
                frames@[0] == me.root,
            decreases slots@.len(),
        {
            let ghost n = slots@.len() as int;
            let ghost pre_slots = slots@;
            let slot = match slots.pop() {
                Some(slot) => slot,
                None => {
                    proof {
                        assert(false);
                    }
                    return frames;
                },
            };
            proof {
                assert(me.slots@.subrange(0, n)[n - 1] == me.slots@[n - 1]);
                assert(slot == me.slots@[n - 1]);
                assert(slots@ == pre_slots.subrange(0, n - 1));
                assert(slots@ =~= me.slots@.subrange(0, n - 1));
            }
            match slot {
                None => {},
                Some(mid) => {
                    let ghost mid_g = mid;
                    proof {
                        assert(me.slots@[n - 1] matches Some(m) && m.wf());
                    }
                    let MidTable { frame, slots: lslots } = mid;
                    let mut lslots = lslots;
                    frames.push(frame);
                    let ghost base = frames@.len() as int;
                    proof {
                        assert(lslots@ =~= mid_g.slots@.subrange(0, lslots@.len() as int));
                    }
                    while lslots.len() > 0
                        invariant
                            lslots@.len() <= 512,
                            lslots@ == mid_g.slots@.subrange(0, lslots@.len() as int),
                            frames@.len() == base + leaf_count_in(mid_g, 512) - leaf_count_in(
                                mid_g,
                                lslots@.len() as int,
                            ),
                            frames@.len() >= 1,
                            frames@[0] == me.root,
                        decreases lslots@.len(),
                    {
                        let ghost m = lslots@.len() as int;
                        let ghost pre_lslots = lslots@;
                        let lslot = match lslots.pop() {
                            Some(lslot) => lslot,
                            None => {
                                proof {
                                    assert(false);
                                }
                                return frames;
                            },
                        };
                        proof {
                            assert(mid_g.slots@.subrange(0, m)[m - 1] == mid_g.slots@[m - 1]);
                            assert(lslot == mid_g.slots@[m - 1]);
                            assert(lslots@ == pre_lslots.subrange(0, m - 1));
                            assert(lslots@ =~= mid_g.slots@.subrange(0, m - 1));
                        }
                        match lslot {
                            None => {},
                            Some(leaf) => {
                                let LeafTable { frame: leaf_frame, entries: _entries } = leaf;
                                frames.push(leaf_frame);
                            },
                        }
                    }
                },
            }
        }
        frames
    }

    /// The hardware-format root-pointer token: the paging-mode tag in
    /// the top bits, the root page number in the low bits.
    pub fn token(&self) -> (r: u64)
        ensures
            r == (8u64 << 60) | self.spec_root().ppn.0,
    {
        8u64 << 60 | self.root.ppn.0
    }

    /// The leaf entry for `vpn` as the walk currently finds it: the
    /// stored entry, or the zero entry where the path does not exist.
    pub fn read_entry(&self, vpn: VPN) -> (r: PTE)
        requires
            self.wf(),
        ensures
            r.bits == self.entry_bits(vpn.0),
    {
        proof {
            lemma_idx_bounds(vpn.0);
        }
        let idx = vpn.indexes();
        match &self.slots[idx[0]] {
            None => PTE::empty(),
            Some(m) => match &m.slots[idx[1]] {
                None => PTE::empty(),
                Some(l) => l.entries[idx[2]],
            },
        }
    }

    /// Install a fresh empty middle table at top index `a`.
    fn install_mid(&mut self, a: usize, frame: Frame)
        requires
            old(self).wf(),
            a < 512,
            !old(self).mid_present_i(a as int),
        ensures
            final(self).wf(),
            final(self).spec_root() == old(self).spec_root(),
            final(self).mid_present_i(a as int),
            forall|x: int| 0 <= x < 512 && x != a ==> final(self).mid_present_i(x) == old(self).mid_present_i(x),
            forall|x: int, y: int|
                0 <= x < 512 && 0 <= y < 512 ==> final(self).leaf_present_i(x, y) == old(self).leaf_present_i(x, y),
            forall|x: int, y: int, z: int|
                0 <= x < 512 && 0 <= y < 512 && 0 <= z < 512 ==> final(self).entry_at(x, y, z)
                    == old(self).entry_at(x, y, z),
    {
        let mid = MidTable::new(frame);
        self.slots.set(a, Some(mid));
        proof {
            assert forall|x: int, y: int|
                0 <= x < 512 && 0 <= y < 512 implies self.leaf_present_i(x, y) == old(self).leaf_present_i(x, y) by {
                if x == a {
                    assert(!old(self).leaf_present_i(x, y));
                }
            }
            assert forall|x: int, y: int, z: int|
                0 <= x < 512 && 0 <= y < 512 && 0 <= z < 512 implies self.entry_at(x, y, z) == old(self).entry_at(x, y, z) by {
                if x == a {
                    assert(old(self).entry_at(x, y, z) == 0);
                }
            }
        }
    }

    /// Install a fresh zero-initialized leaf table at indices `(a, b)`.
    fn install_leaf(&mut self, a: usize, b: usize, frame: Frame)
        requires
            old(self).wf(),
            a < 512,
            b < 512,
            old(self).mid_present_i(a as int),
            !old(self).leaf_present_i(a as int, b as int),
        ensures
            final(self).wf(),
            final(self).spec_root() == old(self).spec_root(),
            forall|x: int| 0 <= x < 512 ==> final(self).mid_present_i(x) == old(self).mid_present_i(x),
            final(self).leaf_present_i(a as int, b as int),
            forall|x: int, y: int|
                0 <= x < 512 && 0 <= y < 512 && !(x == a && y == b) ==> final(self).leaf_present_i(
                    x,
                    y,
                ) == old(self).leaf_present_i(x, y),
            forall|x: int, y: int, z: int|
                0 <= x < 512 && 0 <= y < 512 && 0 <= z < 512 ==> final(self).entry_at(x, y, z)
                    == old(self).entry_at(x, y, z),
    {
        let slot = &mut self.slots[a];
        match slot {
            Some(mid) => {
                mid.install_leaf(b, frame);
            },
            None => {
                proof {
                    assert(false);
                }
            },
        }
    }

    /// Overwrite the leaf entry at indices `(a, b, c)`.
    fn set_entry(&mut self, a: usize, b: usize, c: usize, pte: PTE)
        requires
            old(self).wf(),
            a < 512,
            b < 512,
            c < 512,
            old(self).leaf_present_i(a as int, b as int),
        ensures
            final(self).wf(),
            final(self).spec_root() == old(self).spec_root(),
            forall|x: int| 0 <= x < 512 ==> final(self).mid_present_i(x) == old(self).mid_present_i(x),
            forall|x: int, y: int|
                0 <= x < 512 && 0 <= y < 512 ==> final(self).leaf_present_i(x, y) == old(self).leaf_present_i(x, y),
            final(self).entry_at(a as int, b as int, c as int) == pte.bits,
            forall|x: int, y: int, z: int|
                0 <= x < 512 && 0 <= y < 512 && 0 <= z < 512 && !(x == a && y == b && z == c)
                    ==> final(self).entry_at(x, y, z) == old(self).entry_at(x, y, z),
    {
        let slot = &mut self.slots[a];
        match slot {
            Some(mid) => {
                mid.set_entry(b, c, pte);
            },
            None => {
                proof {
                    assert(false);
                }
            },
        }
    }

    /// Whether a middle table exists at the top index of `vpn`'s walk.
    fn has_mid(&self, a: usize) -> (r: bool)
        requires
            self.wf(),
            a < 512,
        ensures
            r == self.mid_present_i(a as int),
    {
        self.slots[a].is_some()
    }

    /// Whether a leaf table exists at the first two indices of `vpn`'s
    /// walk.
    fn has_leaf(&self, a: usize, b: usize) -> (r: bool)
        requires
            self.wf(),
            a < 512,
            b < 512,
        ensures
            r == self.leaf_present_i(a as int, b as int),
    {
        match &self.slots[a] {
            None => false,
            Some(m) => m.slots[b].is_some(),
        }
    }

    /// How many intermediate-table frames a walk to `vpn` would have to
    /// allocate right now.
    pub fn needed_frames(&self, vpn: VPN) -> (r: u64)
        requires
            self.wf(),
        ensures
            r == self.frames_needed(vpn.0),
    {
        proof {
            lemma_idx_bounds(vpn.0);
        }
        let idx = vpn.indexes();
        let mut needed: u64 = 0;
        if !self.has_mid(idx[0]) {
            needed = needed + 1;
        }
        if !self.has_leaf(idx[0], idx[1]) {
            needed = needed + 1;
        }
        needed
    }

    /// Walk and create the three-level radix path for `vpn`, allocating
    /// any missing intermediate-level frame, and install a leaf entry
    /// for the physical page `ppn` with `flags` plus the valid bit.
    /// Refused when the leaf entry is already valid (re-mapping without
    /// an unmap is a protocol violation) or when the allocator cannot
    /// supply the missing intermediate frames; in both refused cases
    /// nothing changes.
    pub fn map_one(&mut self, vpn: VPN, ppn: PPN, flags: PTEFlags, alloc: &mut StackFrameAllocator)
        -> (r: Result<(), MapError>)
        requires
            old(self).wf(),
            old(alloc).wf(),
            ppn.0 < 0x1000_0000_0000,
        ensures
            final(self).wf(),
            final(alloc).wf(),
            final(alloc).end == old(alloc).end,
            // Re-map rejection, checked first.
            old(self).mapped(vpn.0) ==> r == Err::<(), MapError>(MapError::AlreadyMapped)
                && PageTable::same_tables(*old(self), *final(self)) && final(alloc).recycled@
                == old(alloc).recycled@ && final(alloc).current == old(alloc).current,
            // Exhaustion, checked before anything is allocated.
            !old(self).mapped(vpn.0) && old(alloc).free_count() < old(self).frames_needed(vpn.0)
                ==> r == Err::<(), MapError>(MapError::OutOfFrames) && PageTable::same_tables(
                *old(self),
                *final(self),
            ) && final(alloc).recycled@ == old(alloc).recycled@ && final(alloc).current == old(alloc).current,
            // Success on every other input.
            !old(self).mapped(vpn.0) && old(alloc).free_count() >= old(self).frames_needed(vpn.0)
                ==> r == Ok::<(), MapError>(()),
            r is Ok ==> final(self).entry_bits(vpn.0) == spec_make_pte(ppn.0, flags.0 | PTE_V)
                && final(self).mapped(vpn.0),
            r is Ok ==> forall|w: u64|
                spec_norm(w) != spec_norm(vpn.0) ==> final(self).entry_bits(w) == old(self).entry_bits(w),
            // A valid entry is never overwritten: installed mappings
            // survive every later installation.
            forall|w: u64|
                spec_pte_valid(old(self).entry_bits(w)) ==> final(self).entry_bits(w) == old(self).entry_bits(w),
            r is Ok ==> final(self).spec_root() == old(self).spec_root(),
            r is Ok ==> forall|x: int|
                0 <= x < 512 ==> (final(self).mid_present_i(x) <==> old(self).mid_present_i(x) || x
                    == spec_idx2(vpn.0)),
            r is Ok ==> forall|x: int, y: int|
                0 <= x < 512 && 0 <= y < 512 ==> (final(self).leaf_present_i(x, y) <==> old(self).leaf_present_i(x, y) || (x == spec_idx2(vpn.0) && y == spec_idx1(vpn.0))),
            r is Ok ==> final(alloc).free_count() == old(alloc).free_count() - old(self).frames_needed(vpn.0),
            r is Ok ==> forall|p: u64| old(alloc).live(p) ==> final(alloc).live(p),
    {
        proof {
            lemma_idx_bounds(vpn.0);
        }
        let idx = vpn.indexes();
        let a: usize = idx[0];
        let b: usize = idx[1];
        let c: usize = idx[2];
        let cur = self.read_entry(vpn);
        if cur.is_valid() {
            return Err(MapError::AlreadyMapped);
        }
        let mut needed: u64 = 0;
        if !self.has_mid(a) {
            needed = needed + 1;
        }
        if !self.has_leaf(a, b) {
            needed = needed + 1;
        }
        if !alloc.has_free(needed) {
            return Err(MapError::OutOfFrames);
        }
        if !self.has_mid(a) {
            let frame = match alloc.allocate() {
                Some(f) => f,
                None => {
                    proof {
                        assert(false);
                    }
                    return Err(MapError::OutOfFrames);
                },
            };
            self.install_mid(a, frame);
        }
        if !self.has_leaf(a, b) {
            let frame = match alloc.allocate() {
                Some(f) => f,
                None => {
                    proof {
                        assert(false);
                    }
                    return Err(MapError::OutOfFrames);
                },
            };
            self.install_leaf(a, b, frame);
        }
        let pte = PTE::new(ppn, flags.union(PTEFlags(PTE_V)));
        self.set_entry(a, b, c, pte);
        proof {
            let f0: u8 = flags.0;
            lemma_pte_pack(ppn.0, f0 | PTE_V);
            assert(((f0 | 1) as u64) & 1 == 1) by (bit_vector);
            assert(self.entry_bits(vpn.0) == spec_make_pte(ppn.0, flags.0 | PTE_V));
            assert forall|w: u64| spec_norm(w) != spec_norm(vpn.0) implies self.entry_bits(w)
                == old(self).entry_bits(w) by {
                lemma_idx_norm(w, vpn.0);
                lemma_idx_bounds(w);
            }
            assert forall|w: u64| spec_pte_valid(old(self).entry_bits(w)) implies self.entry_bits(
                w,
            ) == old(self).entry_bits(w) by {
                lemma_idx_norm(w, vpn.0);
                lemma_idx_bounds(w);
                if spec_norm(w) == spec_norm(vpn.0) {
                    assert(old(self).entry_bits(w) == old(self).entry_bits(vpn.0)) by {
                        old(self).lemma_entry_norm(w, vpn.0);
                    }
                }
            }
        }
        Ok(())
    }

    /// Clear the leaf entry for `vpn`; refused, with nothing changed,
    /// when the entry is not valid.
    pub fn unmap(&mut self, vpn: VPN) -> (r: Result<(), MapError>)
        requires
            old(self).wf(),
        ensures
            final(self).wf(),
            final(self).spec_root() == old(self).spec_root(),
            !old(self).mapped(vpn.0) ==> r == Err::<(), MapError>(MapError::NotMapped)
                && PageTable::same_tables(*old(self), *final(self)),
            old(self).mapped(vpn.0) ==> r == Ok::<(), MapError>(()) && final(self).entry_bits(
                vpn.0,
            ) == 0 && !final(self).mapped(vpn.0),
            r is Ok ==> forall|w: u64|
                spec_norm(w) != spec_norm(vpn.0) ==> final(self).entry_bits(w) == old(self).entry_bits(w),
            forall|x: int| 0 <= x < 512 ==> final(self).mid_present_i(x) == old(self).mid_present_i(x),
            forall|x: int, y: int|
                0 <= x < 512 && 0 <= y < 512 ==> final(self).leaf_present_i(x, y) == old(self).leaf_present_i(x, y),
    {
        proof {
            lemma_idx_bounds(vpn.0);
        }
        let idx = vpn.indexes();
        let cur = self.read_entry(vpn);
        if !cur.is_valid() {
            return Err(MapError::NotMapped);
        }
        proof {
            assert(!(0u64 & 1 == 1)) by (bit_vector);
        }
        self.set_entry(idx[0], idx[1], idx[2], PTE::empty());
        proof {
            assert forall|w: u64| spec_norm(w) != spec_norm(vpn.0) implies self.entry_bits(w)
                == old(self).entry_bits(w) by {
                lemma_idx_norm(w, vpn.0);
                lemma_idx_bounds(w);
            }
        }
        Ok(())
    }

    /// The leaf entry for `vpn`, creating intermediate levels as needed:
    /// a lookup, not a mapping, but it shares the walk's creation
    /// policy.  Refused only when the allocator cannot supply the
    /// missing intermediate frames.
    pub fn find_pte(&mut self, vpn: VPN, alloc: &mut StackFrameAllocator) -> (r: Result<
        PTE,
        MapError,
    >)
        requires
            old(self).wf(),
            old(alloc).wf(),
        ensures
            final(self).wf(),
            final(alloc).wf(),
            final(alloc).end == old(alloc).end,
            r is Ok <==> old(alloc).free_count() >= old(self).frames_needed(vpn.0),
            r is Err ==> r == Err::<PTE, MapError>(MapError::OutOfFrames)
                && PageTable::same_tables(*old(self), *final(self)) && final(alloc).recycled@
                == old(alloc).recycled@ && final(alloc).current == old(alloc).current,
            r matches Ok(e) ==> e.bits == old(self).entry_bits(vpn.0),
            r is Ok ==> forall|w: u64| final(self).entry_bits(w) == old(self).entry_bits(w),
            r is Ok ==> final(self).spec_root() == old(self).spec_root() && final(self).leaf_present_i(
                spec_idx2(vpn.0) as int,
                spec_idx1(vpn.0) as int,
            ),
            r is Ok ==> final(alloc).free_count() == old(alloc).free_count() - old(self).frames_needed(vpn.0),
            r is Ok ==> forall|p: u64| old(alloc).live(p) ==> final(alloc).live(p),
    {
        proof {
            lemma_idx_bounds(vpn.0);
        }
        let idx = vpn.indexes();
        let a: usize = idx[0];
        let b: usize = idx[1];
        let mut needed: u64 = 0;
        if !self.has_mid(a) {
            needed = needed + 1;
        }
        if !self.has_leaf(a, b) {
            needed = needed + 1;
        }
        if !alloc.has_free(needed) {
            return Err(MapError::OutOfFrames);
        }
        let ghost entry0 = self.entry_bits(vpn.0);
        if !self.has_mid(a) {
            let frame = match alloc.allocate() {
                Some(f) => f,
                None => {
                    proof {
                        assert(false);
                    }
                    return Err(MapError::OutOfFrames);
                },
            };
            self.install_mid(a, frame);
        }
        if !self.has_leaf(a, b) {
            let frame = match alloc.allocate() {
                Some(f) => f,
                None => {
                    proof {
                        assert(false);
                    }
                    return Err(MapError::OutOfFrames);
                },
            };
            self.install_leaf(a, b, frame);
        }
        let e = self.read_entry(vpn);
        proof {
            assert forall|w: u64| self.entry_bits(w) == old(self).entry_bits(w) by {
                lemma_idx_bounds(w);
            }
        }
        Ok(e)
    }
}

} // verus!
