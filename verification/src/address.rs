//! Address algebra: typed wrappers for physical/virtual addresses and
//! page numbers, page rounding, radix-index decomposition, and virtual
//! ranges with the overlap-as-equality ordering used by the memory set.
use vstd::prelude::*;

use crate::config::{KERNEL_MAP_OFFSET_PAGES, PAGE_SIZE};

verus! {

/// A physical address.
#[derive(Copy, Clone, Debug, PartialEq, Eq, Structural)]
pub struct PA(pub u64);

/// A virtual address.
#[derive(Copy, Clone, Debug, PartialEq, Eq, Structural)]
pub struct VA(pub u64);

/// A physical page number: a physical address shifted right by the
/// page-size bit width.
#[derive(Copy, Clone, Debug, PartialEq, Eq, Structural)]
pub struct PPN(pub u64);

/// A virtual page number: a virtual address shifted right by the
/// page-size bit width.
#[derive(Copy, Clone, Debug, PartialEq, Eq, Structural)]
pub struct VPN(pub u64);

/// Largest value for which rounding up to a page boundary stays in range.
pub const CEIL_LIMIT: u64 = u64::MAX - (PAGE_SIZE - 1);

/// Page number of the page containing the address `a`.
pub open spec fn spec_floor(a: u64) -> int {
    a as int / PAGE_SIZE as int
}

/// Page number of the first page boundary at or above the address `a`.
pub open spec fn spec_ceil(a: u64) -> int {
    (a + PAGE_SIZE - 1) as int / PAGE_SIZE as int
}

/// Offset of the address `a` within its page.
pub open spec fn spec_page_offset(a: u64) -> int {
    a as int % PAGE_SIZE as int
}

impl PA {
    /// Page number of the page containing this address.
    pub fn floor(&self) -> (r: PPN)
        ensures
            r.0 == spec_floor(self.0),
    {
        PPN(self.0 / PAGE_SIZE)
    }

    /// Page number of the first page boundary at or above this address.
    pub fn ceil(&self) -> (r: PPN)
        requires
            self.0 <= CEIL_LIMIT,
        ensures
            r.0 == spec_ceil(self.0),
    {
        PPN((self.0 + (PAGE_SIZE - 1)) / PAGE_SIZE)
    }

    /// Offset of this address within its page.
    pub fn page_offset(&self) -> (r: u64)
        ensures
            r == spec_page_offset(self.0),
    {
        proof {
            lemma_low_bits_mask(self.0);
        }
        self.0 & (PAGE_SIZE - 1)
    }
}

impl VA {
    /// Offset of this address within its page.
    pub fn page_offset(&self) -> (r: u64)
        ensures
            r == spec_page_offset(self.0),
    {
        proof {
            lemma_low_bits_mask(self.0);
        }
        self.0 & (PAGE_SIZE - 1)
    }

    /// Page number of the page containing this address.
    pub fn floor(&self) -> (r: VPN)
        ensures
            r.0 == spec_floor(self.0),
    {
        VPN(self.0 / PAGE_SIZE)
    }

    /// Page number of the first page boundary at or above this address.
    pub fn ceil(&self) -> (r: VPN)
        requires
            self.0 <= CEIL_LIMIT,
        ensures
            r.0 == spec_ceil(self.0),
    {
        VPN((self.0 + (PAGE_SIZE - 1)) / PAGE_SIZE)
    }
}

/// Masking by the page-offset mask equals taking the remainder by the
/// page size.
proof fn lemma_low_bits_mask(a: u64)
    ensures
        a & 0xfff == spec_page_offset(a),
{
    assert(a & 0xfff == a % 0x1000) by (bit_vector);
}

/// Alignment round-trip: the page numbers produced by rounding an
/// address down and up bracket the address, and they agree exactly when
/// the address is page-aligned.
pub proof fn lemma_alignment_round_trip(a: u64)
    requires
        a <= CEIL_LIMIT,
    ensures
        spec_floor(a) * PAGE_SIZE <= a,
        a <= spec_ceil(a) * PAGE_SIZE,
        spec_floor(a) == spec_ceil(a) <==> spec_page_offset(a) == 0,
{
    let q = a / PAGE_SIZE;
    let r = a % PAGE_SIZE;
    assert(a == PAGE_SIZE * q + r) by {
        vstd::arithmetic::div_mod::lemma_fundamental_div_mod(a as int, PAGE_SIZE as int);
    }
    assert((a + PAGE_SIZE - 1) as int == PAGE_SIZE * q + (r + PAGE_SIZE - 1));
    if r == 0 {
        assert(spec_ceil(a) == q) by {
            vstd::arithmetic::div_mod::lemma_div_multiples_vanish_fancy(
                q as int,
                (PAGE_SIZE - 1) as int,
                PAGE_SIZE as int,
            );
        }
    } else {
        assert(spec_ceil(a) == q + 1) by {
            vstd::arithmetic::div_mod::lemma_div_multiples_vanish_fancy(
                (q + 1) as int,
                (r - 1) as int,
                PAGE_SIZE as int,
            );
            assert(PAGE_SIZE * q + (r + PAGE_SIZE - 1) == PAGE_SIZE * (q + 1) + (r - 1))
                by (nonlinear_arith);
        }
        assert(a <= (q + 1) * PAGE_SIZE) by (nonlinear_arith)
            requires
                r < PAGE_SIZE,
                a == PAGE_SIZE * q + r,
        ;
    }
}

/// Index of a virtual page number at the top radix level.
pub open spec fn spec_idx2(v: u64) -> u64 {
    (v >> 18) & 0x1ff
}

/// Index of a virtual page number at the middle radix level.
pub open spec fn spec_idx1(v: u64) -> u64 {
    (v >> 9) & 0x1ff
}

/// Index of a virtual page number at the leaf radix level.
pub open spec fn spec_idx0(v: u64) -> u64 {
    v & 0x1ff
}

/// The low bits of a virtual page number that the three radix indices
/// retain; page numbers equal under this mask reach the same leaf entry.
pub open spec fn spec_norm(v: u64) -> u64 {
    v & 0x7ff_ffff
}

/// Each radix index is below the table size.
pub proof fn lemma_idx_bounds(v: u64)
    ensures
        spec_idx2(v) < 512,
        spec_idx1(v) < 512,
        spec_idx0(v) < 512,
{
    assert((v >> 18) & 0x1ff < 512 && (v >> 9) & 0x1ff < 512 && v & 0x1ff < 512)
        by (bit_vector);
}

/// The three radix indices determine the retained low bits, and two page
/// numbers reach the same leaf entry exactly when those bits agree.
pub proof fn lemma_idx_norm(v: u64, w: u64)
    ensures
        spec_norm(v) == spec_norm(w) <==> (spec_idx2(v) == spec_idx2(w) && spec_idx1(v)
            == spec_idx1(w) && spec_idx0(v) == spec_idx0(w)),
{
    assert(v & 0x7ff_ffff == w & 0x7ff_ffff <==> ((v >> 18) & 0x1ff == (w >> 18) & 0x1ff && (v
        >> 9) & 0x1ff == (w >> 9) & 0x1ff && v & 0x1ff == w & 0x1ff)) by (bit_vector);
}

/// Index decomposition round-trip: a page number assembled from three
/// nine-bit components decomposes into exactly those components, and the
/// components of a page number reassemble to its retained low bits.
pub proof fn lemma_index_decomposition(i2: u64, i1: u64, i0: u64, v: u64)
    requires
        i2 < 512,
        i1 < 512,
        i0 < 512,
    ensures
        spec_idx2((i2 << 18) | (i1 << 9) | i0) == i2,
        spec_idx1((i2 << 18) | (i1 << 9) | i0) == i1,
        spec_idx0((i2 << 18) | (i1 << 9) | i0) == i0,
        spec_norm(v) == (spec_idx2(v) << 18) | (spec_idx1(v) << 9) | spec_idx0(v),
{
    assert((((i2 << 18) | (i1 << 9) | i0) >> 18) & 0x1ff == i2 && (((i2 << 18) | (i1 << 9) | i0)
        >> 9) & 0x1ff == i1 && ((i2 << 18) | (i1 << 9) | i0) & 0x1ff == i0) by (bit_vector)
        requires
            i2 < 512,
            i1 < 512,
            i0 < 512,
    ;
    assert(v & 0x7ff_ffff == ((((v >> 18) & 0x1ff) << 18) | (((v >> 9) & 0x1ff) << 9) | (v
        & 0x1ff))) by (bit_vector);
}

/// Two distinct page numbers less than the radix capacity apart never
/// share a leaf entry.
pub proof fn lemma_norm_injective_window(v: u64, w: u64)
    requires
        v < w,
        w - v < 0x800_0000,
    ensures
        spec_norm(v) != spec_norm(w),
{
    assert(!(v & 0x7ff_ffff == w & 0x7ff_ffff)) by (bit_vector)
        requires
            v < w,
            w - v < 0x800_0000,
    ;
}

impl VPN {
    /// The three radix indices of this page number, most significant
    /// level first.
    pub fn indexes(&self) -> (r: [usize; 3])
        ensures
            r@ == seq![
                spec_idx2(self.0) as usize,
                spec_idx1(self.0) as usize,
                spec_idx0(self.0) as usize,
            ],
    {
        proof {
            lemma_idx_bounds(self.0);
        }
        let i2: u64 = (self.0 >> 18) & 0x1ff;
        let i1: u64 = (self.0 >> 9) & 0x1ff;
        let i0: u64 = self.0 & 0x1ff;
        let r: [usize; 3] = [i2 as usize, i1 as usize, i0 as usize];
        proof {
            assert(r@ =~= seq![
                spec_idx2(self.0) as usize,
                spec_idx1(self.0) as usize,
                spec_idx0(self.0) as usize,
            ]);
        }
        r
    }

    /// The physical page number that the kernel's fixed linear offset
    /// assigns to this virtual page number.
    pub fn to_ppn(self) -> (r: PPN)
        requires
            self.0 >= KERNEL_MAP_OFFSET_PAGES,
        ensures
            r.0 == self.0 - KERNEL_MAP_OFFSET_PAGES,
    {
        PPN(self.0 - KERNEL_MAP_OFFSET_PAGES)
    }
}

impl PPN {
    /// The virtual page number at which the kernel's fixed linear offset
    /// maps this physical page number.
    pub fn to_vpn(self) -> (r: VPN)
        requires
            self.0 + KERNEL_MAP_OFFSET_PAGES <= u64::MAX,
        ensures
            r.0 == self.0 + KERNEL_MAP_OFFSET_PAGES,
    {
        VPN(self.0 + KERNEL_MAP_OFFSET_PAGES)
    }

    /// The first physical address of this page.
    pub fn to_pa(self) -> (r: PA)
        requires
            self.0 <= u64::MAX / PAGE_SIZE,
        ensures
            r.0 == self.0 * PAGE_SIZE,
    {
        let x: u64 = self.0;
        proof {
            assert(x << 12 == x * 0x1000) by (bit_vector)
                requires
                    x <= 0xf_ffff_ffff_ffff,
            ;
        }
        PA(x << 12)
    }
}

/// A type whose values advance in single steps, for walking page ranges.
pub trait StepByOne: Sized {
    /// Whether one more step stays in range.
    spec fn step_ok(self) -> bool;

    /// The value one step further on.
    spec fn step_spec(self) -> Self;

    /// Advance by one step.
    fn step(&mut self)
        requires
            old(self).step_ok(),
        ensures
            *final(self) == old(self).step_spec(),
    ;
}

impl StepByOne for VPN {
    open spec fn step_ok(self) -> bool {
        self.0 < u64::MAX
    }

    open spec fn step_spec(self) -> Self {
        VPN((self.0 + 1) as u64)
    }

    fn step(&mut self) {
        self.0 = self.0 + 1;
    }
}

/// A half-open range of virtual page numbers.
#[derive(Copy, Clone, Debug, PartialEq, Eq, Structural)]
pub struct SimpleRange {
    /// First page number of the range.
    pub l: VPN,
    /// One past the last page number of the range.
    pub r: VPN,
}

impl SimpleRange {
    /// Build the range `[start, end)`; the bounds must be ordered.
    pub fn new(start: VPN, end: VPN) -> (r: SimpleRange)
        requires
            start.0 <= end.0,
        ensures
            r.l == start,
            r.r == end,
    {
        SimpleRange { l: start, r: end }
    }

    /// First page number of the range.
    pub fn get_start(&self) -> (r: VPN)
        ensures
            r == self.l,
    {
        self.l
    }

    /// One past the last page number of the range.
    pub fn get_end(&self) -> (r: VPN)
        ensures
            r == self.r,
    {
        self.r
    }

    /// An iterator over the page numbers of the range.
    pub fn iter(&self) -> (r: SimpleRangeIterator)
        ensures
            r.current == self.l,
            r.end == self.r,
    {
        SimpleRangeIterator { current: self.l, end: self.r }
    }
}

/// Walks the page numbers of a [`SimpleRange`] in ascending order.
pub struct SimpleRangeIterator {
    /// The next page number to hand out.
    pub current: VPN,
    /// One past the last page number to hand out.
    pub end: VPN,
}

impl SimpleRangeIterator {
    /// Build an iterator that hands out the page numbers of `[l, r)`.
    pub fn new(l: VPN, r: VPN) -> (it: SimpleRangeIterator)
        ensures
            it.current == l,
            it.end == r,
    {
        SimpleRangeIterator { current: l, end: r }
    }

    /// The next page number, or nothing once the range is exhausted.
    pub fn next(&mut self) -> (r: Option<VPN>)
        requires
            old(self).current.0 <= old(self).end.0,
        ensures
            final(self).end == old(self).end,
            old(self).current == old(self).end ==> r is None && *final(self) == *old(self),
            old(self).current != old(self).end ==> r == Some(old(self).current)
                && final(self).current.0 == old(self).current.0 + 1,
    {
        if self.current == self.end {
            None
        } else {
            let t = self.current;
            self.current.step();
            Some(t)
        }
    }
}

/// A half-open range of virtual addresses.
#[derive(Copy, Clone, Debug, PartialEq, Eq, Structural)]
pub struct VARange {
    /// First address of the range.
    pub start: VA,
    /// One past the last address of the range.
    pub end: VA,
}

/// A virtual-address range ordered by start address, where two ranges
/// compare equal whenever one contains the other.  The memory set uses
/// this comparison for insertion conflict detection.
#[derive(Copy, Clone, Debug)]
pub struct VARangeOrd(pub VARange);

/// Whether one of the two ranges contains the other; the equality test
/// that the region collection's ordering uses.
pub open spec fn spec_range_eq_overlap(a: VARangeOrd, b: VARangeOrd) -> bool {
    (a.0.start.0 <= b.0.start.0 && b.0.end.0 <= a.0.end.0) || (b.0.start.0 <= a.0.start.0
        && a.0.end.0 <= b.0.end.0)
}

impl VARangeOrd {
    /// The page-number range covering this address range.
    pub fn vpn_range(&self) -> (r: SimpleRange)
        requires
            self.0.start.0 <= self.0.end.0,
            self.0.end.0 <= CEIL_LIMIT,
        ensures
            r.l.0 == spec_floor(self.0.start.0),
            r.r.0 == spec_ceil(self.0.end.0),
    {
        proof {
            lemma_alignment_round_trip(self.0.start.0);
            lemma_alignment_round_trip(self.0.end.0);
            assert(self.0.start.0 / PAGE_SIZE <= self.0.end.0 / PAGE_SIZE) by {
                vstd::arithmetic::div_mod::lemma_div_is_ordered(
                    self.0.start.0 as int,
                    self.0.end.0 as int,
                    PAGE_SIZE as int,
                );
            }
        }
        SimpleRange::new(self.0.start.floor(), self.0.end.ceil())
    }

    /// Order two ranges: equal under containment-overlap, otherwise by
    /// start address.
    pub fn cmp(&self, other: &VARangeOrd) -> (r: core::cmp::Ordering)
        ensures
            r == core::cmp::Ordering::Equal <==> spec_range_eq_overlap(*self, *other),
            !spec_range_eq_overlap(*self, *other) ==> (r == core::cmp::Ordering::Less <==> self.0.start.0
                < other.0.start.0),
            !spec_range_eq_overlap(*self, *other) ==> (r == core::cmp::Ordering::Greater <==> self.0.start.0
                >= other.0.start.0),
    {
        if self.eq(other) {
            core::cmp::Ordering::Equal
        } else if self.0.start.0 < other.0.start.0 {
            core::cmp::Ordering::Less
        } else {
            core::cmp::Ordering::Greater
        }
    }
}

impl PartialEq for VARangeOrd {
    /// Two ranges are treated as equal whenever one contains the other.
    fn eq(&self, other: &VARangeOrd) -> (r: bool) {
        (self.0.start.0 <= other.0.start.0 && other.0.end.0 <= self.0.end.0) || (other.0.start.0
            <= self.0.start.0 && self.0.end.0 <= other.0.end.0)
    }
}

impl vstd::std_specs::cmp::PartialEqSpecImpl for VARangeOrd {
    open spec fn obeys_eq_spec() -> bool {
        true
    }

    open spec fn eq_spec(&self, other: &VARangeOrd) -> bool {
        spec_range_eq_overlap(*self, *other)
    }
}

} // verus!
