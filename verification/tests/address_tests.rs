//! Address algebra: rounding, offsets, radix indices, ranges.
use tos::address::{SimpleRange, SimpleRangeIterator, StepByOne, VARange, VARangeOrd, PA, PPN, VA, VPN};

#[test]
fn floor_ceil_unaligned_address() {
    let a = PA(0x80201234);
    assert_eq!(a.floor().0, 0x80201);
    assert_eq!(a.ceil().0, 0x80202);
    assert_eq!(a.page_offset(), 0x234);
}

#[test]
fn floor_ceil_aligned_address_coincide() {
    let a = VA(0x80201000);
    assert_eq!(a.floor().0, 0x80201);
    assert_eq!(a.ceil().0, 0x80201);
    assert_eq!(a.page_offset(), 0);
}

#[test]
fn floor_and_ceil_bracket_the_address() {
    for raw in [0u64, 1, 0xfff, 0x1000, 0x1001, 0x7fff_ffff, 0xffff_ffc0_8020_0042] {
        let a = VA(raw);
        assert!(a.floor().0 * 0x1000 <= raw);
        assert!(raw <= a.ceil().0 * 0x1000);
        assert_eq!(a.floor().0 == a.ceil().0, raw % 0x1000 == 0);
    }
}

#[test]
fn indexes_decompose_known_components() {
    // vpn assembled from the components (1, 2, 3), most significant first
    let vpn = VPN((1 << 18) | (2 << 9) | 3);
    assert_eq!(vpn.indexes(), [1, 2, 3]);
    // reconstructing from the indexes reproduces the value
    let idx = vpn.indexes();
    let rebuilt = ((idx[0] as u64) << 18) | ((idx[1] as u64) << 9) | idx[2] as u64;
    assert_eq!(rebuilt, vpn.0);
}

#[test]
fn indexes_mask_only_the_low_bits() {
    let vpn = VPN(0xffff_ffc0_8020_0000 >> 12);
    let idx = vpn.indexes();
    assert_eq!(idx, [0x102, 0x001, 0x000]);
    assert!(idx[0] < 512 && idx[1] < 512 && idx[2] < 512);
}

#[test]
fn kernel_offset_conversions_round_trip() {
    let ppn = PPN(0x80200);
    let vpn = ppn.to_vpn();
    assert_eq!(vpn.0, 0x80200 + 0xf_ffff_fc00_0000);
    assert_eq!(vpn.to_ppn().0, ppn.0);
    assert_eq!(PPN(0x80200).to_pa().0, 0x80200000);
}

#[test]
fn step_advances_by_one() {
    let mut vpn = VPN(7);
    vpn.step();
    assert_eq!(vpn.0, 8);
}

#[test]
fn simple_range_iteration() {
    let range = SimpleRange::new(VPN(3), VPN(6));
    assert_eq!(range.get_start().0, 3);
    assert_eq!(range.get_end().0, 6);
    let mut it = range.iter();
    let mut seen: Vec<u64> = Vec::new();
    while let Some(v) = it.next() {
        seen.push(v.0);
    }
    assert_eq!(seen, vec![3, 4, 5]);
}

#[test]
fn empty_simple_range_yields_nothing() {
    let mut it = SimpleRangeIterator::new(VPN(4), VPN(4));
    assert!(it.next().is_none());
}

#[test]
fn va_range_rounds_to_vpn_range() {
    let r = VARangeOrd(VARange { start: VA(0x5234), end: VA(0x7001) });
    let vr = r.vpn_range();
    assert_eq!(vr.get_start().0, 5);
    assert_eq!(vr.get_end().0, 8);
}

#[test]
fn overlap_is_equality_for_containment_only() {
    let outer = VARangeOrd(VARange { start: VA(0x1000), end: VA(0x5000) });
    let inner = VARangeOrd(VARange { start: VA(0x2000), end: VA(0x3000) });
    let partial = VARangeOrd(VARange { start: VA(0x4000), end: VA(0x6000) });
    let disjoint = VARangeOrd(VARange { start: VA(0x8000), end: VA(0x9000) });
    // one range containing the other counts as equal
    assert!(outer == inner);
    assert!(inner == outer);
    // partial overlap does not
    assert!(outer != partial);
    // disjoint ranges order by start address
    assert_eq!(outer.cmp(&disjoint), core::cmp::Ordering::Less);
    assert_eq!(disjoint.cmp(&outer), core::cmp::Ordering::Greater);
    assert_eq!(outer.cmp(&inner), core::cmp::Ordering::Equal);
}

#[test]
fn ceil_at_the_upper_limit_stays_in_range() {
    let a = VA(u64::MAX - 0xfff);
    assert_eq!(a.ceil().0, 0xf_ffff_ffff_ffff);
    assert_eq!(a.floor().0, 0xf_ffff_ffff_ffff);
}
