use rbloom::error::BloomError;
use rbloom::filter::{check_compatible, Bloom, CompareOp, Operand};

const CUSTOM: u64 = 0xABCD;
const OTHER: u64 = 0x1234;

/// Bit count and positions per element for a capacity and a false-positive rate.
fn params(expected_items: u64, false_positive_rate: f64) -> (u64, u64) {
    let size_in_bits =
        -1.0 * (expected_items as f64) * false_positive_rate.ln() / 2.0f64.ln().powi(2);
    let k = (size_in_bits / expected_items as f64) * 2.0f64.ln();
    (size_in_bits as u64, k as u64)
}

fn filter(hash_func: Option<u64>) -> Bloom {
    let (size, k) = params(1000, 0.01);
    Bloom::with_params(size, k, hash_func).unwrap()
}

fn with_items(hash_func: Option<u64>, items: &[i128]) -> Bloom {
    let mut b = filter(hash_func);
    for &i in items {
        b.add(i);
    }
    b
}

#[test]
fn sizing_from_capacity_and_rate() {
    assert_eq!(params(1000, 0.01), (9585, 6));
    let b = filter(None);
    assert_eq!(b.size_in_bits(), 9592);
    assert_eq!(b.k(), 6);
    assert_eq!(b.hash_func(), None);
    assert_eq!(b.bits_set(), 0);
    assert!(b.is_empty());
}

#[test]
fn with_params_refuses_positions_without_bits() {
    assert_eq!(Bloom::with_params(0, 1, None).unwrap_err(), BloomError::InvalidArgument);
    let b = Bloom::with_params(0, 0, None).unwrap();
    assert_eq!(b.size_in_bits(), 0);
    assert!(b.contains(17));
}

#[test]
fn with_params_refuses_too_many_bits() {
    assert_eq!(Bloom::with_params(u64::MAX, 3, None).unwrap_err(), BloomError::SizeTooLarge);
}

#[test]
fn added_elements_are_reported() {
    let mut b = filter(Some(CUSTOM));
    b.add(99);
    assert!(b.contains(99));
    assert!(!b.is_empty());
    b.add(-5);
    assert!(b.contains(99));
    assert!(b.contains(-5));
    b.clear();
    assert!(!b.contains(99));
    assert!(b.is_empty());
    assert_eq!(b.size_in_bits(), 9592);
    assert_eq!(b.k(), 6);
}

#[test]
fn thousand_items_false_positive_rate() {
    let mut b = filter(None);
    for i in 1..=1000i128 {
        b.add(i);
    }
    for i in 1..=1000i128 {
        assert!(b.contains(i));
    }
    let mut false_positives = 0u32;
    for i in 2000..=3000i128 {
        if b.contains(i) {
            false_positives += 1;
        }
    }
    assert!((false_positives as f64) / 1001.0 < 0.03);
    assert_eq!(false_positives, 10);
    assert_eq!(b.bits_set(), 4621);
}

#[test]
fn disjoint_sets_union_and_intersection() {
    let a = with_items(Some(CUSTOM), &[1, 2, 3]);
    let b = with_items(Some(CUSTOM), &[4, 5, 6]);
    let u = a.bitor(&b).unwrap();
    for i in 1..=6i128 {
        assert!(u.contains(i));
    }
    let n = a.bitand(&b).unwrap();
    assert!(n.is_empty());
}

#[test]
fn in_place_union_and_intersection() {
    let mut a = with_items(Some(CUSTOM), &[1, 2, 3]);
    let b = with_items(Some(CUSTOM), &[3, 4]);
    let mut c = a.copy();
    c.bitand_assign(&b).unwrap();
    assert!(c.contains(3));
    assert!(!c.contains(1));
    a.bitor_assign(&b).unwrap();
    for i in 1..=4i128 {
        assert!(a.contains(i));
    }
}

#[test]
fn incompatible_filters_are_refused() {
    let a = with_items(Some(CUSTOM), &[1]);
    let other_hash = with_items(Some(OTHER), &[1]);
    let default_hash = with_items(None, &[1]);
    let other_k = Bloom::with_params(9585, 5, Some(CUSTOM)).unwrap();
    let other_size = Bloom::with_params(9600, 6, Some(CUSTOM)).unwrap();
    for b in [&other_hash, &default_hash, &other_k, &other_size] {
        assert_eq!(check_compatible(&a, b), Err(BloomError::IncompatibleFilters));
        assert_eq!(a.bitor(b).unwrap_err(), BloomError::IncompatibleFilters);
        assert_eq!(a.bitand(b).unwrap_err(), BloomError::IncompatibleFilters);
        assert_eq!(a.richcmp(b, CompareOp::Eq), Err(BloomError::IncompatibleFilters));
        assert_eq!(a.issubset(&Operand::Filter(b.clone())), Err(BloomError::IncompatibleFilters));
        assert_eq!(
            a.issuperset(&Operand::Filter(b.clone())),
            Err(BloomError::IncompatibleFilters)
        );
        let ops = vec![Operand::Filter(b.clone())];
        assert_eq!(a.union(&ops).unwrap_err(), BloomError::IncompatibleFilters);
        assert_eq!(a.intersection(&ops).unwrap_err(), BloomError::IncompatibleFilters);
        let mut c = a.copy();
        assert_eq!(c.bitor_assign(b), Err(BloomError::IncompatibleFilters));
        assert_eq!(c.bitand_assign(b), Err(BloomError::IncompatibleFilters));
        assert_eq!(c.update(&ops), Err(BloomError::IncompatibleFilters));
        assert_eq!(c.intersection_update(&ops), Err(BloomError::IncompatibleFilters));
        assert_eq!(c.richcmp(&a, CompareOp::Eq), Ok(true));
    }
}

#[test]
fn a_failed_update_changes_nothing() {
    let mut a = with_items(Some(CUSTOM), &[1]);
    let bad = with_items(Some(OTHER), &[2]);
    let ops = vec![Operand::Items(vec![7, 8]), Operand::Filter(bad)];
    assert_eq!(a.update(&ops), Err(BloomError::IncompatibleFilters));
    assert!(!a.contains(7));
    assert_eq!(a.richcmp(&with_items(Some(CUSTOM), &[1]), CompareOp::Eq), Ok(true));
}

#[test]
fn union_with_filters_and_items() {
    let a = with_items(Some(CUSTOM), &[1, 2]);
    let b = with_items(Some(CUSTOM), &[3]);
    let ops = vec![Operand::Filter(b), Operand::Items(vec![4, 5])];
    let u = a.union(&ops).unwrap();
    for i in 1..=5i128 {
        assert!(u.contains(i));
    }
    assert!(!a.contains(3));
    let expected = with_items(Some(CUSTOM), &[1, 2, 3, 4, 5]);
    assert_eq!(u.richcmp(&expected, CompareOp::Eq), Ok(true));
}

#[test]
fn update_with_items_adds_them() {
    let mut a = with_items(None, &[1]);
    a.update(&vec![Operand::Items(vec![10, 20]), Operand::Items(vec![30])]).unwrap();
    let expected = with_items(None, &[1, 10, 20, 30]);
    assert_eq!(a.richcmp(&expected, CompareOp::Eq), Ok(true));
}

#[test]
fn intersection_with_items() {
    let a = with_items(Some(CUSTOM), &[1, 2, 3]);
    let n = a.intersection(&vec![Operand::Items(vec![2, 3, 9])]).unwrap();
    assert!(n.contains(2));
    assert!(n.contains(3));
    assert!(!n.contains(1));
    assert!(!n.contains(9));
    let mut m = a.copy();
    m.intersection_update(&vec![Operand::Items(vec![1, 2]), Operand::Items(vec![2])]).unwrap();
    let expected = with_items(Some(CUSTOM), &[2]);
    assert_eq!(m.richcmp(&expected, CompareOp::Eq), Ok(true));
}

#[test]
fn union_and_intersection_without_operands_copy() {
    let a = with_items(Some(CUSTOM), &[1, 2]);
    let u = a.union(&vec![]).unwrap();
    let n = a.intersection(&vec![]).unwrap();
    assert_eq!(u.richcmp(&a, CompareOp::Eq), Ok(true));
    assert_eq!(n.richcmp(&a, CompareOp::Eq), Ok(true));
}

#[test]
fn union_contains_both_and_intersection_is_inside_both() {
    let a = with_items(Some(CUSTOM), &[1, 2, 3]);
    let b = with_items(Some(CUSTOM), &[3, 4]);
    let u = a.union(&vec![Operand::Filter(b.clone())]).unwrap();
    assert_eq!(u.issuperset(&Operand::Filter(a.clone())), Ok(true));
    assert_eq!(u.issuperset(&Operand::Filter(b.clone())), Ok(true));
    let n = a.intersection(&vec![Operand::Filter(b.clone())]).unwrap();
    assert_eq!(n.issubset(&Operand::Filter(a.clone())), Ok(true));
    assert_eq!(n.issubset(&Operand::Filter(b.clone())), Ok(true));
    assert_eq!(a.issubset(&Operand::Filter(b.clone())), Ok(false));
}

#[test]
fn union_and_intersection_with_self() {
    let a = with_items(Some(CUSTOM), &[5, 6, 7]);
    let u = a.union(&vec![Operand::Filter(a.clone())]).unwrap();
    let n = a.intersection(&vec![Operand::Filter(a.clone())]).unwrap();
    assert_eq!(u.richcmp(&a, CompareOp::Eq), Ok(true));
    assert_eq!(n.richcmp(&a, CompareOp::Eq), Ok(true));
}

#[test]
fn subset_against_items() {
    let a = with_items(None, &[1, 2]);
    assert_eq!(a.issubset(&Operand::Items(vec![1, 2, 3])), Ok(true));
    assert_eq!(a.issubset(&Operand::Items(vec![1])), Ok(false));
    assert_eq!(a.issuperset(&Operand::Items(vec![2])), Ok(true));
    assert_eq!(a.issuperset(&Operand::Items(vec![2, 3])), Ok(false));
    assert_eq!(a.issuperset(&Operand::Items(vec![])), Ok(true));
}

#[test]
fn comparisons() {
    let small = with_items(Some(CUSTOM), &[1]);
    let big = with_items(Some(CUSTOM), &[1, 2]);
    assert_eq!(small.richcmp(&big, CompareOp::Lt), Ok(true));
    assert_eq!(small.richcmp(&big, CompareOp::Le), Ok(true));
    assert_eq!(small.richcmp(&big, CompareOp::Gt), Ok(false));
    assert_eq!(small.richcmp(&big, CompareOp::Ge), Ok(false));
    assert_eq!(small.richcmp(&big, CompareOp::Eq), Ok(false));
    assert_eq!(small.richcmp(&big, CompareOp::Ne), Ok(true));
    assert_eq!(big.richcmp(&small, CompareOp::Gt), Ok(true));
    assert_eq!(big.richcmp(&small, CompareOp::Ge), Ok(true));
    assert_eq!(big.richcmp(&big, CompareOp::Lt), Ok(false));
    assert_eq!(big.richcmp(&big, CompareOp::Le), Ok(true));
    assert_eq!(big.richcmp(&big.copy(), CompareOp::Eq), Ok(true));
}

#[test]
fn save_and_load_round_trip() {
    let a = with_items(Some(CUSTOM), &[1, 2, 3, 1000]);
    let bytes = a.save_bytes().unwrap();
    assert_eq!(bytes.len(), 8 + 9592 / 8);
    assert_eq!(&bytes[..8], &6u64.to_le_bytes()[..]);
    let b = Bloom::load_bytes(&bytes, CUSTOM).unwrap();
    assert_eq!(b.k(), 6);
    assert_eq!(b.size_in_bits(), 9592);
    assert_eq!(b.hash_func(), Some(CUSTOM));
    assert_eq!(b.richcmp(&a, CompareOp::Eq), Ok(true));
    assert!(b.contains(1000));
}

#[test]
fn saved_layout_is_k_then_bits() {
    let mut a = Bloom::with_params(16, 1, Some(CUSTOM)).unwrap();
    a.add(0);
    let bytes = a.save_bytes().unwrap();
    // the first output from seed 0 is 0, so bit 0 is set
    assert_eq!(bytes, vec![1, 0, 0, 0, 0, 0, 0, 0, 1, 0]);
}

#[test]
fn saving_needs_a_custom_hash() {
    let a = with_items(None, &[1]);
    assert_eq!(a.save_bytes(), Err(BloomError::InvalidState));
}

#[test]
fn loading_short_records_fails() {
    assert_eq!(Bloom::load_bytes(&[1, 2, 3], CUSTOM).unwrap_err(), BloomError::UnexpectedEof);
    assert_eq!(
        Bloom::load_bytes(&[3, 0, 0, 0, 0, 0, 0, 0], CUSTOM).unwrap_err(),
        BloomError::UnexpectedEof
    );
    let empty = Bloom::load_bytes(&[0, 0, 0, 0, 0, 0, 0, 0], CUSTOM).unwrap();
    assert_eq!(empty.size_in_bits(), 0);
    assert_eq!(empty.k(), 0);
}

#[test]
fn loading_reads_k_little_endian() {
    let b = Bloom::load_bytes(&[2, 1, 0, 0, 0, 0, 0, 0, 0xFF], OTHER).unwrap();
    assert_eq!(b.k(), 258);
    assert_eq!(b.size_in_bits(), 8);
    assert_eq!(b.bits_set(), 8);
    assert!(b.contains(12345));
}

#[test]
fn saturated_filter_counts_every_bit() {
    let mut b = Bloom::with_params(64, 3, Some(CUSTOM)).unwrap();
    for i in 0..2000i128 {
        b.add(i);
    }
    assert_eq!(b.bits_set(), b.size_in_bits());
    assert!(b.contains(-424242));
}

#[test]
fn zeroed_clone_keeps_shape() {
    let a = with_items(Some(CUSTOM), &[1, 2]);
    let z = a.zeroed_clone();
    assert!(z.is_empty());
    assert_eq!(z.k(), a.k());
    assert_eq!(z.size_in_bits(), a.size_in_bits());
    assert_eq!(check_compatible(&a, &z), Ok(()));
}

#[test]
fn add_all_matches_repeated_add() {
    let mut a = filter(Some(CUSTOM));
    a.add_all(&vec![4, 8, 15, 16, 23, 42]);
    let b = with_items(Some(CUSTOM), &[4, 8, 15, 16, 23, 42]);
    assert_eq!(a.richcmp(&b, CompareOp::Eq), Ok(true));
    assert_eq!(a.bits_set(), b.bits_set());
}
