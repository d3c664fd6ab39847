use rbloom::bitline::BitLine;
use rbloom::error::BloomError;

#[test]
fn new_rounds_up_to_whole_bytes() {
    assert_eq!(BitLine::new(0).unwrap().len(), 0);
    assert_eq!(BitLine::new(1).unwrap().len(), 8);
    assert_eq!(BitLine::new(8).unwrap().len(), 8);
    assert_eq!(BitLine::new(9).unwrap().len(), 16);
    assert_eq!(BitLine::new(9).unwrap().bits(), &[0u8, 0u8][..]);
}

#[test]
fn new_refuses_a_bit_count_past_u64() {
    assert_eq!(BitLine::new(u64::MAX), Err(BloomError::SizeTooLarge));
}

#[test]
fn set_and_get() {
    let mut b = BitLine::new(16).unwrap();
    b.set(0);
    b.set(9);
    b.set(15);
    assert!(b.get(0));
    assert!(!b.get(1));
    assert!(b.get(9));
    assert!(b.get(15));
    assert_eq!(b.bits(), &[0x01u8, 0x82u8][..]);
    assert_eq!(b.sum(), 3);
}

#[test]
fn clear_and_is_empty() {
    let mut b = BitLine::new(24).unwrap();
    assert!(b.is_empty());
    b.set(17);
    assert!(!b.is_empty());
    b.clear();
    assert!(b.is_empty());
    assert_eq!(b.len(), 24);
    assert_eq!(b.sum(), 0);
}

#[test]
fn subset_tests() {
    let a = BitLine::load_bytes(&[0b0000_0101, 0]).unwrap();
    let b = BitLine::load_bytes(&[0b0000_0111, 0]).unwrap();
    assert!(a.is_subset(&b));
    assert!(!b.is_subset(&a));
    assert!(a.is_subset(&a));
    assert!(a.is_strict_subset(&b));
    assert!(!a.is_strict_subset(&a));
    assert!(!b.is_strict_subset(&a));
}

#[test]
fn bitwise_combinations() {
    let a = BitLine::load_bytes(&[0b1100, 0xF0]).unwrap();
    let b = BitLine::load_bytes(&[0b1010, 0x0F]).unwrap();
    assert_eq!(a.bitor(&b).bits(), &[0b1110u8, 0xFF][..]);
    assert_eq!(a.bitand(&b).bits(), &[0b1000u8, 0x00][..]);
    let mut c = a.copy();
    c.bitor_assign(&b);
    assert_eq!(c.bits(), &[0b1110u8, 0xFF][..]);
    let mut d = a.copy();
    d.bitand_assign(&b);
    assert_eq!(d.bits(), &[0b1000u8, 0x00][..]);
}

#[test]
fn equality_is_bytewise() {
    let a = BitLine::load_bytes(&[1, 2, 3]).unwrap();
    let b = BitLine::load(vec![1, 2, 3]).unwrap();
    let c = BitLine::load(vec![1, 2, 4]).unwrap();
    assert!(a == b);
    assert!(a != c);
}

#[test]
fn save_appends_the_bytes() {
    let a = BitLine::load(vec![7, 8]).unwrap();
    let mut out = vec![1u8];
    a.save(&mut out);
    assert_eq!(out, vec![1, 7, 8]);
}
