use ot_engine::recon::Recon;
use ot_engine::segment::{Segment, SegmentBuffer};
use ot_engine::vector::StateVector;

#[test]
fn lcs() {
    let mut state = StateVector::new();
    state.add(1, 2);
    state.add(2, 3);
    let mut other = StateVector::new();
    other.add(2, 4);
    let sum = state.lcs(&other);
    assert_eq!(sum.get(1), 2);
    assert_eq!(sum.get(2), 7);
    assert_eq!(sum.get(5), 0);
}

#[test]
fn counters() {
    let mut v = StateVector::new();
    assert_eq!(v.get(7), 0);
    v.add(3, 5);
    v.remove(3, 2);
    assert_eq!(v.get(3), 3);
    v.set(0, 9);
    assert_eq!(v.get(0), 9);
    assert_eq!(v.sessions(), vec![0, 1, 2, 3]);
    assert_eq!(v.iter(), vec![(0, 9), (1, 0), (2, 0), (3, 3)]);
}

#[test]
fn causality_and_equality() {
    let mut a = StateVector::new();
    a.set(1, 1);
    let mut b = StateVector::new();
    b.set(1, 2);
    b.set(2, 0);
    assert!(a.casually_before(&b));
    assert!(!b.casually_before(&a));
    let mut c = StateVector::new();
    c.set(1, 2);
    assert!(b == c);
    assert!(a != c);
}

#[test]
fn recon_restore_and_split() {
    let mut r = Recon::new();
    r.add(0, SegmentBuffer::new(vec![Segment::new(2, b"x".to_vec())]));
    r.add(3, SegmentBuffer::new(vec![Segment::new(2, b"y".to_vec())]));
    let mut b = SegmentBuffer::new(vec![Segment::new(1, b"abc".to_vec())]);
    r.restore(&mut b).unwrap();
    assert_eq!(b.text(), b"xabyc".to_vec());
    let (left, right) = r.split_at(2);
    assert_eq!(left.records().len(), 1);
    assert_eq!(left.records()[0].offset, 0);
    assert_eq!(right.records().len(), 1);
    assert_eq!(right.records()[0].offset, 1);
    let mut short = SegmentBuffer::new(vec![]);
    assert!(r.restore(&mut short).is_err());
}

#[test]
fn add_assign_and_default() {
    let mut a = StateVector::default();
    a.set(1, 4);
    let mut b = StateVector::new();
    b.set(1, 1);
    b.set(3, 2);
    a += b;
    assert_eq!(a.get(1), 5);
    assert_eq!(a.get(3), 2);
    let mut big = StateVector::new();
    big.set(0, usize::MAX);
    let mut one = StateVector::new();
    one.set(0, 1);
    big += one;
    assert_eq!(big.get(0), usize::MAX);
}

#[test]
fn recon_split_cuts_straddling_record() {
    let mut r = Recon::new();
    r.add(1, SegmentBuffer::new(vec![Segment::new(2, b"pqr".to_vec())]));
    let (left, right) = r.split_at(2);
    assert_eq!(left.records().len(), 1);
    assert_eq!(left.records()[0].offset, 1);
    assert_eq!(left.records()[0].buffer.text(), b"p".to_vec());
    assert_eq!(right.records().len(), 1);
    assert_eq!(right.records()[0].offset, 0);
    assert_eq!(right.records()[0].buffer.text(), b"qr".to_vec());
}
