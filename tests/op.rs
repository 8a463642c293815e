use ot_engine::op::delete::Delete;
use ot_engine::op::insert::Insert;
use ot_engine::op::split::Split;
use ot_engine::op::Operation;
use ot_engine::recon::Recon;
use ot_engine::segment::{Segment, SegmentBuffer};
use ot_engine::{ConcurrentOrder, ErrorKind};

fn buf(user: u16, text: &[u8]) -> SegmentBuffer {
    SegmentBuffer::new(vec![Segment::new(user, text.to_vec())])
}

fn ins(pos: usize, text: &[u8]) -> Operation {
    Operation::Insert(Insert::new(pos, buf(9, text)))
}

fn del(pos: usize, text: &[u8]) -> Operation {
    Operation::Delete(Delete::reversible(pos, buf(1, text), Recon::new()))
}

fn apply(op: &Operation, text: &[u8]) -> Vec<u8> {
    let mut b = buf(1, text);
    op.apply(&mut b).unwrap();
    b.text()
}

fn converge(a: &Operation, b: &Operation, ca: ConcurrentOrder, cb: ConcurrentOrder, s: &[u8]) {
    let ab = apply(&b.transform(a, Some(cb)).unwrap(), &apply(a, s));
    let ba = apply(&a.transform(b, Some(ca)).unwrap(), &apply(b, s));
    assert_eq!(ab, ba);
}

#[test]
fn insert_insert_positions() {
    let t = ins(2, b"X").transform(&ins(1, b"YY"), Some(ConcurrentOrder::Other)).unwrap();
    assert_eq!(apply(&t, b"aYYbc"), b"aYYbXc".to_vec());
    let t = ins(1, b"X").transform(&ins(1, b"Y"), None);
    assert!(matches!(t, Err(ErrorKind::MissingOrder)));
}

#[test]
fn convergence_on_examples() {
    let s = b"abcdefgh";
    let o = ConcurrentOrder::Other;
    let t = ConcurrentOrder::This;
    converge(&ins(2, b"X"), &ins(2, b"Y"), o, t, s);
    converge(&ins(5, b"X"), &ins(2, b"YY"), o, t, s);
    converge(&ins(3, b"X"), &del(1, b"bcd"), o, t, s);
    converge(&ins(6, b"X"), &del(1, b"bcd"), o, t, s);
    converge(&del(1, b"bcd"), &del(2, b"cdef"), o, t, s);
    converge(&del(0, b"ab"), &del(5, b"fg"), o, t, s);
}

#[test]
fn delete_against_insert_splits() {
    let d = del(1, b"bcd");
    let t = d.transform(&ins(2, b"XY"), None).unwrap();
    assert!(matches!(t, Operation::Split(_)));
    assert_eq!(apply(&t, b"abXYcde"), b"aXYe".to_vec());
}

#[test]
fn mirror_undoes() {
    let s = b"abcdef";
    let i = ins(3, b"XYZ");
    assert_eq!(apply(&i.mirror().unwrap(), &apply(&i, s)), s.to_vec());
    let d = del(1, b"bcd");
    assert_eq!(apply(&d.mirror().unwrap(), &apply(&d, s)), s.to_vec());
    let sp = Operation::Split(Box::new(Split::new(ins(1, b"X"), ins(0, b"Y"))));
    assert_eq!(apply(&sp, s), b"YaXbcdef".to_vec());
    // The mirror of a split mirrors the first part, then the second part moved
    // past the first.
    let m = sp.mirror().unwrap();
    assert_eq!(apply(&m, b"YaXbcdef"), b"Xbcdef".to_vec());
}

#[test]
fn nonreversible_cannot_mirror() {
    let d = Operation::Delete(Delete::new(1, Err(3), Recon::new()));
    assert!(matches!(d.mirror(), Err(ErrorKind::NotReversible)));
}

#[test]
fn recon_round_trip() {
    // The delete of "bcd" meets a concurrent delete of "cdef"; the bytes that the
    // transformed delete stands for after the other one are "bcd" again.
    let s = b"abcdefgh";
    let a = Delete::new(1, Err(3), Recon::new());
    let b = del(2, b"cdef");
    let t = Operation::Delete(a).transform(&b, None).unwrap();
    let state = ot_engine::State::new(buf(1, &apply(&b, s)));
    let a = Delete::new(1, Err(3), Recon::new());
    let r = a.make_reversible(&t, &state).unwrap();
    assert_eq!(r.buf().unwrap().text(), b"bcd".to_vec());
}

#[test]
fn apply_out_of_range() {
    let mut b = buf(1, b"ab");
    assert_eq!(ins(3, b"X").apply(&mut b), Err(ErrorKind::SpliceOutOfRange));
    assert_eq!(del(1, b"bcd").apply(&mut b), Err(ErrorKind::SpliceOutOfRange));
}

#[test]
fn inner_delete_merges_outer_parts() {
    // A reversible delete whose middle is cut out by a delete inside it merges
    // its outer parts; they are of one kind.
    let t = del(0, b"abcdef").transform(&del(2, b"cd"), None).unwrap();
    assert_eq!(apply(&t, b"abef"), Vec::<u8>::new());
    // Against a non-reversible delete that overlaps, the bytes are missing.
    let nr = Operation::Delete(Delete::new(2, Err(2), Recon::new()));
    assert!(matches!(del(0, b"abcdef").transform(&nr, None), Err(ErrorKind::NotReversible)));
}

#[test]
fn cid_by_position() {
    let a = Insert::new(1, buf(1, b"x"));
    let b = Insert::new(3, buf(1, b"y"));
    assert_eq!(a.cid(&b), ConcurrentOrder::Other);
    assert_eq!(b.cid(&a), ConcurrentOrder::This);
}

#[test]
fn shift_past_largest_position() {
    let far = Operation::Insert(Insert::new(usize::MAX - 2, buf(1, b"ab")));
    let t = far.transform(&ins(0, b"xyz"), Some(ConcurrentOrder::Other));
    assert!(matches!(t, Err(ErrorKind::PositionOverflow)));
}

#[test]
fn from_parts() {
    let op: Operation = Insert::new(0, buf(1, b"a")).into();
    assert!(matches!(op, Operation::Insert(_)));
    let op: Operation = Delete::new(0, Err(1), Recon::new()).into();
    assert!(matches!(op, Operation::Delete(_)));
    let op: Operation = Split::new(ins(0, b"a"), ins(1, b"b")).into();
    assert_eq!(apply(&op, b"xy"), b"abxy".to_vec());
}
