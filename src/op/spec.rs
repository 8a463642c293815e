use vstd::prelude::*;

use crate::recon::{left_of, restored, right_of, stashed_len, RecordView};
use crate::{ConcurrentOrder, ErrorKind, SessionId};

verus! {

/// Tagged text.
pub type Text = Seq<(SessionId, u8)>;

/// An operation as plain values.
pub enum OpView {
    NoOp,
    /// Insert text at a position.
    Insert(nat, Text),
    /// Delete at a position: the bytes removed (`Ok`) or only their count (`Err`),
    /// and the records of bytes that concurrent deletes removed first.
    Delete(nat, Result<Text, nat>, Seq<RecordView>),
    /// The first operation, then the second.
    Split(Box<OpView>, Box<OpView>),
}

pub open spec fn what_len(w: Result<Text, nat>) -> nat {
    match w {
        Ok(t) => t.len(),
        Err(n) => n,
    }
}

/// Number of nodes.
pub open spec fn size(o: OpView) -> nat
    decreases o,
{
    match o {
        OpView::Split(a, b) => 1 + size(*a) + size(*b),
        _ => 1,
    }
}

/// Number of inserts.
pub open spec fn inserts(o: OpView) -> nat
    decreases o,
{
    match o {
        OpView::Split(a, b) => inserts(*a) + inserts(*b),
        OpView::Insert(_, _) => 1,
        _ => 0,
    }
}

/// Whether `x` is smaller than `y` in the order that transform and mirror recurse on.
pub open spec fn smaller(x: OpView, y: OpView) -> bool {
    inserts(x) < inserts(y) || (inserts(x) == inserts(y) && size(x) < size(y))
}

/// A delete cut after `at` bytes: both halves start at `p`, the second being
/// applied after the first.
pub open spec fn split_spec(p: nat, w: Result<Text, nat>, r: Seq<RecordView>, at: nat) -> (
    OpView,
    OpView,
) {
    match w {
        Ok(t) => (
            OpView::Delete(p, Ok(t.subrange(0, at as int)), Seq::empty()),
            OpView::Delete(p, Ok(t.subrange(at as int, t.len() as int)), Seq::empty()),
        ),
        Err(n) => (
            OpView::Delete(p, Err(at), left_of(r, at as usize)),
            OpView::Delete(p, Err((n - at) as nat), right_of(r, at as usize)),
        ),
    }
}

/// Two deletes as one, at the first one's position; both must be of one kind.
pub open spec fn merge_spec(p: nat, w1: Result<Text, nat>, w2: Result<Text, nat>) -> Result<
    OpView,
    ErrorKind,
> {
    match (w1, w2) {
        (Ok(t1), Ok(t2)) => Ok(OpView::Delete(p, Ok(t1 + t2), Seq::empty())),
        (Err(n1), Err(n2)) => Ok(OpView::Delete(p, Err(n1 + n2), Seq::empty())),
        _ => Err(ErrorKind::MergeKindMismatch),
    }
}

pub open spec fn with_recon(o: OpView, r: Seq<RecordView>) -> OpView {
    match o {
        OpView::Delete(p, w, _) => OpView::Delete(p, w, r),
        _ => o,
    }
}

/// An empty delete of the same kind as `w`.
pub open spec fn emptied(w: Result<Text, nat>) -> Result<Text, nat> {
    match w {
        Ok(_) => Ok(Seq::empty()),
        Err(_) => Err(0),
    }
}

/// Insert against insert.
pub open spec fn insert_insert(p1: nat, s1: Text, p2: nat, s2: Text, cid: Option<ConcurrentOrder>) -> Result<
    OpView,
    ErrorKind,
> {
    if p1 < p2 || (p1 == p2 && cid == Some(ConcurrentOrder::Other)) {
        Ok(OpView::Insert(p1, s1))
    } else if p1 > p2 || (p1 == p2 && cid == Some(ConcurrentOrder::This)) {
        if p1 + s2.len() + s1.len() > usize::MAX {
            Err(ErrorKind::PositionOverflow)
        } else {
            Ok(OpView::Insert(p1 + s2.len(), s1))
        }
    } else {
        Err(ErrorKind::MissingOrder)
    }
}

/// Insert against delete.
pub open spec fn insert_delete(p1: nat, s1: Text, p2: nat, l2: nat) -> OpView {
    if p1 >= p2 + l2 {
        OpView::Insert((p1 - l2) as nat, s1)
    } else if p1 < p2 {
        OpView::Insert(p1, s1)
    } else {
        OpView::Insert(p2, s1)
    }
}

/// Delete against insert.
pub open spec fn delete_insert(p1: nat, w1: Result<Text, nat>, r1: Seq<RecordView>, p2: nat, l2: nat) -> Result<
    OpView,
    ErrorKind,
> {
    let l1 = what_len(w1);
    if p1 + l1 <= p2 {
        Ok(OpView::Delete(p1, w1, r1))
    } else if p1 + l1 + l2 > usize::MAX {
        Err(ErrorKind::PositionOverflow)
    } else if p2 <= p1 {
        Ok(OpView::Delete(p1 + l2, w1, r1))
    } else {
        let (x, y) = split_spec(p1, w1, r1, (p2 - p1) as nat);
        match y {
            OpView::Delete(q, w, r) => Ok(
                OpView::Split(Box::new(x), Box::new(OpView::Delete(q + l2, w, r))),
            ),
            _ => Ok(y),
        }
    }
}

/// Delete against delete, by how the two ranges lie.
pub open spec fn delete_delete(
    p1: nat,
    w1: Result<Text, nat>,
    r1: Seq<RecordView>,
    p2: nat,
    w2: Result<Text, nat>,
) -> Result<OpView, ErrorKind> {
    let l1 = what_len(w1);
    let l2 = what_len(w2);
    if p1 + l1 <= p2 {
        Ok(OpView::Delete(p1, w1, r1))
    } else if p1 >= p2 + l2 {
        Ok(OpView::Delete((p1 - l2) as nat, w1, r1))
    } else {
        match w2 {
            Err(_) => Err(ErrorKind::NotReversible),
            Ok(t2) => {
                if p2 <= p1 && p2 + l2 >= p1 + l1 {
                Ok(
                    OpView::Delete(
                        p2,
                        emptied(w1),
                        r1.push(
                            (0usize, t2.subrange(p1 - p2, p1 - p2 + l1)),
                        ),
                    ),
                )
            } else if p2 <= p1 {
                let (_, y) = split_spec(p1, w1, r1, (p2 + l2 - p1) as nat);
                match y {
                    OpView::Delete(_, w, _) => Ok(
                        OpView::Delete(
                            p2,
                            w,
                            r1.push((0usize, t2.subrange(p1 - p2, t2.len() as int))),
                        ),
                    ),
                    _ => Ok(y),
                }
            } else if p2 + l2 >= p1 + l1 {
                let (x, _) = split_spec(p1, w1, r1, (p2 - p1) as nat);
                match x {
                    OpView::Delete(q, w, _) => Ok(
                        OpView::Delete(
                            q,
                            w,
                            r1.push(
                                ((p2 - p1) as usize, t2.subrange(0, p1 + l1 - p2)),
                            ),
                        ),
                    ),
                    _ => Ok(x),
                }
            } else {
                let (x, y) = split_spec(p1, w1, r1, (p2 - p1) as nat);
                match (x, y) {
                    (OpView::Delete(_, wx, _), OpView::Delete(q, wy, ry)) => {
                        let (_, z) = split_spec(q, wy, ry, l2);
                        match z {
                            OpView::Delete(_, wz, _) => match merge_spec(p1, wx, wz) {
                                Ok(m) => Ok(with_recon(m, r1.push(((p2 - p1) as usize, t2)))),
                                Err(e) => Err(e),
                            },
                            _ => Ok(z),
                        }
                    },
                    _ => Ok(x),
                }
            }
            },
        }
    }
}

/// `a` rewritten to apply after `b`, where both applied to one state; `cid` orders
/// two inserts at one position.
pub open spec fn transform_spec(a: OpView, b: OpView, cid: Option<ConcurrentOrder>) -> Result<
    OpView,
    ErrorKind,
>
    decreases inserts(b), size(b), size(a),
{
    match a {
        OpView::NoOp => Ok(OpView::NoOp),
        OpView::Split(x, y) => match transform_spec(*x, b, cid) {
            Err(e) => Err(e),
            Ok(x2) => match transform_spec(*y, b, cid) {
                Err(e) => Err(e),
                Ok(y2) => Ok(OpView::Split(Box::new(x2), Box::new(y2))),
            },
        },
        _ => match b {
            OpView::NoOp => Ok(a),
            OpView::Split(c, d) => match transform_spec(a, *c, cid) {
                Err(e) => Err(e),
                Ok(a2) => match transform_spec(*d, *c, None) {
                    Err(e) => Err(e),
                    Ok(d2) => {
                        if smaller(d2, b) {
                            transform_spec(a2, d2, cid)
                        } else {
                            // never taken: see lemma_transform_shape
                            Ok(OpView::NoOp)
                        }
                    },
                },
            },
            OpView::Insert(p2, s2) => match a {
                OpView::Insert(p1, s1) => insert_insert(p1, s1, p2, s2, cid),
                OpView::Delete(p1, w1, r1) => delete_insert(p1, w1, r1, p2, s2.len()),
                _ => Ok(a),
            },
            OpView::Delete(p2, w2, _) => match a {
                OpView::Insert(p1, s1) => Ok(insert_delete(p1, s1, p2, what_len(w2))),
                OpView::Delete(p1, w1, r1) => delete_delete(p1, w1, r1, p2, w2),
                _ => Ok(a),
            },
        },
    }
}

/// The inverse operation.
pub open spec fn mirror_spec(o: OpView) -> Result<OpView, ErrorKind>
    decreases inserts(o), size(o),
{
    match o {
        OpView::NoOp => Ok(OpView::NoOp),
        OpView::Insert(p, s) => Ok(OpView::Delete(p, Ok(s), Seq::empty())),
        OpView::Delete(p, w, _) => match w {
            Ok(t) => Ok(OpView::Insert(p, t)),
            Err(_) => Err(ErrorKind::NotReversible),
        },
        OpView::Split(a, b) => match mirror_spec(*a) {
            Err(e) => Err(e),
            Ok(ma) => match transform_spec(*b, *a, None) {
                Err(e) => Err(e),
                Ok(b2) => {
                    if smaller(b2, o) {
                        match mirror_spec(b2) {
                            Err(e) => Err(e),
                            Ok(mb) => Ok(OpView::Split(Box::new(ma), Box::new(mb))),
                        }
                    } else {
                        // never taken: see lemma_transform_shape
                        Ok(OpView::NoOp)
                    }
                },
            },
        },
    }
}

/// The text after applying `o` to `t`.
pub open spec fn apply_spec(o: OpView, t: Text) -> Result<Text, ErrorKind>
    decreases o,
{
    match o {
        OpView::NoOp => Ok(t),
        OpView::Insert(p, s) => {
            if p <= t.len() {
                Ok(t.subrange(0, p as int) + s + t.subrange(p as int, t.len() as int))
            } else {
                Err(ErrorKind::SpliceOutOfRange)
            }
        },
        OpView::Delete(p, w, _) => {
            if p + what_len(w) <= t.len() {
                Ok(t.subrange(0, p as int) + t.subrange((p + what_len(w)) as int, t.len() as int))
            } else {
                Err(ErrorKind::SpliceOutOfRange)
            }
        },
        OpView::Split(a, b) => match apply_spec(*a, t) {
            Ok(u) => apply_spec(*b, u),
            Err(e) => Err(e),
        },
    }
}

/// The bytes that a transformed delete stands for: for each delete in it, the
/// bytes now at its range of `t` with its recon put back, concatenated in order.
pub open spec fn affected_spec(o: OpView, t: Text) -> Result<Text, ErrorKind>
    decreases o,
{
    match o {
        OpView::Delete(p, w, r) => {
            let l = what_len(w);
            if p + l > t.len() {
                Err(ErrorKind::SliceOutOfRange)
            } else if l + stashed_len(r) > usize::MAX {
                Err(ErrorKind::PositionOverflow)
            } else {
                match restored(t.subrange(p as int, (p + l) as int), r) {
                    Some(u) => Ok(u),
                    None => Err(ErrorKind::SpliceOutOfRange),
                }
            }
        },
        OpView::Split(a, b) => match affected_spec(*a, t) {
            Err(e) => Err(e),
            Ok(x) => match affected_spec(*b, t) {
                Err(e) => Err(e),
                Ok(y) => if x.len() + y.len() > usize::MAX {
                    Err(ErrorKind::PositionOverflow)
                } else {
                    Ok(x + y)
                },
            },
        },
        _ => Err(ErrorKind::NotReversible),
    }
}

/// The total length of all inserted text.
pub open spec fn inserted_len(o: OpView) -> nat
    decreases o,
{
    match o {
        OpView::Insert(_, s) => s.len(),
        OpView::Split(a, b) => inserted_len(*a) + inserted_len(*b),
        _ => 0,
    }
}

/// Transform keeps the number of inserts, and against an operation without
/// inserts it keeps the number of nodes.
pub proof fn lemma_transform_shape(a: OpView, b: OpView, cid: Option<ConcurrentOrder>)
    ensures
        transform_spec(a, b, cid) matches Ok(r) ==> inserts(r) == inserts(a) && (inserts(b) == 0
            ==> size(r) == size(a)),
    decreases inserts(b), size(b), size(a),
{
    match a {
        OpView::NoOp => {
            assert(transform_spec(a, b, cid) == Ok::<OpView, ErrorKind>(OpView::NoOp));
            assert(inserts(OpView::NoOp) == 0);
            assert(size(OpView::NoOp) == 1);
        },
        OpView::Split(x, y) => {
            lemma_transform_shape(*x, b, cid);
            lemma_transform_shape(*y, b, cid);
        },
        _ => match b {
            OpView::Split(c, d) => {
                lemma_transform_shape(a, *c, cid);
                lemma_transform_shape(*d, *c, None);
                match transform_spec(a, *c, cid) {
                    Ok(a2) => match transform_spec(*d, *c, None) {
                        Ok(d2) => {
                            assert(inserts(d2) == inserts(*d));
                            assert(smaller(d2, b));
                            lemma_transform_shape(a2, d2, cid);
                            assert(inserts(a2) == inserts(a));
                            if inserts(b) == 0 {
                                assert(size(a2) == size(a));
                            }
                        },
                        _ => {},
                    },
                    _ => {},
                }
            },
            OpView::Insert(p2, s2) => {
                match a {
                    OpView::Delete(p1, w1, r1) => {
                        let (x, y) = split_spec(p1, w1, r1, (p2 - p1) as nat);
                        assert(inserts(x) == 0 && inserts(y) == 0);
                        match y {
                            OpView::Delete(q, w, r) => {
                                let d = OpView::Delete(q + s2.len(), w, r);
                                assert(inserts(d) == 0);
                                assert(inserts(OpView::Split(Box::new(x), Box::new(d))) == 0);
                            },
                            _ => {},
                        }
                        assert(transform_spec(a, b, cid) matches Ok(r) ==> inserts(r) == 0);
                    },
                    OpView::Insert(p1, s1) => {
                        assert(transform_spec(a, b, cid) matches Ok(r) ==> inserts(r) == 1);
                    },
                    _ => {},
                }
            },
            OpView::Delete(p2, w2, _) => {
                match a {
                    OpView::Delete(p1, w1, r1) => {
                        lemma_delete_delete_shape(p1, w1, r1, p2, w2);
                        assert(transform_spec(a, b, cid) matches Ok(r) ==> inserts(r) == 0);
                    },
                    OpView::Insert(p1, s1) => {
                        assert(transform_spec(a, b, cid) matches Ok(r) ==> inserts(r) == 1);
                    },
                    _ => {},
                }
            },
            OpView::NoOp => {},
        },
    }
}

proof fn lemma_delete_delete_shape(
    p1: nat,
    w1: Result<Text, nat>,
    r1: Seq<RecordView>,
    p2: nat,
    w2: Result<Text, nat>,
)
    ensures
        delete_delete(p1, w1, r1, p2, w2) matches Ok(r) ==> r is Delete,
{
    let l2 = what_len(w2);
    let (x, y) = split_spec(p1, w1, r1, (p2 - p1) as nat);
    let (_, y1) = split_spec(p1, w1, r1, (p2 + l2 - p1) as nat);
    assert(x is Delete && y is Delete && y1 is Delete);
    match y {
        OpView::Delete(q, wy, ry) => {
            let (_, z) = split_spec(q, wy, ry, l2);
            assert(z is Delete);
            match z {
                OpView::Delete(_, wz, _) => {
                    match x {
                        OpView::Delete(_, wx, _) => {
                            assert(merge_spec(p1, wx, wz) matches Ok(m) ==> m is Delete);
                        },
                        _ => {},
                    }
                },
                _ => {},
            }
        },
        _ => {},
    }
}

} // verus!
