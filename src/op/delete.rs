use vstd::prelude::*;

use super::insert::Insert;
use super::spec::{
    delete_delete,
    affected_spec,
    delete_insert,
    emptied,
    lemma_transform_shape,
    merge_spec,
    split_spec,
    transform_spec,
    what_len,
    OpView,
    Text,
};
use super::split::Split;
use super::{op_view, op_wf, res_view, res_wf, Operation};
use crate::recon::Recon;
use crate::segment::{compacted, SegmentBuffer};
use crate::{ConcurrentOrder, ErrorKind, State, TextPosition, TextSize};

verus! {

/// Removes bytes at `position`: either the exact bytes (`Ok`) or only their
/// count (`Err`), with the bytes that concurrent deletes removed first.
pub struct Delete {
    pub position: TextPosition,
    pub what: Result<SegmentBuffer, TextSize>,
    pub recon: Recon,
}

/// `buf[s..e]`, where the range lies inside the buffer.
fn slice_in(buf: &SegmentBuffer, s: usize, e: usize) -> (r: SegmentBuffer)
    requires
        buf.wf(),
        s <= e <= buf@.len(),
    ensures
        r.wf(),
        r@ == buf@.subrange(s as int, e as int),
{
    match buf.slice(s..e) {
        Ok(b) => b,
        Err(_) => buf.duplicate(),
    }
}

impl Delete {
    pub open spec fn what_view(&self) -> Result<Text, nat> {
        match self.what {
            Ok(b) => Ok(b@),
            Err(n) => Err(n as nat),
        }
    }

    pub open spec fn len_spec(&self) -> nat {
        what_len(self.what_view())
    }

    pub open spec fn view_op(&self) -> OpView {
        OpView::Delete(self.position as nat, self.what_view(), self.recon@)
    }

    pub open spec fn wf(&self) -> bool {
        &&& self.what matches Ok(b) ==> b.wf()
        &&& self.recon.wf()
        &&& self.position + self.len_spec() <= usize::MAX
    }

    /// The removed bytes, when known.
    pub fn buf(&self) -> (r: Option<&SegmentBuffer>)
        ensures
            r == match self.what {
                Ok(b) => Some(&b),
                Err(_) => None::<&SegmentBuffer>,
            },
    {
        match &self.what {
            Ok(b) => Some(b),
            Err(_) => None,
        }
    }

    pub fn new(position: TextPosition, what: Result<SegmentBuffer, TextSize>, recon: Recon) -> (r:
        Delete)
        ensures
            r.position == position,
            r.what == what,
            r.recon == recon,
    {
        Delete { position, what, recon }
    }

    pub fn reversible(position: TextPosition, what: SegmentBuffer, recon: Recon) -> (r: Delete)
        ensures
            r.position == position,
            r.what == Ok::<SegmentBuffer, TextSize>(what),
            r.recon == recon,
    {
        Delete::new(position, Ok(what), recon)
    }

    fn nonreversible(position: TextPosition, what: TextSize, recon: Recon) -> (r: Delete)
        ensures
            r.position == position,
            r.what == Err::<SegmentBuffer, TextSize>(what),
            r.recon == recon,
    {
        Delete::new(position, Err(what), recon)
    }

    pub fn is_reversible(&self) -> (r: bool)
        ensures
            r == self.what is Ok,
    {
        self.what.is_ok()
    }

    pub fn len(&self) -> (r: TextSize)
        requires
            self.wf(),
        ensures
            r == self.len_spec(),
    {
        match &self.what {
            Ok(buf) => buf.len(),
            Err(size) => *size,
        }
    }

    pub fn duplicate(&self) -> (r: Delete)
        requires
            self.wf(),
        ensures
            r.wf(),
            r.view_op() == self.view_op(),
    {
        let what = match &self.what {
            Ok(b) => Ok(b.duplicate()),
            Err(n) => Err(*n),
        };
        Delete { position: self.position, what, recon: self.recon.duplicate() }
    }

    /// Removes the bytes `position .. position + len()` of `buf`.
    pub fn apply(&self, buf: &mut SegmentBuffer) -> (r: Result<(), ErrorKind>)
        requires
            self.wf(),
            old(buf).wf(),
        ensures
            self.position + self.len_spec() <= old(buf)@.len() <==> r is Ok,
            r is Err ==> r == Err::<(), ErrorKind>(ErrorKind::SpliceOutOfRange),
            r is Ok ==> compacted(final(buf).segs()),
            r is Ok ==> final(buf).wf() && final(buf)@ == old(buf)@.subrange(
                0,
                self.position as int,
            ) + old(buf)@.subrange(self.position + self.len_spec(), old(buf)@.len() as int),
    {
        proof {
            buf.lemma_view();
            assert(crate::segment::inserted(None) =~= Seq::<(crate::SessionId, u8)>::empty());
        }
        let end = self.position + self.len();
        buf.splice(self.position..end, None)
    }

    /// Cuts the delete after `at` bytes; both halves start at `position`.
    fn split(&self, at: TextPosition) -> (r: (Delete, Delete))
        requires
            self.wf(),
            at <= self.len_spec(),
        ensures
            r.0.wf(),
            r.1.wf(),
            (r.0.view_op(), r.1.view_op()) == split_spec(
                self.position as nat,
                self.what_view(),
                self.recon@,
                at as nat,
            ),
    {
        match &self.what {
            Ok(buf) => (
                Delete::reversible(self.position, slice_in(buf, 0, at), Recon::new()),
                Delete::reversible(self.position, slice_in(buf, at, buf.len()), Recon::new()),
            ),
            Err(len) => {
                let (rec1, rec2) = self.recon.split_at(at);
                (
                    Delete::nonreversible(self.position, at, rec1),
                    Delete::nonreversible(self.position, *len - at, rec2),
                )
            },
        }
    }

    /// Both deletes as one, at this one's position; both must be of one kind.
    fn merge(&self, other: &Delete) -> (r: Result<Delete, ErrorKind>)
        requires
            self.wf(),
            other.wf(),
            self.position + self.len_spec() + other.len_spec() <= usize::MAX,
        ensures
            match merge_spec(self.position as nat, self.what_view(), other.what_view()) {
                Ok(v) => r matches Ok(d) && d.wf() && d.view_op() == v,
                Err(e) => r == Err::<Delete, ErrorKind>(e),
            },
    {
        match (&self.what, &other.what) {
            (Ok(buf), Ok(other_buf)) => {
                let mut new_buf = buf.duplicate();
                let end = new_buf.len();
                let _ = new_buf.splice(end..end, Some(other_buf.duplicate()));
                assert(new_buf@ =~= buf@ + other_buf@);
                Ok(Delete::reversible(self.position, new_buf, Recon::new()))
            },
            (Err(n1), Err(n2)) => Ok(Delete::nonreversible(self.position, *n1 + *n2, Recon::new())),
            _ => Err(ErrorKind::MergeKindMismatch),
        }
    }

    /// This delete rewritten to apply after `other`.
    pub fn transform(&self, other: &Operation, cid: Option<ConcurrentOrder>) -> (r: Result<
        Operation,
        ErrorKind,
    >)
        requires
            self.wf(),
            op_wf(other),
        ensures
            res_view(r) == transform_spec(self.view_op(), other@, cid),
            res_wf(r),
        decreases super::spec::inserts(other@), super::spec::size(other@), 1nat, 0nat,
    {
        match other {
            Operation::NoOp => Ok(Operation::Delete(self.duplicate())),
            Operation::Delete(other) => self.transform_delete(other),
            Operation::Insert(insert) => {
                let pos1 = self.position;
                let len1 = self.len();
                let pos2 = insert.position;
                let len2 = insert.len();
                if pos1 + len1 <= pos2 {
                    Ok(Operation::Delete(self.duplicate()))
                } else if len2 > usize::MAX - pos1 - len1 {
                    Err(ErrorKind::PositionOverflow)
                } else if pos2 <= pos1 {
                    let d = self.duplicate();
                    Ok(Operation::Delete(Delete { position: pos1 + len2, what: d.what, recon: d.recon }))
                } else {
                    let (a, b) = self.split(pos2 - pos1);
                    let b = Delete { position: b.position + len2, what: b.what, recon: b.recon };
                    let r = Operation::Split(
                        Box::new(Split(Operation::Delete(a), Operation::Delete(b))),
                    );
                    assert(op_view(&Operation::Delete(a)) == a.view_op());
                    assert(op_view(&Operation::Delete(b)) == b.view_op());
                    assert(op_wf(&Operation::Delete(a)));
                    assert(op_wf(&Operation::Delete(b)));
                    assert(r@ == OpView::Split(Box::new(a.view_op()), Box::new(b.view_op())));
                    Ok(r)
                }
            },
            Operation::Split(split) => {
                let a = match self.transform(&split.0, cid) {
                    Ok(a) => a,
                    Err(e) => return Err(e),
                };
                let second = match split.1.transform(&split.0, None) {
                    Ok(s) => s,
                    Err(e) => return Err(e),
                };
                proof {
                    lemma_transform_shape(split.1@, split.0@, None);
                }
                a.transform(&second, cid)
            },
        }
    }

    /// Delete against delete, by how the two ranges lie.
    fn transform_delete(&self, other: &Delete) -> (r: Result<Operation, ErrorKind>)
        requires
            self.wf(),
            other.wf(),
        ensures
            res_view(r) == delete_delete(
                self.position as nat,
                self.what_view(),
                self.recon@,
                other.position as nat,
                other.what_view(),
            ),
            res_wf(r),
    {
        let pos1 = self.position;
        let pos2 = other.position;
        let len1 = self.len();
        let len2 = other.len();
        if pos1 + len1 <= pos2 {
            Ok(Operation::Delete(self.duplicate()))
        } else if pos1 >= pos2 + len2 {
            let d = self.duplicate();
            Ok(Operation::Delete(Delete { position: pos1 - len2, what: d.what, recon: d.recon }))
        } else {
            let t2 = match &other.what {
                Ok(t2) => t2,
                Err(_) => return Err(ErrorKind::NotReversible),
            };
            if pos2 <= pos1 && pos2 + len2 >= pos1 + len1 {
                // All of this delete's bytes are gone already: it removes nothing
                // and keeps them for a later mirror.
                let mut recon = self.recon.duplicate();
                recon.add(0, slice_in(t2, pos1 - pos2, pos1 - pos2 + len1));
                let what = match &self.what {
                    Ok(_) => {
                        let e = SegmentBuffer::new(Vec::new());
                        proof {
                            e.lemma_view();
                        }
                        assert(e@ =~= Seq::<(crate::SessionId, u8)>::empty());
                        Ok(e)
                    },
                    Err(_) => Err(0),
                };
                let r = Delete { position: pos2, what, recon };
                assert(r.what_view() == emptied(self.what_view()));
                Ok(Operation::Delete(r))
            } else if pos2 <= pos1 {
                // The front of this delete is gone already.
                let (_, y) = self.split(pos2 + len2 - pos1);
                let mut recon = self.recon.duplicate();
                recon.add(0, slice_in(t2, pos1 - pos2, len2));
                Ok(Operation::Delete(Delete { position: pos2, what: y.what, recon }))
            } else if pos2 + len2 >= pos1 + len1 {
                // The back of this delete is gone already.
                let (x, _) = self.split(pos2 - pos1);
                let mut recon = self.recon.duplicate();
                recon.add(pos2 - pos1, slice_in(t2, 0, pos1 + len1 - pos2));
                Ok(Operation::Delete(Delete { position: x.position, what: x.what, recon }))
            } else {
                // The other delete lies strictly inside this one.
                let (x, y) = self.split(pos2 - pos1);
                let (_, z) = y.split(len2);
                let mut m = match x.merge(&z) {
                    Ok(m) => m,
                    Err(e) => return Err(e),
                };
                let mut recon = self.recon.duplicate();
                recon.add(pos2 - pos1, t2.duplicate());
                m.recon = recon;
                Ok(Operation::Delete(m))
            }
        }
    }

    /// The bytes that `operation`, a transformed delete, stands for in `buf`.
    fn get_affected(operation: &Operation, buf: &SegmentBuffer) -> (r: Result<
        SegmentBuffer,
        ErrorKind,
    >)
        requires
            op_wf(operation),
            buf.wf(),
        ensures
            match affected_spec(operation@, buf@) {
                Ok(t) => r matches Ok(b) && b.wf() && b@ == t,
                Err(e) => r == Err::<SegmentBuffer, ErrorKind>(e),
            },
        decreases operation,
    {
        match operation {
            Operation::Delete(delete) => {
                let len = delete.len();
                let mut recon_buf = match buf.slice(delete.position..delete.position + len) {
                    Ok(b) => b,
                    Err(e) => return Err(e),
                };
                match delete.recon.stashed() {
                    Some(n) => {
                        if n > usize::MAX - len {
                            return Err(ErrorKind::PositionOverflow);
                        }
                    },
                    None => return Err(ErrorKind::PositionOverflow),
                }
                match delete.recon.restore(&mut recon_buf) {
                    Ok(()) => Ok(recon_buf),
                    Err(e) => Err(e),
                }
            },
            Operation::Split(split) => {
                let a = match Delete::get_affected(&split.0, buf) {
                    Ok(a) => a,
                    Err(e) => return Err(e),
                };
                let mut b = match Delete::get_affected(&split.1, buf) {
                    Ok(b) => b,
                    Err(e) => return Err(e),
                };
                if a.len() > usize::MAX - b.len() {
                    return Err(ErrorKind::PositionOverflow);
                }
                let ghost av = a@;
                let ghost bv = b@;
                let _ = b.splice(0..0, Some(a));
                assert(b@ =~= av + bv);
                Ok(b)
            },
            _ => Err(ErrorKind::NotReversible),
        }
    }

    /// This delete with its bytes known: its own when it has them, else those
    /// that `transformed`, its form against the current state, stands for in
    /// `state.buffer`.
    pub fn make_reversible(&self, transformed: &Operation, state: &State) -> (r: Result<
        Delete,
        ErrorKind,
    >)
        requires
            self.wf(),
            op_wf(transformed),
            state.buffer_spec().wf(),
        ensures
            match self.what {
                Ok(b) => r matches Ok(d) && d.wf() && d.view_op() == OpView::Delete(
                    self.position as nat,
                    Ok(b@),
                    Seq::empty(),
                ),
                Err(_) => match affected_spec(transformed@, state.buffer_spec()@) {
                    Ok(t) => if self.position + t.len() <= usize::MAX {
                        r matches Ok(d) && d.wf() && d.view_op() == OpView::Delete(
                            self.position as nat,
                            Ok(t),
                            Seq::empty(),
                        )
                    } else {
                        r == Err::<Delete, ErrorKind>(ErrorKind::PositionOverflow)
                    },
                    Err(e) => r == Err::<Delete, ErrorKind>(e),
                },
            },
    {
        match &self.what {
            Ok(buf) => Ok(Delete::reversible(self.position, buf.duplicate(), Recon::new())),
            Err(_) => match Delete::get_affected(transformed, state.current_buffer()) {
                Ok(b) => {
                    if b.len() > usize::MAX - self.position {
                        return Err(ErrorKind::PositionOverflow);
                    }
                    Ok(Delete::reversible(self.position, b, Recon::new()))
                },
                Err(e) => Err(e),
            },
        }
    }

    /// The insert that puts the removed bytes back; the bytes must be known.
    pub fn mirror(&self) -> (r: Result<Operation, ErrorKind>)
        requires
            self.wf(),
        ensures
            res_view(r) == super::spec::mirror_spec(self.view_op()),
            res_wf(r),
    {
        match &self.what {
            Ok(buf) => Ok(Operation::Insert(Insert::new(self.position, buf.duplicate()))),
            Err(_) => Err(ErrorKind::NotReversible),
        }
    }
}

} // verus!
