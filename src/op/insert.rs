use vstd::prelude::*;

use super::delete::Delete;
use super::spec::{insert_delete, insert_insert, lemma_transform_shape, transform_spec, OpView};
use super::{op_view, op_wf, res_view, res_wf, Operation};
use crate::recon::Recon;
use crate::segment::{compacted, SegmentBuffer};
use crate::{ConcurrentOrder, ErrorKind, TextPosition, TextSize};

verus! {

/// Inserts `buffer` at `position`.
pub struct Insert {
    pub position: TextPosition,
    pub buffer: SegmentBuffer,
}

impl Insert {
    pub open spec fn view_op(&self) -> OpView {
        OpView::Insert(self.position as nat, self.buffer@)
    }

    pub open spec fn wf(&self) -> bool {
        self.buffer.wf() && self.position + self.buffer@.len() <= usize::MAX
    }

    pub fn new(position: TextPosition, buffer: SegmentBuffer) -> (r: Insert)
        ensures
            r.position == position,
            r.buffer == buffer,
    {
        Insert { position, buffer }
    }

    pub fn duplicate(&self) -> (r: Insert)
        requires
            self.wf(),
        ensures
            r.wf(),
            r.view_op() == self.view_op(),
    {
        Insert { position: self.position, buffer: self.buffer.duplicate() }
    }

    /// Applies the insert to `buf`.
    pub fn apply(&self, buf: &mut SegmentBuffer) -> (r: Result<(), ErrorKind>)
        requires
            self.wf(),
            old(buf).wf(),
            old(buf)@.len() + self.buffer@.len() <= usize::MAX,
        ensures
            self.position <= old(buf)@.len() <==> r is Ok,
            r is Err ==> r == Err::<(), ErrorKind>(ErrorKind::SpliceOutOfRange),
            r is Ok ==> compacted(final(buf).segs()),
            r is Ok ==> final(buf).wf() && final(buf)@ == old(buf)@.subrange(
                0,
                self.position as int,
            ) + self.buffer@ + old(buf)@.subrange(self.position as int, old(buf)@.len() as int),
    {
        buf.splice(self.position..self.position, Some(self.buffer.duplicate()))
    }

    /// Which of two inserts at different positions goes first: `Other` when this
    /// one lies before the other.
    pub fn cid(&self, other: &Self) -> (r: ConcurrentOrder)
        requires
            self.position != other.position,
        ensures
            r == if self.position < other.position {
                ConcurrentOrder::Other
            } else {
                ConcurrentOrder::This
            },
    {
        if self.position < other.position {
            ConcurrentOrder::Other
        } else {
            ConcurrentOrder::This
        }
    }

    pub fn len(&self) -> (r: TextSize)
        requires
            self.wf(),
        ensures
            r == self.buffer@.len(),
    {
        self.buffer.len()
    }

    /// This insert rewritten to apply after `other`.
    pub fn transform(&self, other: &Operation, cid: Option<ConcurrentOrder>) -> (r: Result<
        Operation,
        ErrorKind,
    >)
        requires
            self.wf(),
            op_wf(other),
        ensures
            res_view(r) == transform_spec(self.view_op(), other@, cid),
            res_wf(r),
        decreases super::spec::inserts(other@), super::spec::size(other@), 1nat, 0nat,
    {
        match other {
            Operation::NoOp => Ok(Operation::Insert(self.duplicate())),
            Operation::Delete(delete) => {
                let pos1 = self.position;
                let pos2 = delete.position;
                let len2 = delete.len();
                let p = if pos1 >= pos2 + len2 {
                    pos1 - len2
                } else if pos1 < pos2 {
                    pos1
                } else {
                    pos2
                };
                let r = Insert::new(p, self.buffer.duplicate());
                assert(r.view_op() == insert_delete(
                    pos1 as nat,
                    self.buffer@,
                    pos2 as nat,
                    delete.len_spec(),
                ));
                Ok(Operation::Insert(r))
            },
            Operation::Insert(other) => {
                let pos1 = self.position;
                let pos2 = other.position;
                if pos1 < pos2 || (pos1 == pos2 && cid == Some(ConcurrentOrder::Other)) {
                    Ok(Operation::Insert(self.duplicate()))
                } else if pos1 > pos2 || (pos1 == pos2 && cid == Some(ConcurrentOrder::This)) {
                    let len2 = other.len();
                    let len1 = self.len();
                    if len2 > usize::MAX - pos1 - len1 {
                        Err(ErrorKind::PositionOverflow)
                    } else {
                        Ok(Operation::Insert(Insert::new(pos1 + len2, self.buffer.duplicate())))
                    }
                } else {
                    Err(ErrorKind::MissingOrder)
                }
            },
            Operation::Split(split) => {
                let a = match self.transform(&split.0, cid) {
                    Ok(a) => a,
                    Err(e) => return Err(e),
                };
                let second = match split.1.transform(&split.0, None) {
                    Ok(s) => s,
                    Err(e) => return Err(e),
                };
                proof {
                    lemma_transform_shape(split.1@, split.0@, None);
                }
                a.transform(&second, cid)
            },
        }
    }

    /// The delete that removes what this insert put in.
    pub fn mirror(&self) -> (r: Operation)
        requires
            self.wf(),
        ensures
            op_wf(&r),
            r@ == OpView::Delete(self.position as nat, Ok(self.buffer@), Seq::empty()),
    {
        Operation::Delete(Delete::reversible(self.position, self.buffer.duplicate(), Recon::new()))
    }
}

} // verus!
