use vstd::prelude::*;

pub mod delete;
pub mod insert;
pub mod laws;
pub mod spec;
pub mod split;

use self::delete::Delete;
use self::insert::Insert;
use self::spec::{
    inserted_len,
    lemma_transform_shape,
    mirror_spec,
    transform_spec,
    apply_spec,
    size,
    inserts,
    OpView,
};
use self::split::Split;
use crate::segment::SegmentBuffer;
use crate::{ConcurrentOrder, ErrorKind};

verus! {

pub enum Operation {
    NoOp,
    Delete(Delete),
    Insert(Insert),
    Split(Box<Split>),
}

/// The operation as plain values.
pub open spec fn op_view(o: &Operation) -> OpView
    decreases o,
{
    match o {
        Operation::NoOp => OpView::NoOp,
        Operation::Delete(d) => d.view_op(),
        Operation::Insert(i) => i.view_op(),
        Operation::Split(s) => OpView::Split(Box::new(op_view(&s.0)), Box::new(op_view(&s.1))),
    }
}

/// Every buffer and recon in the operation is well formed, and no delete reaches
/// past the largest `usize`.
pub open spec fn op_wf(o: &Operation) -> bool
    decreases o,
{
    match o {
        Operation::NoOp => true,
        Operation::Delete(d) => d.wf(),
        Operation::Insert(i) => i.wf(),
        Operation::Split(s) => op_wf(&s.0) && op_wf(&s.1),
    }
}

/// An outcome as plain values.
pub open spec fn res_view(r: Result<Operation, ErrorKind>) -> Result<OpView, ErrorKind> {
    match r {
        Ok(o) => Ok(op_view(&o)),
        Err(e) => Err(e),
    }
}

/// Every operation inside an outcome is well formed.
pub open spec fn res_wf(r: Result<Operation, ErrorKind>) -> bool {
    r matches Ok(o) ==> op_wf(&o)
}

impl View for Operation {
    type V = OpView;

    open spec fn view(&self) -> OpView {
        op_view(self)
    }
}

impl Operation {
    /// An operation with the same view.
    pub fn duplicate(&self) -> (r: Operation)
        requires
            op_wf(self),
        ensures
            op_wf(&r),
            r@ == self@,
        decreases self,
    {
        match self {
            Operation::NoOp => Operation::NoOp,
            Operation::Delete(d) => Operation::Delete(d.duplicate()),
            Operation::Insert(i) => Operation::Insert(i.duplicate()),
            Operation::Split(s) => Operation::Split(
                Box::new(Split(s.0.duplicate(), s.1.duplicate())),
            ),
        }
    }

    /// This operation rewritten to apply after `other`, where both applied to one
    /// state.
    pub fn transform(&self, other: &Operation, cid: Option<ConcurrentOrder>) -> (r: Result<
        Operation,
        ErrorKind,
    >)
        requires
            op_wf(self),
            op_wf(other),
        ensures
            res_view(r) == transform_spec(self@, other@, cid),
            res_wf(r),
        decreases inserts(other@), size(other@), size(self@), 1nat,
    {
        match self {
            Operation::NoOp => Ok(Operation::NoOp),
            Operation::Delete(delete) => delete.transform(other, cid),
            Operation::Insert(insert) => insert.transform(other, cid),
            Operation::Split(split) => split.transform(other, cid),
        }
    }

    /// Applies the operation to `buf`.
    pub fn apply(&self, buf: &mut SegmentBuffer) -> (r: Result<(), ErrorKind>)
        requires
            op_wf(self),
            old(buf).wf(),
            old(buf)@.len() + inserted_len(self@) <= usize::MAX,
        ensures
            match apply_spec(self@, old(buf)@) {
                Ok(t) => r is Ok && final(buf).wf() && final(buf)@ == t,
                Err(e) => r == Err::<(), ErrorKind>(e),
            },
        decreases self,
    {
        match self {
            Operation::NoOp => Ok(()),
            Operation::Delete(delete) => delete.apply(buf),
            Operation::Insert(insert) => insert.apply(buf),
            Operation::Split(split) => split.apply(buf),
        }
    }

    /// The inverse operation.
    pub fn mirror(&self) -> (r: Result<Operation, ErrorKind>)
        requires
            op_wf(self),
        ensures
            res_view(r) == mirror_spec(self@),
            res_wf(r),
        decreases inserts(self@), size(self@), 1nat,
    {
        match self {
            Operation::NoOp => Ok(Operation::NoOp),
            Operation::Delete(delete) => delete.mirror(),
            Operation::Insert(insert) => Ok(insert.mirror()),
            Operation::Split(split) => split.mirror(),
        }
    }
}

/// The total length of the inserted text, where it fits a `usize`.
pub fn inserted_total(o: &Operation) -> (r: Option<usize>)
    requires
        op_wf(o),
    ensures
        r is Some <==> inserted_len(o@) <= usize::MAX,
        r matches Some(n) ==> n == inserted_len(o@),
    decreases o,
{
    match o {
        Operation::Insert(i) => Some(i.len()),
        Operation::Split(s) => match (inserted_total(&s.0), inserted_total(&s.1)) {
            (Some(a), Some(b)) => {
                if a > usize::MAX - b {
                    None
                } else {
                    Some(a + b)
                }
            },
            _ => None,
        },
        _ => Some(0),
    }
}

impl From<Delete> for Operation {
    fn from(d: Delete) -> (r: Operation) {
        Operation::Delete(d)
    }
}

impl vstd::std_specs::convert::FromSpecImpl<Delete> for Operation {
    open spec fn obeys_from_spec() -> bool {
        true
    }

    open spec fn from_spec(d: Delete) -> Operation {
        Operation::Delete(d)
    }
}

impl From<Insert> for Operation {
    fn from(i: Insert) -> (r: Operation) {
        Operation::Insert(i)
    }
}

impl vstd::std_specs::convert::FromSpecImpl<Insert> for Operation {
    open spec fn obeys_from_spec() -> bool {
        true
    }

    open spec fn from_spec(i: Insert) -> Operation {
        Operation::Insert(i)
    }
}

impl From<Split> for Operation {
    fn from(s: Split) -> (r: Operation) {
        Operation::Split(Box::new(s))
    }
}

impl vstd::std_specs::convert::FromSpecImpl<Split> for Operation {
    open spec fn obeys_from_spec() -> bool {
        true
    }

    open spec fn from_spec(s: Split) -> Operation {
        Operation::Split(Box::new(s))
    }
}

pub proof fn lemma_apply_len(o: OpView, t: spec::Text)
    ensures
        apply_spec(o, t) matches Ok(u) ==> u.len() <= t.len() + inserted_len(o),
    decreases o,
{
    match o {
        OpView::Split(a, b) => {
            lemma_apply_len(*a, t);
            match apply_spec(*a, t) {
                Ok(u) => lemma_apply_len(*b, u),
                Err(_) => {},
            }
        },
        _ => {},
    }
}

} // verus!
