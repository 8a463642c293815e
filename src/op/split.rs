use vstd::prelude::*;

use super::spec::{
    apply_spec,
    inserts,
    lemma_transform_shape,
    mirror_spec,
    size,
    transform_spec,
    inserted_len,
    OpView,
};
use super::{lemma_apply_len, op_view, op_wf, res_view, res_wf, Operation};
use crate::segment::SegmentBuffer;
use crate::{ConcurrentOrder, ErrorKind};

verus! {

/// The first operation, then the second, which is stated against the text that
/// the first one left.
pub struct Split(pub Operation, pub Operation);

impl Split {
    pub open spec fn view_op(&self) -> OpView {
        OpView::Split(Box::new(op_view(&self.0)), Box::new(op_view(&self.1)))
    }

    pub fn new(a: Operation, b: Operation) -> (r: Split)
        ensures
            r.0 == a,
            r.1 == b,
    {
        Split(a, b)
    }

    /// Applies the first part, then the second.
    pub fn apply(&self, buf: &mut SegmentBuffer) -> (r: Result<(), ErrorKind>)
        requires
            op_wf(&self.0),
            op_wf(&self.1),
            old(buf).wf(),
            old(buf)@.len() + inserted_len(self.view_op()) <= usize::MAX,
        ensures
            match apply_spec(self.view_op(), old(buf)@) {
                Ok(t) => r is Ok && final(buf).wf() && final(buf)@ == t,
                Err(e) => r == Err::<(), ErrorKind>(e),
            },
        decreases self,
    {
        proof {
            lemma_apply_len(self.0@, buf@);
        }
        match self.0.apply(buf) {
            Ok(()) => {},
            Err(e) => return Err(e),
        }
        self.1.apply(buf)
    }

    /// Each part rewritten to apply after `other`.
    pub fn transform(&self, other: &Operation, cid: Option<ConcurrentOrder>) -> (r: Result<
        Operation,
        ErrorKind,
    >)
        requires
            op_wf(&self.0),
            op_wf(&self.1),
            op_wf(other),
        ensures
            res_view(r) == transform_spec(self.view_op(), other@, cid),
            res_wf(r),
        decreases inserts(other@), size(other@), size(self.view_op()), 0nat,
    {
        let a = match self.0.transform(other, cid) {
            Ok(a) => a,
            Err(e) => return Err(e),
        };
        let b = match self.1.transform(other, cid) {
            Ok(b) => b,
            Err(e) => return Err(e),
        };
        Ok(Operation::Split(Box::new(Split(a, b))))
    }

    /// The inverse: the first part's mirror, then the mirror of the second part
    /// moved past the first.
    pub fn mirror(&self) -> (r: Result<Operation, ErrorKind>)
        requires
            op_wf(&self.0),
            op_wf(&self.1),
        ensures
            res_view(r) == mirror_spec(self.view_op()),
            res_wf(r),
        decreases inserts(self.view_op()), size(self.view_op()), 0nat,
    {
        let a = match self.0.mirror() {
            Ok(a) => a,
            Err(e) => return Err(e),
        };
        let second = match self.1.transform(&self.0, None) {
            Ok(s) => s,
            Err(e) => return Err(e),
        };
        proof {
            lemma_transform_shape(self.1@, self.0@, None);
        }
        let b = match second.mirror() {
            Ok(b) => b,
            Err(e) => return Err(e),
        };
        Ok(Operation::Split(Box::new(Split(a, b))))
    }
}

} // verus!
