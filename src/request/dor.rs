use vstd::prelude::*;

use super::Request;
use crate::op::spec::{affected_spec, mirror_spec, transform_spec, OpView};
use crate::op::{op_wf, res_view, Operation};
use crate::vector::StateVector;
use crate::{ConcurrentOrder, ErrorKind, SessionId, State};

verus! {

/// An operation of `user`, stated against `vector`.
pub struct DoRequest {
    pub user: SessionId,
    pub vector: StateVector,
    pub operation: Operation,
}

impl DoRequest {
    pub open spec fn wf(&self) -> bool {
        op_wf(&self.operation) && self.vector.wf()
    }

    pub fn new(user: SessionId, vector: StateVector, operation: Operation) -> (r: DoRequest)
        ensures
            r.user == user,
            r.vector == vector,
            r.operation == operation,
    {
        DoRequest { user, vector, operation }
    }

    /// This request moved past `other`: the operation transformed against the
    /// other's, the vector one step further for the other's user.
    pub fn transform(&self, other: &Self, cid: Option<ConcurrentOrder>) -> (r: Result<
        Self,
        ErrorKind,
    >)
        requires
            self.wf(),
            other.wf(),
            self.vector.count(other.user) < usize::MAX,
        ensures
            match transform_spec(self.operation@, other.operation@, cid) {
                Ok(o) => r matches Ok(d) && d.wf() && d.user == self.user && d.operation@ == o
                    && d.vector.count(other.user) == self.vector.count(other.user) + 1
                    && forall|u: SessionId|
                    u != other.user ==> #[trigger] d.vector.count(u) == self.vector.count(u),
                Err(e) => r == Err::<Self, ErrorKind>(e),
            },
    {
        let operation = match self.operation.transform(&other.operation, cid) {
            Ok(o) => o,
            Err(e) => return Err(e),
        };
        let mut vector = self.vector.clone();
        vector.add(other.user, 1);
        Ok(DoRequest { user: self.user, vector, operation })
    }

    /// The inverse request, its vector moved `amount` steps further for its user.
    pub fn mirror(&self, amount: usize) -> (r: Result<Request, ErrorKind>)
        requires
            self.wf(),
            self.vector.count(self.user) + amount <= usize::MAX,
        ensures
            match mirror_spec(self.operation@) {
                Ok(o) => r matches Ok(Request::Do(d)) && d.wf() && d.user == self.user
                    && d.operation@ == o && d.vector.count(self.user) == self.vector.count(
                    self.user,
                ) + amount && forall|u: SessionId|
                    u != self.user ==> #[trigger] d.vector.count(u) == self.vector.count(u),
                Err(e) => r == Err::<Request, ErrorKind>(e),
            },
    {
        let operation = match self.operation.mirror() {
            Ok(o) => o,
            Err(e) => return Err(e),
        };
        let mut vector = self.vector.clone();
        vector.add(self.user, amount);
        Ok(Request::Do(DoRequest { user: self.user, vector, operation }))
    }

    /// This request with an undo and redo pair of `user` skipped: the vector moves
    /// `amount` steps further for that user, the operation stays.
    pub fn fold(&self, user: SessionId, amount: usize) -> (r: Request)
        requires
            self.wf(),
            amount % 2 == 0,
            self.vector.count(user) + amount <= usize::MAX,
        ensures
            r matches Request::Do(d) && d.wf() && d.user == self.user && d.operation@
                == self.operation@ && d.vector.count(user) == self.vector.count(user) + amount
                && forall|u: SessionId| u != user ==> #[trigger] d.vector.count(u) == self.vector.count(u),
    {
        let mut vector = self.vector.clone();
        vector.add(user, amount);
        Request::Do(DoRequest { user: self.user, vector, operation: self.operation.duplicate() })
    }

    /// This request with a non-reversible delete given its bytes: those that
    /// `translated`, its form against the current state, stands for in the
    /// state's buffer. Other requests stay as they are.
    pub fn make_reversible(&self, translated: &DoRequest, state: &State) -> (r: Result<
        DoRequest,
        ErrorKind,
    >)
        requires
            self.wf(),
            translated.wf(),
            state.buffer_spec().wf(),
        ensures
            r matches Ok(d) ==> d.wf() && d.user == self.user && d.vector.same(&self.vector) && forall|
                u: SessionId,
            | #[trigger] d.vector.count(u) == self.vector.count(u),
            r matches Ok(d) ==> !(self.operation is Delete) ==> d.operation@ == self.operation@,
            !(self.operation is Delete) ==> r is Ok,
            self.operation matches Operation::Delete(del) ==> match del.what {
                Ok(b) => r matches Ok(d) && d.operation@ == OpView::Delete(
                    del.position as nat,
                    Ok(b@),
                    Seq::empty(),
                ),
                Err(_) => match affected_spec(translated.operation@, state.buffer_spec()@) {
                    Ok(t) => if del.position + t.len() <= usize::MAX {
                        r matches Ok(d) && d.operation@ == OpView::Delete(
                            del.position as nat,
                            Ok(t),
                            Seq::empty(),
                        )
                    } else {
                        r == Err::<DoRequest, ErrorKind>(ErrorKind::PositionOverflow)
                    },
                    Err(e) => r == Err::<DoRequest, ErrorKind>(e),
                },
            },
    {
        match &self.operation {
            Operation::Delete(delete) => match delete.make_reversible(&translated.operation, state) {
                Ok(d) => Ok(
                    DoRequest {
                        user: self.user,
                        vector: self.vector.clone(),
                        operation: Operation::Delete(d),
                    },
                ),
                Err(e) => Err(e),
            },
            _ => Ok(
                DoRequest {
                    user: self.user,
                    vector: self.vector.clone(),
                    operation: self.operation.duplicate(),
                },
            ),
        }
    }

    /// Applies the operation to the state's buffer and counts it for the user.
    pub fn execute(&self, state: &mut State) -> (r: Result<(), ErrorKind>)
        requires
            self.wf(),
            old(state).wf(),
            old(state).buffer_spec()@.len() + crate::op::spec::inserted_len(self.operation@) <= usize::MAX,
            old(state).vector_spec().count(self.user) < usize::MAX,
        ensures
            match crate::op::spec::apply_spec(self.operation@, old(state).buffer_spec()@) {
                Ok(t) => r is Ok && final(state).wf() && final(state).buffer_spec()@ == t
                    && final(state).vector_spec().count(self.user) == old(state).vector_spec().count(self.user) + 1
                    && forall|u: SessionId| u != self.user ==> #[trigger] final(state).vector_spec().count(u) == old(state).vector_spec().count(u),
                Err(e) => r == Err::<(), ErrorKind>(e),
            },
    {
        state.execute_do(self)
    }
}

} // verus!
