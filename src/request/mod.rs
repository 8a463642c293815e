use vstd::prelude::*;

pub mod dor;
pub mod redo;
pub mod undo;

use self::dor::DoRequest;
use self::redo::RedoRequest;
use self::undo::UndoRequest;
use crate::vector::StateVector;
use crate::{ErrorKind, SessionId};

verus! {

pub enum Request {
    Do(DoRequest),
    Redo(RedoRequest),
    Undo(UndoRequest),
}

impl Request {
    pub open spec fn user_spec(&self) -> SessionId {
        match self {
            Request::Do(r) => r.user,
            Request::Redo(r) => r.user,
            Request::Undo(r) => r.user,
        }
    }

    pub open spec fn vector_spec(&self) -> StateVector {
        match self {
            Request::Do(r) => r.vector,
            Request::Redo(r) => r.vector,
            Request::Undo(r) => r.vector,
        }
    }

    pub fn user(&self) -> (r: SessionId)
        ensures
            r == self.user_spec(),
    {
        match self {
            Request::Do(dor) => dor.user,
            Request::Redo(redo) => redo.user,
            Request::Undo(undo) => undo.user,
        }
    }

    pub fn vector(&self) -> (r: &StateVector)
        ensures
            *r == self.vector_spec(),
    {
        match self {
            Request::Do(dor) => &dor.vector,
            Request::Redo(redo) => &redo.vector,
            Request::Undo(undo) => &undo.vector,
        }
    }

    /// The index in `log` of the request that this undo or redo takes back; `None`
    /// for a do, and where the log holds no partner of the right kind.
    pub fn associated_request(&self, log: &Vec<Request>) -> (r: Option<usize>)
        requires
            log@.len() < usize::MAX,
        ensures
            r == self.associated_in(log@),
            r matches Some(i) ==> i < log@.len(),
    {
        match self {
            Request::Do(_) => None,
            Request::Redo(redo) => redo.associated_request(log),
            Request::Undo(undo) => undo.associated_request(log),
        }
    }

    /// The request's operation and vector are well formed.
    pub open spec fn wf(&self) -> bool {
        match self {
            Request::Do(r) => r.wf(),
            Request::Redo(r) => r.vector.wf(),
            Request::Undo(r) => r.vector.wf(),
        }
    }

    /// A do request's inverse, its vector moved `by` steps further for its user.
    pub fn mirror(&self, by: usize) -> (r: Result<Request, ErrorKind>)
        requires
            self.wf(),
            self.vector_spec().count(self.user_spec()) + by <= usize::MAX,
        ensures
            self is Do ==> match crate::op::spec::mirror_spec(self->Do_0.operation@) {
                Ok(o) => r matches Ok(Request::Do(d)) && d.wf() && d.user == self.user_spec()
                    && d.operation@ == o && d.vector.count(d.user) == self.vector_spec().count(
                    d.user,
                ) + by && forall|u: SessionId|
                    u != d.user ==> #[trigger] d.vector.count(u) == self.vector_spec().count(u),
                Err(e) => r == Err::<Request, ErrorKind>(e),
            },
            !(self is Do) ==> r == Err::<Request, ErrorKind>(ErrorKind::MalformedUndoRedo),
    {
        match self {
            Request::Do(dor) => dor.mirror(by),
            _ => Err(ErrorKind::MalformedUndoRedo),
        }
    }

    /// The request with an undo and redo pair of `session` skipped: its vector
    /// moves `amount` steps further for that session.
    pub fn fold(&self, session: SessionId, amount: usize) -> (r: Request)
        requires
            self.wf(),
            amount % 2 == 0,
            self.vector_spec().count(session) + amount <= usize::MAX,
        ensures
            r.wf(),
            r.user_spec() == self.user_spec(),
            r is Do <==> self is Do,
            r is Undo <==> self is Undo,
            self is Do ==> r->Do_0.operation@ == self->Do_0.operation@,
            r.vector_spec().count(session) == self.vector_spec().count(session) + amount,
            forall|u: SessionId|
                u != session ==> #[trigger] r.vector_spec().count(u) == self.vector_spec().count(u),
    {
        match self {
            Request::Do(dor) => dor.fold(session, amount),
            Request::Redo(redo) => {
                let mut vector = redo.vector.clone();
                vector.add(session, amount);
                Request::Redo(RedoRequest { user: redo.user, vector })
            },
            Request::Undo(undo) => {
                let mut vector = undo.vector.clone();
                vector.add(session, amount);
                Request::Undo(UndoRequest { user: undo.user, vector })
            },
        }
    }

    /// A request with the same kind, user, vector and operation.
    pub fn duplicate(&self) -> (r: Request)
        requires
            self.wf(),
        ensures
            r.wf(),
            r.user_spec() == self.user_spec(),
            r is Do <==> self is Do,
            r is Undo <==> self is Undo,
            self is Do ==> r->Do_0.operation@ == self->Do_0.operation@,
            forall|u: SessionId| #[trigger] r.vector_spec().count(u) == self.vector_spec().count(u),
            r.vector_spec().width() == self.vector_spec().width(),
    {
        match self {
            Request::Do(dor) => Request::Do(
                DoRequest {
                    user: dor.user,
                    vector: dor.vector.clone(),
                    operation: dor.operation.duplicate(),
                },
            ),
            Request::Redo(redo) => Request::Redo(
                RedoRequest { user: redo.user, vector: redo.vector.clone() },
            ),
            Request::Undo(undo) => Request::Undo(
                UndoRequest { user: undo.user, vector: undo.vector.clone() },
            ),
        }
    }

    pub open spec fn associated_in(&self, log: Seq<Request>) -> Option<usize> {
        match self {
            Request::Do(_) => None,
            Request::Redo(r) => associated_spec(log, r.user, r.vector.count(r.user), false),
            Request::Undo(r) => associated_spec(log, r.user, r.vector.count(r.user), true),
        }
    }
}

/// Whether a log entry counts one step deeper in the scan for a partner: an undo
/// when an undo looks (`undo`), a redo when a redo looks.
pub open spec fn nests(r: Request, undo: bool) -> bool {
    if undo {
        r is Undo
    } else {
        r is Redo
    }
}

/// The scan for a partner, over `log[..i]` from its end, at nesting `depth`: only
/// entries of `user` whose own counter lies below `bound` take part.
pub open spec fn scan_from(log: Seq<Request>, user: SessionId, bound: nat, undo: bool, i: int, depth: int) -> Option<
    usize,
>
    decreases i,
{
    if i <= 0 {
        None
    } else {
        let r = log[i - 1];
        if r.user_spec() != user || r.vector_spec().count(user) >= bound {
            scan_from(log, user, bound, undo, i - 1, depth)
        } else {
            let d = if nests(r, undo) {
                depth + 1
            } else {
                depth - 1
            };
            if d == 0 {
                Some((i - 1) as usize)
            } else {
                scan_from(log, user, bound, undo, i - 1, d)
            }
        }
    }
}

/// The partner of an undo (`undo`) or redo of `user` whose own counter is
/// `bound`: the scan's result, where it is a do for an undo and an undo for a
/// redo.
pub open spec fn associated_spec(log: Seq<Request>, user: SessionId, bound: nat, undo: bool) -> Option<
    usize,
> {
    match scan_from(log, user, bound, undo, log.len() as int, 1) {
        Some(i) => {
            if (undo && log[i as int] is Do) || (!undo && log[i as int] is Undo) {
                Some(i)
            } else {
                None
            }
        },
        None => None,
    }
}

/// The scan only lands on entries of `user` whose own counter lies below `bound`.
pub proof fn lemma_scan_picks(log: Seq<Request>, user: SessionId, bound: nat, undo: bool, i: int, depth: int)
    requires
        i <= log.len() <= usize::MAX,
    ensures
        scan_from(log, user, bound, undo, i, depth) matches Some(k) ==> 0 <= k < i && k < log.len()
            && log[k as int].user_spec() == user && log[k as int].vector_spec().count(user) < bound,
    decreases i,
{
    if i > 0 {
        let r = log[i - 1];
        lemma_scan_picks(log, user, bound, undo, i - 1, depth);
        let d = if nests(r, undo) {
            depth + 1
        } else {
            depth - 1
        };
        lemma_scan_picks(log, user, bound, undo, i - 1, d);
    }
}

/// Walks `log` backwards from its end for the partner of an undo or redo.
pub(crate) fn scan(log: &Vec<Request>, user: SessionId, bound: usize, undo: bool) -> (r: Option<usize>)
    requires
        log@.len() < usize::MAX,
    ensures
        r == scan_from(log@, user, bound as nat, undo, log@.len() as int, 1),
        r matches Some(i) ==> i < log@.len(),
{
    let mut i = log.len();
    let mut depth: usize = 1;
    while i > 0
        invariant
            i <= log@.len() < usize::MAX,
            1 <= depth <= log@.len() - i + 1,
            scan_from(log@, user, bound as nat, undo, log@.len() as int, 1) == scan_from(
                log@,
                user,
                bound as nat,
                undo,
                i as int,
                depth as int,
            ),
        decreases i,
    {
        let r = &log[i - 1];
        if r.user() != user || r.vector().get(user) >= bound {
            i -= 1;
        } else {
            let nested = match r {
                Request::Undo(_) => undo,
                Request::Redo(_) => !undo,
                Request::Do(_) => false,
            };
            if nested {
                depth += 1;
            } else {
                depth -= 1;
            }
            if depth == 0 {
                return Some(i - 1);
            }
            i -= 1;
        }
    }
    None
}

} // verus!
