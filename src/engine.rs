use vstd::prelude::*;

use crate::op::spec::{affected_spec, apply_spec, inserted_len, mirror_spec, transform_spec, OpView, Text};
use crate::op::Operation;
use crate::request::dor::DoRequest;
use crate::request::{associated_spec, lemma_scan_picks, Request};
use crate::segment::SegmentBuffer;
use crate::vector::StateVector;
use crate::{ConcurrentOrder, ErrorKind, SessionId};
use std::collections::VecDeque;

verus! {

/// The engine's state: the text, the vector of what it has applied, the
/// committed log and the requests that wait for their turn.
pub struct State {
    pub buffer: SegmentBuffer,
    vector: StateVector,
    request_queue: VecDeque<Request>,
    log: Vec<Request>,
}

/// The index of the first request of `user` in `log[k..]` whose own counter is `n`.
pub open spec fn find_own(log: Seq<Request>, user: SessionId, n: nat, k: int) -> Option<usize>
    decreases log.len() - k,
{
    if k < 0 || k >= log.len() {
        None
    } else if log[k].user_spec() == user && log[k].vector_spec().count(user) == n {
        Some(k as usize)
    } else {
        find_own(log, user, n, k + 1)
    }
}

/// The least own counter among the requests of `user` in `log[..k]`.
pub open spec fn least_own(log: Seq<Request>, user: SessionId, k: int) -> Option<nat>
    decreases k,
{
    if k <= 0 {
        None
    } else {
        let rest = least_own(log, user, k - 1);
        let r = log[k - 1];
        if r.user_spec() != user {
            rest
        } else {
            let c = r.vector_spec().count(user);
            match rest {
                Some(m) => Some(if c < m { c } else { m }),
                None => Some(c),
            }
        }
    }
}

/// Whether a do request's vector with its own step counted lies before `target`.
pub open spec fn step_before(r: Request, target: StateVector) -> bool {
    forall|u: SessionId|
        #[trigger] r.vector_spec().count(u) + (if u == r.user_spec() {
            1int
        } else {
            0int
        }) <= target.count(u)
}

/// The index lands on a request of `user` whose own counter is `n`.
pub proof fn lemma_find_own(log: Seq<Request>, user: SessionId, n: nat, k: int)
    requires
        log.len() <= usize::MAX,
    ensures
        find_own(log, user, n, k) matches Some(i) ==> 0 <= i < log.len() && log[i as int].user_spec()
            == user && log[i as int].vector_spec().count(user) == n,
    decreases log.len() - k,
{
    if 0 <= k < log.len() {
        lemma_find_own(log, user, n, k + 1);
    }
}

/// The partner of an undo or redo is a request of the same user, earlier in the
/// user's own count.
pub proof fn lemma_partner(log: Seq<Request>, r: Request)
    requires
        log.len() <= usize::MAX,
    ensures
        r.associated_in(log) matches Some(j) ==> j < log.len() && log[j as int].user_spec()
            == r.user_spec() && log[j as int].vector_spec().count(r.user_spec())
            < r.vector_spec().count(r.user_spec()),
{
    match r {
        Request::Do(_) => {},
        Request::Undo(u) => lemma_scan_picks(
            log,
            u.user,
            u.vector.count(u.user),
            true,
            log.len() as int,
            1,
        ),
        Request::Redo(u) => lemma_scan_picks(
            log,
            u.user,
            u.vector.count(u.user),
            false,
            log.len() as int,
            1,
        ),
    }
}

/// `a` happened before `b`: `b` was stated after `a` was applied.
pub open spec fn happened_before(a: Request, b: Request) -> bool {
    step_before(a, b.vector_spec())
}

/// The committed log is a linear extension of happens-before: no request
/// happened before one that the log holds ahead of it.
pub proof fn lemma_log_order(state: &State)
    requires
        state.wf(),
    ensures
        forall|i: int, j: int|
            0 <= i < j < state.log_spec().len() ==> !happened_before(
                #[trigger] state.log_spec()[j],
                #[trigger] state.log_spec()[i],
            ),
{
    assert forall|i: int, j: int| 0 <= i < j < state.log_spec().len() implies !happened_before(
        #[trigger] state.log_spec()[j],
        #[trigger] state.log_spec()[i],
    ) by {
        state.lemma_causal(i, j);
    }
}

/// The tie-break between concurrent inserts at one position: the lower session
/// id goes first.
pub fn session_order(user: SessionId, other: SessionId) -> (r: ConcurrentOrder)
    ensures
        r == if user < other {
            ConcurrentOrder::Other
        } else {
            ConcurrentOrder::This
        },
{
    if user < other {
        ConcurrentOrder::Other
    } else {
        ConcurrentOrder::This
    }
}

/// Counters of sessions, as a function.
pub type Counts = spec_fn(SessionId) -> nat;

/// Whether the request can be logged after its translation `o` applies to `t`:
/// a non-reversible delete needs the bytes that `o` stands for in `t`.
pub open spec fn storable(request: Request, o: OpView, t: Text) -> bool {
    match request {
        Request::Do(d) => match d.operation {
            Operation::Delete(del) => del.what is Ok || (affected_spec(o, t) matches Ok(x)
                && del.position + x.len() <= usize::MAX),
            _ => true,
        },
        _ => true,
    }
}

/// Whether a request's vector with its own step counted lies at or before `t`.
pub open spec fn step_before_c(r: Request, t: Counts) -> bool {
    forall|u: SessionId|
        #[trigger] r.vector_spec().count(u) + (if u == r.user_spec() {
            1int
        } else {
            0int
        }) <= t(u)
}

/// `t` with the counter of `u` set to `v`.
pub open spec fn with_count(t: Counts, u: SessionId, v: nat) -> Counts {
    |w: SessionId| if w == u { v } else { t(w) }
}

/// The sum of the counters of the sessions below `n`.
pub open spec fn sum_counts(t: Counts, n: nat) -> nat
    decreases n,
{
    if n == 0 {
        0
    } else {
        sum_counts(t, (n - 1) as nat) + t((n - 1) as SessionId)
    }
}

/// The sum of all counters.
pub open spec fn total_counts(t: Counts) -> nat {
    sum_counts(t, 65536)
}

proof fn lemma_sum_lower(t: Counts, u: SessionId, v: nat, n: nat)
    requires
        v < t(u),
        n <= 65536,
    ensures
        sum_counts(with_count(t, u, v), n) <= sum_counts(t, n),
        n > u ==> sum_counts(with_count(t, u, v), n) < sum_counts(t, n),
    decreases n,
{
    if n > 0 {
        lemma_sum_lower(t, u, v, (n - 1) as nat);
        let w = (n - 1) as SessionId;
        assert(w as int == n - 1);
    }
}

/// Lowering one counter lowers the sum.
pub proof fn lemma_total_lower(t: Counts, u: SessionId, v: nat)
    requires
        v < t(u),
    ensures
        total_counts(with_count(t, u, v)) < total_counts(t),
{
    lemma_sum_lower(t, u, v, 65536);
}

/// What a request is, as plain values.
pub enum ReqKind {
    Do(OpView),
    Undo,
    Redo,
}

/// A request as plain values: its kind, its user and its counters.
pub struct ReqView {
    pub kind: ReqKind,
    pub user: SessionId,
    pub vector: Counts,
}

pub open spec fn req_view(r: Request) -> ReqView {
    ReqView {
        kind: match r {
            Request::Do(d) => ReqKind::Do(d.operation@),
            Request::Undo(_) => ReqKind::Undo,
            Request::Redo(_) => ReqKind::Redo,
        },
        user: r.user_spec(),
        vector: r.vector_spec().counts(),
    }
}

/// An undo or redo translates through a do: it ranks above one.
pub open spec fn rank(rv: ReqView) -> nat {
    if rv.kind is Do {
        0
    } else {
        1
    }
}

/// Whether every counter of `a` is at most the matching one of `b`.
pub open spec fn counts_before(a: Counts, b: Counts) -> bool {
    forall|u: SessionId| #[trigger] a(u) <= b(u)
}

/// The translation of a request to the counters `t`, as an operation: from its
/// start (`i` below zero), or from the walk over the sessions at session `i`.
///
/// An undo or redo becomes the mirror of its partner translated to `t` with the
/// user's counter at the partner's. Where that state cannot be reached, an undo
/// mirrors its partner at the partner's own vector with the user's step counted,
/// and translates that do forward to `t`.
pub open spec fn translate_at(s: State, rv: ReqView, t: Counts, i: int) -> Result<OpView, ErrorKind>
    decreases total_counts(t), rank(rv), 65537 - i
    via translate_at_decreases
{
    let log = s.log_spec();
    let user = rv.user;
    if i < 0 {
        if rv.kind is Do {
            if forall|u: SessionId| #[trigger] (rv.vector)(u) == t(u) {
                Ok(rv.kind->Do_0)
            } else {
                translate_at(s, rv, t, 0)
            }
        } else {
            match associated_spec(log, user, (rv.vector)(user), rv.kind is Undo) {
                None => Err(ErrorKind::MalformedUndoRedo),
                Some(j) => {
                    let partner = log[j as int];
                    let v = partner.vector_spec().count(user);
                    if v < t(user) && s.reachable_spec(with_count(t, user, v)) {
                        match translate_at(s, req_view(partner), with_count(t, user, v), -1) {
                            Ok(o) => mirror_spec(o),
                            Err(e) => Err(e),
                        }
                    } else if partner is Do && v < usize::MAX {
                        match mirror_spec(partner->Do_0.operation@) {
                            Err(e) => Err(e),
                            Ok(m) => translate_at(
                                s,
                                ReqView {
                                    kind: ReqKind::Do(m),
                                    user,
                                    vector: with_count(partner.vector_spec().counts(), user, v + 1),
                                },
                                t,
                                -1,
                            ),
                        }
                    } else {
                        translate_at(s, rv, t, 0)
                    }
                },
            }
        }
    } else if i >= s.vector_spec().width() || i >= 65536 {
        Err(ErrorKind::UnreachableTarget)
    } else {
        let session = i as SessionId;
        let ts = t(session);
        if session == user || ts <= (rv.vector)(session) {
            translate_at(s, rv, t, i + 1)
        } else {
            match find_own(log, session, (ts - 1) as nat, 0) {
                None => Err(ErrorKind::UnreachableTarget),
                Some(k) => {
                    let last = log[k as int];
                    let folded = if last is Do {
                        None
                    } else {
                        match last.associated_in(log) {
                            None => Some(Err(ErrorKind::MalformedUndoRedo)),
                            Some(a) => {
                                let av = log[a as int].vector_spec().count(session);
                                let fold_by = ts - av;
                                let fold_at = with_count(t, session, av);
                                if 0 < fold_by < ts && s.reachable_spec(fold_at) && counts_before(
                                    rv.vector,
                                    fold_at,
                                ) {
                                    if fold_by % 2 != 0 {
                                        Some(Err(ErrorKind::MalformedUndoRedo))
                                    } else {
                                        Some(translate_at(s, rv, fold_at, -1))
                                    }
                                } else {
                                    None
                                }
                            },
                        }
                    };
                    match folded {
                        Some(r) => r,
                        None => {
                            let ta = with_count(t, session, (ts - 1) as nat);
                            if s.reachable_spec(ta) {
                                match translate_at(s, rv, ta, -1) {
                                    Err(e) => Err(e),
                                    Ok(o1) => match translate_at(s, req_view(last), ta, -1) {
                                        Err(e) => Err(e),
                                        Ok(o2) => transform_spec(
                                            o1,
                                            o2,
                                            Some(
                                                if user < session {
                                                    ConcurrentOrder::Other
                                                } else {
                                                    ConcurrentOrder::This
                                                },
                                            ),
                                        ),
                                    },
                                }
                            } else {
                                translate_at(s, rv, t, i + 1)
                            }
                        },
                    }
                },
            }
        }
    }
}

#[via_fn]
proof fn translate_at_decreases(s: State, rv: ReqView, t: Counts, i: int) {
    let log = s.log_spec();
    let user = rv.user;
    if i < 0 {
        match associated_spec(log, user, (rv.vector)(user), rv.kind is Undo) {
            Some(j) => {
                let v = log[j as int].vector_spec().count(user);
                if v < t(user) {
                    lemma_total_lower(t, user, v);
                }
            },
            None => {},
        }
    } else if i < 65536 {
        let session = i as SessionId;
        let ts = t(session);
        if ts > 0 {
            lemma_total_lower(t, session, (ts - 1) as nat);
        }
        match find_own(log, session, (ts - 1) as nat, 0) {
            Some(k) => match log[k as int].associated_in(log) {
                Some(a) => {
                    let av = log[a as int].vector_spec().count(session);
                    if av < ts {
                        lemma_total_lower(t, session, av);
                    }
                },
                None => {},
            },
            None => {},
        }
    }
}

impl State {
    pub closed spec fn vector_spec(&self) -> StateVector {
        self.vector
    }

    pub closed spec fn log_spec(&self) -> Seq<Request> {
        self.log@
    }

    /// The requests that wait for their turn, in arrival order.
    pub closed spec fn pending_spec(&self) -> Seq<Request> {
        self.request_queue@
    }

    pub closed spec fn buffer_spec(&self) -> SegmentBuffer {
        self.buffer
    }

    /// The buffer and the vector are well formed, and so is every logged and
    /// queued request.
    pub open spec fn wf(&self) -> bool {
        &&& self.buffer_spec().wf()
        &&& self.vector_spec().wf()
        &&& self.requests_wf()
    }

    /// Every logged request happened before the current vector, and no logged
    /// request happened before one logged ahead of it.
    pub closed spec fn causal(&self) -> bool {
        &&& forall|i: int| 0 <= i < self.log@.len() ==> step_before(#[trigger] self.log@[i], self.vector)
        &&& forall|i: int, j: int|
            0 <= i < j < self.log@.len() ==> !step_before(
                #[trigger] self.log@[j],
                #[trigger] self.log@[i].vector_spec(),
            )
    }

    pub closed spec fn requests_wf(&self) -> bool {
        &&& self.causal()
        &&& self.log@.len() < usize::MAX
        &&& forall|i: int| 0 <= i < self.log@.len() ==> (#[trigger] self.log@[i]).wf()
        &&& forall|i: int|
            0 <= i < self.request_queue@.len() ==> (#[trigger] self.request_queue@[i]).wf()
    }

    /// Where the walk back over the requests of `user` starts: the own counter of
    /// its first request, or the current counter when it has none.
    pub open spec fn baseline(&self, user: SessionId) -> nat {
        match least_own(self.log_spec(), user, self.log_spec().len() as int) {
            Some(m) => m,
            None => self.vector_spec().count(user),
        }
    }

    /// Whether the log reaches counter `n` of `user` below `target`.
    pub open spec fn reach_user(&self, target: Counts, user: SessionId, n: nat) -> bool
        decreases n,
    {
        if n == self.baseline(user) {
            true
        } else if n == 0 {
            false
        } else {
            match find_own(self.log_spec(), user, (n - 1) as nat, 0) {
                None => false,
                Some(k) => {
                    let r = self.log_spec()[k as int];
                    if r is Do {
                        step_before_c(r, target)
                    } else {
                        match r.associated_in(self.log_spec()) {
                            Some(j) => {
                                let v = self.log_spec()[j as int].vector_spec().count(user);
                                if v < n {
                                    self.reach_user(target, user, v)
                                } else {
                                    false
                                }
                            },
                            None => false,
                        }
                    }
                },
            }
        }
    }

    /// Whether the log can reach `target`: for every session that the current
    /// vector holds.
    pub open spec fn reachable_spec(&self, target: Counts) -> bool {
        forall|u: SessionId|
            (u as int) < self.vector_spec().width() ==> #[trigger] self.reach_user(
                target,
                u,
                target(u),
            )
    }

    /// An empty engine over `buffer`.
    pub fn new(buffer: SegmentBuffer) -> (r: State)
        requires
            buffer.wf(),
        ensures
            r.wf(),
            r.buffer_spec()@ == buffer@,
            forall|u: SessionId| #[trigger] r.vector_spec().count(u) == 0,
            r.log_spec().len() == 0,
    {
        State {
            buffer,
            vector: StateVector::new(),
            request_queue: VecDeque::new(),
            log: Vec::new(),
        }
    }

    pub fn current_buffer(&self) -> (r: &SegmentBuffer)
        ensures
            *r == self.buffer_spec(),
    {
        &self.buffer
    }

    pub fn current_vector(&self) -> (r: &StateVector)
        ensures
            *r == self.vector_spec(),
    {
        &self.vector
    }

    pub fn log(&self) -> (r: &Vec<Request>)
        ensures
            r@ == self.log_spec(),
    {
        &self.log
    }

    /// The index of the first logged request of `user` whose own counter is `n`.
    fn request_by_user(&self, user: SessionId, n: usize) -> (r: Option<usize>)
        ensures
            r == find_own(self.log_spec(), user, n as nat, 0),
            r matches Some(k) ==> k < self.log_spec().len(),
    {
        let mut k: usize = 0;
        while k < self.log.len()
            invariant
                k <= self.log@.len(),
                find_own(self.log@, user, n as nat, 0) == find_own(
                    self.log@,
                    user,
                    n as nat,
                    k as int,
                ),
            decreases self.log@.len() - k,
        {
            if self.log[k].user() == user && self.log[k].vector().get(user) == n {
                return Some(k);
            }
            k += 1;
        }
        None
    }

    /// The least own counter among the logged requests of `user`.
    fn first_request_by(&self, user: SessionId) -> (r: Option<usize>)
        ensures
            match least_own(self.log_spec(), user, self.log_spec().len() as int) {
                Some(m) => r is Some && r->0 as nat == m,
                None => r is None,
            },
    {
        let mut k: usize = 0;
        let mut best: Option<usize> = None;
        while k < self.log.len()
            invariant
                k <= self.log@.len(),
                match least_own(self.log@, user, k as int) {
                    Some(m) => best is Some && best->0 as nat == m,
                    None => best is None,
                },
            decreases self.log@.len() - k,
        {
            if self.log[k].user() == user {
                let c = self.log[k].vector().get(user);
                best = match best {
                    Some(m) => Some(if c < m { c } else { m }),
                    None => Some(c),
                };
            }
            k += 1;
        }
        best
    }

    /// Whether the log reaches the counter of `user` in `target`.
    fn reachable_user(&self, target: &StateVector, user: SessionId) -> (r: bool)
        requires
            self.wf(),
        ensures
            r == self.reach_user(target.counts(), user, target.count(user)),
    {
        let mut n = target.get(user);
        let first = match self.first_request_by(user) {
            Some(v) => v,
            None => self.vector.get(user),
        };
        proof {
            self.vector.lemma_entries();
        }
        loop
            invariant
                self.wf(),
                first == self.baseline(user),
                self.reach_user(target.counts(), user, target.count(user)) == self.reach_user(
                    target.counts(),
                    user,
                    n as nat,
                ),
            decreases n,
        {
            if n == first {
                return true;
            }
            if n == 0 {
                return false;
            }
            let k = match self.request_by_user(user, n - 1) {
                Some(k) => k,
                None => return false,
            };
            let r = &self.log[k];
            match r {
                Request::Do(dor) => {
                    if dor.vector.get(dor.user) == usize::MAX {
                        proof {
                            target.lemma_entries();
                            assert(!(r.vector_spec().count(dor.user) + 1int <= target.count(dor.user)));
                        }
                        return false;
                    }
                    let mut w = dor.vector.clone();
                    w.add(dor.user, 1);
                    let ok = w.casually_before(target);
                    proof {
                        assert(ok == step_before_c(*r, target.counts())) by {
                            if ok {
                                assert forall|u: SessionId| #[trigger] r.vector_spec().count(u) + (
                                if u == r.user_spec() {
                                    1int
                                } else {
                                    0int
                                }) <= target.count(u) by {
                                    assert(w.entry(u as int) <= target.entry(u as int));
                                    assert(w.count(u) == dor.vector.count(u) + if u == dor.user {
                                        1int
                                    } else {
                                        0int
                                    });
                                }
                            } else {
                                let i = choose|i: int| !(#[trigger] w.entry(i) <= target.entry(i));
                                w.lemma_entries();
                                dor.vector.lemma_entries();
                                assert(0 <= i < 65536);
                                assert(w.count(i as SessionId) == w.entry(i));
                                let u = i as SessionId;
                                assert(w.count(u) == dor.vector.count(u) + if u == dor.user {
                                    1int
                                } else {
                                    0int
                                });
                                assert(!(r.vector_spec().count(u) + (if u == r.user_spec() {
                                    1int
                                } else {
                                    0int
                                }) <= target.count(u)));
                            }
                        }
                    }
                    return ok;
                },
                _ => {
                    let j = match r.associated_request(&self.log) {
                        Some(j) => j,
                        None => return false,
                    };
                    assert(j < self.log@.len());
                    let v = self.log[j].vector().get(user);
                    if v >= n {
                        return false;
                    }
                    n = v;
                },
            }
        }
    }

    /// Applies a do request's operation to the buffer and counts it for its user.
    pub(crate) fn execute_do(&mut self, d: &DoRequest) -> (r: Result<(), ErrorKind>)
        requires
            d.wf(),
            old(self).wf(),
            old(self).buffer_spec()@.len() + inserted_len(d.operation@) <= usize::MAX,
            old(self).vector_spec().count(d.user) < usize::MAX,
        ensures
            match crate::op::spec::apply_spec(d.operation@, old(self).buffer_spec()@) {
                Ok(t) => r is Ok && final(self).wf() && final(self).buffer_spec()@ == t
                    && final(self).vector_spec().count(d.user) == old(self).vector_spec().count(d.user) + 1
                    && forall|u: SessionId| u != d.user ==> #[trigger] final(self).vector_spec().count(u) == old(self).vector_spec().count(u),
                Err(e) => r == Err::<(), ErrorKind>(e),
            },
    {
        match d.operation.apply(&mut self.buffer) {
            Ok(()) => {},
            Err(e) => return Err(e),
        }
        self.vector.add(d.user, 1);
        Ok(())
    }

    /// `request` rewritten as a do request stated against `target`: an undo or
    /// redo becomes the mirror of its partner, and every step of another session
    /// between the request's vector and `target` is transformed past, an undo and
    /// redo pair being skipped at once. The operation is `translate_at` at the
    /// start, and so is the error.
    #[verifier::rlimit(100)]
    pub fn translate(&self, request: &Request, target: &StateVector) -> (r: Result<
        Request,
        ErrorKind,
    >)
        requires
            self.wf(),
            request.wf(),
            target.wf(),
        ensures
            r matches Ok(q) ==> q is Do && q.wf() && q.user_spec() == request.user_spec() && forall|
                u: SessionId,
            | #[trigger] q.vector_spec().count(u) == target.count(u),
            match translate_at(*self, req_view(*request), target.counts(), -1) {
                Ok(o) => r matches Ok(Request::Do(q)) && q.operation@ == o,
                Err(e) => r == Err::<Request, ErrorKind>(e),
            },
            (request matches Request::Do(d) && d.vector.same(target)) ==> (r matches Ok(
                Request::Do(q),
            ) && q.operation@ == request->Do_0.operation@),
        decreases target.total(), if request is Do {
            0nat
        } else {
            1nat
        },
    {
        let user = request.user();
        let ghost t = target.counts();
        let ghost rv = req_view(*request);
        proof {
            target.lemma_entries();
            request.vector_spec().lemma_entries();
            assert(rv.user == user);
            assert forall|u: SessionId| #[trigger] (rv.vector)(u) == request.vector_spec().count(u) by {}
        }
        match request {
            Request::Do(dor) => {
                if dor.vector.eq(target) {
                    let q = request.duplicate();
                    assert forall|u: SessionId| #[trigger] q.vector_spec().count(u) == target.count(
                        u,
                    ) by {
                        assert(dor.vector.entry(u as int) == target.entry(u as int));
                    }
                    assert forall|u: SessionId| #[trigger] (rv.vector)(u) == t(u) by {
                        assert(dor.vector.entry(u as int) == target.entry(u as int));
                    }
                    return Ok(q);
                }
                proof {
                    if forall|u: SessionId| #[trigger] (rv.vector)(u) == t(u) {
                        assert forall|u: SessionId| #[trigger] dor.vector.count(u) == target.count(u) by {
                            assert((rv.vector)(u) == t(u));
                        }
                        dor.vector.lemma_same(target);
                    }
                    assert(translate_at(*self, req_view(*request), t, -1) == translate_at(*self, req_view(*request), t, 0));
                }
            },
            _ => {
                match request.associated_request(&self.log) {
                    Some(j) => {
                        proof {
                            lemma_partner(self.log@, *request);
                        }
                        let assoc = &self.log[j];
                        let v = assoc.vector().get(user);
                        let tu = target.get(user);
                        let ghost mt = with_count(t, user, v as nat);
                        if v < tu {
                            let mut mirror_at = target.clone();
                            mirror_at.set(user, v);
                            assert(mirror_at.counts() =~= mt);
                            if self.reachable(&mirror_at) {
                                proof {
                                    target.lemma_total_less(&mirror_at, user);
                                }
                                let translated = match self.translate(assoc, &mirror_at) {
                                    Ok(x) => x,
                                    Err(e) => return Err(e),
                                };
                                return translated.mirror(tu - v);
                            }
                        }
                        if v < usize::MAX {
                            match assoc {
                                Request::Do(ad) => {
                                    let m = match ad.operation.mirror() {
                                        Ok(m) => m,
                                        Err(e) => return Err(e),
                                    };
                                    let mut vector = ad.vector.clone();
                                    vector.add(user, 1);
                                    let ghost mv = with_count(
                                        assoc.vector_spec().counts(),
                                        user,
                                        (v + 1) as nat,
                                    );
                                    assert(vector.counts() =~= mv);
                                    let md = Request::Do(DoRequest { user, vector, operation: m });
                                    assert(req_view(md) == ReqView {
                                        kind: ReqKind::Do(m@),
                                        user,
                                        vector: mv,
                                    });
                                    return self.translate(&md, target);
                                },
                                _ => {},
                            }
                        }
                        assert(translate_at(*self, rv, t, -1) == translate_at(*self, rv, t, 0));
                    },
                    None => return Err(ErrorKind::MalformedUndoRedo),
                }
            },
        }
        let sessions = self.vector.sessions();
        let mut i: usize = 0;
        while i < sessions.len()
            invariant
                self.wf(),
                request.wf(),
                target.wf(),
                t == target.counts(),
                user == request.user_spec(),
                i <= sessions@.len(),
                sessions@.len() == self.vector_spec().width(),
                forall|j: int| 0 <= j < sessions@.len() ==> #[trigger] sessions@[j] == j,
                forall|u: SessionId| #[trigger] target.count(u) <= usize::MAX,
                rv == req_view(*request),
                rv.user == user,
                forall|u: SessionId| #[trigger] (rv.vector)(u) == request.vector_spec().count(u),
                translate_at(*self, rv, t, -1) == translate_at(*self, rv, t, i as int),
            decreases sessions@.len() - i,
        {
            let session = sessions[i];
            proof {
                self.vector_spec().lemma_entries();
                assert(i < 65536);
                assert(session == i as SessionId);
            }
            i += 1;
            if session == user || target.get(session) <= request.vector().get(session) {
                continue;
            }
            let ts = target.get(session);
            let k = match self.request_by_user(session, ts - 1) {
                Some(k) => k,
                None => return Err(ErrorKind::UnreachableTarget),
            };
            proof {
                lemma_find_own(self.log@, session, (ts - 1) as nat, 0);
            }
            let last = &self.log[k];
            assert(self.log@[k as int] == *last);
            match last {
                Request::Do(_) => {},
                _ => {
                    let a = match last.associated_request(&self.log) {
                        Some(a) => a,
                        None => return Err(ErrorKind::MalformedUndoRedo),
                    };
                    proof {
                        lemma_partner(self.log@, *last);
                    }
                    let av = self.log[a].vector().get(session);
                    let fold_by = ts - av;
                    if fold_by > 0 && ts > fold_by {
                        let mut fold_at = target.clone();
                        fold_at.remove(session, fold_by);
                        assert(fold_at.counts() =~= with_count(t, session, av as nat));
                        let reach = self.reachable(&fold_at);
                        let before = request.vector().casually_before(&fold_at);
                        proof {
                            request.vector_spec().lemma_before(&fold_at);
                            if before {
                                assert forall|u: SessionId| #[trigger] (rv.vector)(u)
                                    <= fold_at.counts()(u) by {
                                    assert(request.vector_spec().count(u) <= fold_at.count(u));
                                }
                            }
                            if counts_before(rv.vector, fold_at.counts()) {
                                assert forall|u: SessionId| #[trigger] request.vector_spec().count(u)
                                    <= fold_at.count(u) by {
                                    assert((rv.vector)(u) <= fold_at.counts()(u));
                                }
                            }
                        }
                        if reach && before {
                            if fold_by % 2 != 0 {
                                return Err(ErrorKind::MalformedUndoRedo);
                            }
                            proof {
                                target.lemma_total_less(&fold_at, session);
                            }
                            let translated = match self.translate(request, &fold_at) {
                                Ok(x) => x,
                                Err(e) => return Err(e),
                            };
                            return Ok(translated.fold(session, fold_by));
                        }
                    }
                },
            }
            let mut transform_at = target.clone();
            transform_at.remove(session, 1);
            assert(transform_at.counts() =~= with_count(t, session, (ts - 1) as nat));
            if self.reachable(&transform_at) {
                proof {
                    target.lemma_total_less(&transform_at, session);
                }
                let r1 = match self.translate(request, &transform_at) {
                    Ok(x) => x,
                    Err(e) => return Err(e),
                };
                let r2 = match self.translate(last, &transform_at) {
                    Ok(x) => x,
                    Err(e) => return Err(e),
                };
                match (&r1, &r2) {
                    (Request::Do(d1), Request::Do(d2)) => {
                        assert(last.user_spec() == session);
                        assert(r2.user_spec() == session);
                        assert(d2.user == session);
                        assert(r1.vector_spec().count(session) == transform_at.count(session));
                        assert(d1.vector.count(session) == ts - 1);
                        return match d1.transform(d2, Some(session_order(user, session))) {
                            Ok(d) => Ok(Request::Do(d)),
                            Err(e) => Err(e),
                        };
                    },
                    _ => return Err(ErrorKind::UnreachableTarget),
                }
            }
        }
        Err(ErrorKind::UnreachableTarget)
    }

    /// The request is ready, there is room for one more step, its translation
    /// succeeds and applies within the size bound, and it can be logged.
    pub open spec fn commit_owed(&self, request: Request) -> bool {
        &&& self.ready_spec(request)
        &&& self.vector_spec().count(request.user_spec()) < usize::MAX
        &&& self.log_spec().len() < usize::MAX - 1
        &&& translate_at(*self, req_view(request), self.vector_spec().counts(), -1) matches Ok(o)
        &&& self.buffer_spec()@.len() + inserted_len(o) <= usize::MAX
        &&& apply_spec(o, self.buffer_spec()@) is Ok
        &&& storable(request, o, self.buffer_spec()@)
    }

    /// The request's own counter lies behind its user's current one: it was
    /// committed already, or its user moved on without it.
    pub open spec fn stale_spec(&self, request: Request) -> bool {
        request.vector_spec().count(request.user_spec()) < self.vector_spec().count(
            request.user_spec(),
        )
    }

    pub open spec fn ready_spec(&self, request: Request) -> bool {
        request.vector_spec().before(&self.vector_spec()) && request.vector_spec().count(
            request.user_spec(),
        ) == self.vector_spec().count(request.user_spec())
    }

    proof fn lemma_causal(&self, i: int, j: int)
        requires
            self.wf(),
            0 <= i < j < self.log_spec().len(),
        ensures
            !step_before(self.log_spec()[j], self.log_spec()[i].vector_spec()),
    {
    }

    /// Whether `request` may be committed now: its vector lies before the current
    /// one, and its own counter equals its user's current counter.
    pub fn ready(&self, request: &Request) -> (r: bool)
        ensures
            r == self.ready_spec(*request),
    {
        request.vector().casually_before(&self.vector) && request.vector().get(request.user())
            == self.vector.get(request.user())
    }

    /// Translates `request` to the current vector, applies it to the buffer,
    /// counts it for its user and appends it to the log, a non-reversible delete
    /// with its bytes filled in. Nothing changes where it fails.
    pub fn commit(&mut self, request: Request) -> (r: Result<(), ErrorKind>)
        requires
            old(self).wf(),
            request.wf(),
        ensures
            final(self).wf(),
            final(self).pending_spec() == old(self).pending_spec(),
            r is Err ==> *final(self) == *old(self),
            !old(self).ready_spec(request) ==> r == Err::<(), ErrorKind>(
                ErrorKind::OutOfOrderRequest,
            ),
            r is Ok ==> {
                &&& final(self).log_spec().len() == old(self).log_spec().len() + 1
                &&& final(self).log_spec().subrange(0, old(self).log_spec().len() as int) == old(
                    self,
                ).log_spec()
                &&& final(self).log_spec().last().user_spec() == request.user_spec()
                &&& forall|u: SessionId| #[trigger]
                    final(self).log_spec().last().vector_spec().count(u)
                        == request.vector_spec().count(u)
                &&& final(self).vector_spec().count(request.user_spec()) == old(
                    self,
                ).vector_spec().count(request.user_spec()) + 1
                &&& forall|u: SessionId|
                    u != request.user_spec() ==> #[trigger] final(self).vector_spec().count(u)
                        == old(self).vector_spec().count(u)
            },
            r is Ok ==> (request matches Request::Do(d) && d.vector.same(&old(self).vector_spec()))
                ==> apply_spec(request->Do_0.operation@, old(self).buffer_spec()@) == Ok::<
                Text,
                ErrorKind,
            >(final(self).buffer_spec()@),
            r is Ok ==> (translate_at(*old(self), req_view(request), old(self).vector_spec().counts(), -1) matches Ok(o)
                && apply_spec(o, old(self).buffer_spec()@) == Ok::<Text, ErrorKind>(
                final(self).buffer_spec()@,
            )),
            old(self).commit_owed(request) ==> r is Ok,
    {
        let user = request.user();
        if !self.ready(&request) {
            return Err(ErrorKind::OutOfOrderRequest);
        }
        if self.vector.get(user) == usize::MAX || self.log.len() >= usize::MAX - 1 {
            return Err(ErrorKind::PositionOverflow);
        }
        proof {
            self.vector.lemma_entries();
        }
        let translated = match self.translate(&request, &self.vector) {
            Ok(t) => t,
            Err(e) => return Err(e),
        };
        let dor = match &translated {
            Request::Do(d) => d,
            _ => return Err(ErrorKind::UnreachableTarget),
        };
        let stored = match &request {
            Request::Do(d) => match d.make_reversible(dor, self) {
                Ok(m) => Request::Do(m),
                Err(e) => return Err(e),
            },
            _ => request.duplicate(),
        };
        let total = match crate::op::inserted_total(&dor.operation) {
            Some(n) => n,
            None => return Err(ErrorKind::PositionOverflow),
        };
        if self.buffer.len() > usize::MAX - total {
            return Err(ErrorKind::PositionOverflow);
        }
        let mut buf = self.buffer.duplicate();
        match dor.operation.apply(&mut buf) {
            Ok(()) => {},
            Err(e) => return Err(e),
        }
        let ghost old_log = self.log@;
        let ghost old_vector = self.vector;
        self.buffer = buf;
        self.vector.add(user, 1);
        self.log.push(stored);
        proof {
            assert(self.log@.subrange(0, old_log.len() as int) =~= old_log);
            assert forall|i: int| 0 <= i < self.log@.len() implies step_before(
                #[trigger] self.log@[i],
                self.vector,
            ) by {
                if i < old_log.len() {
                    assert(step_before(old_log[i], old_vector));
                    assert forall|u: SessionId| #[trigger] self.log@[i].vector_spec().count(u) + (
                    if u == self.log@[i].user_spec() {
                        1int
                    } else {
                        0int
                    }) <= self.vector.count(u) by {
                        assert(old_log[i].vector_spec().count(u) + (if u == old_log[i].user_spec() {
                            1int
                        } else {
                            0int
                        }) <= old_vector.count(u));
                    }
                } else {
                    assert forall|u: SessionId| #[trigger] stored.vector_spec().count(u) + (
                    if u == stored.user_spec() {
                        1int
                    } else {
                        0int
                    }) <= self.vector.count(u) by {
                        assert(request.vector_spec().entry(u as int) <= old_vector.entry(
                            u as int,
                        ));
                    }
                }
            }
            assert forall|i: int, j: int| 0 <= i < j < self.log@.len() implies !step_before(
                #[trigger] self.log@[j],
                #[trigger] self.log@[i].vector_spec(),
            ) by {
                if j < old_log.len() {
                    assert(!step_before(old_log[j], old_log[i].vector_spec()));
                } else {
                    assert(step_before(old_log[i], old_vector));
                    if step_before(stored, old_log[i].vector_spec()) {
                        assert(stored.vector_spec().count(user) + 1 <= old_log[i].vector_spec().count(user));
                        assert(old_log[i].vector_spec().count(user) + (if user == old_log[i].user_spec() {
                            1int
                        } else {
                            0int
                        }) <= old_vector.count(user));
                    }
                }
            }
        }
        Ok(())
    }

    /// Commits `request` at once when it is ready, else queues it; then commits
    /// every queued request that is ready, until none is, and drops each stale
    /// one. The errors of the requests that were dropped come back in order.
    pub fn submit(&mut self, request: Request) -> (r: Vec<ErrorKind>)
        requires
            old(self).wf(),
            request.wf(),
        ensures
            final(self).wf(),
            forall|u: SessionId| #[trigger] final(self).vector_spec().count(u) >= old(
                self,
            ).vector_spec().count(u),
            final(self).log_spec().len() >= old(self).log_spec().len(),
            final(self).log_spec().subrange(0, old(self).log_spec().len() as int) == old(
                self,
            ).log_spec(),
            forall|i: int|
                0 <= i < final(self).pending_spec().len() ==> !final(self).ready_spec(
                    #[trigger] final(self).pending_spec()[i],
                ) && !final(self).stale_spec(final(self).pending_spec()[i]),
            final(self).log_spec().len() - old(self).log_spec().len() + r@.len()
                + final(self).pending_spec().len() == old(self).pending_spec().len() + 1,
            old(self).pending_spec().len() == 0 && old(self).commit_owed(request) ==> r@.len()
                == 0 && final(self).log_spec().len() == old(self).log_spec().len() + 1
                && final(self).log_spec().last().user_spec() == request.user_spec(),
    {
        let mut errors: Vec<ErrorKind> = Vec::new();
        if self.ready(&request) {
            match self.commit(request) {
                Ok(()) => {},
                Err(e) => errors.push(e),
            }
        } else {
            self.request_queue.push_back(request);
        }
        let ghost mid_log = self.log_spec();
        let mut done = false;
        while !done
            invariant
                self.wf(),
                forall|u: SessionId| #[trigger] self.vector_spec().count(u) >= old(
                    self,
                ).vector_spec().count(u),
                self.log_spec().len() >= mid_log.len() >= old(self).log_spec().len(),
                self.log_spec().subrange(0, mid_log.len() as int) == mid_log,
                mid_log.subrange(0, old(self).log_spec().len() as int) == old(self).log_spec(),
                self.log_spec().len() - old(self).log_spec().len() + errors@.len()
                    + self.pending_spec().len() == old(self).pending_spec().len() + 1,
                done ==> forall|i: int|
                    0 <= i < self.pending_spec().len() ==> !self.ready_spec(
                        #[trigger] self.pending_spec()[i],
                    ) && !self.stale_spec(self.pending_spec()[i]),
            decreases self.request_queue@.len() + if done {
                0int
            } else {
                1int
            },
        {
            let mut i: usize = 0;
            let mut found: Option<usize> = None;
            while i < self.request_queue.len()
                invariant
                    i <= self.request_queue@.len(),
                    found matches Some(k) ==> k < self.request_queue@.len(),
                    found is None ==> forall|j: int|
                        0 <= j < i ==> !self.ready_spec(#[trigger] self.request_queue@[j])
                            && !self.stale_spec(self.request_queue@[j]),
                ensures
                    found matches Some(k) ==> k < self.request_queue@.len(),
                    found is None ==> forall|j: int|
                        0 <= j < self.request_queue@.len() ==> !self.ready_spec(
                            #[trigger] self.request_queue@[j],
                        ) && !self.stale_spec(self.request_queue@[j]),
                decreases self.request_queue@.len() - i,
            {
                let q = &self.request_queue[i];
                if self.ready(q) || q.vector().get(q.user()) < self.vector.get(q.user()) {
                    found = Some(i);
                    break;
                }
                i += 1;
            }
            match found {
                None => {
                    assert forall|j: int| 0 <= j < self.pending_spec().len() implies !self.ready_spec(
                        #[trigger] self.pending_spec()[j],
                    ) && !self.stale_spec(self.pending_spec()[j]) by {
                        assert(self.pending_spec()[j] == self.request_queue@[j]);
                    }
                    done = true;
                },
                Some(k) => {
                    let ghost q = self.request_queue@;
                    let next = self.request_queue.remove(k).unwrap();
                    assert(next.wf());
                    assert forall|j: int| 0 <= j < self.request_queue@.len() implies (
                    #[trigger] self.request_queue@[j]).wf() by {
                        if j < k {
                            assert(self.request_queue@[j] == q[j]);
                        } else {
                            assert(self.request_queue@[j] == q[j + 1]);
                        }
                    }
                    if next.vector().get(next.user()) < self.vector.get(next.user()) {
                        errors.push(ErrorKind::StaleRequest);
                    } else {
                        let ghost before_log = self.log_spec();
                        match self.commit(next) {
                            Ok(()) => {
                                assert(self.log_spec().subrange(0, mid_log.len() as int)
                                    =~= before_log.subrange(0, mid_log.len() as int));
                            },
                            Err(e) => errors.push(e),
                        }
                    }
                },
            }
        }
        assert(self.log_spec().subrange(0, old(self).log_spec().len() as int) =~= mid_log.subrange(
            0,
            old(self).log_spec().len() as int,
        ));
        errors
    }

    /// Whether the log can reach `target`.
    pub fn reachable(&self, target: &StateVector) -> (r: bool)
        requires
            self.wf(),
        ensures
            r == self.reachable_spec(target.counts()),
    {
        let sessions = self.vector.sessions();
        let mut i: usize = 0;
        while i < sessions.len()
            invariant
                self.wf(),
                i <= sessions@.len() == self.vector_spec().width(),
                forall|j: int| 0 <= j < sessions@.len() ==> #[trigger] sessions@[j] == j,
                forall|u: SessionId|
                    (u as int) < i ==> #[trigger] self.reach_user(target.counts(), u, target.count(u)),
            decreases sessions@.len() - i,
        {
            let u = sessions[i];
            if !self.reachable_user(target, u) {
                assert(target.counts()(u) == target.count(u));
                assert(!self.reach_user(target.counts(), u, target.counts()(u)));
                return false;
            }
            i += 1;
        }
        assert forall|u: SessionId| (u as int) < self.vector_spec().width() implies #[trigger] self.reach_user(
            target.counts(),
            u,
            target.counts()(u),
        ) by {
            assert(target.counts()(u) == target.count(u));
        }
        true
    }
}

} // verus!
