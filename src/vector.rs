use vstd::prelude::*;

use crate::SessionId;

verus! {

/// Number of distinct session ids.
pub const SESSION_SPACE: usize = 65536;

/// Per-session counters; sessions that were never seen count zero.
pub struct StateVector(Vec<usize>);

impl StateVector {
    /// Holds one entry at most for each session id.
    pub closed spec fn wf(&self) -> bool {
        self.0@.len() <= SESSION_SPACE
    }

    /// The stored entry at index `i`, zero beyond the stored ones.
    pub closed spec fn entry(&self, i: int) -> nat {
        if 0 <= i < self.0@.len() {
            self.0@[i] as nat
        } else {
            0
        }
    }

    /// The counter of session `u`.
    pub open spec fn count(&self, u: SessionId) -> nat {
        self.entry(u as int)
    }

    /// Number of stored entries; every session at or beyond it counts zero.
    pub closed spec fn width(&self) -> nat {
        self.0@.len()
    }

    /// The counters as a function of the session.
    pub open spec fn counts(&self) -> spec_fn(SessionId) -> nat {
        |u: SessionId| self.count(u)
    }

    /// Componentwise equality: trailing zeros do not matter.
    pub open spec fn same(&self, other: &StateVector) -> bool {
        forall|i: int| #[trigger] self.entry(i) == other.entry(i)
    }

    /// Happens-before: no counter is ahead of the other's.
    pub open spec fn before(&self, other: &StateVector) -> bool {
        forall|i: int| #[trigger] self.entry(i) <= other.entry(i)
    }

    /// The sum of the counters of the sessions below `n`.
    pub open spec fn sum_upto(&self, n: nat) -> nat
        decreases n,
    {
        if n == 0 {
            0
        } else {
            self.sum_upto((n - 1) as nat) + self.entry(n - 1)
        }
    }

    /// The sum of all counters.
    pub open spec fn total(&self) -> nat {
        self.sum_upto(SESSION_SPACE as nat)
    }

    /// Only indices of sessions hold counters in a well-formed vector.
    pub proof fn lemma_entries(&self)
        ensures
            self.wf() ==> forall|i: int| (i < 0 || i >= SESSION_SPACE) ==> #[trigger] self.entry(i)
                == 0,
            forall|u: SessionId| #[trigger] self.count(u) <= usize::MAX,
    {
    }

    /// Two well-formed vectors with equal counters are the same.
    pub proof fn lemma_same(&self, other: &StateVector)
        requires
            self.wf(),
            other.wf(),
            forall|u: SessionId| #[trigger] self.count(u) == other.count(u),
        ensures
            self.same(other),
    {
        self.lemma_entries();
        other.lemma_entries();
        assert forall|i: int| #[trigger] self.entry(i) == other.entry(i) by {
            if 0 <= i < SESSION_SPACE {
                assert(self.count(i as SessionId) == other.count(i as SessionId));
            }
        }
    }

    /// Between well-formed vectors, happens-before compares the sessions' counters.
    pub proof fn lemma_before(&self, other: &StateVector)
        requires
            self.wf(),
            other.wf(),
        ensures
            self.before(other) <==> forall|u: SessionId| #[trigger] self.count(u) <= other.count(u),
    {
        self.lemma_entries();
        other.lemma_entries();
        if forall|u: SessionId| #[trigger] self.count(u) <= other.count(u) {
            assert forall|i: int| #[trigger] self.entry(i) <= other.entry(i) by {
                if 0 <= i < SESSION_SPACE {
                    assert(self.count(i as SessionId) <= other.count(i as SessionId));
                }
            }
        }
        if self.before(other) {
            assert forall|u: SessionId| #[trigger] self.count(u) <= other.count(u) by {
                assert(self.entry(u as int) <= other.entry(u as int));
            }
        }
    }

    /// Lowering one counter and raising none lowers the sum.
    pub proof fn lemma_total_less(&self, other: &StateVector, u: SessionId)
        requires
            other.count(u) < self.count(u),
            forall|w: SessionId| #[trigger] other.count(w) <= self.count(w),
        ensures
            other.total() < self.total(),
    {
        assert forall|n: nat| n <= SESSION_SPACE implies other.sum_upto(n) <= self.sum_upto(n) && (
        n > u ==> other.sum_upto(n) < self.sum_upto(n)) by {
            self.lemma_sum_le(other, u, n);
        }
    }

    proof fn lemma_sum_le(&self, other: &StateVector, u: SessionId, n: nat)
        requires
            n <= SESSION_SPACE,
            other.count(u) < self.count(u),
            forall|w: SessionId| #[trigger] other.count(w) <= self.count(w),
        ensures
            other.sum_upto(n) <= self.sum_upto(n),
            n > u ==> other.sum_upto(n) < self.sum_upto(n),
        decreases n,
    {
        if n > 0 {
            self.lemma_sum_le(other, u, (n - 1) as nat);
            assert(other.count((n - 1) as SessionId) <= self.count((n - 1) as SessionId));
        }
    }

    pub fn new() -> (r: StateVector)
        ensures
            r.wf(),
            forall|u: SessionId| #[trigger] r.count(u) == 0,
            r.width() == 0,
    {
        StateVector(Vec::new())
    }

    fn grow(&mut self, u: SessionId)
        ensures
            old(self).wf() ==> final(self).wf(),
            forall|w: SessionId| #[trigger] final(self).count(w) == old(self).count(w),
            (u as int) < final(self).width(),
            final(self).width() == if (u as int) < old(self).width() {
                old(self).width()
            } else {
                u as nat + 1
            },
    {
        let ghost before = self.0@;
        while self.0.len() <= u as usize
            invariant
                before.len() <= self.0@.len(),
                self.0@.len() <= u as nat + 1 || self.0@.len() == before.len(),
                before == old(self).0@,
                forall|i: int| 0 <= i < before.len() ==> self.0@[i] == before[i],
                forall|i: int| before.len() <= i < self.0@.len() ==> self.0@[i] == 0,
            decreases u as int + 1 - self.0@.len(),
        {
            self.0.push(0);
        }
        assert forall|w: SessionId| #[trigger] self.count(w) == old(self).count(w) by {}
    }

    /// Adds `v` to the counter of session `u`.
    pub fn add(&mut self, u: SessionId, v: usize)
        requires
            old(self).count(u) + v <= usize::MAX,
        ensures
            old(self).wf() ==> final(self).wf(),
            final(self).count(u) == old(self).count(u) + v,
            forall|w: SessionId| w != u ==> #[trigger] final(self).count(w) == old(self).count(w),
    {
        self.grow(u);
        let ghost mid = *self;
        let cur = self.0[u as usize];
        assert(mid.count(u) == old(self).count(u));
        self.0.set(u as usize, cur + v);
        assert forall|w: SessionId| w != u implies #[trigger] self.count(w) == old(self).count(w) by {
            assert(w as int != u as int);
            assert(mid.count(w) == old(self).count(w));
        }
    }

    /// Takes `v` from the counter of session `u`; the counter must not underflow.
    pub fn remove(&mut self, u: SessionId, v: usize)
        requires
            v <= old(self).count(u),
        ensures
            old(self).wf() ==> final(self).wf(),
            final(self).count(u) == old(self).count(u) - v,
            forall|w: SessionId| w != u ==> #[trigger] final(self).count(w) == old(self).count(w),
    {
        if (u as usize) < self.0.len() {
            let cur = self.0[u as usize];
            self.0.set(u as usize, cur - v);
            assert forall|w: SessionId| w != u implies #[trigger] self.count(w) == old(
                self,
            ).count(w) by {
                assert(w as int != u as int);
            }
        }
    }

    pub fn get(&self, u: SessionId) -> (r: usize)
        ensures
            r == self.count(u),
    {
        if (u as usize) < self.0.len() {
            self.0[u as usize]
        } else {
            0
        }
    }

    pub fn set(&mut self, u: SessionId, value: usize)
        ensures
            old(self).wf() ==> final(self).wf(),
            final(self).count(u) == value,
            forall|w: SessionId| w != u ==> #[trigger] final(self).count(w) == old(self).count(w),
    {
        self.grow(u);
        let ghost mid = *self;
        self.0.set(u as usize, value);
        assert forall|w: SessionId| w != u implies #[trigger] self.count(w) == old(self).count(w) by {
            assert(w as int != u as int);
            assert(mid.count(w) == old(self).count(w));
        }
    }

    /// Whether every counter of `self` is at most the matching counter of `other`.
    pub fn casually_before(&self, other: &Self) -> (r: bool)
        ensures
            r == self.before(other),
    {
        let mut i: usize = 0;
        while i < self.0.len()
            invariant
                i <= self.0@.len(),
                forall|j: int| j < i ==> #[trigger] self.entry(j) <= other.entry(j),
            decreases self.0@.len() - i,
        {
            let o = if i < other.0.len() {
                other.0[i]
            } else {
                0
            };
            if self.0[i] > o {
                assert(self.entry(i as int) > other.entry(i as int));
                return false;
            }
            i += 1;
        }
        true
    }

    /// The stored entries, as pairs of session and counter, in session order.
    pub fn iter(&self) -> (r: Vec<(SessionId, usize)>)
        requires
            self.wf(),
        ensures
            r@.len() == self.width(),
            forall|i: int|
                0 <= i < r@.len() ==> #[trigger] r@[i] == (i as SessionId, self.entry(i) as usize),
    {
        let mut r: Vec<(SessionId, usize)> = Vec::new();
        let mut i: usize = 0;
        while i < self.0.len()
            invariant
                i <= self.0@.len() <= SESSION_SPACE,
                r@.len() == i,
                forall|j: int|
                    0 <= j < i ==> #[trigger] r@[j] == (j as SessionId, self.entry(j) as usize),
            decreases self.0@.len() - i,
        {
            r.push((i as SessionId, self.0[i]));
            i += 1;
        }
        r
    }

    /// The session ids of the stored entries, in order.
    pub fn sessions(&self) -> (r: Vec<SessionId>)
        requires
            self.wf(),
        ensures
            r@.len() == self.width(),
            forall|i: int| 0 <= i < r@.len() ==> #[trigger] r@[i] == i,
    {
        let mut r: Vec<SessionId> = Vec::new();
        let mut i: usize = 0;
        while i < self.0.len()
            invariant
                i <= self.0@.len() <= SESSION_SPACE,
                r@.len() == i,
                forall|j: int| 0 <= j < i ==> #[trigger] r@[j] == j,
            decreases self.0@.len() - i,
        {
            r.push(i as SessionId);
            i += 1;
        }
        r
    }

    /// Componentwise sum.
    pub fn lcs(&self, other: &Self) -> (r: Self)
        requires
            forall|u: SessionId| #[trigger] self.count(u) + other.count(u) <= usize::MAX,
        ensures
            self.wf() && other.wf() ==> r.wf(),
            forall|u: SessionId| #[trigger] r.count(u) == self.count(u) + other.count(u),
    {
        let n = if self.0.len() < other.0.len() {
            other.0.len()
        } else {
            self.0.len()
        };
        let mut out: Vec<usize> = Vec::new();
        let mut i: usize = 0;
        while i < n
            invariant
                i <= n,
                n >= self.width(),
                n >= other.width(),
                out@.len() == i,
                forall|j: int|
                    0 <= j < i ==> #[trigger] out@[j] == self.count(j as SessionId) + other.count(
                        j as SessionId,
                    ),
                forall|u: SessionId| #[trigger] self.count(u) + other.count(u) <= usize::MAX,
            decreases n - i,
        {
            let s = self.get(i as SessionId) + other.get(i as SessionId);
            out.push(s);
            i += 1;
        }
        let r = StateVector(out);
        assert forall|u: SessionId| #[trigger] r.count(u) == self.count(u) + other.count(u) by {
            if (u as int) < n {
                assert(out@[u as int] == self.count(u as int as SessionId) + other.count(
                    u as int as SessionId,
                ));
            }
        }
        r
    }
}

/// Adds each counter of the right side to the matching counter; a counter that
/// would pass `usize::MAX` stays at `usize::MAX`.
impl std::ops::AddAssign for StateVector {
    fn add_assign(&mut self, rhs: Self)
        ensures
            forall|u: SessionId| #[trigger]
                final(self).count(u) == if old(self).count(u) + rhs.count(u) <= usize::MAX {
                    old(self).count(u) + rhs.count(u)
                } else {
                    usize::MAX as nat
                },
    {
        let mut i: usize = 0;
        let ghost start = *self;
        while i < rhs.0.len()
            invariant
                i <= rhs.0@.len(),
                forall|u: SessionId|
                    (u as int) >= i ==> #[trigger] self.count(u) == start.count(u),
                forall|u: SessionId|
                    (u as int) < i ==> #[trigger] self.count(u) == if start.count(u) + rhs.count(u)
                        <= usize::MAX {
                        start.count(u) + rhs.count(u)
                    } else {
                        usize::MAX as nat
                    },
            decreases rhs.0@.len() - i,
        {
            if i < SESSION_SPACE {
                let u = i as SessionId;
                let v = rhs.0[i];
                if self.get(u) <= usize::MAX - v {
                    self.add(u, v);
                } else {
                    self.set(u, usize::MAX);
                }
            }
            i += 1;
        }
    }
}

impl Default for StateVector {
    fn default() -> (r: Self)
        ensures
            r.wf(),
            forall|u: SessionId| #[trigger] r.count(u) == 0,
    {
        StateVector::new()
    }
}

impl PartialEq for StateVector {
    fn eq(&self, other: &Self) -> (r: bool)
        ensures
            r == self.same(other),
    {
        self.casually_before(other) && other.casually_before(self)
    }
}

impl vstd::std_specs::cmp::PartialEqSpecImpl for StateVector {
    open spec fn obeys_eq_spec() -> bool {
        true
    }

    open spec fn eq_spec(&self, other: &StateVector) -> bool {
        self.same(other)
    }
}

impl Clone for StateVector {
    fn clone(&self) -> (r: Self)
        ensures
            forall|u: SessionId| #[trigger] r.count(u) == self.count(u),
            r.width() == self.width(),
            r.same(self),
            self.wf() ==> r.wf(),
    {
        StateVector(self.0.clone())
    }
}

} // verus!
