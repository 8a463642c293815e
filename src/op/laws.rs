use vstd::prelude::*;

use super::spec::{
    affected_spec,
    apply_spec,
    merge_spec,
    mirror_spec,
    split_spec,
    transform_spec,
    what_len,
    OpView,
    Text,
};
use crate::recon::{restored, stashed_len, RecordView};
use crate::ConcurrentOrder;

verus! {

/// Applying an insert and then its mirror gives back the text; so does applying
/// a reversible delete, whose bytes are those at its range, and then its mirror.
pub proof fn lemma_mirror_inverse(o: OpView, t: Text)
    requires
        apply_spec(o, t) is Ok,
        o is Insert || (o matches OpView::Delete(p, Ok(w), _) && t.subrange(
            p as int,
            (p + w.len()) as int,
        ) == w),
    ensures
        mirror_spec(o) matches Ok(m) && apply_spec(m, apply_spec(o, t)->Ok_0) == Ok::<
            Text,
            crate::ErrorKind,
        >(t),
{
    match o {
        OpView::Insert(pn, s) => {
            let p = pn as int;
            let u = t.subrange(0, p) + s + t.subrange(p, t.len() as int);
            assert(u.subrange(0, p) + u.subrange(p + s.len(), u.len() as int) =~= t);
        },
        OpView::Delete(pn, w, _) => {
            let p = pn as int;
            let l = what_len(w) as int;
            let u = t.subrange(0, p) + t.subrange(p + l, t.len() as int);
            let wt = w->Ok_0;
            assert(u.subrange(0, p) + wt + u.subrange(p, u.len() as int) =~= t);
        },
        _ => {},
    }
}

/// `t` without the bytes `i .. j`.
pub open spec fn cut(t: Text, i: int, j: int) -> Text {
    t.subrange(0, i) + t.subrange(j, t.len() as int)
}

/// Two inserts, deletes or no-ops that applied to one text converge: each
/// transformed against the other and applied after it gives one text, where the
/// two sides order inserts at one position oppositely.
pub proof fn lemma_convergence(
    a: OpView,
    b: OpView,
    ca: ConcurrentOrder,
    cb: ConcurrentOrder,
    t: Text,
)
    requires
        !(a is Split),
        !(b is Split),
        ca != cb,
        apply_spec(a, t) is Ok,
        apply_spec(b, t) is Ok,
        transform_spec(a, b, Some(ca)) is Ok,
        transform_spec(b, a, Some(cb)) is Ok,
    ensures
        apply_spec(transform_spec(b, a, Some(cb))->Ok_0, apply_spec(a, t)->Ok_0) == apply_spec(
            transform_spec(a, b, Some(ca))->Ok_0,
            apply_spec(b, t)->Ok_0,
        ),
{
    match (a, b) {
        (OpView::NoOp, _) => {},
        (_, OpView::NoOp) => {},
        (OpView::Insert(_, _), OpView::Insert(_, _)) => lemma_convergence_inserts(a, b, ca, cb, t),
        (OpView::Insert(_, _), OpView::Delete(_, _, _)) => lemma_convergence_mixed(
            a,
            b,
            Some(ca),
            Some(cb),
            t,
        ),
        (OpView::Delete(_, _, _), OpView::Insert(_, _)) => lemma_convergence_mixed(
            b,
            a,
            Some(cb),
            Some(ca),
            t,
        ),
        _ => lemma_convergence_deletes(a, b, Some(ca), Some(cb), t),
    }
}

proof fn lemma_convergence_inserts(
    a: OpView,
    b: OpView,
    ca: ConcurrentOrder,
    cb: ConcurrentOrder,
    t: Text,
)
    requires
        a is Insert,
        b is Insert,
        ca != cb,
        apply_spec(a, t) is Ok,
        apply_spec(b, t) is Ok,
        transform_spec(a, b, Some(ca)) is Ok,
        transform_spec(b, a, Some(cb)) is Ok,
    ensures
        apply_spec(transform_spec(b, a, Some(cb))->Ok_0, apply_spec(a, t)->Ok_0) == apply_spec(
            transform_spec(a, b, Some(ca))->Ok_0,
            apply_spec(b, t)->Ok_0,
        ),
{
    let p1 = a->Insert_0 as int;
    let s1 = a->Insert_1;
    let p2 = b->Insert_0 as int;
    let s2 = b->Insert_1;
    let n = t.len() as int;
    let ua = t.subrange(0, p1) + s1 + t.subrange(p1, n);
    let ub = t.subrange(0, p2) + s2 + t.subrange(p2, n);
    let a2 = transform_spec(a, b, Some(ca))->Ok_0;
    let b2 = transform_spec(b, a, Some(cb))->Ok_0;
    if p1 < p2 || (p1 == p2 && ca == ConcurrentOrder::Other) {
        assert(a2 == OpView::Insert(p1 as nat, s1));
        assert(b2 == OpView::Insert((p2 + s1.len()) as nat, s2));
        let q = p2 + s1.len();
        assert(ua.subrange(0, q) + s2 + ua.subrange(q, ua.len() as int) =~= ub.subrange(0, p1)
            + s1 + ub.subrange(p1, ub.len() as int));
    } else {
        assert(a2 == OpView::Insert((p1 + s2.len()) as nat, s1));
        assert(b2 == OpView::Insert(p2 as nat, s2));
        let q = p1 + s2.len();
        assert(ua.subrange(0, p2) + s2 + ua.subrange(p2, ua.len() as int) =~= ub.subrange(0, q)
            + s1 + ub.subrange(q, ub.len() as int));
    }
}

#[verifier::rlimit(60)]
proof fn lemma_convergence_mixed(
    a: OpView,
    b: OpView,
    ca: Option<ConcurrentOrder>,
    cb: Option<ConcurrentOrder>,
    t: Text,
)
    requires
        a is Insert,
        b is Delete,
        apply_spec(a, t) is Ok,
        apply_spec(b, t) is Ok,
        transform_spec(a, b, ca) is Ok,
        transform_spec(b, a, cb) is Ok,
    ensures
        apply_spec(transform_spec(b, a, cb)->Ok_0, apply_spec(a, t)->Ok_0) == apply_spec(
            transform_spec(a, b, ca)->Ok_0,
            apply_spec(b, t)->Ok_0,
        ),
{
    let p1 = a->Insert_0 as int;
    let s1 = a->Insert_1;
    let ls = s1.len() as int;
    let p2 = b->Delete_0 as int;
    let l2 = what_len(b->Delete_1) as int;
    let n = t.len() as int;
    let ua = t.subrange(0, p1) + s1 + t.subrange(p1, n);
    let ub = cut(t, p2, p2 + l2);
    let a2 = transform_spec(a, b, ca)->Ok_0;
    let b2 = transform_spec(b, a, cb)->Ok_0;
    if p2 + l2 <= p1 {
        assert(a2 == OpView::Insert((p1 - l2) as nat, s1));
        assert(b2 == b);
        let q = p1 - l2;
        assert(cut(ua, p2, p2 + l2) =~= ub.subrange(0, q) + s1 + ub.subrange(q, ub.len() as int));
        assert(apply_spec(b2, ua) == Ok::<Text, crate::ErrorKind>(cut(ua, p2, p2 + l2)));
    } else if p1 <= p2 {
        assert(a2 == OpView::Insert(p1 as nat, s1));
        assert(b2 == OpView::Delete((p2 + ls) as nat, b->Delete_1, b->Delete_2));
        assert(cut(ua, p2 + ls, p2 + ls + l2) =~= ub.subrange(0, p1) + s1 + ub.subrange(
            p1,
            ub.len() as int,
        ));
        assert(apply_spec(b2, ua) == Ok::<Text, crate::ErrorKind>(cut(ua, p2 + ls, p2 + ls + l2)));
    } else {
        assert(a2 == OpView::Insert(p2 as nat, s1));
        let (x, y) = split_spec(p2 as nat, b->Delete_1, b->Delete_2, (p1 - p2) as nat);
        assert(what_len(x->Delete_1) == p1 - p2);
        assert(what_len(y->Delete_1) == l2 - (p1 - p2));
        let y2 = OpView::Delete((p2 + ls) as nat, y->Delete_1, y->Delete_2);
        assert(b2 == OpView::Split(Box::new(x), Box::new(y2)));
        let v = cut(ua, p2, p1);
        assert(apply_spec(x, ua) == Ok::<Text, crate::ErrorKind>(v));
        let w = cut(v, p2 + ls, p2 + ls + l2 - (p1 - p2));
        assert(apply_spec(y2, v) == Ok::<Text, crate::ErrorKind>(w));
        assert(w =~= ub.subrange(0, p2) + s1 + ub.subrange(p2, ub.len() as int));
    }
}

proof fn lemma_convergence_deletes(
    a: OpView,
    b: OpView,
    ca: Option<ConcurrentOrder>,
    cb: Option<ConcurrentOrder>,
    t: Text,
)
    requires
        a is Delete,
        b is Delete,
        apply_spec(a, t) is Ok,
        apply_spec(b, t) is Ok,
        transform_spec(a, b, ca) is Ok,
        transform_spec(b, a, cb) is Ok,
    ensures
        apply_spec(transform_spec(b, a, cb)->Ok_0, apply_spec(a, t)->Ok_0) == apply_spec(
            transform_spec(a, b, ca)->Ok_0,
            apply_spec(b, t)->Ok_0,
        ),
{
    let p1 = a->Delete_0 as int;
    let l1 = what_len(a->Delete_1) as int;
    let p2 = b->Delete_0 as int;
    let l2 = what_len(b->Delete_1) as int;
    if p1 + l1 <= p2 {
        lemma_deletes_apart(a, b, ca, cb, t);
    } else if p2 + l2 <= p1 {
        lemma_deletes_apart(b, a, cb, ca, t);
    } else {
        lemma_deletes_overlap(a, b, ca, cb, t);
    }
}

proof fn lemma_deletes_apart(
    a: OpView,
    b: OpView,
    ca: Option<ConcurrentOrder>,
    cb: Option<ConcurrentOrder>,
    t: Text,
)
    requires
        a is Delete,
        b is Delete,
        apply_spec(a, t) is Ok,
        apply_spec(b, t) is Ok,
        transform_spec(a, b, ca) is Ok,
        transform_spec(b, a, cb) is Ok,
        a->Delete_0 + what_len(a->Delete_1) <= b->Delete_0,
    ensures
        apply_spec(transform_spec(b, a, cb)->Ok_0, apply_spec(a, t)->Ok_0) == apply_spec(
            transform_spec(a, b, ca)->Ok_0,
            apply_spec(b, t)->Ok_0,
        ),
{
    let p1 = a->Delete_0 as int;
    let l1 = what_len(a->Delete_1) as int;
    let p2 = b->Delete_0 as int;
    let l2 = what_len(b->Delete_1) as int;
    let e1 = p1 + l1;
    let e2 = p2 + l2;
    let ua = cut(t, p1, e1);
    let ub = cut(t, p2, e2);
    let a2 = transform_spec(a, b, ca)->Ok_0;
    let b2 = transform_spec(b, a, cb)->Ok_0;
    assert(apply_spec(a, t) == Ok::<Text, crate::ErrorKind>(ua));
    assert(apply_spec(b, t) == Ok::<Text, crate::ErrorKind>(ub));
    let target = t.subrange(0, p1) + t.subrange(e1, p2) + t.subrange(e2, t.len() as int);
    assert(a2 == a);
    assert(apply_spec(a2, ub) == Ok::<Text, crate::ErrorKind>(cut(ub, p1, e1)));
    assert(cut(ub, p1, e1) =~= target);
    if e2 <= p1 {
        assert(b2 == b);
        assert(apply_spec(b2, ua) == Ok::<Text, crate::ErrorKind>(cut(ua, p2, e2)));
        assert(cut(ua, p2, e2) =~= target);
    } else {
        assert(b2 == OpView::Delete((p2 - l1) as nat, b->Delete_1, b->Delete_2));
        assert(apply_spec(b2, ua) == Ok::<Text, crate::ErrorKind>(cut(ua, p2 - l1, e2 - l1)));
        assert(cut(ua, p2 - l1, e2 - l1) =~= target);
    }
}

proof fn lemma_deletes_overlap(
    a: OpView,
    b: OpView,
    ca: Option<ConcurrentOrder>,
    cb: Option<ConcurrentOrder>,
    t: Text,
)
    requires
        a is Delete,
        b is Delete,
        apply_spec(a, t) is Ok,
        apply_spec(b, t) is Ok,
        transform_spec(a, b, ca) is Ok,
        transform_spec(b, a, cb) is Ok,
        a->Delete_0 < b->Delete_0 + what_len(b->Delete_1),
        b->Delete_0 < a->Delete_0 + what_len(a->Delete_1),
    ensures
        apply_spec(transform_spec(b, a, cb)->Ok_0, apply_spec(a, t)->Ok_0) == apply_spec(
            transform_spec(a, b, ca)->Ok_0,
            apply_spec(b, t)->Ok_0,
        ),
{
    let p1 = a->Delete_0 as int;
    let l1 = what_len(a->Delete_1) as int;
    let p2 = b->Delete_0 as int;
    let l2 = what_len(b->Delete_1) as int;
    let e1 = p1 + l1;
    let e2 = p2 + l2;
    let ua = cut(t, p1, e1);
    let ub = cut(t, p2, e2);
    let a2 = transform_spec(a, b, ca)->Ok_0;
    let b2 = transform_spec(b, a, cb)->Ok_0;
    assert(apply_spec(a, t) == Ok::<Text, crate::ErrorKind>(ua));
    assert(apply_spec(b, t) == Ok::<Text, crate::ErrorKind>(ub));
    let m = if p1 < p2 {
        p1
    } else {
        p2
    };
    let big = if e1 > e2 {
        e1
    } else {
        e2
    };
    lemma_overlap_shape(a, b, ca);
    lemma_overlap_shape(b, a, cb);
    let target = cut(t, m, big);
    assert(apply_spec(a2, ub) == Ok::<Text, crate::ErrorKind>(cut(ub, m, big - l2)));
    assert(cut(ub, m, big - l2) =~= target);
    assert(apply_spec(b2, ua) == Ok::<Text, crate::ErrorKind>(cut(ua, m, big - l1)));
    assert(cut(ua, m, big - l1) =~= target);
}

/// Against an overlapping delete, a delete keeps what lies outside the other's
/// range: it starts where the first of the two starts.
proof fn lemma_overlap_shape(a: OpView, b: OpView, c: Option<ConcurrentOrder>)
    requires
        a is Delete,
        b is Delete,
        ({
            let p1 = a->Delete_0 as int;
            let p2 = b->Delete_0 as int;
            p1 < p2 + what_len(b->Delete_1) && p2 < p1 + what_len(a->Delete_1)
        }),
        transform_spec(a, b, c) is Ok,
    ensures
        ({
            let p1 = a->Delete_0 as int;
            let l1 = what_len(a->Delete_1) as int;
            let p2 = b->Delete_0 as int;
            let l2 = what_len(b->Delete_1) as int;
            let m = if p1 < p2 {
                p1
            } else {
                p2
            };
            let big = if p1 + l1 > p2 + l2 {
                p1 + l1
            } else {
                p2 + l2
            };
            let r = transform_spec(a, b, c)->Ok_0;
            r is Delete && r->Delete_0 == m && what_len(r->Delete_1) == big - m - l2
        }),
{
    let p1 = a->Delete_0;
    let w1 = a->Delete_1;
    let r1 = a->Delete_2;
    let l1 = what_len(w1);
    let p2 = b->Delete_0;
    let l2 = what_len(b->Delete_1);
    if p2 <= p1 && p2 + l2 >= p1 + l1 {
    } else if p2 <= p1 {
        let (_, y) = split_spec(p1, w1, r1, (p2 + l2 - p1) as nat);
        assert(what_len(y->Delete_1) == l1 - (p2 + l2 - p1));
    } else if p2 + l2 >= p1 + l1 {
        let (x, _) = split_spec(p1, w1, r1, (p2 - p1) as nat);
        assert(what_len(x->Delete_1) == p2 - p1);
    } else {
        let (x, y) = split_spec(p1, w1, r1, (p2 - p1) as nat);
        let (_, z) = split_spec(y->Delete_0, y->Delete_1, y->Delete_2, l2);
        assert(what_len(x->Delete_1) == p2 - p1);
        assert(what_len(y->Delete_1) == l1 - (p2 - p1));
        assert(what_len(z->Delete_1) == l1 - (p2 - p1) - l2);
    }
}

/// The bytes that a delete stands for after it was transformed against a
/// concurrent reversible delete, read from the text that the other delete left,
/// are the bytes that it removes from the text they both applied to.
#[verifier::rlimit(100)]
pub proof fn lemma_recon_round_trip(a: OpView, b: OpView, t: Text)
    requires
        t.len() <= usize::MAX,
        a matches OpView::Delete(p1, w1, r1) && r1.len() == 0 && p1 + what_len(w1) <= t.len(),
        b matches OpView::Delete(p2, w2, _) && w2 matches Ok(x) && p2 + x.len() <= t.len()
            && x == t.subrange(p2 as int, (p2 + x.len()) as int),
        transform_spec(a, b, None) is Ok,
    ensures
        ({
            let p1 = a->Delete_0;
            let l1 = what_len(a->Delete_1);
            affected_spec(transform_spec(a, b, None)->Ok_0, apply_spec(b, t)->Ok_0) == Ok::<
                Text,
                crate::ErrorKind,
            >(t.subrange(p1 as int, (p1 + l1) as int))
        }),
{
    reveal_with_fuel(restored, 2);
    assert(a->Delete_2 =~= Seq::<RecordView>::empty());
    let p1 = a->Delete_0 as int;
    let w1 = a->Delete_1;
    let l1 = what_len(w1) as int;
    let p2 = b->Delete_0 as int;
    let x = b->Delete_1->Ok_0;
    let l2 = x.len() as int;
    let u = t.subrange(0, p2) + t.subrange(p2 + l2, t.len() as int);
    let want = t.subrange(p1, p1 + l1);
    let r = transform_spec(a, b, None)->Ok_0;
    assert(apply_spec(b, t) == Ok::<Text, crate::ErrorKind>(u));
    assert(stashed_len(Seq::<RecordView>::empty()) == 0);
    if p1 + l1 <= p2 {
        assert(u.subrange(p1, p1 + l1) =~= want);
        assert(r == a);
        assert(restored(want, Seq::<RecordView>::empty()) == Some(want));
        assert(affected_spec(r, u) == Ok::<Text, crate::ErrorKind>(want));
    } else if p1 >= p2 + l2 {
        assert(u.subrange(p1 - l2, p1 - l2 + l1) =~= want);
        assert(r == OpView::Delete((p1 - l2) as nat, w1, a->Delete_2));
        assert(a->Delete_2 =~= Seq::<RecordView>::empty());
        assert(restored(want, Seq::<RecordView>::empty()) == Some(want));
        assert(affected_spec(r, u) == Ok::<Text, crate::ErrorKind>(want));
    } else if p2 <= p1 && p2 + l2 >= p1 + l1 {
        let e = u.subrange(p2, p2);
        let y = x.subrange(p1 - p2, p1 - p2 + l1);
        assert(e.subrange(0, 0) + y + e.subrange(0, e.len() as int) =~= want);
        let recs = Seq::<RecordView>::empty().push((0usize, y));
        assert(a->Delete_2.push((0usize, y)) =~= recs);
        assert(recs.drop_last() =~= Seq::<RecordView>::empty());
        assert(stashed_len(recs) == y.len());
        assert(restored(e, recs) == Some(e.subrange(0, 0) + y + e.subrange(0, e.len() as int)));
        assert(affected_spec(r, u) == Ok::<Text, crate::ErrorKind>(want));
    } else if p2 <= p1 {
        let k = p2 + l2 - p1;
        let e = u.subrange(p2, p2 + l1 - k);
        let y = x.subrange(p1 - p2, l2);
        let (_, yy) = split_spec(p1 as nat, w1, a->Delete_2, k as nat);
        let wy = yy->Delete_1;
        assert(what_len(wy) == l1 - k);
        let recs = Seq::<RecordView>::empty().push((0usize, y));
        assert(a->Delete_2.push((0usize, y)) =~= recs);
        assert(r == OpView::Delete(p2 as nat, wy, recs));
        assert(recs.drop_last() =~= Seq::<RecordView>::empty());
        assert(restored(e, recs) == Some(e.subrange(0, 0) + y + e.subrange(0, e.len() as int)));
        assert(e =~= t.subrange(p2 + l2, p1 + l1));
        assert(e.subrange(0, 0) + y + e.subrange(0, e.len() as int) =~= want);
        assert(affected_spec(r, u) == Ok::<Text, crate::ErrorKind>(want));
    } else if p2 + l2 >= p1 + l1 {
        let k = p2 - p1;
        let e = u.subrange(p1, p1 + k);
        let y = x.subrange(0, p1 + l1 - p2);
        let (xx, _) = split_spec(p1 as nat, w1, a->Delete_2, k as nat);
        let wx = xx->Delete_1;
        assert(what_len(wx) == k);
        let recs = Seq::<RecordView>::empty().push((k as usize, y));
        assert(a->Delete_2.push((k as usize, y)) =~= recs);
        assert(r == OpView::Delete(p1 as nat, wx, recs));
        assert(recs.drop_last() =~= Seq::<RecordView>::empty());
        assert(restored(e, recs) == Some(e.subrange(0, k) + y + e.subrange(k, e.len() as int)));
        assert(e.subrange(0, k) + y + e.subrange(k, e.len() as int) =~= want);
        assert(affected_spec(r, u) == Ok::<Text, crate::ErrorKind>(want));
    } else {
        let k = p2 - p1;
        let e = u.subrange(p1, p1 + l1 - l2);
        let (xx, yy) = split_spec(p1 as nat, w1, a->Delete_2, k as nat);
        let (_, zz) = split_spec(yy->Delete_0, yy->Delete_1, yy->Delete_2, l2 as nat);
        assert(what_len(xx->Delete_1) == k);
        assert(what_len(yy->Delete_1) == l1 - k);
        assert(what_len(zz->Delete_1) == l1 - k - l2);
        let m = merge_spec(p1 as nat, xx->Delete_1, zz->Delete_1)->Ok_0;
        assert(what_len(m->Delete_1) == l1 - l2);
        let recs = Seq::<RecordView>::empty().push((k as usize, x));
        assert(a->Delete_2.push((k as usize, x)) =~= recs);
        assert(r == OpView::Delete(p1 as nat, m->Delete_1, recs));
        assert(recs.drop_last() =~= Seq::<RecordView>::empty());
        assert(restored(e, recs) == Some(e.subrange(0, k) + x + e.subrange(k, e.len() as int)));
        assert(e =~= t.subrange(p1, p2) + t.subrange(p2 + l2, p1 + l1));
        assert(e.subrange(0, k) + x + e.subrange(k, e.len() as int) =~= want);
        assert(affected_spec(r, u) == Ok::<Text, crate::ErrorKind>(want));
    }
}

} // verus!
