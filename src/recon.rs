use vstd::prelude::*;

use crate::segment::SegmentBuffer;
use crate::{ErrorKind, SessionId, TextPosition};

verus! {

/// Bytes removed by a concurrent delete, to be put back at `offset`.
pub struct ReconSegment {
    pub offset: usize,
    pub buffer: SegmentBuffer,
}

/// One record as plain values: its offset and its tagged bytes.
pub type RecordView = (usize, Seq<(SessionId, u8)>);

/// Records of bytes that concurrent deletes removed, replayed in order.
pub struct Recon(Vec<ReconSegment>);

/// The text after inserting each record's bytes at its offset, in order; `None`
/// where an offset lies past the end of the text at that point.
pub open spec fn restored(t: Seq<(SessionId, u8)>, recs: Seq<RecordView>) -> Option<
    Seq<(SessionId, u8)>,
>
    decreases recs.len(),
{
    if recs.len() == 0 {
        Some(t)
    } else {
        match restored(t, recs.drop_last()) {
            Some(u) => {
                let (off, b) = recs.last();
                if off <= u.len() {
                    Some(u.subrange(0, off as int) + b + u.subrange(off as int, u.len() as int))
                } else {
                    None
                }
            },
            None => None,
        }
    }
}

/// The number of bytes that all records hold together.
pub open spec fn stashed_len(recs: Seq<RecordView>) -> nat
    decreases recs.len(),
{
    if recs.len() == 0 {
        0
    } else {
        stashed_len(recs.drop_last()) + recs.last().1.len()
    }
}

/// The records that start before `at`; a record that reaches past `at` keeps
/// only its bytes before `at`.
pub open spec fn left_of(recs: Seq<RecordView>, at: usize) -> Seq<RecordView>
    decreases recs.len(),
{
    if recs.len() == 0 {
        Seq::empty()
    } else {
        let rest = left_of(recs.drop_last(), at);
        let (o, b) = recs.last();
        if o < at {
            rest.push(
                (
                    o,
                    if at - o < b.len() {
                        b.subrange(0, at - o)
                    } else {
                        b
                    },
                ),
            )
        } else {
            rest
        }
    }
}

/// The records at or after `at`, moved back by `at`; a record that starts before
/// `at` and reaches past it gives its bytes from `at` on, at offset zero.
pub open spec fn right_of(recs: Seq<RecordView>, at: usize) -> Seq<RecordView>
    decreases recs.len(),
{
    if recs.len() == 0 {
        Seq::empty()
    } else {
        let rest = right_of(recs.drop_last(), at);
        let (o, b) = recs.last();
        if o >= at {
            rest.push(((o - at) as usize, b))
        } else if at - o < b.len() {
            rest.push((0usize, b.subrange(at - o, b.len() as int)))
        } else {
            rest
        }
    }
}

impl View for Recon {
    type V = Seq<RecordView>;

    closed spec fn view(&self) -> Seq<RecordView> {
        self.0@.map_values(|r: ReconSegment| (r.offset, r.buffer@))
    }
}

proof fn lemma_restored_len(t: Seq<(SessionId, u8)>, recs: Seq<RecordView>)
    ensures
        restored(t, recs) matches Some(u) ==> u.len() == t.len() + stashed_len(recs),
    decreases recs.len(),
{
    if recs.len() > 0 {
        lemma_restored_len(t, recs.drop_last());
    }
}

impl Recon {
    /// Every record's buffer is well formed.
    pub closed spec fn wf(&self) -> bool {
        forall|i: int| 0 <= i < self.0@.len() ==> (#[trigger] self.0@[i]).buffer.wf()
    }

    pub fn new() -> (r: Recon)
        ensures
            r@ == Seq::<RecordView>::empty(),
            r.wf(),
    {
        let r = Recon(Vec::new());
        assert(r@ =~= Seq::<RecordView>::empty());
        r
    }

    /// Appends a record.
    pub fn add(&mut self, offset: usize, buffer: SegmentBuffer)
        requires
            old(self).wf(),
            buffer.wf(),
        ensures
            final(self).wf(),
            final(self)@ == old(self)@.push((offset, buffer@)),
    {
        let ghost b = buffer@;
        self.0.push(ReconSegment { offset, buffer });
        assert(self@ =~= old(self)@.push((offset, b)));
    }

    /// A recon with the same records.
    pub fn duplicate(&self) -> (r: Recon)
        requires
            self.wf(),
        ensures
            r.wf(),
            r@ == self@,
    {
        let mut out = Recon::new();
        let mut i: usize = 0;
        while i < self.0.len()
            invariant
                self.wf(),
                i <= self.0@.len(),
                self@.len() == self.0@.len(),
                out.wf(),
                out@ == self@.subrange(0, i as int),
            decreases self.0@.len() - i,
        {
            out.add(self.0[i].offset, self.0[i].buffer.duplicate());
            i += 1;
            assert(out@ =~= self@.subrange(0, i as int));
        }
        assert(self@.subrange(0, i as int) =~= self@);
        out
    }

    /// The number of bytes that all records hold together, where it fits a `usize`.
    pub fn stashed(&self) -> (r: Option<usize>)
        requires
            self.wf(),
        ensures
            r is Some <==> stashed_len(self@) <= usize::MAX,
            r matches Some(n) ==> n == stashed_len(self@),
    {
        let mut total: usize = 0;
        let mut i: usize = 0;
        while i < self.0.len()
            invariant
                self.wf(),
                i <= self.0@.len(),
                self@.len() == self.0@.len(),
                total == stashed_len(self@.subrange(0, i as int)),
            decreases self.0@.len() - i,
        {
            proof {
                assert(self@.subrange(0, i + 1).drop_last() =~= self@.subrange(0, i as int));
                self.0@[i as int].buffer.lemma_view();
            }
            let n = self.0[i].buffer.len();
            if n > usize::MAX - total {
                proof {
                    lemma_stashed_prefix(self@, i + 1);
                }
                return None;
            }
            total = total + n;
            i += 1;
        }
        assert(self@.subrange(0, i as int) =~= self@);
        Some(total)
    }

    /// The records, in order.
    pub fn records(&self) -> (r: &[ReconSegment])
        ensures
            r@.map_values(|r: ReconSegment| (r.offset, r.buffer@)) == self@,
    {
        self.0.as_slice()
    }

    /// Inserts each record's bytes at its offset, in order.
    pub fn restore(&self, buf: &mut SegmentBuffer) -> (r: Result<(), ErrorKind>)
        requires
            self.wf(),
            old(buf).wf(),
            old(buf)@.len() + stashed_len(self@) <= usize::MAX,
        ensures
            r.is_ok() <==> restored(old(buf)@, self@).is_some(),
            r is Err ==> r == Err::<(), ErrorKind>(ErrorKind::SpliceOutOfRange),
            r is Ok ==> final(buf).wf() && Some(final(buf)@) == restored(old(buf)@, self@),
    {
        let mut i: usize = 0;
        while i < self.0.len()
            invariant
                self.wf(),
                i <= self@.len(),
                self@.len() == self.0@.len(),
                buf.wf(),
                restored(old(buf)@, self@.subrange(0, i as int)) == Some(buf@),
                old(buf)@.len() + stashed_len(self@) <= usize::MAX,
            decreases self.0@.len() - i,
        {
            let ghost pre = self@.subrange(0, i as int);
            proof {
                assert(self@.subrange(0, i + 1).drop_last() =~= pre);
                lemma_restored_len(old(buf)@, pre);
                lemma_stashed_prefix(self@, i + 1);
            }
            let off = self.0[i].offset;
            let b = self.0[i].buffer.duplicate();
            let r = buf.splice(off..off, Some(b));
            if r.is_err() {
                proof {
                    assert(restored(old(buf)@, self@.subrange(0, i + 1)) is None);
                    lemma_restored_none(old(buf)@, self@, i + 1);
                    assert(self@.subrange(0, self@.len() as int) =~= self@);
                }
                return r;
            }
            i += 1;
        }
        assert(self@.subrange(0, i as int) =~= self@);
        Ok(())
    }

    /// Records before `at` go left, the others go right with `at` taken from their
    /// offset; a record that starts before `at` and reaches past it is cut there.
    pub fn split_at(&self, at: TextPosition) -> (r: (Recon, Recon))
        requires
            self.wf(),
        ensures
            r.0.wf(),
            r.1.wf(),
            r.0@ == left_of(self@, at),
            r.1@ == right_of(self@, at),
    {
        let mut rec1 = Recon::new();
        let mut rec2 = Recon::new();
        let mut i: usize = 0;
        while i < self.0.len()
            invariant
                self.wf(),
                i <= self.0@.len(),
                self@.len() == self.0@.len(),
                rec1.wf(),
                rec2.wf(),
                rec1@ == left_of(self@.subrange(0, i as int), at),
                rec2@ == right_of(self@.subrange(0, i as int), at),
            decreases self.0@.len() - i,
        {
            let ghost pre = self@.subrange(0, i as int);
            let ghost x = self@[i as int];
            proof {
                assert(self@.subrange(0, i + 1) =~= pre.push(x));
                assert(self@.subrange(0, i + 1).drop_last() =~= pre);
                self.0@[i as int].buffer.lemma_view();
            }
            let seg = &self.0[i];
            let len = seg.buffer.len();
            if seg.offset < at {
                let cut = at - seg.offset;
                if cut < len {
                    match (seg.buffer.slice(0..cut), seg.buffer.slice(cut..len)) {
                        (Ok(l), Ok(r)) => {
                            rec1.add(seg.offset, l);
                            rec2.add(0, r);
                        },
                        _ => {},
                    }
                } else {
                    rec1.add(seg.offset, seg.buffer.duplicate());
                }
            } else {
                rec2.add(seg.offset - at, seg.buffer.duplicate());
            }
            i += 1;
        }
        assert(self@.subrange(0, i as int) =~= self@);
        (rec1, rec2)
    }
}

proof fn lemma_stashed_prefix(s: Seq<RecordView>, i: int)
    requires
        0 <= i <= s.len(),
    ensures
        stashed_len(s.subrange(0, i)) <= stashed_len(s),
    decreases s.len() - i,
{
    if i < s.len() {
        lemma_stashed_prefix(s, i + 1);
        assert(s.subrange(0, i + 1).drop_last() =~= s.subrange(0, i));
    } else {
        assert(s.subrange(0, i) =~= s);
    }
}

proof fn lemma_restored_none(t: Seq<(SessionId, u8)>, s: Seq<RecordView>, i: int)
    requires
        0 <= i <= s.len(),
        restored(t, s.subrange(0, i)) is None,
    ensures
        restored(t, s) is None,
    decreases s.len() - i,
{
    if i < s.len() {
        assert(s.subrange(0, i + 1).drop_last() =~= s.subrange(0, i));
        lemma_restored_none(t, s, i + 1);
    } else {
        assert(s.subrange(0, i) =~= s);
    }
}

} // verus!
