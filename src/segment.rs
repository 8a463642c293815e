use vstd::prelude::*;

use crate::{ErrorKind, SessionId, TextPosition, TextSize};
use smallvec::SmallVec;
use std::ops::Range;

verus! {

/// Bytes of one segment, held in a small vector that stores short runs inline.
#[verifier::external_body]
#[derive(PartialEq, Eq, Debug)]
pub struct Bytes {
    inner: SmallVec<[u8; 16]>,
}

/// Segments of a buffer, held in a small vector that stores a single one inline.
#[verifier::external_body]
#[derive(PartialEq, Eq, Debug)]
pub struct SegmentList {
    inner: SmallVec<[Segment; 1]>,
}

/// The bytes held, in order.
pub uninterp spec fn bytes_of(v: Bytes) -> Seq<u8>;

/// The segments held, in order.
pub uninterp spec fn segments_of(v: SegmentList) -> Seq<Segment>;

/// Relies on SmallVec::from_vec: the new vector holds the bytes of `v` in order.
#[verifier::external_body]
fn bytes_from_vec(v: Vec<u8>) -> (r: Bytes)
    ensures
        bytes_of(r) == v@,
{
    Bytes { inner: SmallVec::from_vec(v) }
}

/// Relies on SmallVec::as_slice: the slice shows the bytes held, in order.
#[verifier::external_body]
fn bytes_as_slice(v: &Bytes) -> (r: &[u8])
    ensures
        r@ == bytes_of(*v),
{
    v.inner.as_slice()
}

/// Relies on SmallVec::from_vec: the new vector holds the segments of `v` in order.
#[verifier::external_body]
fn segments_from_vec(v: Vec<Segment>) -> (r: SegmentList)
    ensures
        segments_of(r) == v@,
{
    SegmentList { inner: SmallVec::from_vec(v) }
}

/// Relies on SmallVec::as_slice: the slice shows the segments held, in order.
#[verifier::external_body]
fn segments_as_slice(v: &SegmentList) -> (r: &[Segment])
    ensures
        r@ == segments_of(*v),
{
    v.inner.as_slice()
}

/// A run of bytes that one session inserted.
#[derive(PartialEq, Eq, Debug)]
pub struct Segment(pub SessionId, pub Bytes);

/// Each byte of `bytes`, tagged with `owner`.
pub open spec fn tag(owner: SessionId, bytes: Seq<u8>) -> Seq<(SessionId, u8)> {
    Seq::new(bytes.len(), |k: int| (owner, bytes[k]))
}

/// The bytes of a segment, each tagged with the segment's owner.
pub open spec fn segment_text(s: Segment) -> Seq<(SessionId, u8)> {
    tag(s.0, bytes_of(s.1))
}

/// The concatenated tagged bytes of a sequence of segments.
pub open spec fn flat(segs: Seq<Segment>) -> Seq<(SessionId, u8)>
    decreases segs.len(),
{
    if segs.len() == 0 {
        Seq::empty()
    } else {
        flat(segs.drop_last()) + segment_text(segs.last())
    }
}

/// The sum of the segments' lengths.
pub open spec fn total_len(segs: Seq<Segment>) -> nat
    decreases segs.len(),
{
    if segs.len() == 0 {
        0
    } else {
        total_len(segs.drop_last()) + bytes_of(segs.last().1).len()
    }
}

/// Each segment as its owner and its bytes.
pub open spec fn seg_view(segs: Seq<Segment>) -> Seq<(SessionId, Seq<u8>)> {
    segs.map_values(|s: Segment| (s.0, bytes_of(s.1)))
}

/// The part of a segment of `len` bytes at offset `off` that lies inside
/// `start .. end`, as a range of the segment's own bytes.
pub open spec fn clip(off: int, len: int, at: int) -> int {
    if at <= off {
        0
    } else if at - off < len {
        at - off
    } else {
        len
    }
}

/// The segments of a slice `start .. end` of `segs`: each segment that overlaps
/// the range, with its owner and the overlapping bytes, in order.
pub open spec fn slice_pieces(segs: Seq<(SessionId, Seq<u8>)>, start: int, end: int) -> Seq<
    (SessionId, Seq<u8>),
>
    decreases segs.len(),
{
    if segs.len() == 0 {
        Seq::empty()
    } else {
        let rest = segs.drop_last();
        let off = piece_offset(rest);
        let (owner, b) = segs.last();
        let lo = clip(off, b.len() as int, start);
        let hi = clip(off, b.len() as int, end);
        if lo < hi {
            slice_pieces(rest, start, end).push((owner, b.subrange(lo, hi)))
        } else {
            slice_pieces(rest, start, end)
        }
    }
}

/// The total length of segments given as owners and bytes.
pub open spec fn piece_offset(segs: Seq<(SessionId, Seq<u8>)>) -> int
    decreases segs.len(),
{
    if segs.len() == 0 {
        0
    } else {
        piece_offset(segs.drop_last()) + segs.last().1.len()
    }
}

proof fn lemma_piece_offset(segs: Seq<Segment>)
    ensures
        piece_offset(seg_view(segs)) == total_len(segs),
    decreases segs.len(),
{
    if segs.len() > 0 {
        assert(seg_view(segs).drop_last() =~= seg_view(segs.drop_last()));
        lemma_piece_offset(segs.drop_last());
    }
}

/// No empty segment, and no two adjacent segments with the same owner.
pub open spec fn compacted(segs: Seq<Segment>) -> bool {
    &&& forall|i: int| 0 <= i < segs.len() ==> bytes_of(#[trigger] segs[i].1).len() > 0
    &&& forall|i: int| 0 <= i < segs.len() - 1 ==> #[trigger] segs[i].0 != segs[i + 1].0
}

pub proof fn lemma_flat_push(segs: Seq<Segment>, s: Segment)
    ensures
        flat(segs.push(s)) == flat(segs) + segment_text(s),
        total_len(segs.push(s)) == total_len(segs) + bytes_of(s.1).len(),
{
    assert(segs.push(s).drop_last() =~= segs);
}

pub proof fn lemma_flat_len(segs: Seq<Segment>)
    ensures
        flat(segs).len() == total_len(segs),
    decreases segs.len(),
{
    if segs.len() > 0 {
        lemma_flat_len(segs.drop_last());
    }
}

impl Segment {
    /// A segment of `bytes`, owned by `user`.
    pub fn new(user: SessionId, bytes: Vec<u8>) -> (r: Segment)
        ensures
            r.0 == user,
            bytes_of(r.1) == bytes@,
    {
        Segment(user, bytes_from_vec(bytes))
    }

    /// The bytes, copied out.
    pub fn bytes(&self) -> (r: Vec<u8>)
        ensures
            r@ == bytes_of(self.1),
    {
        let b = bytes_as_slice(&self.1);
        let r = copy_range(b, 0, b.len());
        assert(b@.subrange(0, b@.len() as int) =~= b@);
        r
    }

    pub fn user(&self) -> (r: SessionId)
        ensures
            r == self.0,
    {
        self.0
    }

    pub fn len(&self) -> (r: TextSize)
        ensures
            r == bytes_of(self.1).len(),
    {
        bytes_as_slice(&self.1).len()
    }
}

/// The bytes `b[lo..hi]`, copied.
fn copy_range(b: &[u8], lo: usize, hi: usize) -> (r: Vec<u8>)
    requires
        lo <= hi <= b@.len(),
    ensures
        r@ == b@.subrange(lo as int, hi as int),
{
    let mut r: Vec<u8> = Vec::new();
    let mut i = lo;
    while i < hi
        invariant
            lo <= i <= hi <= b@.len(),
            r@ == b@.subrange(lo as int, i as int),
        decreases hi - i,
    {
        r.push(b[i]);
        i += 1;
        assert(r@ =~= b@.subrange(lo as int, i as int));
    }
    r
}

/// The tagged bytes of `segs`, in order.
fn flatten(segs: &[Segment]) -> (r: Vec<(SessionId, u8)>)
    ensures
        r@ == flat(segs@),
{
    let mut r: Vec<(SessionId, u8)> = Vec::new();
    let mut i: usize = 0;
    while i < segs.len()
        invariant
            i <= segs@.len(),
            r@ == flat(segs@.subrange(0, i as int)),
        decreases segs@.len() - i,
    {
        let owner = segs[i].0;
        let bytes = bytes_as_slice(&segs[i].1);
        let ghost before = r@;
        let mut j: usize = 0;
        while j < bytes.len()
            invariant
                j <= bytes@.len(),
                r@ == before + tag(owner, bytes@.subrange(0, j as int)),
            decreases bytes@.len() - j,
        {
            r.push((owner, bytes[j]));
            j += 1;
            assert(r@ =~= before + tag(owner, bytes@.subrange(0, j as int)));
        }
        proof {
            lemma_flat_push(segs@.subrange(0, i as int), segs@[i as int]);
            assert(segs@.subrange(0, i + 1) =~= segs@.subrange(0, i as int).push(segs@[i as int]));
            assert(bytes@.subrange(0, j as int) =~= bytes@);
        }
        i += 1;
    }
    assert(segs@.subrange(0, i as int) =~= segs@);
    r
}

/// Groups tagged bytes into maximal runs of one owner.
fn group(t: &Vec<(SessionId, u8)>) -> (r: Vec<Segment>)
    ensures
        flat(r@) == t@,
        compacted(r@),
{
    let mut out: Vec<Segment> = Vec::new();
    if t.len() == 0 {
        assert(flat(out@) =~= t@);
        return out;
    }
    let mut owner = t[0].0;
    let mut cur: Vec<u8> = Vec::new();
    cur.push(t[0].1);
    let mut i: usize = 1;
    assert(t@.subrange(0, 1) =~= flat(out@) + tag(owner, cur@));
    while i < t.len()
        invariant
            1 <= i <= t@.len(),
            cur@.len() > 0,
            flat(out@) + tag(owner, cur@) == t@.subrange(0, i as int),
            compacted(out@),
            out@.len() > 0 ==> out@.last().0 != owner,
        decreases t@.len() - i,
    {
        let (o, b) = t[i];
        let ghost f0 = flat(out@);
        let ghost c0 = cur@;
        let ghost o0 = owner;
        assert(t@.subrange(0, i + 1) =~= t@.subrange(0, i as int).push((o, b)));
        if o == owner {
            cur.push(b);
            assert(tag(owner, cur@) =~= tag(o0, c0).push((o, b)));
        } else {
            let seg = Segment(owner, bytes_from_vec(cur));
            proof {
                lemma_flat_push(out@, seg);
            }
            out.push(seg);
            owner = o;
            cur = Vec::new();
            cur.push(b);
            assert(tag(owner, cur@) =~= seq![(o, b)]);
        }
        i += 1;
        assert(flat(out@) + tag(owner, cur@) =~= t@.subrange(0, i as int));
    }
    let seg = Segment(owner, bytes_from_vec(cur));
    proof {
        lemma_flat_push(out@, seg);
    }
    out.push(seg);
    assert(t@.subrange(0, i as int) =~= t@);
    out
}

/// The tagged bytes of an optional buffer; nothing for `None`.
pub open spec fn inserted(b: Option<SegmentBuffer>) -> Seq<(SessionId, u8)> {
    match b {
        Some(b) => b@,
        None => Seq::empty(),
    }
}

/// Session-tagged text, kept as a sequence of segments with a cached length.
#[derive(PartialEq, Eq, Debug)]
pub struct SegmentBuffer {
    segments: SegmentList,
    len: TextSize,
}

impl View for SegmentBuffer {
    type V = Seq<(SessionId, u8)>;

    closed spec fn view(&self) -> Seq<(SessionId, u8)> {
        flat(segments_of(self.segments))
    }
}

impl SegmentBuffer {
    /// The segments, in order.
    pub closed spec fn segs(&self) -> Seq<Segment> {
        segments_of(self.segments)
    }

    /// The cached length is the sum of the segment lengths.
    pub closed spec fn wf(&self) -> bool {
        self.len == total_len(self.segs())
    }

    pub proof fn lemma_view(&self)
        ensures
            self@ == flat(self.segs()),
            self@.len() == total_len(self.segs()),
            self.wf() ==> self@.len() <= usize::MAX,
    {
        lemma_flat_len(self.segs());
    }

    fn from_tagged(t: &Vec<(SessionId, u8)>) -> (r: SegmentBuffer)
        ensures
            r.wf(),
            r@ == t@,
            compacted(r.segs()),
    {
        let segs = group(t);
        proof {
            lemma_flat_len(segs@);
        }
        SegmentBuffer { segments: segments_from_vec(segs), len: t.len() }
    }

    pub fn new(segments: Vec<Segment>) -> (r: Self)
        requires
            total_len(segments@) <= usize::MAX,
        ensures
            r.wf(),
            r.segs() == segments@,
    {
        let s = segments.as_slice();
        let mut len: usize = 0;
        let mut i: usize = 0;
        while i < s.len()
            invariant
                s@ == segments@,
                i <= s@.len(),
                len == total_len(s@.subrange(0, i as int)),
                total_len(s@) <= usize::MAX,
            decreases s@.len() - i,
        {
            proof {
                lemma_flat_push(s@.subrange(0, i as int), s@[i as int]);
                assert(s@.subrange(0, i + 1) =~= s@.subrange(0, i as int).push(s@[i as int]));
                lemma_total_prefix(s@, i + 1);
            }
            len = len + s[i].len();
            i += 1;
        }
        assert(s@.subrange(0, i as int) =~= s@);
        SegmentBuffer { segments: segments_from_vec(segments), len }
    }

    /// Total byte count.
    pub fn len(&self) -> (r: TextSize)
        requires
            self.wf(),
        ensures
            r == self@.len(),
    {
        proof {
            self.lemma_view();
        }
        self.len
    }

    /// The bytes, without their owners.
    pub fn text(&self) -> (r: Vec<u8>)
        ensures
            r@.len() == self@.len(),
            forall|i: int| 0 <= i < r@.len() ==> #[trigger] r@[i] == self@[i].1,
    {
        let t = flatten(segments_as_slice(&self.segments));
        let mut r: Vec<u8> = Vec::new();
        let mut i: usize = 0;
        while i < t.len()
            invariant
                i <= t@.len(),
                t@ == self@,
                r@.len() == i,
                forall|j: int| 0 <= j < i ==> #[trigger] r@[j] == t@[j].1,
            decreases t@.len() - i,
        {
            r.push(t[i].1);
            i += 1;
        }
        r
    }

    /// The segments as owners and bytes.
    pub fn segments(&self) -> (r: Vec<(SessionId, Vec<u8>)>)
        ensures
            r@.len() == self.segs().len(),
            forall|i: int|
                0 <= i < r@.len() ==> (#[trigger] r@[i]).0 == self.segs()[i].0 && r@[i].1@
                    == bytes_of(self.segs()[i].1),
    {
        let s = segments_as_slice(&self.segments);
        let mut r: Vec<(SessionId, Vec<u8>)> = Vec::new();
        let mut i: usize = 0;
        while i < s.len()
            invariant
                s@ == self.segs(),
                i <= s@.len(),
                r@.len() == i,
                forall|j: int|
                    0 <= j < i ==> (#[trigger] r@[j]).0 == s@[j].0 && r@[j].1@ == bytes_of(s@[j].1),
            decreases s@.len() - i,
        {
            r.push((s[i].0, s[i].bytes()));
            i += 1;
        }
        r
    }

    /// Whether the buffer holds no segment.
    pub fn is_empty(&self) -> (r: bool)
        ensures
            r == (self.segs().len() == 0),
    {
        segments_as_slice(&self.segments).len() == 0
    }

    /// A buffer with the same segments.
    pub fn duplicate(&self) -> (r: SegmentBuffer)
        ensures
            r@ == self@,
            self.wf() ==> r.wf(),
    {
        let s = segments_as_slice(&self.segments);
        let mut out: Vec<Segment> = Vec::new();
        let mut i: usize = 0;
        while i < s.len()
            invariant
                s@ == segments_of(self.segments),
                i <= s@.len(),
                flat(out@) == flat(s@.subrange(0, i as int)),
                total_len(out@) == total_len(s@.subrange(0, i as int)),
            decreases s@.len() - i,
        {
            let b = bytes_as_slice(&s[i].1);
            let copy = copy_range(b, 0, b.len());
            let seg = Segment(s[i].0, bytes_from_vec(copy));
            proof {
                assert(b@.subrange(0, b@.len() as int) =~= b@);
                lemma_flat_push(out@, seg);
                lemma_flat_push(s@.subrange(0, i as int), s@[i as int]);
                assert(s@.subrange(0, i + 1) =~= s@.subrange(0, i as int).push(s@[i as int]));
            }
            out.push(seg);
            i += 1;
        }
        assert(s@.subrange(0, i as int) =~= s@);
        SegmentBuffer { segments: segments_from_vec(out), len: self.len }
    }

    /// Joins adjacent segments of one owner and drops empty ones; the text is kept.
    pub fn compact(&mut self)
        requires
            old(self).wf(),
        ensures
            final(self).wf(),
            final(self)@ == old(self)@,
            compacted(final(self).segs()),
    {
        let t = flatten(segments_as_slice(&self.segments));
        *self = SegmentBuffer::from_tagged(&t);
    }

    /// Removes bytes `range.start .. range.end` and puts `insert`, if any, in their
    /// place; the result is compacted.
    pub fn splice(&mut self, range: Range<TextPosition>, insert: Option<SegmentBuffer>) -> (r:
        Result<(), ErrorKind>)
        requires
            old(self).wf(),
            old(self)@.len() + inserted(insert).len() <= usize::MAX,
        ensures
            range.start <= range.end <= old(self)@.len() <==> r.is_ok(),
            r is Err ==> r == Err::<(), ErrorKind>(ErrorKind::SpliceOutOfRange) && *final(self)
                == *old(self),
            r is Ok ==> final(self)@.len() == total_len(final(self).segs()),
            r is Ok ==> final(self).wf() && compacted(final(self).segs()) && final(self)@ == old(
                self,
            )@.subrange(0, range.start as int) + inserted(insert) + old(self)@.subrange(
                range.end as int,
                old(self)@.len() as int,
            ),
    {
        proof {
            self.lemma_view();
        }
        let start = range.start;
        let end = range.end;
        if start > end || end > self.len {
            return Err(ErrorKind::SpliceOutOfRange);
        }
        let t = flatten(segments_as_slice(&self.segments));
        let ins = match &insert {
            Some(b) => flatten(segments_as_slice(&b.segments)),
            None => Vec::new(),
        };
        assert(ins@ =~= inserted(insert));
        let mut n: Vec<(SessionId, u8)> = Vec::new();
        let mut i: usize = 0;
        while i < start
            invariant
                i <= start <= t@.len(),
                n@ == t@.subrange(0, i as int),
            decreases start - i,
        {
            n.push(t[i]);
            i += 1;
            assert(n@ =~= t@.subrange(0, i as int));
        }
        let mut j: usize = 0;
        while j < ins.len()
            invariant
                j <= ins@.len(),
                n@ == t@.subrange(0, start as int) + ins@.subrange(0, j as int),
            decreases ins@.len() - j,
        {
            n.push(ins[j]);
            j += 1;
            assert(n@ =~= t@.subrange(0, start as int) + ins@.subrange(0, j as int));
        }
        assert(ins@.subrange(0, j as int) =~= ins@);
        let mut k: usize = end;
        while k < t.len()
            invariant
                end <= k <= t@.len(),
                n@ == t@.subrange(0, start as int) + ins@ + t@.subrange(end as int, k as int),
            decreases t@.len() - k,
        {
            n.push(t[k]);
            k += 1;
            assert(n@ =~= t@.subrange(0, start as int) + ins@ + t@.subrange(end as int, k as int));
        }
        *self = SegmentBuffer::from_tagged(&n);
        proof {
            self.lemma_view();
        }
        Ok(())
    }

    /// The buffer covering bytes `range.start .. range.end`; segments keep their
    /// boundaries within the range.
    pub fn slice(&self, range: Range<TextPosition>) -> (r: Result<SegmentBuffer, ErrorKind>)
        requires
            self.wf(),
        ensures
            range.start <= range.end <= self@.len() <==> r.is_ok(),
            r is Err ==> r == Err::<SegmentBuffer, ErrorKind>(ErrorKind::SliceOutOfRange),
            r matches Ok(b) ==> b.wf() && b@ == self@.subrange(
                range.start as int,
                range.end as int,
            ),
            r matches Ok(b) ==> seg_view(b.segs()) == slice_pieces(
                seg_view(self.segs()),
                range.start as int,
                range.end as int,
            ),
    {
        proof {
            self.lemma_view();
        }
        let start = range.start;
        let end = range.end;
        if start > end || end > self.len {
            return Err(ErrorKind::SliceOutOfRange);
        }
        let s = segments_as_slice(&self.segments);
        let mut out: Vec<Segment> = Vec::new();
        let mut off: usize = 0;
        let mut i: usize = 0;
        while i < s.len()
            invariant
                s@ == self.segs(),
                i <= s@.len(),
                start <= end <= self.len == flat(s@).len(),
                off == flat(s@.subrange(0, i as int)).len(),
                flat(out@) == flat(s@.subrange(0, i as int)).subrange(
                    if start < off { start as int } else { off as int },
                    if end < off { end as int } else { off as int },
                ),
                seg_view(out@) == slice_pieces(seg_view(s@.subrange(0, i as int)), start as int, end as int),
            decreases s@.len() - i,
        {
            let ghost pre = s@.subrange(0, i as int);
            let b = bytes_as_slice(&s[i].1);
            let l = b.len();
            proof {
                lemma_flat_push(pre, s@[i as int]);
                assert(s@.subrange(0, i + 1) =~= pre.push(s@[i as int]));
                lemma_flat_prefix_len(s@, i + 1);
                assert(seg_view(s@.subrange(0, i + 1)).drop_last() =~= seg_view(pre));
                lemma_piece_offset(pre);
                lemma_flat_len(pre);
            }
            let ghost sv = seg_view(out@);
            let lo = if start <= off {
                0
            } else if start - off < l {
                start - off
            } else {
                l
            };
            let hi = if end <= off {
                0
            } else if end - off < l {
                end - off
            } else {
                l
            };
            if lo < hi {
                let seg = Segment(s[i].0, bytes_from_vec(copy_range(b, lo, hi)));
                proof {
                    lemma_flat_push(out@, seg);
                }
                out.push(seg);
                assert(seg_view(out@) =~= sv.push((seg.0, bytes_of(seg.1))));
            } else {
                assert(seg_view(out@) =~= sv);
            }
            let ghost a = flat(pre);
            let ghost c = segment_text(s@[i as int]);
            let ghost o2 = off + l;
            assert(flat(out@) =~= (a + c).subrange(
                if start < o2 { start as int } else { o2 as int },
                if end < o2 { end as int } else { o2 as int },
            ));
            off = off + l;
            i += 1;
        }
        assert(s@.subrange(0, i as int) =~= s@);
        proof {
            lemma_flat_len(out@);
        }
        Ok(SegmentBuffer { segments: segments_from_vec(out), len: end - start })
    }
}

proof fn lemma_total_prefix(s: Seq<Segment>, i: int)
    requires
        0 <= i <= s.len(),
    ensures
        total_len(s.subrange(0, i)) <= total_len(s),
    decreases s.len() - i,
{
    if i < s.len() {
        lemma_total_prefix(s, i + 1);
        lemma_flat_push(s.subrange(0, i), s[i]);
        assert(s.subrange(0, i + 1) =~= s.subrange(0, i).push(s[i]));
    } else {
        assert(s.subrange(0, i) =~= s);
    }
}

proof fn lemma_flat_prefix_len(s: Seq<Segment>, i: int)
    requires
        0 <= i <= s.len(),
    ensures
        flat(s.subrange(0, i)).len() <= flat(s).len(),
{
    lemma_total_prefix(s, i);
    lemma_flat_len(s.subrange(0, i));
    lemma_flat_len(s);
}

} // verus!
