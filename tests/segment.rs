use ot_engine::segment::{Segment, SegmentBuffer};
use ot_engine::ErrorKind;

fn seg(user: u16, bytes: &[u8]) -> Segment {
    Segment::new(user, bytes.to_vec())
}

#[test]
fn simple() {
    let mut buf = SegmentBuffer::new(vec![seg(1, &[1, 2]), seg(1, &[3, 4])]);
    buf.compact();
    assert_eq!(buf, SegmentBuffer::new(vec![seg(1, &[1, 2, 3, 4])]));
}

#[test]
fn single() {
    let mut buf = SegmentBuffer::new(vec![seg(1, &[1, 2]), seg(1, &[3, 4]), seg(2, &[5])]);
    buf.compact();
    assert_eq!(
        buf,
        SegmentBuffer::new(vec![seg(1, &[1, 2, 3, 4]), seg(2, &[5])])
    );
}

#[test]
fn first() {
    let input = SegmentBuffer::new(vec![seg(1, &[1, 2, 3, 4])]);
    assert_eq!(input.slice(0..4).unwrap(), input);

    let input = SegmentBuffer::new(vec![seg(1, &[1, 2, 3, 4])]);
    assert_eq!(input.slice(0..4).unwrap(), input);
}

#[test]
fn part() {
    let input = SegmentBuffer::new(vec![seg(1, &[1, 2, 3, 4])]);
    assert_eq!(
        input.slice(0..3).unwrap(),
        SegmentBuffer::new(vec![seg(1, &[1, 2, 3])])
    );

    let input = SegmentBuffer::new(vec![seg(1, &[1, 2, 3, 4])]);
    assert_eq!(
        input.slice(1..4).unwrap(),
        SegmentBuffer::new(vec![seg(1, &[2, 3, 4])])
    );
}

#[test]
fn two() {
    let input = SegmentBuffer::new(vec![seg(1, &[1, 2, 3, 4]), seg(1, &[5, 6, 7, 8])]);
    assert_eq!(
        input.slice(2..6).unwrap(),
        SegmentBuffer::new(vec![seg(1, &[3, 4]), seg(1, &[5, 6])])
    );

    let input = SegmentBuffer::new(vec![seg(1, &[1, 2, 3, 4]), seg(1, &[5, 6, 7, 8])]);
    assert_eq!(input.slice(0..8).unwrap(), input);
}

#[test]
fn insert_start() {
    let mut buf = SegmentBuffer::new(vec![seg(1, &[1, 2, 3, 4])]);
    buf.splice(0..0, Some(SegmentBuffer::new(vec![seg(2, &[5])])))
        .unwrap();
    assert_eq!(
        buf,
        SegmentBuffer::new(vec![seg(2, &[5]), seg(1, &[1, 2, 3, 4])])
    )
}

#[test]
fn insert_end() {
    let mut buf = SegmentBuffer::new(vec![seg(1, &[1, 2, 3, 4])]);
    let len = buf.len();
    buf.splice(len..len, Some(SegmentBuffer::new(vec![seg(2, &[5])])))
        .unwrap();
    assert_eq!(
        buf,
        SegmentBuffer::new(vec![seg(1, &[1, 2, 3, 4]), seg(2, &[5])])
    )
}

#[test]
fn insert_middle() {
    let mut buf = SegmentBuffer::new(vec![seg(1, &[1, 2, 3, 4])]);
    buf.splice(2..2, Some(SegmentBuffer::new(vec![seg(2, &[5])])))
        .unwrap();
    assert_eq!(
        buf,
        SegmentBuffer::new(vec![seg(1, &[1, 2]), seg(2, &[5]), seg(1, &[3, 4])])
    )
}

#[test]
fn replace_middle() {
    let mut buf = SegmentBuffer::new(vec![seg(1, &[1, 2, 3, 4])]);
    buf.splice(2..3, Some(SegmentBuffer::new(vec![seg(2, &[5])])))
        .unwrap();
    assert_eq!(
        buf,
        SegmentBuffer::new(vec![seg(1, &[1, 2]), seg(2, &[5]), seg(1, &[4])])
    )
}

#[test]
fn replace_middle_overlap() {
    let mut buf = SegmentBuffer::new(vec![seg(1, &[1, 2]), seg(1, &[3, 4])]);
    buf.splice(1..3, Some(SegmentBuffer::new(vec![seg(2, &[5])])))
        .unwrap();
    assert_eq!(
        buf,
        SegmentBuffer::new(vec![seg(1, &[1]), seg(2, &[5]), seg(1, &[4])])
    )
}

#[test]
fn compact_then_splice() {
    let mut buf = SegmentBuffer::new(vec![seg(1, b"ab"), seg(1, b"cd"), seg(2, b"e")]);
    buf.compact();
    assert_eq!(buf, SegmentBuffer::new(vec![seg(1, b"abcd"), seg(2, b"e")]));
    buf.splice(0..2, Some(SegmentBuffer::new(vec![seg(2, b"X")])))
        .unwrap();
    assert_eq!(
        buf,
        SegmentBuffer::new(vec![seg(2, b"X"), seg(1, b"cd"), seg(2, b"e")])
    );
}

#[test]
fn compact_twice_is_compact_once() {
    let mut buf = SegmentBuffer::new(vec![seg(1, b"a"), seg(2, b""), seg(1, b"b"), seg(3, b"c")]);
    buf.compact();
    let once = buf.segments();
    buf.compact();
    assert_eq!(buf.segments(), once);
    assert_eq!(once, vec![(1, b"ab".to_vec()), (3, b"c".to_vec())]);
}

#[test]
fn length_is_sum_after_splice() {
    let mut buf = SegmentBuffer::new(vec![seg(1, b"hello"), seg(2, b"world")]);
    buf.splice(3..7, Some(SegmentBuffer::new(vec![seg(3, b"__")])))
        .unwrap();
    let total: usize = buf.segments().iter().map(|(_, b)| b.len()).sum();
    assert_eq!(buf.len(), total);
    assert_eq!(buf.text(), b"hel__rld".to_vec());
    let segs = buf.segments();
    for w in segs.windows(2) {
        assert_ne!(w[0].0, w[1].0);
    }
}

#[test]
fn slice_and_splice_out_of_range() {
    let mut buf = SegmentBuffer::new(vec![seg(1, b"abc")]);
    assert_eq!(buf.slice(1..4), Err(ErrorKind::SliceOutOfRange));
    assert_eq!(buf.slice(2..1), Err(ErrorKind::SliceOutOfRange));
    assert_eq!(buf.splice(2..5, None), Err(ErrorKind::SpliceOutOfRange));
    assert_eq!(buf.text(), b"abc".to_vec());
}

#[test]
fn empty_buffer() {
    let mut buf = SegmentBuffer::new(vec![]);
    assert!(buf.is_empty());
    assert_eq!(buf.len(), 0);
    buf.compact();
    assert!(buf.is_empty());
    assert_eq!(buf.slice(0..0).unwrap().len(), 0);
}
