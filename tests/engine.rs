use ot_engine::op::delete::Delete;
use ot_engine::op::insert::Insert;
use ot_engine::op::Operation;
use ot_engine::recon::Recon;
use ot_engine::request::dor::DoRequest;
use ot_engine::request::redo::RedoRequest;
use ot_engine::request::undo::UndoRequest;
use ot_engine::request::Request;
use ot_engine::segment::{Segment, SegmentBuffer};
use ot_engine::vector::StateVector;
use ot_engine::{ConcurrentOrder, ErrorKind, State};

const A: u16 = 1;
const B: u16 = 2;

fn buf(user: u16, text: &[u8]) -> SegmentBuffer {
    SegmentBuffer::new(vec![Segment::new(user, text.to_vec())])
}

fn vector(a: usize, b: usize) -> StateVector {
    let mut v = StateVector::new();
    v.set(A, a);
    v.set(B, b);
    v
}

fn insert(user: u16, at: (usize, usize), pos: usize, text: &[u8]) -> Request {
    Request::Do(DoRequest::new(
        user,
        vector(at.0, at.1),
        Operation::Insert(Insert::new(pos, buf(user, text))),
    ))
}

fn delete(user: u16, at: (usize, usize), pos: usize, text: &[u8], owner: u16) -> Request {
    Request::Do(DoRequest::new(
        user,
        vector(at.0, at.1),
        Operation::Delete(Delete::reversible(pos, buf(owner, text), Recon::new())),
    ))
}

fn undo(user: u16, at: (usize, usize)) -> Request {
    Request::Undo(UndoRequest { user, vector: vector(at.0, at.1) })
}

fn redo(user: u16, at: (usize, usize)) -> Request {
    Request::Redo(RedoRequest { user, vector: vector(at.0, at.1) })
}

fn run(initial: &[u8], requests: Vec<Request>) -> (State, Vec<ErrorKind>) {
    let mut state = State::new(buf(A, initial));
    let mut errors = Vec::new();
    for r in requests {
        errors.extend(state.submit(r));
    }
    (state, errors)
}

fn text(state: &State) -> Vec<u8> {
    state.current_buffer().text()
}

#[test]
fn concurrent_insert_tie_break() {
    let (ab, e1) = run(
        b"abc",
        vec![insert(A, (0, 0), 1, b"X"), insert(B, (0, 0), 1, b"Y")],
    );
    assert!(e1.is_empty());
    assert_eq!(text(&ab), b"aXYbc".to_vec());
    let (ba, e2) = run(
        b"abc",
        vec![insert(B, (0, 0), 1, b"Y"), insert(A, (0, 0), 1, b"X")],
    );
    assert!(e2.is_empty());
    assert_eq!(text(&ba), b"aXYbc".to_vec());
}

#[test]
fn insert_past_delete() {
    let (ab, _) = run(
        b"abcdef",
        vec![delete(A, (0, 0), 1, b"bcd", A), insert(B, (0, 0), 4, b"Z")],
    );
    assert_eq!(text(&ab), b"aZef".to_vec());
    let (ba, _) = run(
        b"abcdef",
        vec![insert(B, (0, 0), 4, b"Z"), delete(A, (0, 0), 1, b"bcd", A)],
    );
    assert_eq!(text(&ba), b"aZef".to_vec());
}

#[test]
fn delete_inside_delete() {
    let (ab, _) = run(
        b"abcde",
        vec![delete(A, (0, 0), 1, b"bcd", A), delete(B, (0, 0), 2, b"c", A)],
    );
    assert_eq!(text(&ab), b"ae".to_vec());
    let (ba, _) = run(
        b"abcde",
        vec![delete(B, (0, 0), 2, b"c", A), delete(A, (0, 0), 1, b"bcd", A)],
    );
    assert_eq!(text(&ba), b"ae".to_vec());

    // B's delete against A's: it removes nothing and keeps "c".
    let a = Operation::Delete(Delete::reversible(1, buf(A, b"bcd"), Recon::new()));
    let b = Operation::Delete(Delete::reversible(2, buf(A, b"c"), Recon::new()));
    match b.transform(&a, None).unwrap() {
        Operation::Delete(d) => {
            assert_eq!(d.position, 1);
            assert_eq!(d.len(), 0);
            let recs = d.recon.records();
            assert_eq!(recs.len(), 1);
            assert_eq!(recs[0].offset, 0);
            assert_eq!(recs[0].buffer.text(), b"c".to_vec());
        }
        _ => panic!("expected a delete"),
    }
    // A's delete against B's: one delete of the outer bytes, "c" kept at offset 1.
    match a.transform(&b, None).unwrap() {
        Operation::Delete(d) => {
            assert_eq!(d.position, 1);
            assert_eq!(d.len(), 2);
            assert_eq!(d.buf().unwrap().text(), b"bd".to_vec());
            let recs = d.recon.records();
            assert_eq!(recs.len(), 1);
            assert_eq!(recs[0].offset, 1);
            assert_eq!(recs[0].buffer.text(), b"c".to_vec());
        }
        _ => panic!("expected a delete"),
    }
}

#[test]
fn selective_undo_of_overwritten_insert() {
    let (state, errors) = run(
        b"ab",
        vec![
            insert(A, (0, 0), 1, b"X"),
            delete(B, (1, 0), 0, b"aXb", A),
            undo(A, (1, 1)),
        ],
    );
    assert!(errors.is_empty());
    assert_eq!(state.log().len(), 3);
    assert_eq!(text(&state), Vec::<u8>::new());
    assert_eq!(state.current_vector().get(A), 2);
}

#[test]
fn undo_redo_fold() {
    let (state, errors) = run(
        b"ab",
        vec![
            insert(A, (0, 0), 1, b"X"),
            undo(A, (1, 0)),
            redo(A, (2, 0)),
            insert(B, (1, 0), 3, b"Y"),
        ],
    );
    assert!(errors.is_empty());
    assert_eq!(text(&state), b"aXbY".to_vec());
    assert_eq!(state.log().len(), 4);
    assert_eq!(state.current_vector().get(A), 3);
    assert_eq!(state.current_vector().get(B), 1);
}

#[test]
fn undo_then_redo_restores() {
    let (state, errors) = run(b"ab", vec![insert(A, (0, 0), 1, b"X"), undo(A, (1, 0))]);
    assert!(errors.is_empty());
    assert_eq!(text(&state), b"ab".to_vec());
    let (state, _) = run(
        b"ab",
        vec![insert(A, (0, 0), 1, b"X"), undo(A, (1, 0)), redo(A, (2, 0))],
    );
    assert_eq!(text(&state), b"aXb".to_vec());
}

#[test]
fn out_of_order_request_waits() {
    let mut state = State::new(buf(A, b"ab"));
    // B's request was stated after A's first insert, which has not arrived yet.
    let errors = state.submit(insert(B, (1, 0), 3, b"Y"));
    assert!(errors.is_empty());
    assert_eq!(text(&state), b"ab".to_vec());
    assert_eq!(state.log().len(), 0);
    let errors = state.submit(insert(A, (0, 0), 1, b"X"));
    assert!(errors.is_empty());
    assert_eq!(text(&state), b"aXbY".to_vec());
    assert_eq!(state.log().len(), 2);
}

#[test]
fn commit_out_of_order_is_refused() {
    let mut state = State::new(buf(A, b"ab"));
    assert_eq!(
        state.commit(insert(B, (1, 0), 0, b"Y")),
        Err(ErrorKind::OutOfOrderRequest)
    );
    assert_eq!(text(&state), b"ab".to_vec());
}

#[test]
fn undo_without_partner_is_dropped() {
    let (state, errors) = run(b"ab", vec![undo(A, (0, 0))]);
    assert_eq!(errors, vec![ErrorKind::MalformedUndoRedo]);
    assert_eq!(text(&state), b"ab".to_vec());
    assert_eq!(state.current_vector().get(A), 0);
}

#[test]
fn vector_never_decreases() {
    let mut state = State::new(buf(A, b"abc"));
    let mut last = (0, 0);
    for r in vec![
        insert(A, (0, 0), 0, b"1"),
        insert(B, (0, 0), 3, b"2"),
        undo(A, (1, 1)),
        insert(B, (2, 1), 0, b"3"),
    ] {
        state.submit(r);
        let now = (state.current_vector().get(A), state.current_vector().get(B));
        assert!(now.0 >= last.0 && now.1 >= last.1);
        last = now;
    }
}

#[test]
fn log_follows_happens_before() {
    let (state, _) = run(
        b"abc",
        vec![
            insert(B, (1, 0), 0, b"late"),
            insert(A, (0, 0), 0, b"early"),
        ],
    );
    let log = state.log();
    assert_eq!(log.len(), 2);
    assert_eq!(log[0].user(), A);
    assert_eq!(log[1].user(), B);
}

#[test]
fn association_finds_partners() {
    let log = vec![
        insert(A, (0, 0), 0, b"x"),
        insert(B, (0, 0), 0, b"y"),
        insert(A, (1, 1), 0, b"z"),
        undo(A, (2, 1)),
    ];
    // An undo takes back A's latest do; a second undo the one before.
    assert_eq!(undo(A, (2, 1)).associated_request(&log), Some(2));
    assert_eq!(undo(A, (3, 1)).associated_request(&log), Some(0));
    // A redo takes back the latest undo.
    assert_eq!(redo(A, (4, 1)).associated_request(&log), Some(3));
    // A do has no partner, nor an undo of a user without requests.
    assert_eq!(insert(A, (4, 1), 0, b"w").associated_request(&log), None);
    assert_eq!(undo(B, (0, 0)).associated_request(&log), None);
    assert_eq!(undo(B, (0, 1)).associated_request(&log), Some(1));
}

#[test]
fn reachability() {
    let (state, _) = run(
        b"ab",
        vec![insert(A, (0, 0), 1, b"X"), insert(B, (1, 0), 0, b"Y")],
    );
    assert!(state.reachable(&vector(1, 1)));
    assert!(state.reachable(&vector(1, 0)));
    // B's insert depends on A's, so B's step without A's is not reachable.
    assert!(!state.reachable(&vector(0, 1)));
}

#[test]
fn translate_to_current() {
    let (state, _) = run(
        b"abc",
        vec![insert(A, (0, 0), 1, b"X")],
    );
    let late = insert(B, (0, 0), 2, b"Y");
    let t = state.translate(&late, &vector(1, 0)).unwrap();
    match t {
        Request::Do(d) => {
            assert_eq!(d.user, B);
            assert_eq!(d.vector.get(A), 1);
            match d.operation {
                Operation::Insert(i) => assert_eq!(i.position, 3),
                _ => panic!("expected an insert"),
            }
        }
        _ => panic!("expected a do"),
    }
}

#[test]
fn insert_order_between_sessions() {
    assert_eq!(ot_engine::engine::session_order(1, 2), ConcurrentOrder::Other);
    assert_eq!(ot_engine::engine::session_order(2, 1), ConcurrentOrder::This);
}

#[test]
fn undo_through_dependent_delete_translates() {
    let (state, errors) = run(
        b"ab",
        vec![insert(A, (0, 0), 1, b"X"), delete(B, (1, 0), 0, b"aXb", A)],
    );
    assert!(errors.is_empty());
    let t = state.translate(&undo(A, (1, 1)), &vector(1, 1)).unwrap();
    match t {
        Request::Do(d) => {
            assert_eq!(d.user, A);
            assert_eq!(d.vector.get(A), 1);
            assert_eq!(d.vector.get(B), 1);
            match d.operation {
                Operation::Delete(del) => {
                    assert_eq!(del.position, 0);
                    assert_eq!(del.len(), 0);
                }
                _ => panic!("expected a delete"),
            }
        }
        _ => panic!("expected a do"),
    }
}

#[test]
fn stale_request_is_dropped() {
    let mut state = State::new(buf(A, b"ab"));
    assert!(state.submit(insert(A, (0, 0), 0, b"X")).is_empty());
    let errors = state.submit(insert(A, (0, 0), 0, b"Y"));
    assert_eq!(errors, vec![ErrorKind::StaleRequest]);
    assert_eq!(text(&state), b"Xab".to_vec());
    assert_eq!(state.log().len(), 1);
}
