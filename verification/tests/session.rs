use stitch::hlc::{PeerId, PEER_ID_LEN};
use stitch::lww::Op;
use stitch::membership::Identity;
use stitch::session::{
    hello, is_eof, now_millis, step, ReadFailure, SessionAction, SessionEvent, SyncMessage,
};
use stitch::sync_state::SyncState;

fn peer(n: u8) -> PeerId {
    let mut id = [0u8; PEER_ID_LEN];
    id[0] = n;
    id
}

fn inbound(state: &mut SyncState<Identity>, message: SyncMessage) -> SessionAction {
    step(state, SessionEvent::Inbound(message), 50)
}

#[test]
fn two_peers_converge_over_pipe() {
    let mut a = SyncState::new(peer(1));
    let mut b = SyncState::new(peer(2));

    a.local_write(10, Op::Insert, "task", "t1", b"from-a".to_vec());
    b.local_write(11, Op::Insert, "task", "t2", b"from-b".to_vec());

    let greeting = match step(&mut a, SessionEvent::Tick, 0) {
        SessionAction::Send(message) => message,
        _ => panic!("a tick greets"),
    };
    let answer = match inbound(&mut b, greeting) {
        SessionAction::Send(message) => message,
        _ => panic!("a greeting is answered"),
    };
    assert!(matches!(inbound(&mut a, answer), SessionAction::Continue));
    let answer = match inbound(&mut a, hello(&b)) {
        SessionAction::Send(message) => message,
        _ => panic!("a greeting is answered"),
    };
    assert!(matches!(inbound(&mut b, answer), SessionAction::Continue));

    assert_eq!(a.visible("task", "t2"), Some(&b"from-b"[..]));
    assert_eq!(b.visible("task", "t1"), Some(&b"from-a"[..]));
}

#[test]
fn write_after_connect_propagates() {
    let mut a = SyncState::new(peer(1));
    let mut b = SyncState::new(peer(2));
    let frame = a.local_write(
        now_millis(Some(1_700_000_000_000)),
        Op::Insert,
        "task",
        "late",
        b"v".to_vec(),
    );
    let pushed = match step(&mut a, SessionEvent::Local(frame), 0) {
        SessionAction::Send(message) => message,
        _ => panic!("a local write is pushed"),
    };
    assert!(matches!(inbound(&mut b, pushed), SessionAction::Continue));
    assert!(b.visible("task", "late").is_some());
}

#[test]
fn an_answer_holds_only_what_is_missing() {
    let mut a = SyncState::new(peer(1));
    let mut b = SyncState::new(peer(2));
    let first = a.local_write(1, Op::Insert, "task", "t1", b"1".to_vec());
    a.local_write(2, Op::Insert, "task", "t2", b"2".to_vec());
    b.receive(first, 1);
    match inbound(&mut a, hello(&b)) {
        SessionAction::Send(SyncMessage::Delta(frames)) => {
            assert_eq!(frames.len(), 1);
            assert_eq!(frames[0].seq, 2);
        }
        _ => panic!("a greeting is answered with a delta"),
    }
    // The greeting was noted: what both sides have can be reclaimed.
    assert_eq!(a.reclaim(&[peer(2)]), 1);
}

#[test]
fn sessions_end_as_they_should() {
    let mut state = SyncState::new(peer(1));
    assert!(matches!(
        step(&mut state, SessionEvent::ReadFailed(ReadFailure::UnexpectedEof), 0),
        SessionAction::Finish
    ));
    assert!(matches!(
        step(&mut state, SessionEvent::ReadFailed(ReadFailure::Other), 0),
        SessionAction::Fail
    ));
    assert!(matches!(
        step(&mut state, SessionEvent::OutboundClosed, 0),
        SessionAction::Finish
    ));
    assert!(is_eof(&ReadFailure::UnexpectedEof));
    assert!(!is_eof(&ReadFailure::Other));
}

#[test]
fn the_clock_stops_a_session_before_it_overflows() {
    let mut a = SyncState::new(peer(1));
    let mut b = SyncState::new(peer(2));
    let mut frame = a.local_write(1, Op::Insert, "task", "t1", b"1".to_vec());
    frame.stamp.hlc.physical = u64::MAX;
    frame.stamp.hlc.logical = u32::MAX;
    assert!(matches!(
        inbound(&mut b, SyncMessage::Delta(vec![frame])),
        SessionAction::ClockExhausted
    ));
    assert_eq!(b.visible("task", "t1"), None);
}

#[test]
fn clock_readings_are_clamped() {
    assert_eq!(now_millis(None), 0);
    assert_eq!(now_millis(Some(7)), 7);
    assert_eq!(now_millis(Some(u128::MAX)), u64::MAX);
}
