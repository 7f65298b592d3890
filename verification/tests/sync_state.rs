use stitch::hlc::{PeerId, PEER_ID_LEN};
use stitch::lww::Op;
use stitch::replog::{Cursors, RecordOutcome};
use stitch::sync_state::SyncState;


fn peer(n: u8) -> PeerId {
    let mut id = [0u8; PEER_ID_LEN];
    id[0] = n;
    id
}

#[test]
fn local_write_is_visible_and_broadcastable() {
    let mut s = SyncState::new(peer(1));
    let frame = s.local_write(100, Op::Insert, "task", "t1", b"hi".to_vec());
    assert_eq!(frame.seq, 1);
    assert_eq!(s.visible("task", "t1"), Some(&b"hi"[..]));
}

#[test]
fn receive_applies_remote_write() {
    let mut a = SyncState::new(peer(1));
    let mut b = SyncState::new(peer(2));
    let f = a.local_write(100, Op::Insert, "task", "t1", b"from-a".to_vec());
    assert_eq!(b.receive(f, 50), RecordOutcome::Appended);
    assert_eq!(b.visible("task", "t1"), Some(&b"from-a"[..]));
}

#[test]
fn receiving_advances_clock_past_remote() {
    let mut a = SyncState::new(peer(1));
    let mut b = SyncState::new(peer(2));
    let f = a.local_write(1000, Op::Insert, "task", "t1", b"x".to_vec());
    b.receive(f, 10);
    let later = b.local_write(10, Op::Update, "task", "t1", b"y".to_vec());
    assert!(later.stamp.hlc.physical >= 1000);
}

#[test]
fn reclaim_waits_for_lagging_member_then_truncates() {
    let mut a = SyncState::new(peer(1));
    a.local_write(1, Op::Insert, "task", "t1", b"a".to_vec());
    a.local_write(2, Op::Insert, "task", "t2", b"b".to_vec());

    // No cursor heard from peer 2 → low-water-mark 0 → nothing reclaimed.
    assert_eq!(a.reclaim(&[peer(2)]), 0);

    // Peer 2 reports it has both of peer 1's writes.
    let mut cursors = Cursors::new();
    cursors.insert(peer(1), 2);
    a.note_peer_cursors(peer(2), cursors);

    assert_eq!(
        a.reclaim(&[peer(2)]),
        2,
        "both delivered everywhere → reclaim"
    );
    // Visible state is retained; only the log prefix is dropped.
    assert_eq!(a.visible("task", "t1"), Some(&b"a"[..]));
    assert_eq!(a.visible("task", "t2"), Some(&b"b"[..]));
    // The clock/seq continuity survives reclamation.
    let next = a.local_write(3, Op::Insert, "task", "t3", b"c".to_vec());
    assert_eq!(next.seq, 3);
}

#[test]
fn reclaim_truncates_only_to_the_slowest_member() {
    let mut a = SyncState::new(peer(1));
    for i in 1..=3u64 {
        a.local_write(i, Op::Insert, "task", &format!("t{i}"), vec![i as u8]);
    }
    let mut fast = Cursors::new();
    fast.insert(peer(1), 3);
    let mut slow = Cursors::new();
    slow.insert(peer(1), 1);
    a.note_peer_cursors(peer(2), fast);
    a.note_peer_cursors(peer(3), slow);

    // Low-water-mark is the slow member's cursor (1).
    assert_eq!(a.reclaim(&[peer(2), peer(3)]), 1);
}
