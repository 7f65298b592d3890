use stitch::hlc::{Hlc, PeerId, Stamp, PEER_ID_LEN};
use stitch::lww::Op;
use stitch::replog::{Cursors, RecordOutcome, ReplLog};
use stitch::wire::WriteFrame;


fn peer(n: u8) -> PeerId {
    let mut id = [0u8; PEER_ID_LEN];
    id[0] = n;
    id
}

fn frame(origin: u8, seq: u64) -> WriteFrame {
    WriteFrame {
        stamp: Stamp::new(Hlc::new(seq, 0), peer(origin)),
        seq,
        op: Op::Insert,
        entity: "task".into(),
        id: format!("t{seq}"),
        data: vec![origin],
        signature: None,
    }
}

#[test]
fn next_seq_advances_with_records() {
    let mut log = ReplLog::new(peer(1));
    assert_eq!(log.next_seq(&peer(1)), 1);
    log.record(frame(1, 1));
    assert_eq!(log.next_seq(&peer(1)), 2);
    log.record(frame(1, 2));
    assert_eq!(log.next_seq(&peer(1)), 3);
}

#[test]
fn truncate_drops_prefix_and_preserves_cursor() {
    let mut log = ReplLog::new(peer(1));
    log.record(frame(2, 1));
    log.record(frame(2, 2));
    log.record(frame(2, 3));

    assert_eq!(log.truncate(&peer(2), 2), 2);
    assert_eq!(log.cursor_for(&peer(2)), 3, "cursor unchanged after truncate");
    assert_eq!(log.next_seq(&peer(2)), 4);

    let mut from2 = Cursors::new();
    from2.insert(peer(2), 2);
    assert_eq!(log.delta_since(&from2).len(), 1, "only seq 3 remains to serve");

    assert_eq!(
        log.record(frame(2, 4)),
        RecordOutcome::Appended,
        "log keeps accepting in order after truncation"
    );
}

#[test]
fn truncate_is_idempotent_and_bounded() {
    let mut log = ReplLog::new(peer(1));
    log.record(frame(2, 1));
    assert_eq!(log.truncate(&peer(2), 5), 1, "clamps to available frames");
    assert_eq!(log.truncate(&peer(2), 1), 0, "already at or below base");
}

#[test]
fn record_appends_in_order() {
    let mut log = ReplLog::new(peer(1));
    assert_eq!(log.record(frame(2, 1)), RecordOutcome::Appended);
    assert_eq!(log.record(frame(2, 2)), RecordOutcome::Appended);
    assert_eq!(log.cursor_for(&peer(2)), 2);
}

#[test]
fn record_rejects_gap() {
    let mut log = ReplLog::new(peer(1));
    log.record(frame(2, 1));
    assert_eq!(
        log.record(frame(2, 3)),
        RecordOutcome::Gap { expected: 2, got: 3 }
    );
    assert_eq!(log.cursor_for(&peer(2)), 1);
}

#[test]
fn record_treats_old_seq_as_duplicate() {
    let mut log = ReplLog::new(peer(1));
    log.record(frame(2, 1));
    log.record(frame(2, 2));
    assert_eq!(log.record(frame(2, 1)), RecordOutcome::Duplicate);
    assert_eq!(log.record(frame(2, 2)), RecordOutcome::Duplicate);
}

#[test]
fn delta_since_returns_only_unseen() {
    let mut server = ReplLog::new(peer(2));
    server.record(frame(2, 1));
    server.record(frame(2, 2));
    server.record(frame(3, 1));

    let mut their = Cursors::new();
    their.insert(peer(2), 1);
    let delta = server.delta_since(&their);
    assert_eq!(delta.len(), 2);
    assert!(delta.iter().any(|f| f.stamp.peer == peer(2) && f.seq == 2));
    assert!(delta.iter().any(|f| f.stamp.peer == peer(3) && f.seq == 1));
}

#[test]
fn delta_since_empty_cursor_returns_everything() {
    let mut server = ReplLog::new(peer(2));
    server.record(frame(2, 1));
    server.record(frame(3, 1));
    let delta = server.delta_since(&Cursors::new());
    assert_eq!(delta.len(), 2);
}
