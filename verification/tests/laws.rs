use stitch::assoc::Assoc;
use stitch::bytes::{bytes_less, get_be, put_be};
use stitch::config::{ScopeConfig, StoreConfig, TopLevelEntity};
use stitch::discovery::{peer_id_from_fingerprint, Connected};
use stitch::hlc::{Hlc, PeerId, Stamp, PEER_ID_LEN};
use stitch::json::{merge_fields, Record, Value};
use stitch::lww::{Applier, MergeOutcome, Op, StampedWrite};
use stitch::persistence::frame_key;
use stitch::replog::{Cursors, RecordOutcome, ReplLog};
use stitch::sync_state::SyncState;
use stitch::text::{after_prefix, parse_hex_byte, split, split_once, to_hex};
use stitch::wire::{WireError, WriteFrame};

fn peer(n: u8) -> PeerId {
    let mut id = [0u8; PEER_ID_LEN];
    id[0] = n;
    id
}

fn frame(origin: u8, seq: u64) -> WriteFrame {
    WriteFrame {
        stamp: Stamp::new(Hlc::new(seq * 10, 0), peer(origin)),
        seq,
        op: Op::Insert,
        entity: "task".to_string(),
        id: format!("t{seq}"),
        data: vec![seq as u8],
        signature: None,
    }
}

#[test]
fn clocks_refuse_to_overflow() {
    let full = Hlc::new(u64::MAX, u32::MAX);
    assert!(!full.check_tick(5));
    assert!(!Hlc::new(0, 0).check_observe(full, 5));
    assert!(Hlc::new(5, u32::MAX).check_tick(6));
    assert!(!Hlc::new(5, u32::MAX).check_tick(5));
    let mut clock = Hlc::new(5, u32::MAX);
    assert_eq!(clock.tick(6), Hlc::new(6, 0));
}

#[test]
fn merging_is_idempotent_and_commutes() {
    let write = |seq: u64, p: u8, data: &[u8]| StampedWrite {
        stamp: Stamp::new(Hlc::new(seq, 0), peer(p)),
        op: Op::Insert,
        entity: "task".to_string(),
        id: "a".to_string(),
        data: data.to_vec(),
    };
    let mut applier = Applier::new();
    assert_eq!(applier.merge(write(1, 1, b"x")), MergeOutcome::Applied);
    assert_eq!(applier.merge(write(1, 1, b"x")), MergeOutcome::Stale);
    assert_eq!(applier.merge(write(2, 1, b"y")), MergeOutcome::Applied);
    assert_eq!(applier.merge(write(1, 9, b"z")), MergeOutcome::Stale);
    assert_eq!(applier.visible("task", "a"), Some(&b"y"[..]));
    assert_eq!(
        applier.visible_with_author("task", "a"),
        Some((b"y".to_vec(), peer(1)))
    );
    assert_eq!(applier.visible_entity("task"), vec![("a".to_string(), b"y".to_vec())]);
    assert_eq!(applier.entries_with_authors("task").len(), 1);
    assert!(!applier.collect_tombstone("task", "a"), "a live record stays");
}

#[test]
fn a_delta_catches_up_after_truncation() {
    let mut server = ReplLog::new(peer(1));
    for seq in 1..=4 {
        assert_eq!(server.record(frame(1, seq)), RecordOutcome::Appended);
    }
    let mut client = ReplLog::new(peer(2));
    client.record(frame(1, 1));
    client.record(frame(1, 2));
    assert_eq!(server.truncate(&peer(1), 2), 2);
    assert_eq!(server.cursor_for(&peer(1)), 4);
    assert_eq!(server.base_of(&peer(1)), 2);
    for missing in server.delta_since(&client.cursors()) {
        assert_eq!(client.record(missing), RecordOutcome::Appended);
    }
    assert_eq!(client.cursor_for(&peer(1)), 4);
    assert!(server.delta_since(&client.cursors()).is_empty());
    assert_eq!(client.record(frame(1, 4)), RecordOutcome::Duplicate);
    assert_eq!(client.record(frame(1, 9)), RecordOutcome::Gap { expected: 5, got: 9 });
}

#[test]
fn an_unheard_member_blocks_reclaiming() {
    let mut state = SyncState::new(peer(1));
    state.local_write(1, Op::Insert, "task", "t1", b"x".to_vec());
    let mut heard = Cursors::new();
    heard.insert(peer(1), 1);
    state.note_peer_cursors(peer(2), heard);
    assert_eq!(state.reclaim(&[peer(2), peer(3)]), 0);
    assert_eq!(state.reclaim(&[peer(2)]), 1);
}

#[test]
fn receiving_twice_changes_nothing() {
    let mut a = SyncState::new(peer(1));
    let mut b = SyncState::new(peer(2));
    let frame = a.local_write(5, Op::Insert, "task", "t1", b"x".to_vec());
    assert_eq!(b.receive(frame.clone(), 5), RecordOutcome::Appended);
    assert_eq!(b.receive(frame, 5), RecordOutcome::Duplicate);
    assert_eq!(b.take_events().len(), 1);
    assert_eq!(b.entries_with_authors("task").len(), 1);
}

#[test]
fn replaying_restores_the_clock() {
    let mut state = SyncState::new(peer(1));
    let written = state.local_write(900, Op::Insert, "task", "t1", b"x".to_vec());
    let mut again = SyncState::new(peer(1));
    assert!(again.check_replay(&written));
    again.replay(written);
    assert_eq!(again.visible("task", "t1"), Some(&b"x"[..]));
    let next = again.local_write(1, Op::Update, "task", "t1", b"y".to_vec());
    assert_eq!(next.seq, 2);
    assert!(next.stamp.hlc.physical >= 900);
    assert!(again.take_unsaved().is_empty(), "nothing is saved before it is durable");
}

#[test]
fn every_wire_error_has_an_input() {
    let good = frame(1, 1).encode().unwrap();
    assert_eq!(WriteFrame::decode(&good), Ok(frame(1, 1)));
    let mut long = frame(1, 1);
    long.entity = "e".repeat(256);
    assert_eq!(long.encode(), Err(WireError::EntityTooLong));
    let mut long = frame(1, 1);
    long.id = "i".repeat(256);
    assert_eq!(long.encode(), Err(WireError::IdTooLong));
    assert_eq!(long.signing_bytes(), Err(WireError::IdTooLong));

    let mut flagged = good.clone();
    *flagged.last_mut().unwrap() = 7;
    assert_eq!(WriteFrame::decode(&flagged), Err(WireError::BadSignatureFlag(7)));
    let at = good.windows(4).position(|w| w == b"task").unwrap();
    let mut broken = good.clone();
    broken[at] = 0xFF;
    assert_eq!(WriteFrame::decode(&broken), Err(WireError::Utf8));
    for cut in 0..good.len() {
        match WriteFrame::decode(&good[..cut]) {
            Err(WireError::Truncated { need, have }) => {
                assert_eq!(have, cut);
                assert!(cut < need && need <= good.len());
            }
            _ => panic!("a cut frame is truncated"),
        }
    }
    assert_eq!(frame(1, 1).encoded_len(), good.len());
    assert_eq!(
        WireError::Truncated { need: 12, have: 3 }.message(),
        "frame truncated: need 12 bytes, have 3"
    );
    assert_eq!(WireError::BadVersion(9).message(), "unsupported wire version 9");
    assert_eq!(WireError::BadOp(9).message(), "unknown op discriminant 9");
    assert_eq!(
        WireError::BadSignatureFlag(9).message(),
        "invalid signature presence flag 9"
    );
    assert_eq!(WireError::Utf8.message(), "entity or id is not valid UTF-8");
}

#[test]
fn text_in_frames_may_be_any_utf8() {
    let mut odd = frame(1, 1);
    odd.entity = "täsk".to_string();
    odd.id = "日本".to_string();
    let bytes = odd.encode().unwrap();
    assert_eq!(WriteFrame::decode(&bytes), Ok(odd));
}

#[test]
fn of_two_peers_exactly_one_dials() {
    for (a, b) in [("a", "b"), ("peer-9", "peer-10"), ("x", "xy")] {
        let (mut from_a, mut from_b) = (Connected::new(), Connected::new());
        assert_ne!(from_a.claim(a, b), from_b.claim(b, a));
    }
    let mut connected = Connected::new();
    assert!(!connected.claim("a", "a"));
    assert!(connected.claim("b", "a"), "the larger id dials");
    assert!(!connected.claim("b", "a"), "but only once");
    connected.release("a");
    assert!(connected.claim("b", "a"));
    connected.release("a");
    connected.accepted("a");
    assert!(!connected.claim("b", "a"));
}

#[test]
fn fingerprint_bytes_take_no_sign() {
    let mut parts = vec!["00"; 32];
    parts[5] = "+1";
    let text = format!("sha256:{}", parts.join(":"));
    assert_eq!(peer_id_from_fingerprint(&text), None);
    parts[5] = "F";
    let text = format!("sha256:{}", parts.join(":"));
    assert_eq!(peer_id_from_fingerprint(&text).unwrap()[5], 15);
}

#[test]
fn fields_are_merged() {
    let mut before = Record::new();
    before.insert("a".to_string(), Value::text("1"));
    before.insert("b".to_string(), Value::text("2"));
    let mut added = Record::new();
    added.insert("b".to_string(), Value::Null);
    added.insert("c".to_string(), Value::boolean(true));
    let merged = merge_fields(Some(Value::object(before)), added.clone());
    assert_eq!(merged.len(), 3);
    assert_eq!(merged.get_str("a"), Some("1"));
    assert!(merged.get("b").unwrap().is_null());
    assert_eq!(merge_fields(Some(Value::text("x")), added.clone()).len(), 2);
    assert_eq!(merge_fields(None, added).len(), 2);
}

#[test]
fn json_numbers_keep_their_range() {
    assert_eq!(Value::integer(-5).as_i64(), Some(-5));
    assert_eq!(Value::integer(-5).as_u64(), None);
    assert_eq!(Value::integer(5).as_u64(), Some(5));
    let big = Value::Number(stitch::json::Number::Unsigned(u64::MAX));
    assert_eq!(big.as_i64(), None);
    assert_eq!(big.as_u64(), Some(u64::MAX));
}

#[test]
fn records_hold_each_key_once() {
    let mut record = Record::new();
    record.insert("k".to_string(), Value::text("1"));
    record.insert("k".to_string(), Value::text("2"));
    assert_eq!(record.len(), 1);
    assert_eq!(record.remove("k").unwrap().as_str(), Some("2"));
    assert!(record.remove("k").is_none());
}

#[test]
fn maps_hold_each_key_once() {
    let mut map: Assoc<PeerId, u64> = Assoc::new();
    map.insert(peer(1), 1);
    map.insert(peer(2), 2);
    map.insert(peer(1), 3);
    assert_eq!(map.len(), 2);
    assert_eq!(map.get(&peer(1)), Some(&3));
    assert_eq!(map.remove(&peer(1)), Some(3));
    assert_eq!(map.remove(&peer(1)), None);
    assert_eq!(map.pop_first(), (peer(2), 2));
}

#[test]
fn entities_have_places() {
    let config = StoreConfig {
        scope: ScopeConfig {
            root_entity: "project".to_string(),
            child_entities: vec!["task".to_string()],
            scope_field: "projectId".to_string(),
        },
        top_level_entities: vec![TopLevelEntity {
            entity: "user".to_string(),
            subscription_pattern: "u".to_string(),
        }],
        version_field: "v".to_string(),
        updated_at_field: "u".to_string(),
        sync_topic_prefix: "$DB".to_string(),
        response_topic_prefix: "r".to_string(),
        event_channel_capacity: 1,
        clean_start: true,
        session_expiry_secs: 0,
    };
    assert!(config.root("project") && !config.root("task"));
    assert!(config.child("task") && !config.child("user"));
    assert!(config.top_level("user") && !config.top_level("project"));
    assert!(config.scoped("task") && config.scoped("unknown") && !config.scoped("user"));
    let mut all = config.all_scoped_entities();
    all.sort();
    assert_eq!(all, vec!["project", "task", "user"]);
}

#[test]
fn text_is_taken_apart() {
    assert_eq!(split("a//b", '/'), vec!["a", "", "b"]);
    assert_eq!(split("", '/'), vec![""]);
    assert_eq!(split_once("a b c", ' '), Some(("a", "b c")));
    assert_eq!(split_once("abc", ' '), None);
    assert_eq!(after_prefix("sha256:ab", "sha256:"), Some("ab"));
    assert_eq!(after_prefix("sha", "sha256:"), None);
    assert_eq!(parse_hex_byte("fF"), Some(255));
    assert_eq!(parse_hex_byte("100"), None);
    assert_eq!(parse_hex_byte(""), None);
    assert_eq!(to_hex(&[0, 0xAB]), "00ab");
}

#[test]
fn numbers_are_big_endian() {
    let mut out = vec![9];
    put_be(&mut out, 0x0102_0304, 4);
    assert_eq!(out, vec![9, 1, 2, 3, 4]);
    assert_eq!(get_be(&out, 1, 4), 0x0102_0304);
    assert!(bytes_less(&[1, 2], &[1, 2, 0]));
    assert!(bytes_less(&[1, 2, 9], &[1, 3]));
    assert!(!bytes_less(&[1], &[1]));
}

#[test]
fn keys_order_by_origin_then_sequence() {
    assert!(frame_key(&frame(1, 900)) < frame_key(&frame(2, 1)));
    assert!(frame_key(&frame(2, 1)) < frame_key(&frame(2, 256)));
    assert!(frame_key(&frame(2, 256)) < frame_key(&frame(3, 1)));
}
