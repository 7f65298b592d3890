use serde_json::Value;
use stitch::hlc::{PeerId, PEER_ID_LEN};
use stitch::json;
use stitch::lww::Op;
use stitch::membership::{Identity, Role};
use stitch::persistence::{load_frames, stored_entry};
use stitch::session::{hello, step, SessionAction, SessionEvent, SyncMessage};
use stitch::store::Store;
use stitch::sync_state::WriteOrigin;
use stitch::wire::WriteFrame;

fn peer(n: u8) -> PeerId {
    let mut id = [0u8; PEER_ID_LEN];
    id[0] = n;
    id
}

fn object(pairs: &[(&str, Value)]) -> Value {
    let mut map = serde_json::Map::new();
    for (k, v) in pairs {
        map.insert((*k).to_string(), v.clone());
    }
    Value::Object(map)
}

fn put(store: &mut Store, now: u64, entity: &str, id: &str, record: &Value) -> WriteFrame {
    let bytes = serde_json::to_vec(record).unwrap();
    assert!(store.node().check_write(now, entity, id, &bytes));
    store.create(now, entity, id, bytes)
}

fn get(store: &Store, entity: &str, id: &str) -> Option<Value> {
    store.read(entity, id).map(|bytes| serde_json::from_slice(&bytes).unwrap())
}

fn list(store: &Store, entity: &str) -> Vec<Value> {
    store.list(entity).iter().map(|bytes| serde_json::from_slice(bytes).unwrap()).collect()
}

/// `to` pulls from `from` once.
fn pull(to: &mut Store, from: &mut Store) {
    let greeting = hello(to.node());
    let answer = match step(from.node_mut(), SessionEvent::Inbound(greeting), 1000) {
        SessionAction::Send(message) => message,
        _ => panic!("a greeting is answered"),
    };
    assert!(matches!(
        step(to.node_mut(), SessionEvent::Inbound(answer), 1000),
        SessionAction::Continue
    ));
}

fn sync(a: &mut Store, b: &mut Store) {
    pull(a, b);
    pull(b, a);
}

#[test]
fn create_read_round_trip() {
    let mut store = Store::new(peer(1));
    let record = object(&[("title", Value::from("hi")), ("done", Value::from(false))]);
    put(&mut store, 1, "task", "t1", &record);
    assert_eq!(get(&store, "task", "t1").unwrap(), record);
}

fn own(value: &Value) -> json::Value {
    match value {
        Value::Null => json::Value::Null,
        Value::Bool(b) => json::Value::boolean(*b),
        Value::Number(n) => json::Value::integer(n.as_i64().unwrap()),
        Value::String(s) => json::Value::text(s),
        Value::Array(items) => json::Value::array(items.iter().map(own).collect()),
        Value::Object(map) => {
            let mut record = json::Record::new();
            for (k, v) in map {
                record.insert(k.clone(), own(v));
            }
            json::Value::object(record)
        }
    }
}

fn theirs(value: &json::Value) -> Value {
    if let Some(text) = value.as_str() {
        return Value::from(text);
    }
    if let Some(number) = value.as_i64() {
        return Value::from(number);
    }
    if let Some(record) = value.as_object() {
        let mut map = serde_json::Map::new();
        for i in 0..record.len() {
            let (key, field) = record.at(i);
            map.insert(key.clone(), theirs(field));
        }
        return Value::Object(map);
    }
    match value {
        json::Value::Bool(b) => Value::from(*b),
        _ => Value::Null,
    }
}

#[test]
fn update_merges_fields() {
    let mut store = Store::new(peer(1));
    put(
        &mut store,
        1,
        "task",
        "t1",
        &object(&[("title", Value::from("hi")), ("done", Value::from(false))]),
    );
    let mut fields = json::Record::new();
    fields.insert("done".to_string(), json::Value::boolean(true));
    let existing = get(&store, "task", "t1").map(|v| own(&v));
    let merged = theirs(&json::Value::object(json::merge_fields(existing, fields)));
    store.update(2, "task", "t1", serde_json::to_vec(&merged).unwrap());
    assert_eq!(
        get(&store, "task", "t1").unwrap(),
        object(&[("title", Value::from("hi")), ("done", Value::from(true))])
    );
}

#[test]
fn store_delete_removes_record() {
    let mut store = Store::new(peer(1));
    put(&mut store, 1, "task", "t1", &object(&[("x", Value::from(1))]));
    store.delete(2, "task", "t1");
    assert_eq!(get(&store, "task", "t1"), None);
}

#[test]
fn list_returns_visible_records() {
    let mut store = Store::new(peer(1));
    put(&mut store, 1, "task", "t1", &object(&[("n", Value::from(1))]));
    put(&mut store, 2, "task", "t2", &object(&[("n", Value::from(2))]));
    put(&mut store, 3, "note", "n1", &object(&[("n", Value::from(3))]));
    store.delete(4, "task", "t2");
    let tasks = list(&store, "task");
    assert_eq!(tasks.len(), 1);
    assert_eq!(tasks[0], object(&[("n", Value::from(1))]));
}

#[test]
fn subscribe_observes_local_writes() {
    let mut store = Store::new(peer(1));
    put(&mut store, 1, "task", "t1", &object(&[("x", Value::from(1))]));
    let events = store.node_mut().take_events();
    let event = &events[0];
    assert_eq!(event.entity, "task");
    assert_eq!(event.id, "t1");
    assert_eq!(event.op, Op::Insert);
    assert_eq!(event.origin, WriteOrigin::Local);
    assert!(store.node_mut().take_events().is_empty());
}

#[test]
fn signed_stores_converge() {
    let mut a = Store::with_identity(Identity::from_seed([1u8; 32]));
    let mut b = Store::with_identity(Identity::from_seed([2u8; 32]));

    put(&mut a, 1, "task", "t1", &object(&[("by", Value::from("a"))]));
    put(&mut b, 1, "task", "t2", &object(&[("by", Value::from("b"))]));
    sync(&mut a, &mut b);

    assert_eq!(get(&a, "task", "t2"), Some(object(&[("by", Value::from("b"))])));
    assert_eq!(get(&b, "task", "t1"), Some(object(&[("by", Value::from("a"))])));
}

#[test]
fn a_tampered_frame_is_rejected() {
    let mut a = Store::with_identity(Identity::from_seed([1u8; 32]));
    let mut b = Store::with_identity(Identity::from_seed([2u8; 32]));
    let mut frame = put(&mut a, 1, "task", "t1", &object(&[("by", Value::from("a"))]));
    frame.data = b"{}".to_vec();
    step(
        b.node_mut(),
        SessionEvent::Inbound(SyncMessage::Delta(vec![frame])),
        1,
    );
    assert_eq!(get(&b, "task", "t1"), None);
    sync(&mut a, &mut b);
    assert_eq!(get(&b, "task", "t1"), Some(object(&[("by", Value::from("a"))])));
}

#[test]
fn member_writes_visible_outsider_filtered() {
    let owner_id = Identity::from_seed([1u8; 32]);
    let owner_pid = owner_id.peer_id();
    let member_id = Identity::from_seed([2u8; 32]);
    let member_pid = member_id.peer_id();
    let outsider_id = Identity::from_seed([3u8; 32]);

    let mut owner = Store::with_owner(owner_id);
    let mut member = Store::join(member_id, owner_pid);
    let mut outsider = Store::join(outsider_id, owner_pid);

    // Owner invites the member (not the outsider).
    owner.invite(1, member_pid, Role::Member);

    // Each writes a record under its own identity.
    put(&mut member, 1, "task", "m", &object(&[("by", Value::from("member"))]));
    put(&mut outsider, 1, "task", "o", &object(&[("by", Value::from("outsider"))]));

    // A hub through the owner: owner<->member, owner<->outsider.
    sync(&mut owner, &mut member);
    sync(&mut owner, &mut outsider);

    assert_eq!(
        get(&owner, "task", "m"),
        Some(object(&[("by", Value::from("member"))])),
        "invited member's record is visible"
    );
    assert_eq!(
        get(&owner, "task", "o"),
        None,
        "uninvited outsider's record is filtered out"
    );
    // list reflects the same filter.
    assert_eq!(list(&owner, "task"), vec![object(&[("by", Value::from("member"))])]);

    // Every peer reaches the same view.
    sync(&mut owner, &mut member);
    assert_eq!(list(&member, "task"), list(&owner, "task"));
    assert_eq!(list(&outsider, "task"), list(&owner, "task"));
}

#[test]
fn revocation_hides_records() {
    let owner_id = Identity::from_seed([1u8; 32]);
    let owner_pid = owner_id.peer_id();
    let member_id = Identity::from_seed([2u8; 32]);
    let member_pid = member_id.peer_id();

    let mut owner = Store::with_owner(owner_id);
    let mut member = Store::join(member_id, owner_pid);

    owner.invite(1, member_pid, Role::Member);
    put(&mut member, 1, "task", "m", &object(&[("x", Value::from(1))]));
    sync(&mut owner, &mut member);
    assert!(
        get(&owner, "task", "m").is_some(),
        "member write should be visible before revocation"
    );

    owner.revoke(2, member_pid);
    assert!(
        get(&owner, "task", "m").is_none(),
        "after revocation the member's record should be hidden"
    );
    sync(&mut owner, &mut member);
    assert!(get(&member, "task", "m").is_none());
}

#[test]
fn only_admins_can_invite() {
    let owner_id = Identity::from_seed([1u8; 32]);
    let owner_pid = owner_id.peer_id();
    let admin_id = Identity::from_seed([2u8; 32]);
    let admin_pid = admin_id.peer_id();
    let third = Identity::from_seed([3u8; 32]).peer_id();

    let mut owner = Store::with_owner(owner_id);
    let mut admin = Store::join(admin_id, owner_pid);

    owner.invite(1, admin_pid, Role::Member);
    admin.invite(1, third, Role::Member);
    sync(&mut owner, &mut admin);
    assert!(!owner.author_authorized(&third), "a member cannot invite");

    owner.invite(2, admin_pid, Role::Admin);
    assert!(owner.author_authorized(&third), "an admin can");
    assert!(owner.author_authorized(&owner_pid));
    let members = owner.authorized_authors().unwrap();
    assert_eq!(members.len(), 3);
    assert_eq!(members.get(&admin_pid), Some(&Role::Admin));
    assert!(Store::new(peer(1)).authorized_authors().is_none());
}

/// What a log keeps of the frames that a store wants saved.
fn save(store: &mut Store, log: &mut Vec<([u8; 40], Vec<u8>)>) {
    for frame in store.node_mut().take_unsaved() {
        log.push(stored_entry(&frame).unwrap());
    }
}

fn values(log: &[([u8; 40], Vec<u8>)]) -> Vec<Vec<u8>> {
    let mut sorted = log.to_vec();
    sorted.sort();
    sorted.into_iter().map(|(_, value)| value).collect()
}

#[test]
fn state_survives_reopen() {
    let mut log = Vec::new();
    {
        let (mut store, replayed) = Store::open(peer(1), load_frames(&values(&log)));
        assert_eq!(replayed, 0);
        put(&mut store, 1, "task", "t1", &object(&[("title", Value::from("alpha"))]));
        put(&mut store, 2, "task", "t2", &object(&[("title", Value::from("beta"))]));
        store.delete(3, "task", "t2");
        assert_eq!(get(&store, "task", "t1"), Some(object(&[("title", Value::from("alpha"))])));
        assert_eq!(get(&store, "task", "t2"), None);
        save(&mut store, &mut log);
    }

    let (store, replayed) = Store::open(peer(1), load_frames(&values(&log)));
    assert_eq!(replayed, 3);
    assert_eq!(
        get(&store, "task", "t1"),
        Some(object(&[("title", Value::from("alpha"))])),
        "record should survive reopen"
    );
    assert_eq!(get(&store, "task", "t2"), None, "tombstone should survive reopen");
    assert_eq!(list(&store, "task").len(), 1);
}

#[test]
fn post_reopen_write_wins_over_prior_state() {
    let mut log = Vec::new();
    {
        let (mut store, _) = Store::open(peer(1), load_frames(&values(&log)));
        put(&mut store, 1000, "doc", "d1", &object(&[("v", Value::from(1))]));
        save(&mut store, &mut log);
    }

    let (mut store, _) = Store::open(peer(1), load_frames(&values(&log)));
    // The wall clock went back meanwhile.
    put(&mut store, 5, "doc", "d1", &object(&[("v", Value::from(2))]));
    assert_eq!(
        get(&store, "doc", "d1"),
        Some(object(&[("v", Value::from(2))])),
        "a write after reopen must out-rank the persisted one (clock recovered)"
    );
    save(&mut store, &mut log);

    let (reopened, _) = Store::open(peer(1), load_frames(&values(&log)));
    assert_eq!(get(&reopened, "doc", "d1"), Some(object(&[("v", Value::from(2))])));
}

#[test]
fn a_signed_store_reopens_as_itself() {
    let mut log = Vec::new();
    let (mut store, _) =
        Store::open_with_identity(Identity::from_seed([4u8; 32]), load_frames(&values(&log)));
    put(&mut store, 1, "doc", "d1", &object(&[]));
    save(&mut store, &mut log);
    let (again, replayed) =
        Store::open_with_identity(Identity::from_seed([4u8; 32]), load_frames(&values(&log)));
    assert_eq!(replayed, 1);
    assert_eq!(again.node().self_id(), Identity::from_seed([4u8; 32]).peer_id());
    assert_eq!(get(&again, "doc", "d1"), Some(object(&[])));
}

#[test]
fn unreadable_log_entries_are_skipped() {
    let mut store = Store::open(peer(1), Vec::new()).0;
    let frame = put(&mut store, 1, "task", "t1", &object(&[]));
    let (key, value) = stored_entry(&frame).unwrap();
    assert_eq!(&key[..32], &peer(1));
    assert_eq!(&key[32..], &1u64.to_be_bytes());
    let frames = load_frames(&vec![vec![1, 2, 3], value]);
    assert_eq!(frames, vec![frame]);
}

#[test]
fn keys_sort_by_sequence_number() {
    let mut store = Store::open(peer(1), Vec::new()).0;
    let mut last = [0u8; 40];
    for i in 0..300u64 {
        let frame = put(&mut store, i, "task", "t1", &object(&[]));
        let (key, _) = stored_entry(&frame).unwrap();
        assert!(last < key);
        last = key;
    }
}

#[test]
fn names_that_do_not_fit_are_not_stored() {
    let mut store = Store::open(peer(1), Vec::new()).0;
    let frame = put(&mut store, 1, &"e".repeat(256), "t1", &object(&[]));
    assert!(stored_entry(&frame).is_none());
}
