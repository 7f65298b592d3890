use stitch::config::{ScopeConfig, StoreConfig, TopLevelEntity};
use stitch::json::{Record, Value};
use stitch::memory_store::{
    list_filters, resolve_scope, value_to_record, MemoryStore, PersistenceLayer, RecoverStep,
};
use stitch::types::{MutationEvent, Operation, Origin, StoreEvent};

fn fixture_config() -> StoreConfig {
    StoreConfig {
        scope: ScopeConfig {
            root_entity: "project".to_string(),
            child_entities: vec!["task".to_string()],
            scope_field: "projectId".to_string(),
        },
        top_level_entities: vec![TopLevelEntity {
            entity: "user".to_string(),
            subscription_pattern: "u/#".to_string(),
        }],
        version_field: "version".to_string(),
        updated_at_field: "updatedAt".to_string(),
        sync_topic_prefix: "$DB".to_string(),
        response_topic_prefix: "resp".to_string(),
        event_channel_capacity: 16,
        clean_start: true,
        session_expiry_secs: 60,
    }
}

fn make_record(pairs: &[(&str, &str)]) -> Record {
    let mut record = Record::new();
    for (k, v) in pairs {
        record.insert((*k).to_string(), Value::text(v));
    }
    record
}

#[test]
fn memory_store_create_emits_mutation_event_with_origin() {
    let mut store = MemoryStore::new(fixture_config());
    let stored = store.prepare_create(
        "task",
        "p1",
        make_record(&[("id", "t1"), ("title", "a"), ("projectId", "p1")]),
    );
    let created = store.created("task", "p1", &stored, Origin::Remote);
    let event = store.emit_mutation(created).expect("no batch is open");
    assert_eq!(event.operation, Operation::Insert);
    assert_eq!(event.entity, "task");
    assert_eq!(event.id, "t1");
    assert_eq!(event.scope_id, "p1");
    assert_eq!(event.origin, Origin::Remote);
}

#[test]
fn persistence_create_emits_mutation_event_with_origin() {
    let layer = PersistenceLayer::new(fixture_config());
    let stored = layer.prepare(make_record(&[
        ("id", "t1"),
        ("title", "hello"),
        ("projectId", "p1"),
    ]));
    let event = layer
        .emit_mutation(layer.created("task", &stored, Origin::Remote))
        .expect("notifications are on");
    assert_eq!(event.operation, Operation::Insert);
    assert_eq!(event.entity, "task");
    assert_eq!(event.id, "t1");
    assert_eq!(event.scope_id, "p1");
    assert_eq!(event.origin, Origin::Remote);
}

#[test]
fn children_are_put_into_their_scope() {
    let store = MemoryStore::new(fixture_config());
    let stored = store.prepare_create("task", "p1", make_record(&[("id", "t1")]));
    assert_eq!(stored.get_str("projectId"), Some("p1"));
    let stored = store.prepare_create("task", "p1", make_record(&[("projectId", "p2")]));
    assert_eq!(stored.get_str("projectId"), Some("p2"));
    assert!(!store.prepare_create("project", "p1", Record::new()).contains_key("projectId"));
    assert!(!store.prepare_create("user", "p1", Record::new()).contains_key("projectId"));
}

#[test]
fn null_fields_are_dropped() {
    let mut record = make_record(&[("id", "t1")]);
    record.insert("read_at".to_string(), Value::Null);
    let store = MemoryStore::new(fixture_config());
    assert!(!store.prepare_create("task", "p1", record.clone()).contains_key("read_at"));
    assert!(!store.prepare_update(record.clone()).contains_key("read_at"));
    let layer = PersistenceLayer::new(fixture_config());
    let stored = layer.prepare(record);
    assert_eq!(stored.len(), 1);
    assert_eq!(stored.get_str("id"), Some("t1"));
}

#[test]
fn updates_and_deletions_emit_events() {
    let layer = PersistenceLayer::new(fixture_config());
    let row = make_record(&[("id", "t1"), ("projectId", "p1")]);
    let event = layer.updated("task", "other", &row, Origin::Local).unwrap();
    assert_eq!(event.operation, Operation::Update);
    assert_eq!((event.id.as_str(), event.scope_id.as_str()), ("t1", "p1"));
    assert!(layer.updated("task", "t1", &Record::new(), Origin::Local).is_none());
    let event = layer.deleted("task", "t1", Some(&row), Origin::Local);
    assert_eq!(event.operation, Operation::Delete);
    assert_eq!(event.scope_id, "p1");
    assert!(event.data.is_none());
    assert_eq!(layer.deleted("task", "t1", None, Origin::Local).scope_id, "");

    let store = MemoryStore::new(fixture_config());
    let event = store.updated("task", "t9", &make_record(&[("projectId", "p1")]), Origin::Local);
    assert_eq!(event.unwrap().id, "t9");
    assert_eq!(store.deleted("task", "t1", Some(&row), Origin::Clear).origin, Origin::Clear);
}

#[test]
fn suppressed_creates_emit_no_events() {
    let mut layer = PersistenceLayer::new(fixture_config());
    layer.set_suppress_notifications(true);
    let stored = layer.prepare(make_record(&[
        ("id", "t1"),
        ("title", "hello"),
        ("projectId", "p1"),
    ]));
    let recv = layer.emit_mutation(layer.created("task", &stored, Origin::Load));
    assert!(recv.is_none(), "expected no event during suppression");
    layer.set_suppress_notifications(false);
    assert!(layer.emit_mutation(layer.created("task", &stored, Origin::Load)).is_some());
}

#[test]
fn listings_are_filtered_by_scope() {
    let config = fixture_config();
    let (field, value) = list_filters(&config, "task", "p1").unwrap();
    assert_eq!(field, "projectId");
    assert_eq!(value.as_str(), Some("p1"));
    assert!(list_filters(&config, "project", "p1").is_none());
    assert!(list_filters(&config, "user", "p1").is_none());
    let layer = PersistenceLayer::new(fixture_config());
    assert_eq!(layer.list_by_scope("task", "p2").unwrap().1.as_str(), Some("p2"));
    assert!(layer.list_by_scope("user", "p2").is_none());
    assert_eq!(layer.list_root(), "project");
    assert!(MemoryStore::new(fixture_config()).list_filters("project", "p").is_none());
}

#[test]
fn scopes_are_resolved() {
    let config = fixture_config();
    let row = make_record(&[("id", "x"), ("projectId", "p1")]);
    assert_eq!(resolve_scope(&config, "project", &row), Some("x".to_string()));
    assert_eq!(resolve_scope(&config, "user", &row), Some(String::new()));
    assert_eq!(resolve_scope(&config, "task", &row), Some("p1".to_string()));
    assert_eq!(resolve_scope(&config, "task", &Record::new()), None);
}

#[test]
fn loading_a_scope_replaces_the_one_before() {
    let mut store = MemoryStore::new(fixture_config());
    let events = store.loaded("p1");
    assert_eq!(events.len(), 1);
    match &events[0] {
        StoreEvent::ScopeLoaded { scope_id, entities } => {
            assert_eq!(scope_id, "p1");
            for entity in ["project", "task", "user"] {
                assert!(entities.contains(&entity.to_string()));
            }
        }
        other => panic!("{other:?}"),
    }
    assert_eq!(store.loaded("p1").len(), 1);
    let events = store.loaded("p2");
    assert!(matches!(&events[0], StoreEvent::ScopeCleared { scope_id, .. } if scope_id == "p1"));
    assert!(matches!(&events[1], StoreEvent::ScopeLoaded { scope_id, .. } if scope_id == "p2"));
    assert_eq!(store.current_scope(), Some("p2".to_string()));
}

#[test]
fn clear_scope_emits_scope_cleared() {
    let mut store = MemoryStore::new(fixture_config());
    store.loaded("p1");
    match store.cleared("p1") {
        StoreEvent::ScopeCleared { scope_id, entities } => {
            assert_eq!(scope_id, "p1");
            assert!(entities.contains(&"task".to_string()));
        }
        other => panic!("{other:?}"),
    }
    assert!(store.current_scope().is_none());
}

#[test]
fn clearing_another_scope_keeps_the_current_one() {
    let mut store = MemoryStore::new(fixture_config());
    store.loaded("p1");
    store.cleared("p2");
    assert_eq!(store.current_scope(), Some("p1".to_string()));
}

fn event(scope: &str, entity: &str, id: &str) -> MutationEvent {
    MutationEvent {
        operation: Operation::Insert,
        entity: entity.to_string(),
        id: id.to_string(),
        scope_id: scope.to_string(),
        data: None,
        origin: Origin::Local,
    }
}

#[test]
fn a_batch_keeps_the_latest_event_of_each_entity() {
    let mut store = MemoryStore::new(fixture_config());
    assert!(store.end_batch().is_empty());
    store.begin_batch();
    store.begin_batch();
    for (scope, entity, id) in [("p1", "task", "a"), ("p1", "task", "b"), ("p2", "task", "c")] {
        assert!(store.emit_mutation(event(scope, entity, id)).is_none());
    }
    assert!(store.end_batch().is_empty(), "batches nest");
    let mut ids: Vec<String> = store.end_batch().into_iter().map(|e| e.id).collect();
    ids.sort();
    assert_eq!(ids, vec!["b", "c"]);
    assert!(store.emit_mutation(event("p1", "task", "d")).is_some());
}

#[test]
fn recovery_gives_up_after_ten_attempts() {
    let layer = PersistenceLayer::new(fixture_config());
    assert_eq!(layer.recover(0, true), RecoverStep::Done);
    assert_eq!(layer.recover(8, false), RecoverStep::Retry);
    assert_eq!(layer.recover(9, false), RecoverStep::Fail);
}

#[test]
fn only_objects_are_records() {
    assert!(value_to_record(Value::object(Record::new())).is_some());
    assert!(value_to_record(Value::Null).is_none());
}
