use stitch::assoc::Assoc;
use stitch::config::{ScopeConfig, StoreConfig, TopLevelEntity};
use stitch::json::{Record, Value};
use stitch::sync_engine::{
    build_mutation, check_response, choose_auth, extract_id, link_status, now_millis,
    parse_scoped_topic, AuthChoice, EngineError, LinkEvent, RequestOutcome, Subscription,
    SyncEngine, ORIGIN_USER_PROPERTY,
};
use stitch::types::{ConnectionStatus, Operation};

fn config() -> StoreConfig {
    StoreConfig {
        scope: ScopeConfig {
            root_entity: "project".to_string(),
            child_entities: vec!["task".to_string()],
            scope_field: "projectId".to_string(),
        },
        top_level_entities: vec![TopLevelEntity {
            entity: "user".to_string(),
            subscription_pattern: "$DB/user/events/#".to_string(),
        }],
        version_field: "version".to_string(),
        updated_at_field: "updatedAt".to_string(),
        sync_topic_prefix: "$DB".to_string(),
        response_topic_prefix: "resp".to_string(),
        event_channel_capacity: 16,
        clean_start: true,
        session_expiry_secs: 60,
    }
}

fn engine() -> SyncEngine {
    SyncEngine::new("me".to_string(), config()).unwrap()
}

fn record(fields: &[(&str, &str)]) -> Record {
    let mut record = Record::new();
    for (k, v) in fields {
        record.insert((*k).to_string(), Value::text(v));
    }
    record
}

fn object(fields: &[(&str, &str)]) -> Value {
    Value::object(record(fields))
}

fn no_properties() -> Vec<(String, String)> {
    Vec::new()
}

#[test]
fn client_ids_must_fit_into_topics() {
    for id in ["a+b", "a#", "/a"] {
        match SyncEngine::new(id.to_string(), config()) {
            Err(EngineError::Config(text)) => assert_eq!(
                text,
                format!("clientId must not contain MQTT special characters (+, #, /): {id}")
            ),
            _ => panic!("{id} was accepted"),
        }
    }
    assert!(SyncEngine::new("client-1".to_string(), config()).is_ok());
}

#[test]
fn topics_name_entities_and_records() {
    let engine = engine();
    assert_eq!(engine.create_topic("task"), "$DB/task/create");
    assert_eq!(engine.update_topic("task", "t1"), "$DB/task/t1/update");
    assert_eq!(engine.delete_topic("task", "t1"), "$DB/task/t1/delete");
    assert_eq!(engine.read_topic("task", "t1"), "$DB/task/t1");
    assert_eq!(engine.list_topic("task"), "$DB/task/list");
    assert_eq!(engine.version_topic("p1"), "$DB/project/p1/update");
    assert_eq!(engine.scope_pattern("p1"), "$DB/project/p1/#");
}

#[test]
fn requests_find_their_responses() {
    let mut engine = engine();
    let out = engine.begin_request("r1".to_string(), "$DB/task/create");
    assert_eq!(out.topic, "$DB/task/create");
    assert_eq!(out.response_topic, "resp/me/r1");
    assert_eq!(out.correlation_data, b"r1");
    assert_eq!(
        out.user_properties,
        vec![(ORIGIN_USER_PROPERTY.to_string(), "me".to_string())]
    );
    assert_eq!(engine.handle_response("resp/me/r2"), None);
    assert_eq!(engine.handle_response("resp/you/r1"), None);
    assert_eq!(engine.handle_response(&out.response_topic), Some("r1".to_string()));
    assert_eq!(engine.handle_response(&out.response_topic), None, "only once");
}

#[test]
fn request_ids_are_fresh() {
    let mut engine = engine();
    let a = engine.request("t");
    let b = engine.request("t");
    assert_ne!(a.request_id, b.request_id);
    assert_eq!(a.request_id.len(), 36);
    assert_eq!(a.response_topic, format!("resp/me/{}", a.request_id));
}

#[test]
fn requests_end_in_a_record_or_an_error() {
    let mut engine = engine();
    engine.begin_request("r1".to_string(), "t");
    let ok = engine.finish_request("r1", "t", RequestOutcome::Answered(object(&[("a", "b")])));
    assert_eq!(ok.unwrap().get_str("a"), Some("b"));
    let outcomes = [
        (
            RequestOutcome::Answered(Value::text("x")),
            EngineError::Mqtt("response was not an object".to_string()),
        ),
        (
            RequestOutcome::Unreadable("eof".to_string()),
            EngineError::Serde("eof".to_string()),
        ),
        (RequestOutcome::Closed, EngineError::ConnectionClosed),
        (RequestOutcome::TimedOut(10_000), EngineError::Timeout(10_000)),
    ];
    for (outcome, error) in outcomes {
        assert_eq!(engine.finish_request("r9", "t", outcome).unwrap_err(), error);
    }
    engine.begin_request("r2".to_string(), "t");
    let failed = engine.finish_request("r2", "t", RequestOutcome::PublishFailed("down".to_string()));
    assert_eq!(failed.unwrap_err(), EngineError::Mqtt("publish:t: down".to_string()));
    assert_eq!(engine.handle_response("resp/me/r2"), None, "nobody waits for it any more");
}

#[test]
fn responses_are_checked() {
    assert!(check_response(&record(&[("status", "ok")])).is_ok());
    assert!(check_response(&Record::new()).is_ok());
    let failure = |code: i64| {
        let mut response = record(&[("status", "error"), ("entity", "task"), ("id", "t1")]);
        response.insert("code".to_string(), Value::integer(code));
        check_response(&response).unwrap_err()
    };
    let (entity, id) = ("task".to_string(), "t1".to_string());
    assert_eq!(failure(401), EngineError::SessionInvalid);
    assert_eq!(
        failure(403),
        EngineError::Ownership { entity: entity.clone(), id: id.clone() }
    );
    assert_eq!(
        failure(404),
        EngineError::NotFound { entity: entity.clone(), id: id.clone() }
    );
    assert!(failure(404).is_not_found());
    assert_eq!(failure(409), EngineError::Conflict { entity, id });
    assert_eq!(failure(500), EngineError::Mqtt("operation failed".to_string()));
    assert!(!failure(500).is_not_found());
    assert_eq!(
        check_response(&record(&[("status", "error"), ("message", "boom")])).unwrap_err(),
        EngineError::Mqtt("boom".to_string())
    );
}

#[test]
fn ids_are_extracted() {
    let mut response = Record::new();
    assert_eq!(
        extract_id(&response).unwrap_err(),
        EngineError::Mqtt("response missing data object".to_string())
    );
    response.insert("data".to_string(), object(&[("name", "x")]));
    assert_eq!(
        extract_id(&response).unwrap_err(),
        EngineError::Mqtt("response missing data.id".to_string())
    );
    response.insert("data".to_string(), object(&[("id", "t7")]));
    assert_eq!(extract_id(&response).unwrap(), "t7");
}

#[test]
fn creations_name_their_scope_and_bump_it() {
    let mut engine = engine();
    let payload = engine.create_payload("task", "p1", record(&[("title", "x")]));
    assert_eq!(payload.get_str("projectId"), Some("p1"));
    let payload = engine.create_payload("task", "p1", record(&[("projectId", "p2")]));
    assert_eq!(payload.get_str("projectId"), Some("p2"));
    assert!(!engine.create_payload("project", "p1", Record::new()).contains_key("projectId"));

    let mut response = Record::new();
    response.insert("data".to_string(), object(&[("id", "t1")]));
    assert_eq!(engine.on_created("task", "p1", &response).unwrap(), ("t1".to_string(), true));
    assert_eq!(engine.on_created("task", "", &response).unwrap().1, false);
    assert_eq!(engine.on_created("user", "p1", &response).unwrap().1, false);
    assert_eq!(engine.on_changed("task", "p1", &Record::new()).unwrap(), true);
    assert!(engine.on_changed("task", "p1", &record(&[("status", "error")])).is_err());
    assert!(engine.on_created("task", "p1", &Record::new()).is_err());

    let payload = engine.version_payload(1234);
    assert_eq!(payload.get("version").unwrap().as_i64(), Some(1234));
    assert_eq!(payload.get("updatedAt").unwrap().as_i64(), Some(1234));
    assert_eq!(engine.applied_version("p1"), None);
    assert!(engine.bump_scope_version("p1", 1234, &record(&[("status", "error")])).is_err());
    assert_eq!(engine.applied_version("p1"), None);
    engine.bump_scope_version("p1", 1234, &Record::new()).unwrap();
    assert_eq!(engine.applied_version("p1"), Some(1234));
}

#[test]
fn reads_give_records_or_nothing() {
    let engine = engine();
    let mut response = Record::new();
    assert!(engine.fetch_one(Ok(response.clone())).unwrap().is_none());
    response.insert("data".to_string(), object(&[("id", "t1")]));
    let found = engine.fetch_one(Ok(response)).unwrap().unwrap();
    assert_eq!(found.get_str("id"), Some("t1"));
    let mut missing = record(&[("status", "error")]);
    missing.insert("code".to_string(), Value::integer(404));
    assert!(engine.fetch_one(Ok(missing)).unwrap().is_none());
    let not_found = EngineError::NotFound { entity: String::new(), id: String::new() };
    assert!(engine.fetch_one(Err(not_found)).unwrap().is_none());
    assert_eq!(
        engine.fetch_one(Err(EngineError::ConnectionClosed)).unwrap_err(),
        EngineError::ConnectionClosed
    );
    assert!(engine.fetch_one(Ok(record(&[("status", "error")]))).is_err());
}

#[test]
fn listings_keep_the_objects() {
    let engine = engine();
    let payload = engine.list_payload(Some("p1"));
    let filters = payload.get("filters").unwrap().as_array().unwrap();
    assert_eq!(filters.len(), 1);
    assert_eq!(filters[0].get("field").unwrap().as_str(), Some("projectId"));
    assert_eq!(filters[0].get("op").unwrap().as_str(), Some("eq"));
    assert_eq!(filters[0].get("value").unwrap().as_str(), Some("p1"));
    assert_eq!(engine.list_payload(None).len(), 0);

    let mut response = Record::new();
    assert!(engine.fetch_list(&response).unwrap().is_empty());
    response.insert(
        "data".to_string(),
        Value::array(vec![object(&[("id", "a")]), Value::text("x"), object(&[("id", "b")])]),
    );
    let rows = engine.fetch_list(&response).unwrap();
    let ids: Vec<_> = rows.iter().map(|r| r.get_str("id").unwrap()).collect();
    assert_eq!(ids, vec!["a", "b"]);
    assert!(engine.fetch_list(&record(&[("status", "error")])).is_err());
}

#[test]
fn event_topics_are_read() {
    let root = parse_scoped_topic("$DB", "project", "$DB/project/p1/events/updated").unwrap();
    assert_eq!(
        (root.scope_id.as_str(), root.entity.as_str(), root.event_type.as_str()),
        ("p1", "project", "updated")
    );
    let child = parse_scoped_topic("$DB", "project", "$DB/project/p1/task/events/created").unwrap();
    assert_eq!(
        (child.scope_id.as_str(), child.entity.as_str(), child.event_type.as_str()),
        ("p1", "task", "created")
    );
    for topic in [
        "$DB/other/p1/events/updated",
        "$DB/project/p1",
        "$DB/project/p1/task/created",
        "$DB/project/p1/task/t1/events/created",
    ] {
        assert!(parse_scoped_topic("$DB", "project", topic).is_none(), "{topic}");
    }
}

#[test]
fn mutations_are_built() {
    let mut payload = record(&[("id", "t1"), ("operation_id", "o1")]);
    payload.insert("data".to_string(), object(&[("title", "x")]));
    let m = build_mutation("task", Operation::Update, &Value::object(payload)).unwrap();
    assert_eq!(m.op, Operation::Update);
    assert_eq!(m.entity, "task");
    assert_eq!(m.id, "t1");
    assert_eq!(m.operation_id.as_deref(), Some("o1"));
    assert_eq!(m.data.unwrap().get_str("title"), Some("x"));

    let mut odd = record(&[("id", "t1"), ("data", "text")]);
    odd.insert("operation_id".to_string(), Value::integer(1));
    let m = build_mutation("task", Operation::Delete, &Value::object(odd)).unwrap();
    assert!(m.data.is_none());
    assert!(m.operation_id.is_none());
    assert!(build_mutation("task", Operation::Insert, &object(&[("x", "y")])).is_none());
    assert!(build_mutation("task", Operation::Insert, &Value::text("x")).is_none());
}

#[test]
fn scope_messages_are_delivered() {
    let mut engine = engine();
    let payload = object(&[("id", "t1")]);
    for (leaf, op) in [
        ("created", Operation::Insert),
        ("updated", Operation::Update),
        ("deleted", Operation::Delete),
    ] {
        let topic = format!("$DB/project/p1/task/events/{leaf}");
        let d = engine
            .handle_scope_message(&topic, &no_properties(), Some(&payload))
            .unwrap();
        assert_eq!(d.scope_id, "p1");
        assert_eq!(d.mutation.op, op);
    }
    let topic = "$DB/project/p1/task/events/created";
    assert!(engine.handle_scope_message(topic, &no_properties(), None).is_none());
    let other = "$DB/project/p1/task/events/renamed";
    assert!(engine.handle_scope_message(other, &no_properties(), Some(&payload)).is_none());
}

#[test]
fn own_messages_are_not_delivered() {
    let mut engine = engine();
    let topic = "$DB/project/p1/task/events/created";
    let own = vec![(ORIGIN_USER_PROPERTY.to_string(), "me".to_string())];
    let foreign = vec![(ORIGIN_USER_PROPERTY.to_string(), "you".to_string())];
    let plain = object(&[("id", "t1"), ("operation", "Create")]);
    assert!(engine.handle_scope_message(topic, &own, Some(&plain)).is_none());
    assert!(engine.handle_scope_message(topic, &foreign, Some(&plain)).is_some());
    assert!(engine.handle_top_level_message("user", &own, Some(&plain)).is_none());
    assert!(engine.handle_top_level_message("user", &foreign, Some(&plain)).is_some());
    for key in ["sender", "client_id"] {
        let sent = object(&[("id", "t1"), ("operation", "Create"), (key, "me")]);
        assert!(engine.handle_scope_message(topic, &no_properties(), Some(&sent)).is_none());
        assert!(engine.handle_top_level_message("user", &no_properties(), Some(&sent)).is_none());
    }
}

#[test]
fn a_scope_holds_mutations_back_while_it_opens() {
    let mut engine = engine();
    assert_eq!(engine.begin_open("p1"), "$DB/project/p1/#");
    engine.scope_subscribed("p1");
    for id in ["t1", "t2"] {
        let payload = object(&[("id", id)]);
        assert!(engine
            .handle_scope_message("$DB/project/p1/task/events/created", &no_properties(), Some(&payload))
            .is_none());
    }
    let payload = object(&[("id", "t3")]);
    assert!(
        engine
            .handle_scope_message("$DB/project/p2/task/events/created", &no_properties(), Some(&payload))
            .is_some(),
        "other scopes are not held back"
    );

    let mut root = record(&[("id", "p1")]);
    root.insert("version".to_string(), Value::integer(42));
    let mut children = Assoc::new();
    children.insert("task".to_string(), vec![record(&[("id", "t0")])]);
    let state = engine.complete_open("p1", Some(root), children);
    assert_eq!(state.version, 42);
    assert_eq!(state.root.get_str("id"), Some("p1"));
    assert_eq!(state.children.get(&"task".to_string()).unwrap().len(), 1);
    let held: Vec<_> = state.buffered_mutations.iter().map(|m| m.id.as_str()).collect();
    assert_eq!(held, vec!["t1", "t2"]);
    assert_eq!(engine.applied_version("p1"), Some(42));

    let payload = object(&[("id", "t4")]);
    assert!(engine
        .handle_scope_message("$DB/project/p1/task/events/created", &no_properties(), Some(&payload))
        .is_some());
}

#[test]
fn a_scope_without_root_has_no_version() {
    let mut engine = engine();
    engine.begin_open("p1");
    let state = engine.complete_open("p1", None, Assoc::new());
    assert_eq!(state.version, 0);
    assert_eq!(state.root.len(), 0);
    assert_eq!(engine.applied_version("p1"), None);
}

#[test]
fn failed_and_closed_scopes_are_forgotten() {
    let mut engine = engine();
    engine.begin_open("p1");
    engine.scope_subscribed("p1");
    engine.fail_open("p1");
    let payload = object(&[("id", "p1")]);
    let topic = "$DB/project/p1/events/updated";
    assert!(engine.handle_scope_message(topic, &no_properties(), Some(&payload)).is_some());
    assert!(engine.handle_root_wildcard_message(topic, &no_properties(), Some(&payload)).is_some());

    engine.begin_open("p1");
    engine.scope_subscribed("p1");
    engine.bump_scope_version("p1", 5, &Record::new()).unwrap();
    assert_eq!(engine.close_scope("p1"), "$DB/project/p1/#");
    assert_eq!(engine.applied_version("p1"), None);
    assert!(engine.handle_root_wildcard_message(topic, &no_properties(), Some(&payload)).is_some());
}

#[test]
fn root_events_of_subscribed_scopes_come_once() {
    let mut engine = engine();
    let payload = object(&[("id", "p1")]);
    let topic = "$DB/project/p1/events/updated";
    let d = engine.handle_root_wildcard_message(topic, &no_properties(), Some(&payload)).unwrap();
    assert_eq!(d.scope_id, "p1");
    assert_eq!(d.mutation.entity, "project");
    let child = "$DB/project/p1/task/events/updated";
    assert!(engine.handle_root_wildcard_message(child, &no_properties(), Some(&payload)).is_none());
    engine.scope_subscribed("p1");
    assert!(engine.handle_root_wildcard_message(topic, &no_properties(), Some(&payload)).is_none());
}

#[test]
fn top_level_events_name_their_operation() {
    let engine = engine();
    for (name, op) in [
        ("Create", Operation::Insert),
        ("Update", Operation::Update),
        ("Delete", Operation::Delete),
    ] {
        let payload = object(&[("id", "u1"), ("operation", name)]);
        let d = engine
            .handle_top_level_message("user", &no_properties(), Some(&payload))
            .unwrap();
        assert_eq!(d.scope_id, "");
        assert_eq!(d.mutation.op, op);
        assert_eq!(d.mutation.entity, "user");
    }
    let unknown = object(&[("id", "u1"), ("operation", "create")]);
    assert!(engine.handle_top_level_message("user", &no_properties(), Some(&unknown)).is_none());
    assert!(engine.handle_top_level_message("user", &no_properties(), None).is_none());
}

#[test]
fn a_lost_session_is_subscribed_anew() {
    let mut engine = engine();
    engine.scope_subscribed("p1");
    let subs = engine.resubscriptions();
    assert_eq!(subs.len(), 4);
    assert!(matches!(&subs[0], Subscription::Responses(t) if t == "resp/me/#"));
    assert!(matches!(&subs[1], Subscription::RootWildcard(t) if t == "$DB/project/+/events/#"));
    assert!(matches!(
        &subs[2],
        Subscription::TopLevel { entity, pattern }
            if entity == "user" && pattern == "$DB/user/events/#"
    ));
    assert!(matches!(
        &subs[3],
        Subscription::Scope { scope_id, pattern }
            if scope_id == "p1" && pattern == "$DB/project/p1/#"
    ));

    engine.scope_subscribed("p2");
    engine.scope_subscribed("p1");
    let mut scopes = Vec::new();
    for sub in engine.resubscriptions() {
        if let Subscription::Scope { scope_id, .. } = sub {
            scopes.push(scope_id);
        }
    }
    scopes.sort();
    assert_eq!(scopes, vec!["p1", "p2"]);
}

#[test]
fn a_disconnect_fails_what_waits() {
    let mut engine = engine();
    engine.begin_request("r1".to_string(), "t");
    engine.begin_request("r2".to_string(), "t");
    engine.scope_subscribed("p1");
    let mut failed = engine.cleanup_on_disconnect();
    failed.sort();
    assert_eq!(failed, vec!["r1", "r2"]);
    assert_eq!(engine.resubscriptions().len(), 3);
    assert!(engine.cleanup_on_disconnect().is_empty());
}

#[test]
fn link_events_have_a_status() {
    assert_eq!(link_status(LinkEvent::Connecting), (ConnectionStatus::Connecting, false));
    assert_eq!(link_status(LinkEvent::Connected), (ConnectionStatus::Connected, false));
    assert_eq!(link_status(LinkEvent::AuthFailed), (ConnectionStatus::Error, true));
    assert_eq!(link_status(LinkEvent::Disconnected), (ConnectionStatus::Disconnected, false));
    assert_eq!(link_status(LinkEvent::Reconnecting), (ConnectionStatus::Connecting, false));
    assert_eq!(link_status(LinkEvent::ReconnectFailed), (ConnectionStatus::Error, false));
}

#[test]
fn a_ticket_wins_over_a_password() {
    let some = |s: &str| Some(s.to_string());
    assert!(matches!(
        choose_auth(some("t"), some("u"), some("p")),
        AuthChoice::Jwt(t) if t == "t"
    ));
    assert!(matches!(
        choose_auth(None, some("u"), some("p")),
        AuthChoice::Password(u, p) if u == "u" && p == "p"
    ));
    assert!(matches!(choose_auth(None, some("u"), None), AuthChoice::Anonymous));
}

#[test]
fn versions_come_from_the_clock() {
    assert_eq!(now_millis(None), 0);
    assert_eq!(now_millis(Some(9)), 9);
    assert_eq!(now_millis(Some(u128::from(u64::MAX))), i64::MAX);
}

#[test]
fn request_ids_are_timed_uuids() {
    let mut engine = engine();
    let id = engine.request("t").request_id;
    assert_eq!(uuid::Uuid::parse_str(&id).unwrap().get_version_num(), 7);
    assert!(!id.contains(['/', '+', '#']));
}
