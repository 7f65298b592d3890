use stitch::bindings::{
    list_options, op_label, origin_from_tag, snapshot_as_map, sort_field, status_label, Filter,
    Pagination,
};
use stitch::json::{Record, Value};
use stitch::types::{
    field_type_str, filter_op_str, schema_js, sort_dir_str, ConnectionStatus, FieldType, FilterOp,
    ListFilter, Operation, Origin, SchemaField, SortDirection,
};

#[test]
fn labels() {
    assert_eq!(op_label(Operation::Insert), "insert");
    assert_eq!(op_label(Operation::Update), "update");
    assert_eq!(op_label(Operation::Delete), "delete");
    for status in [
        ConnectionStatus::Offline,
        ConnectionStatus::Connecting,
        ConnectionStatus::Connected,
        ConnectionStatus::Error,
        ConnectionStatus::Disconnected,
    ] {
        assert_eq!(status_label(status), format!("{status:?}"));
    }
    assert_eq!(field_type_str(FieldType::Boolean), "boolean");
    assert_eq!(filter_op_str(&FilterOp::IsNotNull), "is_not_null");
    assert_eq!(sort_dir_str(&SortDirection::Desc), "desc");
}

#[test]
fn tags_name_origins() {
    let tag = |s: &str| origin_from_tag(Some(s.to_string()));
    assert_eq!(tag("remote"), Origin::Remote);
    assert_eq!(tag("load"), Origin::Load);
    assert_eq!(tag("clear"), Origin::Clear);
    assert_eq!(tag("local"), Origin::Local);
    assert_eq!(tag("other"), Origin::Local);
    assert_eq!(origin_from_tag(None), Origin::Local);
}

#[test]
fn sorting_ascends_by_default() {
    let sort = |d: Option<&str>| sort_field("name".to_string(), d.map(str::to_string)).direction;
    assert_eq!(sort(Some("desc")), SortDirection::Desc);
    assert_eq!(sort(Some("asc")), SortDirection::Asc);
    assert_eq!(sort(Some("DESC")), SortDirection::Asc);
    assert_eq!(sort(None), SortDirection::Asc);
    assert_eq!(sort_field("name".to_string(), None).field, "name");
    assert_eq!(ListFilter::default().scope_id, None);
}

#[test]
fn rows_are_keyed_by_id() {
    let row = |fields: &[(&str, &str)]| {
        let mut record = Record::new();
        for (k, v) in fields {
            record.insert((*k).to_string(), Value::text(v));
        }
        record
    };
    let map = snapshot_as_map(vec![
        row(&[("id", "a"), ("n", "1")]),
        row(&[("n", "2")]),
        row(&[("id", "a"), ("n", "3")]),
        row(&[("id", "b")]),
    ]);
    assert_eq!(map.len(), 2);
    assert_eq!(map.get("a").unwrap().get("n").unwrap().as_str(), Some("3"));
    assert!(map.get("b").unwrap().as_object().is_some());
}

#[test]
fn operations_have_a_replay_order() {
    assert!(Operation::Insert.priority() < Operation::Update.priority());
    assert!(Operation::Update.priority() < Operation::Delete.priority());
}

#[test]
fn schemas_become_objects() {
    let schema = schema_js(&vec![
        SchemaField {
            name: "id".to_string(),
            field_type: FieldType::String,
            required: true,
            default: None,
        },
        SchemaField {
            name: "n".to_string(),
            field_type: FieldType::Number,
            required: false,
            default: Some(Value::integer(0)),
        },
    ]);
    let fields = schema.get("fields").unwrap().as_array().unwrap();
    assert_eq!(fields.len(), 2);
    assert_eq!(fields[0].get("type").unwrap().as_str(), Some("string"));
    assert!(fields[0].get("default").is_none());
    assert_eq!(fields[1].get("default").unwrap().as_i64(), Some(0));
    assert!(matches!(fields[1].get("required"), Some(Value::Bool(false))));
}

#[test]
fn listing_options_hold_only_what_is_given() {
    let bare = list_options(&Vec::new(), &Vec::new(), None, &Vec::new());
    assert_eq!(bare.len(), 1);
    assert!(bare.get("filters").unwrap().as_array().unwrap().is_empty());

    let full = list_options(
        &vec![Filter {
            field: "projectId".to_string(),
            op: FilterOp::Eq,
            value: Value::text("p1"),
        }],
        &vec![sort_field("n".to_string(), Some("desc".to_string()))],
        Some(Pagination { offset: 5, limit: 10 }),
        &vec!["id".to_string()],
    );
    assert_eq!(full.len(), 4);
    let filter = &full.get("filters").unwrap().as_array().unwrap()[0];
    assert_eq!(filter.get("field").unwrap().as_str(), Some("projectId"));
    assert_eq!(filter.get("op").unwrap().as_str(), Some("eq"));
    assert_eq!(filter.get("value").unwrap().as_str(), Some("p1"));
    let sort = &full.get("sort").unwrap().as_array().unwrap()[0];
    assert_eq!(sort.get("field").unwrap().as_str(), Some("n"));
    assert_eq!(sort.get("direction").unwrap().as_str(), Some("desc"));
    let page = full.get("pagination").unwrap();
    assert_eq!(page.get("offset").unwrap().as_u64(), Some(5));
    assert_eq!(page.get("limit").unwrap().as_u64(), Some(10));
    let projection = full.get("projection").unwrap().as_array().unwrap();
    assert_eq!(projection[0].as_str(), Some("id"));
}
