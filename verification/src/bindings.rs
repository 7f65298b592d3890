//! The texts and shapes in which a scripting host sees operations, origins,
//! filters and rows.
use vstd::prelude::*;
use crate::json::{Number, Record, Value};
use crate::text::same_text;
use crate::types::{
    filter_op_str,
    sort_dir_str,
    ConnectionStatus,
    FilterOp,
    Operation,
    Origin,
    SortDirection,
    SortField,
};

verus! {

/// The label of an operation.
pub fn op_label(op: Operation) -> (label: &'static str)
    ensures
        label@ == (match op {
            Operation::Insert => "insert"@,
            Operation::Update => "update"@,
            Operation::Delete => "delete"@,
        }),
{
    match op {
        Operation::Insert => "insert",
        Operation::Update => "update",
        Operation::Delete => "delete",
    }
}

/// The label of a connection status.
pub fn status_label(status: ConnectionStatus) -> (label: &'static str)
    ensures
        label@ == (match status {
            ConnectionStatus::Offline => "Offline"@,
            ConnectionStatus::Connecting => "Connecting"@,
            ConnectionStatus::Connected => "Connected"@,
            ConnectionStatus::Error => "Error"@,
            ConnectionStatus::Disconnected => "Disconnected"@,
        }),
{
    match status {
        ConnectionStatus::Offline => "Offline",
        ConnectionStatus::Connecting => "Connecting",
        ConnectionStatus::Connected => "Connected",
        ConnectionStatus::Error => "Error",
        ConnectionStatus::Disconnected => "Disconnected",
    }
}

/// The origin that a tag names; anything unknown is local.
pub open spec fn tagged_origin(tag: Option<Seq<char>>) -> Origin {
    match tag {
        Some(text) => if text == "remote"@ {
            Origin::Remote
        } else if text == "load"@ {
            Origin::Load
        } else if text == "clear"@ {
            Origin::Clear
        } else {
            Origin::Local
        },
        None => Origin::Local,
    }
}

/// The origin that a tag names.
pub fn origin_from_tag(tag: Option<String>) -> (origin: Origin)
    ensures
        origin == tagged_origin(
            match tag {
                Some(text) => Some(text@),
                None => None,
            },
        ),
{
    match tag {
        Some(text) => if same_text(text.as_str(), "remote") {
            Origin::Remote
        } else if same_text(text.as_str(), "load") {
            Origin::Load
        } else if same_text(text.as_str(), "clear") {
            Origin::Clear
        } else {
            Origin::Local
        },
        None => Origin::Local,
    }
}

/// A sort order: ascending unless the direction is `desc`.
pub fn sort_field(field: String, direction: Option<String>) -> (sort: SortField)
    ensures
        sort.field@ == field@,
        sort.direction == (match direction {
            Some(text) => if text@ == "desc"@ {
                SortDirection::Desc
            } else {
                SortDirection::Asc
            },
            None => SortDirection::Asc,
        }),
{
    let direction = match direction {
        Some(text) => if same_text(text.as_str(), "desc") {
            SortDirection::Desc
        } else {
            SortDirection::Asc
        },
        None => SortDirection::Asc,
    };
    SortField { field, direction }
}

/// Rows by their id: rows without an id are left out, and of rows with the same
/// id the last one stands.
pub open spec fn rows_by_id(rows: Seq<Map<Seq<char>, crate::json::Json>>) -> Map<
    Seq<char>,
    crate::json::Json,
>
    decreases rows.len(),
{
    if rows.len() == 0 {
        Map::empty()
    } else {
        let front = rows_by_id(rows.drop_last());
        match crate::json::text_in(rows.last(), "id"@) {
            Some(id) => front.insert(id, crate::json::Json::Object(rows.last())),
            None => front,
        }
    }
}

/// The rows as one object, keyed by row id.
pub fn snapshot_as_map(rows: Vec<Record>) -> (map: Record)
    ensures
        map@ == rows_by_id(crate::json::records(rows@)),
{
    let mut map = Record::new();
    let ghost models = crate::json::records(rows@);
    assert(models.take(0) =~= Seq::empty());
    let mut i: usize = 0;
    while i < rows.len()
        invariant
            i <= rows@.len(),
            models == crate::json::records(rows@),
            map@ == rows_by_id(models.take(i as int)),
        decreases rows@.len() - i,
    {
        let row = &rows[i];
        proof {
            assert(models.take(i + 1).drop_last() =~= models.take(i as int));
            assert(models.take(i + 1).last() == row@);
        }
        if let Some(id) = row.get_str("id") {
            map.insert(id.to_string(), Value::object(row.clone()));
        }
        i = i + 1;
    }
    assert(models.take(i as int) =~= models);
    map
}

/// A condition on the rows of a listing.
#[derive(Debug)]
pub struct Filter {
    pub field: String,
    pub op: FilterOp,
    pub value: Value,
}

/// The part of a listing that is wanted.
#[derive(Debug, Clone, Copy, PartialEq, Eq, Structural)]
pub struct Pagination {
    pub offset: u64,
    pub limit: u64,
}

/// A condition as an object.
pub open spec fn filter_json(filter: Filter) -> crate::json::Json {
    crate::json::Json::Object(
        Map::<Seq<char>, crate::json::Json>::empty().insert(
            "field"@,
            crate::json::Json::String(filter.field@),
        ).insert(
            "op"@,
            crate::json::Json::String(crate::types::filter_op_name(filter.op)),
        ).insert("value"@, filter.value@),
    )
}

/// A sort order as an object.
pub open spec fn sort_json(sort: SortField) -> crate::json::Json {
    crate::json::Json::Object(
        Map::<Seq<char>, crate::json::Json>::empty().insert(
            "field"@,
            crate::json::Json::String(sort.field@),
        ).insert(
            "direction"@,
            crate::json::Json::String(crate::types::sort_dir_name(sort.direction)),
        ),
    )
}

/// The options of a listing as an object. Orders, pagination and projection
/// stand in it only if they are given.
pub open spec fn options_json(
    filters: Seq<Filter>,
    sort: Seq<SortField>,
    pagination: Option<Pagination>,
    projection: Seq<String>,
) -> Map<Seq<char>, crate::json::Json> {
    let base = Map::<Seq<char>, crate::json::Json>::empty().insert(
        "filters"@,
        crate::json::Json::Array(Seq::new(filters.len(), |i: int| filter_json(filters[i]))),
    );
    let sorted = if sort.len() == 0 {
        base
    } else {
        base.insert(
            "sort"@,
            crate::json::Json::Array(Seq::new(sort.len(), |i: int| sort_json(sort[i]))),
        )
    };
    let paged = match pagination {
        Some(page) => sorted.insert(
            "pagination"@,
            crate::json::Json::Object(
                Map::<Seq<char>, crate::json::Json>::empty().insert(
                    "offset"@,
                    crate::json::Json::Number(Number::Unsigned(page.offset)),
                ).insert("limit"@, crate::json::Json::Number(Number::Unsigned(page.limit))),
            ),
        ),
        None => sorted,
    };
    if projection.len() == 0 {
        paged
    } else {
        paged.insert(
            "projection"@,
            crate::json::Json::Array(
                Seq::new(projection.len(), |i: int| crate::json::Json::String(projection[i]@)),
            ),
        )
    }
}

fn filter_values(filters: &Vec<Filter>) -> (values: Vec<Value>)
    ensures
        crate::json::values(values@) == Seq::new(
            filters@.len(),
            |i: int| filter_json(filters@[i]),
        ),
{
    let mut out: Vec<Value> = Vec::new();
    let mut i: usize = 0;
    while i < filters.len()
        invariant
            i <= filters@.len(),
            out@.len() == i,
            forall|j: int| 0 <= j < i ==> (#[trigger] out@[j])@ == filter_json(filters@[j]),
        decreases filters@.len() - i,
    {
        let filter = &filters[i];
        let mut record = Record::new();
        record.insert("field".to_string(), Value::text(filter.field.as_str()));
        record.insert("op".to_string(), Value::text(filter_op_str(&filter.op)));
        record.insert("value".to_string(), filter.value.clone());
        out.push(Value::object(record));
        i = i + 1;
    }
    assert(crate::json::values(out@) =~= Seq::new(
        filters@.len(),
        |i: int| filter_json(filters@[i]),
    ));
    out
}

fn sort_values(sort: &Vec<SortField>) -> (values: Vec<Value>)
    ensures
        crate::json::values(values@) == Seq::new(sort@.len(), |i: int| sort_json(sort@[i])),
{
    let mut out: Vec<Value> = Vec::new();
    let mut i: usize = 0;
    while i < sort.len()
        invariant
            i <= sort@.len(),
            out@.len() == i,
            forall|j: int| 0 <= j < i ==> (#[trigger] out@[j])@ == sort_json(sort@[j]),
        decreases sort@.len() - i,
    {
        let mut record = Record::new();
        record.insert("field".to_string(), Value::text(sort[i].field.as_str()));
        record.insert("direction".to_string(), Value::text(sort_dir_str(&sort[i].direction)));
        out.push(Value::object(record));
        i = i + 1;
    }
    assert(crate::json::values(out@) =~= Seq::new(sort@.len(), |i: int| sort_json(sort@[i])));
    out
}

fn text_values(texts: &Vec<String>) -> (values: Vec<Value>)
    ensures
        crate::json::values(values@) == Seq::new(
            texts@.len(),
            |i: int| crate::json::Json::String(texts@[i]@),
        ),
{
    let mut out: Vec<Value> = Vec::new();
    let mut i: usize = 0;
    while i < texts.len()
        invariant
            i <= texts@.len(),
            out@.len() == i,
            forall|j: int|
                0 <= j < i ==> (#[trigger] out@[j])@ == crate::json::Json::String(texts@[j]@),
        decreases texts@.len() - i,
    {
        out.push(Value::text(texts[i].as_str()));
        i = i + 1;
    }
    assert(crate::json::values(out@) =~= Seq::new(
        texts@.len(),
        |i: int| crate::json::Json::String(texts@[i]@),
    ));
    out
}

fn count(n: u64) -> (value: Value)
    ensures
        value@ == crate::json::Json::Number(Number::Unsigned(n)),
{
    let value = Value::Number(Number::Unsigned(n));
    proof {
        crate::json::lemma_value_view(value);
    }
    value
}

/// The options of a listing as an object.
pub fn list_options(
    filters: &Vec<Filter>,
    sort: &Vec<SortField>,
    pagination: Option<Pagination>,
    projection: &Vec<String>,
) -> (options: Record)
    ensures
        options@ == options_json(filters@, sort@, pagination, projection@),
{
    let mut options = Record::new();
    options.insert("filters".to_string(), Value::array(filter_values(filters)));
    if sort.len() > 0 {
        options.insert("sort".to_string(), Value::array(sort_values(sort)));
    }
    if let Some(page) = pagination {
        let mut record = Record::new();
        record.insert("offset".to_string(), count(page.offset));
        record.insert("limit".to_string(), count(page.limit));
        options.insert("pagination".to_string(), Value::object(record));
    }
    if projection.len() > 0 {
        options.insert("projection".to_string(), Value::array(text_values(projection)));
    }
    options
}

/// Labels name their operation and their status.
pub proof fn labels_name_what_they_label(
    op: Operation,
    label: &'static str,
    status: ConnectionStatus,
    shown: &'static str,
)
    requires
        call_ensures(op_label, (op,), label),
        call_ensures(status_label, (status,), shown),
    ensures
        op is Insert ==> label@ == "insert"@,
        op is Update ==> label@ == "update"@,
        op is Delete ==> label@ == "delete"@,
        status is Offline ==> shown@ == "Offline"@,
        status is Connecting ==> shown@ == "Connecting"@,
        status is Connected ==> shown@ == "Connected"@,
        status is Error ==> shown@ == "Error"@,
        status is Disconnected ==> shown@ == "Disconnected"@,
{
}

/// A tag names an origin; no tag, or an unknown one, is local.
pub proof fn unknown_tags_are_local(tag: Option<String>, origin: Origin)
    requires
        call_ensures(origin_from_tag, (tag,), origin),
    ensures
        origin is Remote <==> (tag matches Some(t) && t@ == "remote"@),
        origin is Load <==> (tag matches Some(t) && t@ == "load"@),
        origin is Clear <==> (tag matches Some(t) && t@ == "clear"@),
{
    reveal_strlit("remote");
    reveal_strlit("load");
    reveal_strlit("clear");
    assert("remote"@[0] == 'r' && "load"@[0] == 'l' && "clear"@[0] == 'c');
}

/// Sorting is ascending unless it is asked to be descending.
pub proof fn sorting_is_ascending_unless_asked(
    field: String,
    direction: Option<String>,
    sort: SortField,
)
    requires
        call_ensures(sort_field, (field, direction), sort),
    ensures
        sort.field@ == field@,
        sort.direction is Desc <==> (direction matches Some(d) && d@ == "desc"@),
{
}

proof fn lemma_rows_by_id(rows: Seq<Map<Seq<char>, crate::json::Json>>, id: Seq<char>) -> (at: int)
    ensures
        rows_by_id(rows).contains_key(id) ==> {
            &&& 0 <= at < rows.len()
            &&& crate::json::text_in(rows[at], "id"@) == Some(id)
            &&& rows_by_id(rows)[id] == crate::json::Json::Object(rows[at])
        },
        forall|j: int|
            0 <= j < rows.len() && (!rows_by_id(rows).contains_key(id) || at < j)
                ==> crate::json::text_in(#[trigger] rows[j], "id"@) != Some(id),
    decreases rows.len(),
{
    if rows.len() == 0 {
        0
    } else {
        let front = rows.drop_last();
        let at = lemma_rows_by_id(front, id);
        if crate::json::text_in(rows.last(), "id"@) == Some(id) {
            rows.len() - 1
        } else {
            assert forall|j: int|
                0 <= j < rows.len() && (!rows_by_id(rows).contains_key(id) || at < j) implies
                crate::json::text_in(#[trigger] rows[j], "id"@) != Some(id) by {
                if j < front.len() {
                    assert(crate::json::text_in(front[j], "id"@) != Some(id));
                }
            }
            at
        }
    }
}

/// A snapshot holds each row under its id: a row that no later row shares its id with
/// is found there whole, and nothing is found under an id that no row has.
pub proof fn snapshots_hold_rows_by_id(
    rows: Vec<Record>,
    map: Record,
    id: &str,
    found: Option<&Value>,
    i: int,
)
    requires
        call_ensures(snapshot_as_map, (rows,), map),
        call_ensures(Record::get, (&map, id), found),
    ensures
        found is Some <==> exists|k: int|
            0 <= k < rows@.len() && crate::json::text_in((#[trigger] rows@[k])@, "id"@) == Some(id@),
        0 <= i < rows@.len() && crate::json::text_in(rows@[i]@, "id"@) == Some(id@) && (forall|
            j: int,
        |
            i < j < rows@.len() ==> crate::json::text_in((#[trigger] rows@[j])@, "id"@) != Some(
                id@,
            )) ==> found->Some_0@ == crate::json::Json::Object(rows@[i]@),
{
    let models = crate::json::records(rows@);
    let at = lemma_rows_by_id(models, id@);
    if found is Some {
        assert(crate::json::text_in(rows@[at]@, "id"@) == Some(id@));
    }
    if exists|k: int|
        0 <= k < rows@.len() && crate::json::text_in((#[trigger] rows@[k])@, "id"@) == Some(id@) {
        let k = choose|k: int|
            0 <= k < rows@.len() && crate::json::text_in((#[trigger] rows@[k])@, "id"@) == Some(id@);
        assert(crate::json::text_in(models[k], "id"@) == Some(id@));
    }
    if 0 <= i < rows@.len() && crate::json::text_in(rows@[i]@, "id"@) == Some(id@) {
        assert(crate::json::text_in(models[i], "id"@) == Some(id@));
        if at != i {
            assert(crate::json::text_in(rows@[at]@, "id"@) == Some(id@));
        }
    }
}

/// The options of a listing say what was asked: every filter in order with its field,
/// its comparison and its value, and the sorting, the page and the projection exactly
/// where there are any.
pub proof fn options_say_what_was_asked(
    filters: &Vec<Filter>,
    sort: &Vec<SortField>,
    pagination: Option<Pagination>,
    projection: &Vec<String>,
    options: Record,
    comparison: &'static str,
    direction: &'static str,
    i: int,
)
    requires
        call_ensures(list_options, (filters, sort, pagination, projection), options),
        0 <= i < filters@.len() ==> call_ensures(
            crate::types::filter_op_str,
            (&filters@[i].op,),
            comparison,
        ),
        0 <= i < sort@.len() ==> call_ensures(
            crate::types::sort_dir_str,
            (&sort@[i].direction,),
            direction,
        ),
    ensures
        ({
            let asked = crate::json::field_in(options@, "filters"@)->Some_0->Array_0;
            &&& crate::json::field_in(options@, "filters"@) matches Some(
                crate::json::Json::Array(_),
            )
            &&& asked.len() == filters@.len()
            &&& 0 <= i < filters@.len() ==> {
                &&& crate::json::field_of(asked[i], "field"@) == Some(
                    crate::json::Json::String(filters@[i].field@),
                )
                &&& crate::json::field_of(asked[i], "op"@) == Some(
                    crate::json::Json::String(comparison@),
                )
                &&& crate::json::field_of(asked[i], "value"@) == Some(filters@[i].value@)
            }
        }),
        ({
            let sorted = crate::json::field_in(options@, "sort"@)->Some_0->Array_0;
            &&& sort@.len() == 0 <==> crate::json::field_in(options@, "sort"@) is None
            &&& sort@.len() > 0 ==> (crate::json::field_in(options@, "sort"@) matches Some(
                crate::json::Json::Array(_),
            )) && sorted.len() == sort@.len()
            &&& 0 <= i < sort@.len() ==> {
                &&& crate::json::field_of(sorted[i], "field"@) == Some(
                    crate::json::Json::String(sort@[i].field@),
                )
                &&& crate::json::field_of(sorted[i], "direction"@) == Some(
                    crate::json::Json::String(direction@),
                )
            }
        }),
        match pagination {
            Some(page) => {
                let paged = crate::json::field_in(options@, "pagination"@)->Some_0;
                &&& crate::json::field_in(options@, "pagination"@) is Some
                &&& crate::json::field_of(paged, "offset"@) == Some(
                    crate::json::Json::Number(Number::Unsigned(page.offset)),
                )
                &&& crate::json::field_of(paged, "limit"@) == Some(
                    crate::json::Json::Number(Number::Unsigned(page.limit)),
                )
            },
            None => crate::json::field_in(options@, "pagination"@) is None,
        },
        ({
            let shown = crate::json::field_in(options@, "projection"@)->Some_0->Array_0;
            &&& projection@.len() == 0 <==> crate::json::field_in(options@, "projection"@) is None
            &&& projection@.len() > 0 ==> (crate::json::field_in(
                options@,
                "projection"@,
            ) matches Some(crate::json::Json::Array(_))) && shown.len() == projection@.len()
            &&& 0 <= i < projection@.len() ==> shown[i] == crate::json::Json::String(
                projection@[i]@,
            )
        }),
{
    reveal_strlit("filters");
    reveal_strlit("sort");
    reveal_strlit("pagination");
    reveal_strlit("projection");
    reveal_strlit("field");
    reveal_strlit("op");
    reveal_strlit("value");
    reveal_strlit("direction");
    reveal_strlit("offset");
    reveal_strlit("limit");
    assert("filters"@[0] == 'f' && "sort"@[0] == 's' && "pagination"@[1] == 'a' && "projection"@[1]
        == 'r' && "pagination"@[0] == 'p' && "projection"@[0] == 'p');
    assert("field"@[0] == 'f' && "op"@[0] == 'o' && "value"@[0] == 'v' && "direction"@[0] == 'd');
    assert("offset"@[0] == 'o' && "limit"@[0] == 'l');
}

} // verus!
