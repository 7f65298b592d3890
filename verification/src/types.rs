//! The events, mutations and queries of the store.
use vstd::prelude::*;
use crate::assoc::Assoc;
use crate::json::Record;

verus! {

/// The kind of mutation an event represents.
#[derive(Debug, Clone, Copy, PartialEq, Eq, Structural, Hash)]
pub enum Operation {
    Insert,
    Update,
    Delete,
}

impl Operation {
    /// Replay-safe ordering when consolidating queued mutations:
    /// `Insert (0) < Update (1) < Delete (2)`.
    #[must_use]
    pub fn priority(self) -> (rank: u8)
        ensures
            rank == (match self {
                Operation::Insert => 0u8,
                Operation::Update => 1u8,
                Operation::Delete => 2u8,
            }),
    {
        match self {
            Self::Insert => 0,
            Self::Update => 1,
            Self::Delete => 2,
        }
    }
}

/// Who caused a mutation.
#[derive(Debug, Clone, Copy, PartialEq, Eq, Structural)]
pub enum Origin {
    Local,
    Remote,
    Load,
    Clear,
}

/// Emitted on the memory and persistence subscription buses for every write.
#[derive(Debug)]
pub struct MutationEvent {
    pub operation: Operation,
    pub entity: String,
    pub id: String,
    pub scope_id: String,
    pub data: Option<Record>,
    pub origin: Origin,
}

/// The fields of a record, if there is one.
pub open spec fn data_model(data: Option<Record>) -> Option<Map<Seq<char>, crate::json::Json>> {
    match data {
        Some(record) => Some(record@),
        None => None,
    }
}

/// The mathematical content of a [`MutationEvent`].
#[verifier::ext_equal]
pub struct MutationModel {
    pub operation: Operation,
    pub entity: Seq<char>,
    pub id: Seq<char>,
    pub scope_id: Seq<char>,
    pub data: Option<Map<Seq<char>, crate::json::Json>>,
    pub origin: Origin,
}

impl View for MutationEvent {
    type V = MutationModel;

    open spec fn view(&self) -> MutationModel {
        MutationModel {
            operation: self.operation,
            entity: self.entity@,
            id: self.id@,
            scope_id: self.scope_id@,
            data: data_model(self.data),
            origin: self.origin,
        }
    }
}

/// Top-level event of the store. Includes both per-row mutations and
/// whole-scope load/clear signals.
#[derive(Debug)]
pub enum StoreEvent {
    /// A single row insert/update/delete.
    Mutation(MutationEvent),
    /// A fresh scope was loaded into memory.
    ScopeLoaded { scope_id: String, entities: Vec<String> },
    /// A scope was torn down: explicitly, or because another one was loaded in
    /// its place. Subscribers should treat it as "this scope id is no longer
    /// active in memory."
    ScopeCleared { scope_id: String, entities: Vec<String> },
}

/// The mathematical content of a [`StoreEvent`].
#[verifier::ext_equal]
pub enum StoreEventModel {
    Mutation(MutationModel),
    ScopeLoaded(Seq<char>, Seq<Seq<char>>),
    ScopeCleared(Seq<char>, Seq<Seq<char>>),
}

impl View for StoreEvent {
    type V = StoreEventModel;

    open spec fn view(&self) -> StoreEventModel {
        match self {
            StoreEvent::Mutation(event) => StoreEventModel::Mutation(event@),
            StoreEvent::ScopeLoaded { scope_id, entities } => StoreEventModel::ScopeLoaded(
                scope_id@,
                crate::text::texts(entities@),
            ),
            StoreEvent::ScopeCleared { scope_id, entities } => StoreEventModel::ScopeCleared(
                scope_id@,
                crate::text::texts(entities@),
            ),
        }
    }
}

/// Snapshot of one scope: the root record plus all children, grouped by
/// entity.
#[derive(Debug)]
pub struct ScopeBundle {
    pub root: Option<Record>,
    pub children: Assoc<String, Vec<Record>>,
}

/// Mutation arriving from the broker or queued for outbound send.
#[derive(Debug)]
pub struct SyncMutation {
    pub op: Operation,
    pub entity: String,
    pub id: String,
    pub data: Option<Record>,
    pub operation_id: Option<String>,
}

/// The mathematical content of a [`SyncMutation`].
#[verifier::ext_equal]
pub struct SyncMutationModel {
    pub op: Operation,
    pub entity: Seq<char>,
    pub id: Seq<char>,
    pub data: Option<Map<Seq<char>, crate::json::Json>>,
    pub operation_id: Option<Seq<char>>,
}

impl View for SyncMutation {
    type V = SyncMutationModel;

    open spec fn view(&self) -> SyncMutationModel {
        SyncMutationModel {
            op: self.op,
            entity: self.entity@,
            id: self.id@,
            data: data_model(self.data),
            operation_id: match self.operation_id {
                Some(id) => Some(id@),
                None => None,
            },
        }
    }
}

/// Mutations by their content.
pub open spec fn sync_models(mutations: Seq<SyncMutation>) -> Seq<SyncMutationModel> {
    Seq::new(mutations.len(), |i: int| mutations[i]@)
}

/// Server-side snapshot of a scope. Includes the version stamp and any
/// mutations that were buffered while the fetch was in flight.
#[derive(Debug)]
pub struct ScopeState {
    pub root: Record,
    pub children: Assoc<String, Vec<Record>>,
    pub version: u64,
    pub buffered_mutations: Vec<SyncMutation>,
}

/// Row in the persistent offline queue. Replayed in order on reconnect.
#[derive(Debug)]
pub struct PendingMutation {
    pub op: Operation,
    pub entity: String,
    pub id: String,
    pub scope_id: String,
    pub data: Option<Record>,
    pub created_at: u64,
}

/// Connection state of the remote MQTT client.
#[derive(Debug, Clone, Copy, PartialEq, Eq, Structural, Hash)]
pub enum ConnectionStatus {
    Offline,
    Connecting,
    Connected,
    Error,
    Disconnected,
}

/// Sort direction for [`SortField`].
#[derive(Debug, Clone, Copy, PartialEq, Eq, Structural, Hash)]
pub enum SortDirection {
    Asc,
    Desc,
}

/// A single sort key. Multiple `SortField`s in a [`ListFilter`] are applied in
/// order.
#[derive(Debug, PartialEq, Eq)]
pub struct SortField {
    pub field: String,
    pub direction: SortDirection,
}

/// Optional filters for listing. All fields are optional; the empty
/// `ListFilter` returns every row of the entity.
#[derive(Debug, PartialEq, Eq)]
pub struct ListFilter {
    pub scope_id: Option<String>,
    pub sort: Vec<SortField>,
    pub projection: Vec<String>,
}

impl Default for ListFilter {
    fn default() -> (filter: Self)
        ensures
            filter.scope_id is None,
            filter.sort@.len() == 0,
            filter.projection@.len() == 0,
    {
        ListFilter { scope_id: None, sort: Vec::new(), projection: Vec::new() }
    }
}

/// The type of a field.
#[derive(Debug, Clone, Copy, PartialEq, Eq, Structural)]
pub enum FieldType {
    String,
    Number,
    Boolean,
    Object,
    Array,
}

/// The name of a field type.
pub open spec fn field_type_name(ft: FieldType) -> Seq<char> {
    match ft {
        FieldType::String => "string"@,
        FieldType::Number => "number"@,
        FieldType::Boolean => "boolean"@,
        FieldType::Object => "object"@,
        FieldType::Array => "array"@,
    }
}

/// The name of a field type.
pub fn field_type_str(ft: FieldType) -> (name: &'static str)
    ensures
        name@ == field_type_name(ft),
{
    match ft {
        FieldType::String => "string",
        FieldType::Number => "number",
        FieldType::Boolean => "boolean",
        FieldType::Object => "object",
        FieldType::Array => "array",
    }
}

/// How a filter compares.
#[derive(Debug, Clone, Copy, PartialEq, Eq, Structural)]
pub enum FilterOp {
    Eq,
    Neq,
    Lt,
    Lte,
    Gt,
    Gte,
    In,
    Like,
    IsNull,
    IsNotNull,
}

/// The name of a filter comparison.
pub open spec fn filter_op_name(op: FilterOp) -> Seq<char> {
    match op {
        FilterOp::Eq => "eq"@,
        FilterOp::Neq => "neq"@,
        FilterOp::Lt => "lt"@,
        FilterOp::Lte => "lte"@,
        FilterOp::Gt => "gt"@,
        FilterOp::Gte => "gte"@,
        FilterOp::In => "in"@,
        FilterOp::Like => "like"@,
        FilterOp::IsNull => "is_null"@,
        FilterOp::IsNotNull => "is_not_null"@,
    }
}

/// The name of a filter comparison.
pub fn filter_op_str(op: &FilterOp) -> (name: &'static str)
    ensures
        name@ == filter_op_name(*op),
{
    match op {
        FilterOp::Eq => "eq",
        FilterOp::Neq => "neq",
        FilterOp::Lt => "lt",
        FilterOp::Lte => "lte",
        FilterOp::Gt => "gt",
        FilterOp::Gte => "gte",
        FilterOp::In => "in",
        FilterOp::Like => "like",
        FilterOp::IsNull => "is_null",
        FilterOp::IsNotNull => "is_not_null",
    }
}

/// The name of a sort direction.
pub open spec fn sort_dir_name(dir: SortDirection) -> Seq<char> {
    match dir {
        SortDirection::Asc => "asc"@,
        SortDirection::Desc => "desc"@,
    }
}

/// The name of a sort direction.
pub fn sort_dir_str(dir: &SortDirection) -> (name: &'static str)
    ensures
        name@ == sort_dir_name(*dir),
{
    match dir {
        SortDirection::Asc => "asc",
        SortDirection::Desc => "desc",
    }
}

/// A field of an entity's schema.
#[derive(Debug)]
pub struct SchemaField {
    pub name: String,
    pub field_type: FieldType,
    pub required: bool,
    pub default: Option<crate::json::Value>,
}

/// A schema field as a JSON object.
pub open spec fn schema_field_json(field: SchemaField) -> crate::json::Json {
    let base = Map::<Seq<char>, crate::json::Json>::empty().insert(
        "name"@,
        crate::json::Json::String(field.name@),
    ).insert("type"@, crate::json::Json::String(field_type_name(field.field_type))).insert(
        "required"@,
        crate::json::Json::Bool(field.required),
    );
    crate::json::Json::Object(
        match field.default {
            Some(default) => base.insert("default"@, default@),
            None => base,
        },
    )
}

/// A schema as a JSON object.
pub fn schema_js(fields: &Vec<SchemaField>) -> (schema: crate::json::Value)
    ensures
        schema@ == crate::json::Json::Object(
            Map::<Seq<char>, crate::json::Json>::empty().insert(
                "fields"@,
                crate::json::Json::Array(
                    Seq::new(fields@.len(), |i: int| schema_field_json(fields@[i])),
                ),
            ),
        ),
{
    let mut out: Vec<crate::json::Value> = Vec::new();
    let mut i: usize = 0;
    while i < fields.len()
        invariant
            i <= fields@.len(),
            out@.len() == i,
            forall|j: int| 0 <= j < i ==> (#[trigger] out@[j])@ == schema_field_json(fields@[j]),
        decreases fields@.len() - i,
    {
        let field = &fields[i];
        let mut obj = Record::new();
        obj.insert("name".to_string(), crate::json::Value::text(field.name.as_str()));
        obj.insert(
            "type".to_string(),
            crate::json::Value::text(field_type_str(field.field_type)),
        );
        obj.insert("required".to_string(), crate::json::Value::boolean(field.required));
        if let Some(default) = &field.default {
            obj.insert("default".to_string(), default.clone());
        }
        out.push(crate::json::Value::object(obj));
        i = i + 1;
    }
    assert(crate::json::values(out@) =~= Seq::new(
        fields@.len(),
        |i: int| schema_field_json(fields@[i]),
    ));
    let mut schema = Record::new();
    schema.insert("fields".to_string(), crate::json::Value::array(out));
    crate::json::Value::object(schema)
}

/// Deletes outrank updates, and updates outrank inserts.
pub proof fn deletes_rank_highest(one: Operation, rank: u8, other: Operation, other_rank: u8)
    requires
        call_ensures(Operation::priority, (one,), rank),
        call_ensures(Operation::priority, (other,), other_rank),
    ensures
        rank == other_rank <==> one == other,
        one is Insert && !(other is Insert) ==> rank < other_rank,
        one is Delete && !(other is Delete) ==> rank > other_rank,
        one is Insert ==> rank == 0,
        one is Delete ==> rank == 2,
{
}

/// The name of a field's type says the type: two types have the same name only if
/// they are the same.
pub proof fn type_names_tell_types_apart(
    one: FieldType,
    name: &'static str,
    other: FieldType,
    other_name: &'static str,
)
    requires
        call_ensures(field_type_str, (one,), name),
        call_ensures(field_type_str, (other,), other_name),
    ensures
        name@ == other_name@ <==> one == other,
        one is String ==> name@ == "string"@,
        one is Number ==> name@ == "number"@,
        one is Boolean ==> name@ == "boolean"@,
        one is Object ==> name@ == "object"@,
        one is Array ==> name@ == "array"@,
{
    reveal_strlit("string");
    reveal_strlit("number");
    reveal_strlit("boolean");
    reveal_strlit("object");
    reveal_strlit("array");
    assert("string"@[0] == 's' && "number"@[0] == 'n' && "boolean"@[0] == 'b' && "object"@[0] == 'o'
        && "array"@[0] == 'a');
}

/// The name of a comparison says the comparison, and that of a direction the
/// direction.
pub proof fn comparison_names_tell_them_apart(
    one: FilterOp,
    name: &'static str,
    other: FilterOp,
    other_name: &'static str,
    direction: SortDirection,
    word: &'static str,
)
    requires
        call_ensures(filter_op_str, (&one,), name),
        call_ensures(filter_op_str, (&other,), other_name),
        call_ensures(sort_dir_str, (&direction,), word),
    ensures
        name@ == other_name@ <==> one == other,
        one is Eq <==> name@ == "eq"@,
        one is Neq <==> name@ == "neq"@,
        one is Lt <==> name@ == "lt"@,
        one is Lte <==> name@ == "lte"@,
        one is Gt <==> name@ == "gt"@,
        one is Gte <==> name@ == "gte"@,
        one is In <==> name@ == "in"@,
        one is Like <==> name@ == "like"@,
        one is IsNull <==> name@ == "is_null"@,
        one is IsNotNull <==> name@ == "is_not_null"@,
        direction is Asc <==> word@ == "asc"@,
        direction is Desc <==> word@ == "desc"@,
{
    reveal_strlit("eq");
    reveal_strlit("neq");
    reveal_strlit("lt");
    reveal_strlit("lte");
    reveal_strlit("gt");
    reveal_strlit("gte");
    reveal_strlit("in");
    reveal_strlit("like");
    reveal_strlit("is_null");
    reveal_strlit("is_not_null");
    reveal_strlit("asc");
    reveal_strlit("desc");
    assert("eq"@[0] == 'e' && "neq"@[0] == 'n' && "lt"@[0] == 'l' && "lte"@[0] == 'l' && "gt"@[0]
        == 'g' && "gte"@[0] == 'g' && "in"@[0] == 'i' && "like"@[0] == 'l' && "is_null"@[0] == 'i'
        && "is_not_null"@[0] == 'i');
    assert("lt"@.len() == 2 && "lte"@.len() == 3 && "like"@.len() == 4 && "gt"@.len() == 2
        && "gte"@.len() == 3 && "in"@.len() == 2 && "is_null"@.len() == 7 && "is_not_null"@.len()
        == 11);
    assert("asc"@[0] == 'a' && "desc"@[0] == 'd');
}

/// A schema lists its fields in order, each with its name, the name of its type,
/// whether it is required, and its default exactly if it has one.
pub proof fn schemas_describe_their_fields(
    fields: &Vec<SchemaField>,
    schema: crate::json::Value,
    called: &'static str,
    i: int,
)
    requires
        call_ensures(schema_js, (fields,), schema),
        0 <= i < fields@.len(),
        call_ensures(field_type_str, (fields@[i].field_type,), called),
    ensures
        ({
            let listed = crate::json::field_of(schema@, "fields"@)->Some_0->Array_0;
            let described = listed[i]->Object_0;
            &&& crate::json::field_of(schema@, "fields"@) matches Some(crate::json::Json::Array(_))
            &&& listed.len() == fields@.len()
            &&& listed[i] is Object
            &&& crate::json::text_in(described, "name"@) == Some(fields@[i].name@)
            &&& crate::json::text_in(described, "type"@) == Some(called@)
            &&& crate::json::field_in(described, "required"@) == Some(
                crate::json::Json::Bool(fields@[i].required),
            )
            &&& match fields@[i].default {
                Some(value) => crate::json::field_in(described, "default"@) == Some(value@),
                None => crate::json::field_in(described, "default"@) is None,
            }
        }),
{
    reveal_strlit("name");
    reveal_strlit("type");
    reveal_strlit("required");
    reveal_strlit("default");
    assert("name"@[0] == 'n' && "type"@[0] == 't' && "required"@[0] == 'r' && "default"@[0] == 'd');
}

} // verus!
