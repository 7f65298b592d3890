//! What the in-memory and the durable store decide around their database.
use vstd::prelude::*;
use crate::assoc::Assoc;
use crate::config::StoreConfig;
use crate::json::{Record, Value};
use crate::text::same_text;
use crate::types::{MutationEvent, Operation, Origin, StoreEvent};

verus! {

/// The scope that a record belongs to: a root is its own scope, a top-level
/// record has the empty one, any other names it in the scope field.
pub open spec fn scope_of(
    config: StoreConfig,
    entity: Seq<char>,
    record: Map<Seq<char>, crate::json::Json>,
) -> Option<Seq<char>> {
    if config.is_root(entity) {
        crate::json::text_in(record, "id"@)
    } else if config.is_top_level(entity) {
        Some(Seq::empty())
    } else {
        crate::json::text_in(record, config.scope.scope_field@)
    }
}

/// The scope that a record belongs to.
pub fn resolve_scope(config: &StoreConfig, entity: &str, data: &Record) -> (scope: Option<String>)
    ensures
        match scope {
            Some(s) => scope_of(*config, entity@, data@) == Some(s@),
            None => scope_of(*config, entity@, data@) is None,
        },
{
    if config.root(entity) {
        return match data.get_str("id") {
            Some(id) => Some(id.to_string()),
            None => None,
        };
    }
    if config.top_level(entity) {
        let none = String::new();
        assert(none@ =~= Seq::<char>::empty());
        return Some(none);
    }
    match data.get_str(config.scope.scope_field.as_str()) {
        Some(id) => Some(id.to_string()),
        None => None,
    }
}

/// The records of a scope are those whose scope field names it; of roots and
/// top-level entities all records are listed.
pub fn list_filters(config: &StoreConfig, entity: &str, scope_id: &str) -> (filter: Option<
    (String, Value),
>)
    ensures
        filter is Some <==> config.is_scoped(entity@),
        filter matches Some((field, value)) ==> field@ == config.scope.scope_field@ && value@
            == crate::json::Json::String(scope_id@),
{
    if config.scoped(entity) {
        Some((config.scope.scope_field.clone(), Value::text(scope_id)))
    } else {
        None
    }
}

/// A record that the database gave back, which has to be an object.
pub fn value_to_record(value: Value) -> (record: Option<Record>)
    ensures
        match record {
            Some(r) => value@ == crate::json::Json::Object(r@),
            None => !(value@ is Object),
        },
{
    value.into_object()
}

/// What a field says, or another text if it says none.
pub open spec fn text_or(
    record: Map<Seq<char>, crate::json::Json>,
    key: Seq<char>,
    other: Seq<char>,
) -> Seq<char> {
    match crate::json::text_in(record, key) {
        Some(s) => s,
        None => other,
    }
}

fn id_or(record: &Record, other: &str) -> (id: String)
    ensures
        id@ == text_or(record@, "id"@, other@),
{
    match record.get_str("id") {
        Some(id) => id.to_string(),
        None => other.to_string(),
    }
}

/// Events are grouped by scope and entity.
pub open spec fn batch_key(event: crate::types::MutationModel) -> (Seq<char>, Seq<char>) {
    (event.scope_id, event.entity)
}

/// The events held back while a batch is open: the latest of each scope and
/// entity.
#[derive(Debug)]
struct BatchState {
    depth: u32,
    buffered: Assoc<(String, String), MutationEvent>,
}

/// The mathematical content of the events held back.
pub type BufferedModel = Map<(Seq<char>, Seq<char>), crate::types::MutationModel>;

/// `events` hands out every buffered event once.
pub open spec fn drains(buffered: BufferedModel, events: Seq<MutationEvent>) -> bool {
    &&& forall|i: int, j: int|
        0 <= i < j < events.len() ==> batch_key((#[trigger] events[i])@) != batch_key(
            (#[trigger] events[j])@,
        )
    &&& forall|i: int|
        0 <= i < events.len() ==> buffered.contains_key(batch_key((#[trigger] events[i])@))
            && buffered[batch_key(events[i]@)] == events[i]@
    &&& forall|key: (Seq<char>, Seq<char>)| #[trigger]
        buffered.contains_key(key) ==> exists|i: int|
            0 <= i < events.len() && batch_key((#[trigger] events[i])@) == key
}

/// Every event is buffered under its own scope and entity.
pub open spec fn buffer_ok(buffered: BufferedModel) -> bool {
    forall|key: (Seq<char>, Seq<char>)| #[trigger]
        buffered.contains_key(key) ==> batch_key(buffered[key]) == key
}

/// The in-memory store of one scope at a time: what it decides around its
/// database.
#[derive(Debug)]
pub struct MemoryStore {
    config: StoreConfig,
    current_scope: Option<String>,
    batch: BatchState,
}

/// The mathematical content of a [`MemoryStore`].
#[verifier::ext_equal]
pub struct MemoryModel {
    pub current_scope: Option<Seq<char>>,
    /// How many batches are open, one inside the other.
    pub depth: u32,
    pub buffered: BufferedModel,
}

impl View for MemoryStore {
    type V = MemoryModel;

    closed spec fn view(&self) -> MemoryModel {
        MemoryModel {
            current_scope: match self.current_scope {
                Some(scope) => Some(scope@),
                None => None,
            },
            depth: self.batch.depth,
            buffered: self.batch.buffered@.map_values(|event: MutationEvent| event@),
        }
    }
}

impl MemoryStore {
    /// Buffered events stand under their own keys.
    pub open spec fn wf(&self) -> bool {
        buffer_ok(self@.buffered)
    }

    /// How the store is laid out.
    pub closed spec fn layout(&self) -> StoreConfig {
        self.config
    }

    /// An empty store.
    #[must_use]
    pub fn new(config: StoreConfig) -> (store: Self)
        ensures
            store.wf(),
            store.layout() == config,
            store@ == (MemoryModel { current_scope: None, depth: 0, buffered: Map::empty() }),
    {
        let store = MemoryStore {
            config,
            current_scope: None,
            batch: BatchState { depth: 0, buffered: Assoc::new() },
        };
        assert(store@ =~= MemoryModel { current_scope: None, depth: 0, buffered: Map::empty() });
        store
    }

    /// From now on hold events back until the batch ends. Batches nest.
    pub fn begin_batch(&mut self)
        requires
            old(self).wf(),
        ensures
            final(self).wf(),
            final(self).layout() == old(self).layout(),
            final(self)@ == (MemoryModel {
                depth: if old(self)@.depth < u32::MAX {
                    (old(self)@.depth + 1) as u32
                } else {
                    u32::MAX
                },
                ..old(self)@
            }),
    {
        self.batch.depth = self.batch.depth.saturating_add(1);
    }

    /// Ends the innermost batch. When the outermost one ends, hands out the
    /// events that were held back: one for each scope and entity that changed,
    /// its latest. Without a batch nothing happens.
    pub fn end_batch(&mut self) -> (events: Vec<MutationEvent>)
        requires
            old(self).wf(),
        ensures
            final(self).wf(),
            final(self).layout() == old(self).layout(),
            if old(self)@.depth == 1 {
                &&& drains(old(self)@.buffered, events@)
                &&& final(self)@ == (MemoryModel {
                    depth: 0,
                    buffered: Map::empty(),
                    ..old(self)@
                })
            } else {
                &&& events@.len() == 0
                &&& final(self)@ == (MemoryModel {
                    depth: if old(self)@.depth > 0 {
                        (old(self)@.depth - 1) as u32
                    } else {
                        0
                    },
                    ..old(self)@
                })
            },
    {
        let mut out: Vec<MutationEvent> = Vec::new();
        if self.batch.depth == 0 {
            return out;
        }
        self.batch.depth = self.batch.depth - 1;
        if self.batch.depth > 0 {
            return out;
        }
        let mut buffered: Assoc<(String, String), MutationEvent> = Assoc::new();
        std::mem::swap(&mut buffered, &mut self.batch.buffered);
        assert(self@ =~= MemoryModel { depth: 0, buffered: Map::empty(), ..old(self)@ });
        let ghost map = old(self)@.buffered;
        let ghost source = buffered@;
        assert(map == source.map_values(|event: MutationEvent| event@));
        while buffered.len() > 0
            invariant
                buffer_ok(map),
                map == source.map_values(|event: MutationEvent| event@),
                forall|key: (Seq<char>, Seq<char>)| #[trigger]
                    buffered@.contains_key(key) ==> source.contains_key(key) && buffered@[key]
                        == source[key],
                forall|i: int, j: int|
                    0 <= i < j < out@.len() ==> batch_key((#[trigger] out@[i])@) != batch_key(
                        (#[trigger] out@[j])@,
                    ),
                forall|i: int|
                    0 <= i < out@.len() ==> {
                        &&& map.contains_key(batch_key((#[trigger] out@[i])@))
                        &&& map[batch_key(out@[i]@)] == out@[i]@
                        &&& !buffered@.contains_key(batch_key(out@[i]@))
                    },
                forall|key: (Seq<char>, Seq<char>)| #[trigger]
                    map.contains_key(key) ==> buffered@.contains_key(key) || exists|i: int|
                        0 <= i < out@.len() && batch_key((#[trigger] out@[i])@) == key,
            decreases buffered.listing().len(),
        {
            let ghost before = buffered@;
            let ghost before_out = out@;
            let (taken_key, event) = buffered.pop_first();
            proof {
                let key = crate::assoc::Key::model(&taken_key);
                assert(before.contains_key(key));
                assert(map.contains_key(key));
                assert(map[key] == event@);
                assert(batch_key(event@) == key);
            }
            out.push(event);
            proof {
                let key = crate::assoc::Key::model(&taken_key);
                assert forall|i: int, j: int| 0 <= i < j < out@.len() implies batch_key(
                    (#[trigger] out@[i])@,
                ) != batch_key((#[trigger] out@[j])@) by {
                    assert(out@[i] == before_out[i]);
                    if j < before_out.len() {
                        assert(out@[j] == before_out[j]);
                    }
                }
                assert forall|i: int| 0 <= i < out@.len() implies {
                    &&& map.contains_key(batch_key((#[trigger] out@[i])@))
                    &&& map[batch_key(out@[i]@)] == out@[i]@
                    &&& !buffered@.contains_key(batch_key(out@[i]@))
                } by {
                    if i < before_out.len() {
                        assert(out@[i] == before_out[i]);
                    }
                }
                assert forall|k: (Seq<char>, Seq<char>)| #[trigger]
                    map.contains_key(k) implies buffered@.contains_key(k) || exists|i: int|
                    0 <= i < out@.len() && batch_key((#[trigger] out@[i])@) == k by {
                    if k == key {
                        assert(batch_key(out@[before_out.len() as int]@) == k);
                    } else if !before.contains_key(k) {
                        let i = choose|i: int|
                            0 <= i < before_out.len() && batch_key((#[trigger] before_out[i])@)
                                == k;
                        assert(out@[i] == before_out[i]);
                    }
                }
            }
        }
        proof {
            assert forall|key: (Seq<char>, Seq<char>)| #[trigger]
                map.contains_key(key) implies exists|i: int|
                0 <= i < out@.len() && batch_key((#[trigger] out@[i])@) == key by {
                assert(!buffered@.contains_key(key));
            }
        }
        out
    }

    #[must_use]
    pub fn current_scope(&self) -> (scope: Option<String>)
        ensures
            match scope {
                Some(s) => self@.current_scope == Some(s@),
                None => self@.current_scope is None,
            },
    {
        match &self.current_scope {
            Some(scope) => Some(scope.clone()),
            None => None,
        }
    }

    /// Hands an event out, or holds it back while a batch is open, in place of
    /// the one of the same scope and entity.
    pub fn emit_mutation(&mut self, event: MutationEvent) -> (out: Option<MutationEvent>)
        requires
            old(self).wf(),
        ensures
            final(self).wf(),
            final(self).layout() == old(self).layout(),
            if old(self)@.depth > 0 {
                &&& out is None
                &&& final(self)@ == (MemoryModel {
                    buffered: old(self)@.buffered.insert(batch_key(event@), event@),
                    ..old(self)@
                })
            } else {
                &&& out == Some(event)
                &&& final(self)@ == old(self)@
            },
    {
        if self.batch.depth > 0 {
            let key = (event.scope_id.clone(), event.entity.clone());
            self.batch.buffered.insert(key, event);
            assert(self@ =~= MemoryModel {
                buffered: old(self)@.buffered.insert(batch_key(event@), event@),
                ..old(self)@
            });
            return None;
        }
        Some(event)
    }

    /// What to store for a new record: its fields that are not null, and the
    /// scope it belongs to if it says none itself.
    pub fn prepare_create(&self, entity: &str, scope_id: &str, data: Record) -> (prepared: Record)
        ensures
            ({
                let fields = crate::json::without_nulls(data@);
                let field = self.layout().scope.scope_field@;
                prepared@ == (if self.layout().is_scoped(entity@) && !fields.contains_key(field) {
                    fields.insert(field, crate::json::Json::String(scope_id@))
                } else {
                    fields
                })
            }),
    {
        let mut data = data;
        data.strip_nulls();
        if self.config.scoped(entity) && !data.contains_key(
            self.config.scope.scope_field.as_str(),
        ) {
            data.insert(self.config.scope.scope_field.clone(), Value::text(scope_id));
        }
        data
    }

    /// The event that tells of a new record, as the database has it.
    pub fn created(&self, entity: &str, scope_id: &str, record: &Record, origin: Origin) -> (event:
        MutationEvent)
        ensures
            event@ == (crate::types::MutationModel {
                operation: Operation::Insert,
                entity: entity@,
                id: text_or(record@, "id"@, Seq::empty()),
                scope_id: scope_id@,
                data: Some(record@),
                origin,
            }),
    {
        let empty = String::new();
        assert(empty@ =~= Seq::<char>::empty());
        MutationEvent {
            operation: Operation::Insert,
            entity: entity.to_string(),
            id: id_or(record, empty.as_str()),
            scope_id: scope_id.to_string(),
            data: Some(record.clone()),
            origin,
        }
    }

    /// What to change of a record: the fields that are not null.
    pub fn prepare_update(&self, fields: Record) -> (prepared: Record)
        ensures
            prepared@ == crate::json::without_nulls(fields@),
    {
        let mut fields = fields;
        fields.strip_nulls();
        fields
    }

    /// The event that tells of a changed record, as the database has it; none
    /// if the record belongs to no scope.
    pub fn updated(&self, entity: &str, id: &str, record: &Record, origin: Origin) -> (event:
        Option<MutationEvent>)
        ensures
            match event {
                Some(e) => updated_model(self.layout(), entity@, id@, record@, origin) == Some(e@),
                None => updated_model(self.layout(), entity@, id@, record@, origin) is None,
            },
    {
        updated_event(&self.config, entity, id, record, origin)
    }

    /// The event that tells of a deleted record; `existing` is the record as it
    /// was before.
    pub fn deleted(&self, entity: &str, id: &str, existing: Option<&Record>, origin: Origin) -> (
        event: MutationEvent)
        ensures
            event@ == deleted_model(
                self.layout(),
                entity@,
                id@,
                match existing {
                    Some(record) => Some(record@),
                    None => None,
                },
                origin,
            ),
    {
        deleted_event(&self.config, entity, id, existing, origin)
    }

    /// A scope was loaded in place of whatever was in memory. Returns the events
    /// that tell of it: the other scope that went, if there was one, then the
    /// one that came.
    pub fn loaded(&mut self, scope_id: &str) -> (events: Vec<StoreEvent>)
        requires
            old(self).wf(),
        ensures
            final(self).wf(),
            final(self).layout() == old(self).layout(),
            final(self)@ == (MemoryModel { current_scope: Some(scope_id@), ..old(self)@ }),
            ({
                let entities = old(self).layout().scoped_entities();
                let came = crate::types::StoreEventModel::ScopeLoaded(scope_id@, entities);
                match old(self)@.current_scope {
                    Some(previous) if previous != scope_id@ => events@.len() == 2 && events@[0]@
                        == crate::types::StoreEventModel::ScopeCleared(previous, entities)
                        && events@[1]@ == came,
                    _ => events@.len() == 1 && events@[0]@ == came,
                }
            }),
    {
        let mut events: Vec<StoreEvent> = Vec::new();
        let mut previous: Option<String> = None;
        std::mem::swap(&mut previous, &mut self.current_scope);
        self.current_scope = Some(scope_id.to_string());
        if let Some(previous) = previous {
            if !same_text(previous.as_str(), scope_id) {
                events.push(
                    StoreEvent::ScopeCleared {
                        scope_id: previous,
                        entities: self.config.all_scoped_entities(),
                    },
                );
            }
        }
        events.push(
            StoreEvent::ScopeLoaded {
                scope_id: scope_id.to_string(),
                entities: self.config.all_scoped_entities(),
            },
        );
        assert(self@ =~= MemoryModel { current_scope: Some(scope_id@), ..old(self)@ });
        events
    }

    /// Memory was emptied for this scope. Returns the event that tells of it.
    pub fn cleared(&mut self, scope_id: &str) -> (event: StoreEvent)
        requires
            old(self).wf(),
        ensures
            final(self).wf(),
            final(self).layout() == old(self).layout(),
            final(self)@ == (MemoryModel {
                current_scope: if old(self)@.current_scope == Some(scope_id@) {
                    None
                } else {
                    old(self)@.current_scope
                },
                ..old(self)@
            }),
            event@ == crate::types::StoreEventModel::ScopeCleared(
                scope_id@,
                old(self).layout().scoped_entities(),
            ),
    {
        let current = match &self.current_scope {
            Some(scope) => same_text(scope.as_str(), scope_id),
            None => false,
        };
        if current {
            self.current_scope = None;
        }
        StoreEvent::ScopeCleared {
            scope_id: scope_id.to_string(),
            entities: self.config.all_scoped_entities(),
        }
    }

    /// What to ask the database for when the records of a scope are listed.
    pub fn list_filters(&self, entity: &str, scope_id: &str) -> (filter: Option<(String, Value)>)
        ensures
            filter is Some <==> self.layout().is_scoped(entity@),
            filter matches Some((field, value)) ==> field@ == self.layout().scope.scope_field@
                && value@ == crate::json::Json::String(scope_id@),
    {
        list_filters(&self.config, entity, scope_id)
    }
}

/// The event that tells of a changed record.
pub open spec fn updated_model(
    config: StoreConfig,
    entity: Seq<char>,
    id: Seq<char>,
    record: Map<Seq<char>, crate::json::Json>,
    origin: Origin,
) -> Option<crate::types::MutationModel> {
    match scope_of(config, entity, record) {
        Some(scope_id) => Some(
            crate::types::MutationModel {
                operation: Operation::Update,
                entity,
                id: text_or(record, "id"@, id),
                scope_id,
                data: Some(record),
                origin,
            },
        ),
        None => None,
    }
}

/// The event that tells of a deleted record.
pub open spec fn deleted_model(
    config: StoreConfig,
    entity: Seq<char>,
    id: Seq<char>,
    existing: Option<Map<Seq<char>, crate::json::Json>>,
    origin: Origin,
) -> crate::types::MutationModel {
    crate::types::MutationModel {
        operation: Operation::Delete,
        entity,
        id,
        scope_id: match existing {
            Some(record) => match scope_of(config, entity, record) {
                Some(scope_id) => scope_id,
                None => Seq::empty(),
            },
            None => Seq::empty(),
        },
        data: None,
        origin,
    }
}

fn updated_event(
    config: &StoreConfig,
    entity: &str,
    id: &str,
    record: &Record,
    origin: Origin,
) -> (event: Option<MutationEvent>)
    ensures
        match event {
            Some(e) => updated_model(*config, entity@, id@, record@, origin) == Some(e@),
            None => updated_model(*config, entity@, id@, record@, origin) is None,
        },
{
    match resolve_scope(config, entity, record) {
        Some(scope_id) => Some(
            MutationEvent {
                operation: Operation::Update,
                entity: entity.to_string(),
                id: id_or(record, id),
                scope_id,
                data: Some(record.clone()),
                origin,
            },
        ),
        None => None,
    }
}

fn deleted_event(
    config: &StoreConfig,
    entity: &str,
    id: &str,
    existing: Option<&Record>,
    origin: Origin,
) -> (event: MutationEvent)
    ensures
        event@ == deleted_model(
            *config,
            entity@,
            id@,
            match existing {
                Some(record) => Some(record@),
                None => None,
            },
            origin,
        ),
{
    let empty = String::new();
    assert(empty@ =~= Seq::<char>::empty());
    let scope_id = match existing {
        Some(record) => match resolve_scope(config, entity, record) {
            Some(scope_id) => scope_id,
            None => empty,
        },
        None => empty,
    };
    MutationEvent {
        operation: Operation::Delete,
        entity: entity.to_string(),
        id: id.to_string(),
        scope_id,
        data: None,
        origin,
    }
}

/// What to do after an attempt to reopen the durable database.
#[derive(Debug, Clone, Copy, PartialEq, Eq, Structural)]
pub enum RecoverStep {
    /// It is open again.
    Done,
    /// Wait a little and try again.
    Retry,
    /// Give up with the error of the attempt.
    Fail,
}

/// How often reopening the durable database is attempted.
pub const RECOVER_ATTEMPTS: u32 = 10;

/// The durable store: what it decides around its database.
#[derive(Debug)]
pub struct PersistenceLayer {
    config: StoreConfig,
    suppress: bool,
}

impl PersistenceLayer {
    /// How the store is laid out.
    pub closed spec fn layout(&self) -> StoreConfig {
        self.config
    }

    /// Events are swallowed.
    pub closed spec fn suppressed(&self) -> bool {
        self.suppress
    }

    #[must_use]
    pub fn new(config: StoreConfig) -> (layer: Self)
        ensures
            layer.layout() == config,
            !layer.suppressed(),
    {
        PersistenceLayer { config, suppress: false }
    }

    /// Swallow events from now on, or stop doing so.
    pub fn set_suppress_notifications(&mut self, suppress: bool)
        ensures
            final(self).layout() == old(self).layout(),
            final(self).suppressed() == suppress,
    {
        self.suppress = suppress;
    }

    /// Hands an event out, unless events are swallowed.
    pub fn emit_mutation(&self, event: MutationEvent) -> (out: Option<MutationEvent>)
        ensures
            out == (if self.suppressed() {
                None
            } else {
                Some(event)
            }),
    {
        if self.suppress {
            return None;
        }
        Some(event)
    }

    /// What to store: the fields that are not null. The database's schema takes
    /// no null for an optional field, and both stores accept the same records.
    pub fn prepare(&self, data: Record) -> (prepared: Record)
        ensures
            prepared@ == crate::json::without_nulls(data@),
    {
        let mut data = data;
        data.strip_nulls();
        data
    }

    /// The event that tells of a new record, as the database has it.
    pub fn created(&self, entity: &str, record: &Record, origin: Origin) -> (event: MutationEvent)
        ensures
            event@ == (crate::types::MutationModel {
                operation: Operation::Insert,
                entity: entity@,
                id: text_or(record@, "id"@, Seq::empty()),
                scope_id: match scope_of(self.layout(), entity@, record@) {
                    Some(scope_id) => scope_id,
                    None => Seq::empty(),
                },
                data: Some(record@),
                origin,
            }),
    {
        let empty = String::new();
        assert(empty@ =~= Seq::<char>::empty());
        let id = id_or(record, empty.as_str());
        let scope_id = match resolve_scope(&self.config, entity, record) {
            Some(scope_id) => scope_id,
            None => empty,
        };
        MutationEvent {
            operation: Operation::Insert,
            entity: entity.to_string(),
            id,
            scope_id,
            data: Some(record.clone()),
            origin,
        }
    }

    /// The event that tells of a changed record, as the database has it; none
    /// if the record belongs to no scope.
    pub fn updated(&self, entity: &str, id: &str, record: &Record, origin: Origin) -> (event:
        Option<MutationEvent>)
        ensures
            match event {
                Some(e) => updated_model(self.layout(), entity@, id@, record@, origin) == Some(e@),
                None => updated_model(self.layout(), entity@, id@, record@, origin) is None,
            },
    {
        updated_event(&self.config, entity, id, record, origin)
    }

    /// The event that tells of a deleted record; `existing` is the record as it
    /// was before.
    pub fn deleted(&self, entity: &str, id: &str, existing: Option<&Record>, origin: Origin) -> (
        event: MutationEvent)
        ensures
            event@ == deleted_model(
                self.layout(),
                entity@,
                id@,
                match existing {
                    Some(record) => Some(record@),
                    None => None,
                },
                origin,
            ),
    {
        deleted_event(&self.config, entity, id, existing, origin)
    }

    /// What to ask the database for when the records of a scope are listed.
    pub fn list_by_scope(&self, entity: &str, scope_id: &str) -> (filter: Option<(String, Value)>)
        ensures
            filter is Some <==> self.layout().is_scoped(entity@),
            filter matches Some((field, value)) ==> field@ == self.layout().scope.scope_field@
                && value@ == crate::json::Json::String(scope_id@),
    {
        list_filters(&self.config, entity, scope_id)
    }

    /// The entity whose records are the roots of the scopes.
    pub fn list_root(&self) -> (entity: String)
        ensures
            entity@ == self.layout().scope.root_entity@,
    {
        self.config.scope.root_entity.clone()
    }

    /// What to do after an attempt (counted from zero) to reopen the database.
    pub fn recover(&self, attempt: u32, opened: bool) -> (step: RecoverStep)
        ensures
            step == (if opened {
                RecoverStep::Done
            } else if attempt + 1 < RECOVER_ATTEMPTS {
                RecoverStep::Retry
            } else {
                RecoverStep::Fail
            }),
    {
        if opened {
            RecoverStep::Done
        } else if attempt < RECOVER_ATTEMPTS - 1 {
            RecoverStep::Retry
        } else {
            RecoverStep::Fail
        }
    }
}

/// What is held back after a burst of events in a batch.
pub open spec fn buffered_burst(
    start: BufferedModel,
    burst: Seq<crate::types::MutationModel>,
) -> BufferedModel
    decreases burst.len(),
{
    if burst.len() == 0 {
        start
    } else {
        buffered_burst(start, burst.drop_last()).insert(batch_key(burst.last()), burst.last())
    }
}

/// A burst of events in a batch collapses to one event for each scope and
/// entity in it: the latest.
pub proof fn batch_collapses_to_latest(
    burst: Seq<crate::types::MutationModel>,
    key: (Seq<char>, Seq<char>),
)
    ensures
        ({
            let held = buffered_burst(Map::empty(), burst);
            &&& held.contains_key(key) <==> exists|i: int|
                0 <= i < burst.len() && batch_key(#[trigger] burst[i]) == key
            &&& held.contains_key(key) ==> exists|i: int|
                {
                    &&& 0 <= i < burst.len()
                    &&& held[key] == #[trigger] burst[i]
                    &&& batch_key(burst[i]) == key
                    &&& forall|j: int|
                        i < j < burst.len() ==> batch_key(#[trigger] burst[j]) != key
                }
        }),
    decreases burst.len(),
{
    let held = buffered_burst(Map::empty(), burst);
    if burst.len() > 0 {
        let front = burst.drop_last();
        batch_collapses_to_latest(front, key);
        let before = buffered_burst(Map::empty(), front);
        if batch_key(burst.last()) == key {
            let i = burst.len() - 1;
            assert(held[key] == burst[i] && batch_key(burst[i]) == key);
        } else {
            if before.contains_key(key) {
                let i = choose|i: int|
                    {
                        &&& 0 <= i < front.len()
                        &&& before[key] == #[trigger] front[i]
                        &&& batch_key(front[i]) == key
                        &&& forall|j: int|
                            i < j < front.len() ==> batch_key(#[trigger] front[j]) != key
                    };
                assert(held[key] == burst[i] && batch_key(burst[i]) == key);
                assert forall|j: int| i < j < burst.len() implies batch_key(#[trigger] burst[j])
                    != key by {
                    if j < front.len() {
                        assert(front[j] == burst[j]);
                    }
                }
            }
            if exists|i: int| 0 <= i < burst.len() && batch_key(#[trigger] burst[i]) == key {
                let i = choose|i: int| 0 <= i < burst.len() && batch_key(#[trigger] burst[i]) == key;
                assert(front[i] == burst[i]);
            }
        }
    }
}

/// Which scope a record belongs to: a root is its own scope, a top-level record
/// belongs to none, and any other record names its scope in the scope field.
pub proof fn records_name_their_scope(
    config: &StoreConfig,
    entity: &str,
    data: &Record,
    scope: Option<String>,
)
    requires
        call_ensures(resolve_scope, (config, entity, data), scope),
    ensures
        ({
            let root = entity@ == config.scope.root_entity@;
            let top = exists|i: int|
                0 <= i < config.top_level_entities@.len() && (
                #[trigger] config.top_level_entities@[i]).entity@ == entity@;
            let field = if root {
                "id"@
            } else {
                config.scope.scope_field@
            };
            &&& !root && top ==> (scope matches Some(s) && s@.len() == 0)
            &&& root || !top ==> match scope {
                Some(s) => data@.contains_key(field) && data@[field]
                    == crate::json::Json::String(s@),
                None => !(data@.contains_key(field) && data@[field] is String),
            }
        }),
{
    crate::config::children_are_those_listed(config, entity@);
}

/// What a creation says: the event is an insert of the record into the scope, with
/// the whole record as its data.
pub proof fn creations_carry_the_record(
    store: &MemoryStore,
    layer: &PersistenceLayer,
    entity: &str,
    scope_id: &str,
    record: &Record,
    origin: Origin,
    event: MutationEvent,
)
    requires
        call_ensures(MemoryStore::created, (store, entity, scope_id, record, origin), event)
            || call_ensures(PersistenceLayer::created, (layer, entity, record, origin), event),
    ensures
        event.operation is Insert,
        event.entity@ == entity@,
        event.origin == origin,
        event.data matches Some(data) && data@ == record@,
        match crate::json::field_in(record@, "id"@) {
            Some(crate::json::Json::String(id)) => event.id@ == id,
            _ => event.id@.len() == 0,
        },
        call_ensures(MemoryStore::created, (store, entity, scope_id, record, origin), event) && !(
        call_ensures(PersistenceLayer::created, (layer, entity, record, origin), event))
            ==> event.scope_id@ == scope_id@,
{
}

/// What an update says: it is an event exactly if the record names a scope, and then
/// one in that scope with the whole record as its data.
pub proof fn updates_carry_the_record(
    store: &MemoryStore,
    layer: &PersistenceLayer,
    entity: &str,
    id: &str,
    record: &Record,
    origin: Origin,
    event: Option<MutationEvent>,
    config: StoreConfig,
    scope: Option<String>,
)
    requires
        call_ensures(MemoryStore::updated, (store, entity, id, record, origin), event) && config
            == store.layout() || call_ensures(
            PersistenceLayer::updated,
            (layer, entity, id, record, origin),
            event,
        ) && config == layer.layout(),
        call_ensures(resolve_scope, (&config, entity, record), scope),
    ensures
        event is Some <==> scope is Some,
        event matches Some(e) ==> {
            &&& e.operation is Update
            &&& e.entity@ == entity@
            &&& e.origin == origin
            &&& e.scope_id@ == scope->Some_0@
            &&& e.data matches Some(data) && data@ == record@
            &&& match crate::json::field_in(record@, "id"@) {
                Some(crate::json::Json::String(own)) => e.id@ == own,
                _ => e.id@ == id@,
            }
        },
{
}

/// What a deletion says: the event is a delete of the record, without data, in the
/// scope that the deleted record named.
pub proof fn deletions_name_the_record(
    store: &MemoryStore,
    layer: &PersistenceLayer,
    entity: &str,
    id: &str,
    existing: &Record,
    origin: Origin,
    event: MutationEvent,
    config: StoreConfig,
    scope: Option<String>,
)
    requires
        call_ensures(MemoryStore::deleted, (store, entity, id, Some(existing), origin), event)
            && config == store.layout() || call_ensures(
            PersistenceLayer::deleted,
            (layer, entity, id, Some(existing), origin),
            event,
        ) && config == layer.layout(),
        call_ensures(resolve_scope, (&config, entity, existing), scope),
    ensures
        event.operation is Delete,
        event.entity@ == entity@,
        event.id@ == id@,
        event.origin == origin,
        event.data is None,
        match scope {
            Some(s) => event.scope_id@ == s@,
            None => event.scope_id@.len() == 0,
        },
{
}

/// Outside a batch an event goes out at once, as it is.
pub proof fn events_go_out_at_once(
    store: &mut MemoryStore,
    event: MutationEvent,
    out: Option<MutationEvent>,
)
    requires
        old(store)@.depth == 0,
        call_ensures(MemoryStore::emit_mutation, (store, event), out),
    ensures
        out == Some(event),
        final(store)@.buffered == old(store)@.buffered,
{
}

/// A batch holds events back and releases them at its end: of two events on the same
/// entity of the same scope only the later, else both, each as it was emitted.
pub proof fn batches_release_what_they_held(
    beginning: &mut MemoryStore,
    first: &mut MemoryStore,
    earlier: MutationEvent,
    first_out: Option<MutationEvent>,
    second: &mut MemoryStore,
    later: MutationEvent,
    second_out: Option<MutationEvent>,
    ending: &mut MemoryStore,
    events: Vec<MutationEvent>,
)
    requires
        old(beginning)@.depth == 0,
        old(beginning)@.buffered == Map::<(Seq<char>, Seq<char>), crate::types::MutationModel>::empty(),
        call_ensures(MemoryStore::begin_batch, (beginning,), ()),
        *old(first) == *final(beginning),
        call_ensures(MemoryStore::emit_mutation, (first, earlier), first_out),
        *old(second) == *final(first),
        call_ensures(MemoryStore::emit_mutation, (second, later), second_out),
        *old(ending) == *final(second),
        call_ensures(MemoryStore::end_batch, (ending,), events),
    ensures
        first_out is None,
        second_out is None,
        exists|i: int| 0 <= i < events@.len() && (#[trigger] events@[i])@ == later@,
        ({
            let same = earlier.scope_id@ == later.scope_id@ && earlier.entity@ == later.entity@;
            &&& same ==> events@.len() == 1
            &&& !same ==> exists|i: int|
                0 <= i < events@.len() && (#[trigger] events@[i])@ == earlier@
            &&& forall|i: int|
                0 <= i < events@.len() ==> (#[trigger] events@[i])@ == later@ || events@[i]@
                    == earlier@
        }),
        final(ending)@.depth == 0,
        final(ending)@.buffered == Map::<(Seq<char>, Seq<char>), crate::types::MutationModel>::empty(),
{
    let held = old(ending)@.buffered;
    let last = (later.scope_id@, later.entity@);
    let one = (earlier.scope_id@, earlier.entity@);
    assert(held.contains_key(last) && held[last] == later@);
    let i = choose|i: int| 0 <= i < events@.len() && batch_key((#[trigger] events@[i])@) == last;
    assert(events@[i]@ == later@);
    if one != last {
        assert(held.contains_key(one) && held[one] == earlier@);
        let j = choose|j: int| 0 <= j < events@.len() && batch_key((#[trigger] events@[j])@) == one;
        assert(events@[j]@ == earlier@);
    } else {
        assert(batch_key(events@[0]@) == last);
        if events@.len() > 1 {
            assert(batch_key(events@[1]@) == last);
        }
    }
}

/// Batches nest: while another one is open, the end of a batch releases nothing.
pub proof fn inner_batches_release_nothing(
    outer: &mut MemoryStore,
    inner: &mut MemoryStore,
    ending: &mut MemoryStore,
    events: Vec<MutationEvent>,
)
    requires
        old(outer)@.depth < u32::MAX - 1,
        call_ensures(MemoryStore::begin_batch, (outer,), ()),
        *old(inner) == *final(outer),
        call_ensures(MemoryStore::begin_batch, (inner,), ()),
        *old(ending) == *final(inner),
        call_ensures(MemoryStore::end_batch, (ending,), events),
    ensures
        events@.len() == 0,
        final(ending)@ == final(outer)@,
        final(ending)@.depth == old(outer)@.depth + 1,
{
}

/// How a record is made ready: its nulls are left out, every other field stays as it
/// is, and a record of a scope gets the scope's id where it names none.
pub proof fn records_are_made_ready(
    store: &MemoryStore,
    entity: &str,
    scope_id: &str,
    data: Record,
    created: Record,
    updated: Record,
    field: Seq<char>,
)
    requires
        call_ensures(MemoryStore::prepare_create, (store, entity, scope_id, data), created),
        call_ensures(MemoryStore::prepare_update, (store, data), updated),
    ensures
        data@.contains_key(field) && !(data@[field] is Null) ==> {
            &&& created@.contains_key(field) && created@[field] == data@[field]
            &&& updated@.contains_key(field) && updated@[field] == data@[field]
        },
        !(data@.contains_key(field) && !(data@[field] is Null)) ==> {
            &&& !updated@.contains_key(field)
            &&& created@.contains_key(field) <==> store.layout().is_scoped(entity@) && field
                == store.layout().scope.scope_field@
            &&& created@.contains_key(field) ==> created@[field] == crate::json::Json::String(
                scope_id@,
            )
        },
{
}

/// One scope is in memory at a time: loading a second one says that the first was
/// cleared, then that the second was loaded, each with the entities of a scope, and
/// leaves the second as the current one.
pub proof fn loading_replaces_the_scope(
    first: &mut MemoryStore,
    one: &str,
    came: Vec<StoreEvent>,
    second: &mut MemoryStore,
    other: &str,
    events: Vec<StoreEvent>,
    asked: &MemoryStore,
    scope: Option<String>,
    entities: Vec<String>,
)
    requires
        old(first)@.current_scope is None,
        call_ensures(MemoryStore::loaded, (first, one), came),
        *old(second) == *final(first),
        call_ensures(MemoryStore::loaded, (second, other), events),
        *asked == *final(second),
        call_ensures(MemoryStore::current_scope, (asked,), scope),
        call_ensures(StoreConfig::all_scoped_entities, (&old(first).layout(),), entities),
    ensures
        came@.len() == 1,
        came@[0] matches StoreEvent::ScopeLoaded { scope_id, entities: listed } && scope_id@
            == one@ && crate::text::texts(listed@) == crate::text::texts(entities@),
        scope matches Some(s) && s@ == other@,
        one@ == other@ ==> events@.len() == 1,
        one@ != other@ ==> events@.len() == 2 && (
        events@[0] matches StoreEvent::ScopeCleared { scope_id, entities: listed } && scope_id@
            == one@ && crate::text::texts(listed@) == crate::text::texts(entities@)),
        events@.last() matches StoreEvent::ScopeLoaded { scope_id, entities: listed } && scope_id@
            == other@ && crate::text::texts(listed@) == crate::text::texts(entities@),
{
    let layout = old(first).layout().scoped_entities();
    assert(came@[0]@ == crate::types::StoreEventModel::ScopeLoaded(one@, layout));
}

/// Clearing a scope says so, and leaves no current scope if it was the current one.
pub proof fn clearing_ends_the_scope(
    clearing: &mut MemoryStore,
    scope_id: &str,
    event: StoreEvent,
    asked: &MemoryStore,
    scope: Option<String>,
)
    requires
        call_ensures(MemoryStore::cleared, (clearing, scope_id), event),
        *asked == *final(clearing),
        call_ensures(MemoryStore::current_scope, (asked,), scope),
    ensures
        event matches StoreEvent::ScopeCleared { scope_id: named, .. } && named@ == scope_id@,
        match old(clearing)@.current_scope {
            Some(current) => if current == scope_id@ {
                scope is None
            } else {
                scope matches Some(s) && s@ == current
            },
            None => scope is None,
        },
{
}

/// Listing within a scope filters by the scope field, and only where a record of the
/// entity names its scope there.
pub proof fn listings_filter_by_scope(
    store: &MemoryStore,
    layer: &PersistenceLayer,
    config: StoreConfig,
    entity: &str,
    scope_id: &str,
    filter: Option<(String, Value)>,
)
    requires
        call_ensures(MemoryStore::list_filters, (store, entity, scope_id), filter) && config
            == store.layout() || call_ensures(
            PersistenceLayer::list_by_scope,
            (layer, entity, scope_id),
            filter,
        ) && config == layer.layout(),
    ensures
        filter is Some <==> entity@ != config.scope.root_entity@ && forall|i: int|
            0 <= i < config.top_level_entities@.len() ==> (
            #[trigger] config.top_level_entities@[i]).entity@ != entity@,
        filter matches Some((field, value)) ==> field@ == config.scope.scope_field@ && value@
            == crate::json::Json::String(scope_id@),
{
    crate::config::children_are_those_listed(&config, entity@);
}

/// While notifications are suppressed no event goes out; before and after each goes
/// out as it is.
pub proof fn suppressed_layers_say_nothing(
    layer: &mut PersistenceLayer,
    suppress: bool,
    asked: &PersistenceLayer,
    event: MutationEvent,
    out: Option<MutationEvent>,
)
    requires
        call_ensures(PersistenceLayer::set_suppress_notifications, (layer, suppress), ()),
        *asked == *final(layer),
        call_ensures(PersistenceLayer::emit_mutation, (asked, event), out),
    ensures
        suppress ==> out is None,
        !suppress ==> out == Some(event),
{
}

/// A store is reopened in at most ten attempts: success ends it at once, each failure
/// but the tenth is followed by another attempt.
pub proof fn reopening_is_tried_ten_times(
    layer: &PersistenceLayer,
    attempt: u32,
    opened: bool,
    step: RecoverStep,
)
    requires
        call_ensures(PersistenceLayer::recover, (layer, attempt, opened), step),
    ensures
        opened <==> step is Done,
        !opened && attempt < 9 <==> step is Retry,
        !opened && attempt >= 9 <==> step is Fail,
{
}

/// Only objects are records, and a record holds the object's fields.
pub proof fn objects_are_records(value: Value, record: Option<Record>)
    requires
        call_ensures(value_to_record, (value,), record),
    ensures
        record is Some <==> value is Object,
        value matches Value::Object(fields) ==> record->Some_0@ == fields@,
{
    crate::json::lemma_value_view(value);
}

/// A store starts without a scope and outside any batch, and a layer starts to tell
/// what happens.
pub proof fn stores_start_quiet(
    config: StoreConfig,
    store: MemoryStore,
    scope: Option<String>,
    layer: PersistenceLayer,
    event: MutationEvent,
    out: Option<MutationEvent>,
    root: String,
)
    requires
        call_ensures(MemoryStore::new, (config,), store),
        call_ensures(MemoryStore::current_scope, (&store,), scope),
        call_ensures(PersistenceLayer::new, (config,), layer),
        call_ensures(PersistenceLayer::emit_mutation, (&layer, event), out),
        call_ensures(PersistenceLayer::list_root, (&layer,), root),
    ensures
        scope is None,
        store@.depth == 0,
        store.layout() == config,
        out == Some(event),
        root@ == config.scope.root_entity@,
{
}

/// What is persisted of a record: all its fields but the nulls.
pub proof fn nulls_are_not_persisted(
    layer: &PersistenceLayer,
    data: Record,
    prepared: Record,
    key: &str,
    read: Option<&Value>,
)
    requires
        call_ensures(PersistenceLayer::prepare, (layer, data), prepared),
        call_ensures(Record::get, (&prepared, key), read),
    ensures
        read is Some <==> data@.contains_key(key@) && !(data@[key@] is Null),
        read matches Some(value) ==> value@ == data@[key@],
{
}

/// A creation that is persisted belongs to the scope that the record names, or to none.
pub proof fn persisted_creations_name_their_scope(
    layer: &PersistenceLayer,
    entity: &str,
    record: &Record,
    origin: Origin,
    event: MutationEvent,
    config: StoreConfig,
    scope: Option<String>,
)
    requires
        call_ensures(PersistenceLayer::created, (layer, entity, record, origin), event),
        config == layer.layout(),
        call_ensures(resolve_scope, (&config, entity, record), scope),
    ensures
        match scope {
            Some(s) => event.scope_id@ == s@,
            None => event.scope_id@.len() == 0,
        },
{
}

} // verus!
