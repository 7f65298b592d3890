//! What the broker-side sync engine decides: topics, requests and their
//! responses, and what inbound messages mean.
use vstd::prelude::*;
use crate::assoc::Assoc;
use crate::config::StoreConfig;
use crate::json::{Record, Value};
use crate::text::{after_prefix, same_text, split};
use crate::types::{ConnectionStatus, Operation, ScopeState, SyncMutation};

verus! {

/// The user property that names the client a message comes from.
pub const ORIGIN_USER_PROPERTY: &'static str = "x-origin-client-id";

/// How long a request waits for its response, in milliseconds.
pub const DEFAULT_REQUEST_TIMEOUT_MS: u64 = 10_000;

/// Why the engine failed.
#[derive(Debug, PartialEq, Eq)]
pub enum EngineError {
    Config(String),
    Mqtt(String),
    Serde(String),
    SessionInvalid,
    Ownership { entity: String, id: String },
    NotFound { entity: String, id: String },
    Conflict { entity: String, id: String },
    ConnectionClosed,
    Timeout(u64),
}

/// The mathematical content of an [`EngineError`].
#[verifier::ext_equal]
pub enum ErrorModel {
    Config(Seq<char>),
    Mqtt(Seq<char>),
    Serde(Seq<char>),
    SessionInvalid,
    Ownership(Seq<char>, Seq<char>),
    NotFound(Seq<char>, Seq<char>),
    Conflict(Seq<char>, Seq<char>),
    ConnectionClosed,
    Timeout(u64),
}

impl View for EngineError {
    type V = ErrorModel;

    open spec fn view(&self) -> ErrorModel {
        match self {
            EngineError::Config(s) => ErrorModel::Config(s@),
            EngineError::Mqtt(s) => ErrorModel::Mqtt(s@),
            EngineError::Serde(s) => ErrorModel::Serde(s@),
            EngineError::SessionInvalid => ErrorModel::SessionInvalid,
            EngineError::Ownership { entity, id } => ErrorModel::Ownership(entity@, id@),
            EngineError::NotFound { entity, id } => ErrorModel::NotFound(entity@, id@),
            EngineError::Conflict { entity, id } => ErrorModel::Conflict(entity@, id@),
            EngineError::ConnectionClosed => ErrorModel::ConnectionClosed,
            EngineError::Timeout(ms) => ErrorModel::Timeout(*ms),
        }
    }
}

impl EngineError {
    /// Whether the error says that a record does not exist.
    pub fn is_not_found(&self) -> (yes: bool)
        ensures
            yes == (self@ is NotFound),
    {
        match self {
            EngineError::NotFound { .. } => true,
            _ => false,
        }
    }
}

/// A mutation for the subscribers, and the scope it belongs to.
#[derive(Debug)]
pub struct MutationDelivery {
    pub scope_id: String,
    pub mutation: SyncMutation,
}

/// The mathematical content of a [`MutationDelivery`].
#[verifier::ext_equal]
pub struct DeliveryModel {
    pub scope_id: Seq<char>,
    pub mutation: crate::types::SyncMutationModel,
}

impl View for MutationDelivery {
    type V = DeliveryModel;

    open spec fn view(&self) -> DeliveryModel {
        DeliveryModel { scope_id: self.scope_id@, mutation: self.mutation@ }
    }
}

/// A request to publish.
#[derive(Debug)]
pub struct Outgoing {
    pub request_id: String,
    pub topic: String,
    pub response_topic: String,
    pub correlation_data: Vec<u8>,
    pub user_properties: Vec<(String, String)>,
}

/// What became of a request.
pub enum RequestOutcome {
    /// It could not be published, for this reason.
    PublishFailed(String),
    /// It was answered with this value.
    Answered(Value),
    /// It was answered with something that could not be read.
    Unreadable(String),
    /// The connection was closed.
    Closed,
    /// There was no answer for this many milliseconds.
    TimedOut(u64),
}

/// A topic to subscribe to, and what its messages are.
pub enum Subscription {
    /// Responses to own requests.
    Responses(String),
    /// Events of all scope roots.
    RootWildcard(String),
    /// Events of a top-level entity.
    TopLevel { entity: String, pattern: String },
    /// Everything in one scope.
    Scope { scope_id: String, pattern: String },
}

/// What happened to the connection.
#[derive(Debug, Clone, Copy, PartialEq, Eq, Structural)]
pub enum LinkEvent {
    Connecting,
    Connected,
    AuthFailed,
    Disconnected,
    Reconnecting,
    ReconnectFailed,
}

/// The status that follows from what happened to the connection, and whether
/// the session has become invalid.
pub fn link_status(event: LinkEvent) -> (status: (ConnectionStatus, bool))
    ensures
        status.1 == (event is AuthFailed),
        status.0 == (match event {
            LinkEvent::Connecting => ConnectionStatus::Connecting,
            LinkEvent::Connected => ConnectionStatus::Connected,
            LinkEvent::AuthFailed => ConnectionStatus::Error,
            LinkEvent::Disconnected => ConnectionStatus::Disconnected,
            LinkEvent::Reconnecting => ConnectionStatus::Connecting,
            LinkEvent::ReconnectFailed => ConnectionStatus::Error,
        }),
{
    match event {
        LinkEvent::Connecting => (ConnectionStatus::Connecting, false),
        LinkEvent::Connected => (ConnectionStatus::Connected, false),
        LinkEvent::AuthFailed => (ConnectionStatus::Error, true),
        LinkEvent::Disconnected => (ConnectionStatus::Disconnected, false),
        LinkEvent::Reconnecting => (ConnectionStatus::Connecting, false),
        LinkEvent::ReconnectFailed => (ConnectionStatus::Error, false),
    }
}

/// How a client proves who it is.
#[derive(Debug)]
pub enum AuthChoice {
    /// With a ticket.
    Jwt(String),
    /// With a user name and a password.
    Password(String, String),
    /// Not at all.
    Anonymous,
}

/// `ticket` drives enhanced auth; `username` and `password` drive classic
/// password auth. The ticket wins when both are set.
pub fn choose_auth(
    ticket: Option<String>,
    username: Option<String>,
    password: Option<String>,
) -> (choice: AuthChoice)
    ensures
        choice == (match (ticket, username, password) {
            (Some(t), _, _) => AuthChoice::Jwt(t),
            (None, Some(user), Some(pass)) => AuthChoice::Password(user, pass),
            _ => AuthChoice::Anonymous,
        }),
{
    match ticket {
        Some(t) => AuthChoice::Jwt(t),
        None => match (username, password) {
            (Some(user), Some(pass)) => AuthChoice::Password(user, pass),
            _ => AuthChoice::Anonymous,
        },
    }
}

/// `uuid::Uuid::now_v7`, as its `Display` gives it: a UUID of version 7. Which one
/// it is, time and chance decide.
#[verifier::external_body]
fn fresh_request_id() -> (id: String)
    ensures
        crate::signaling::uuid_text(id@, '7'),
{
    uuid::Uuid::now_v7().to_string()
}

/// The character occurs in none of the first `n` places.
spec fn absent_before(s: Seq<char>, c: char, n: int) -> bool {
    forall|j: int| 0 <= j < n ==> #[trigger] s[j] != c
}

/// A client id that can be a level of a topic.
pub open spec fn plain_level(id: Seq<char>) -> bool {
    !id.contains('+') && !id.contains('#') && !id.contains('/')
}

fn is_plain_level(id: &str) -> (plain: bool)
    ensures
        plain == plain_level(id@),
{
    let len = id.unicode_len();
    let mut i: usize = 0;
    while i < len
        invariant
            i <= len,
            len == id@.len(),
            absent_before(id@, '+', i as int),
            absent_before(id@, '#', i as int),
            absent_before(id@, '/', i as int),
        decreases len - i,
    {
        let c = id.get_char(i);
        if c == '+' || c == '#' || c == '/' {
            assert(id@[i as int] == c);
            return false;
        }
        i = i + 1;
    }
    true
}

/// Levels joined into a topic.
pub open spec fn topic3(a: Seq<char>, b: Seq<char>, c: Seq<char>) -> Seq<char> {
    a + "/"@ + b + "/"@ + c
}

/// Levels joined into a topic.
pub open spec fn topic4(a: Seq<char>, b: Seq<char>, c: Seq<char>, d: Seq<char>) -> Seq<char> {
    topic3(a, b, c) + "/"@ + d
}

fn join3(a: &str, b: &str, c: &str) -> (topic: String)
    ensures
        topic@ == topic3(a@, b@, c@),
{
    let mut out = a.to_string();
    out.append("/");
    out.append(b);
    out.append("/");
    out.append(c);
    out
}

fn join4(a: &str, b: &str, c: &str, d: &str) -> (topic: String)
    ensures
        topic@ == topic4(a@, b@, c@, d@),
{
    let mut out = join3(a, b, c);
    out.append("/");
    out.append(d);
    out
}

/// What an event topic is about.
#[derive(Debug)]
pub struct ScopedTopic {
    pub scope_id: String,
    pub entity: String,
    pub event_type: String,
}

/// The mathematical content of a [`ScopedTopic`].
#[verifier::ext_equal]
pub struct ScopedTopicModel {
    pub scope_id: Seq<char>,
    pub entity: Seq<char>,
    pub event_type: Seq<char>,
}

impl View for ScopedTopic {
    type V = ScopedTopicModel;

    open spec fn view(&self) -> ScopedTopicModel {
        ScopedTopicModel {
            scope_id: self.scope_id@,
            entity: self.entity@,
            event_type: self.event_type@,
        }
    }
}

/// What an event topic is about: `prefix/root/SCOPE/events/TYPE` is an event of
/// the scope's root, `prefix/root/SCOPE/ENTITY/events/TYPE` one of a child.
pub open spec fn scoped_topic(
    prefix: Seq<char>,
    root_entity: Seq<char>,
    topic: Seq<char>,
) -> Option<ScopedTopicModel> {
    let head = topic3(prefix, root_entity, Seq::empty());
    let parts = crate::text::split_on(topic.skip(head.len() as int), '/');
    if !head.is_prefix_of(topic) {
        None
    } else if parts.len() == 3 && parts[1] == "events"@ {
        Some(
            ScopedTopicModel { scope_id: parts[0], entity: root_entity, event_type: parts[2] },
        )
    } else if parts.len() == 4 && parts[2] == "events"@ {
        Some(ScopedTopicModel { scope_id: parts[0], entity: parts[1], event_type: parts[3] })
    } else {
        None
    }
}

/// Reads an event topic.
pub fn parse_scoped_topic(prefix: &str, root_entity: &str, topic: &str) -> (parsed: Option<
    ScopedTopic,
>)
    ensures
        match parsed {
            Some(p) => scoped_topic(prefix@, root_entity@, topic@) == Some(p@),
            None => scoped_topic(prefix@, root_entity@, topic@) is None,
        },
{
    let empty = String::new();
    assert(empty@ =~= Seq::<char>::empty());
    let head = join3(prefix, root_entity, empty.as_str());
    let rest = match after_prefix(topic, head.as_str()) {
        Some(rest) => rest,
        None => return None,
    };
    assert(topic@.skip(head@.len() as int) =~= rest@);
    assert(head@.is_prefix_of(topic@));
    let parts = split(rest, '/');
    let ghost pieces = crate::text::split_on(rest@, '/');
    proof {
        assert(pieces == crate::text::texts(parts@));
        assert forall|i: int| 0 <= i < parts@.len() implies pieces[i] == (#[trigger] parts@[i])@ by {}
    }
    if parts.len() == 3 && same_text(parts[1].as_str(), "events") {
        return Some(
            ScopedTopic {
                scope_id: parts[0].clone(),
                entity: root_entity.to_string(),
                event_type: parts[2].clone(),
            },
        );
    }
    if parts.len() == 4 && same_text(parts[2].as_str(), "events") {
        return Some(
            ScopedTopic {
                scope_id: parts[0].clone(),
                entity: parts[1].clone(),
                event_type: parts[3].clone(),
            },
        );
    }
    None
}

/// The operation that an event type tells of.
pub open spec fn event_operation(event_type: Seq<char>) -> Option<Operation> {
    if event_type == "created"@ {
        Some(Operation::Insert)
    } else if event_type == "updated"@ {
        Some(Operation::Update)
    } else if event_type == "deleted"@ {
        Some(Operation::Delete)
    } else {
        None
    }
}

fn operation_of_event(event_type: &str) -> (op: Option<Operation>)
    ensures
        op == event_operation(event_type@),
{
    if same_text(event_type, "created") {
        Some(Operation::Insert)
    } else if same_text(event_type, "updated") {
        Some(Operation::Update)
    } else if same_text(event_type, "deleted") {
        Some(Operation::Delete)
    } else {
        None
    }
}

/// The operation that a top-level event names.
pub open spec fn named_operation(payload: crate::json::Json) -> Option<Operation> {
    match crate::json::field_of(payload, "operation"@) {
        Some(crate::json::Json::String(name)) => if name == "Create"@ {
            Some(Operation::Insert)
        } else if name == "Update"@ {
            Some(Operation::Update)
        } else if name == "Delete"@ {
            Some(Operation::Delete)
        } else {
            None
        },
        _ => None,
    }
}

fn operation_of_payload(payload: &Value) -> (op: Option<Operation>)
    ensures
        op == named_operation(payload@),
{
    let name = match payload.get("operation") {
        Some(value) => match value.as_str() {
            Some(name) => name,
            None => return None,
        },
        None => return None,
    };
    if same_text(name, "Create") {
        Some(Operation::Insert)
    } else if same_text(name, "Update") {
        Some(Operation::Update)
    } else if same_text(name, "Delete") {
        Some(Operation::Delete)
    } else {
        None
    }
}

/// The message carries the client's own id as its origin.
pub open spec fn is_own(user_properties: Seq<(String, String)>, client_id: Seq<char>) -> bool {
    exists|i: int|
        0 <= i < user_properties.len() && (#[trigger] user_properties[i]).0@
            == ORIGIN_USER_PROPERTY@ && user_properties[i].1@ == client_id
}

fn own_user_property(user_properties: &Vec<(String, String)>, client_id: &str) -> (own: bool)
    ensures
        own == is_own(user_properties@, client_id@),
{
    let mut i: usize = 0;
    while i < user_properties.len()
        invariant
            i <= user_properties@.len(),
            forall|j: int|
                0 <= j < i ==> !((#[trigger] user_properties@[j]).0@ == ORIGIN_USER_PROPERTY@
                    && user_properties@[j].1@ == client_id@),
        decreases user_properties@.len() - i,
    {
        if same_text(user_properties[i].0.as_str(), ORIGIN_USER_PROPERTY) && same_text(
            user_properties[i].1.as_str(),
            client_id,
        ) {
            assert(user_properties@[i as int].0@ == ORIGIN_USER_PROPERTY@);
            return true;
        }
        i = i + 1;
    }
    false
}

/// The payload names the client as its sender.
pub open spec fn sent_by(client_id: Seq<char>, payload: crate::json::Json) -> bool {
    crate::json::field_of(payload, "sender"@) == Some(crate::json::Json::String(client_id))
        || crate::json::field_of(payload, "client_id"@) == Some(
        crate::json::Json::String(client_id),
    )
}

fn field_is(payload: &Value, key: &str, text: &str) -> (yes: bool)
    ensures
        yes == (crate::json::field_of(payload@, key@) == Some(crate::json::Json::String(text@))),
{
    match payload.get(key) {
        Some(value) => match value.as_str() {
            Some(s) => same_text(s, text),
            None => false,
        },
        None => false,
    }
}

fn sender_is_self(client_id: &str, payload: &Value) -> (yes: bool)
    ensures
        yes == sent_by(client_id@, payload@),
{
    field_is(payload, "sender", client_id) || field_is(payload, "client_id", client_id)
}

/// The mutation that an event payload tells of: it has to be an object with an
/// id; data that is no object counts as none.
pub open spec fn mutation_of(
    entity: Seq<char>,
    op: Operation,
    payload: crate::json::Json,
) -> Option<crate::types::SyncMutationModel> {
    match payload {
        crate::json::Json::Object(fields) => match crate::json::text_in(fields, "id"@) {
            Some(id) => Some(
                crate::types::SyncMutationModel {
                    op,
                    entity,
                    id,
                    data: match crate::json::field_in(fields, "data"@) {
                        Some(crate::json::Json::Object(data)) => Some(data),
                        _ => None,
                    },
                    operation_id: crate::json::text_in(fields, "operation_id"@),
                },
            ),
            None => None,
        },
        _ => None,
    }
}

/// The mutation that an event payload tells of.
pub fn build_mutation(entity: &str, op: Operation, payload: &Value) -> (mutation: Option<
    SyncMutation,
>)
    ensures
        match mutation {
            Some(m) => mutation_of(entity@, op, payload@) == Some(m@),
            None => mutation_of(entity@, op, payload@) is None,
        },
{
    let obj = match payload.as_object() {
        Some(obj) => obj,
        None => return None,
    };
    let id = match obj.get_str("id") {
        Some(id) => id.to_string(),
        None => return None,
    };
    let data = match obj.get("data") {
        Some(value) => match value.as_object() {
            Some(record) => Some(record.clone()),
            None => None,
        },
        None => None,
    };
    let operation_id = match obj.get_str("operation_id") {
        Some(id) => Some(id.to_string()),
        None => None,
    };
    Some(SyncMutation { op, entity: entity.to_string(), id, data, operation_id })
}

/// What a response with status `error` stands for; nothing if it is no error.
pub open spec fn response_error(
    response: Map<Seq<char>, crate::json::Json>,
) -> Option<ErrorModel> {
    if crate::json::text_in(response, "status"@) != Some("error"@) {
        None
    } else {
        let code = match crate::json::field_in(response, "code"@) {
            Some(value) => crate::json::integer_in(value),
            None => None,
        };
        let empty = Seq::<char>::empty();
        let entity = crate::memory_store::text_or(response, "entity"@, empty);
        let id = crate::memory_store::text_or(response, "id"@, empty);
        if code == Some(401i64) {
            Some(ErrorModel::SessionInvalid)
        } else if code == Some(403i64) {
            Some(ErrorModel::Ownership(entity, id))
        } else if code == Some(404i64) {
            Some(ErrorModel::NotFound(entity, id))
        } else if code == Some(409i64) {
            Some(ErrorModel::Conflict(entity, id))
        } else {
            Some(
                ErrorModel::Mqtt(
                    crate::memory_store::text_or(response, "message"@, "operation failed"@),
                ),
            )
        }
    }
}

fn text_field_or(response: &Record, key: &str, other: &str) -> (text: String)
    ensures
        text@ == crate::memory_store::text_or(response@, key@, other@),
{
    match response.get_str(key) {
        Some(s) => s.to_string(),
        None => other.to_string(),
    }
}

/// Whether a response is an error, and which.
pub fn check_response(response: &Record) -> (out: Result<(), EngineError>)
    ensures
        match out {
            Ok(()) => response_error(response@) is None,
            Err(e) => response_error(response@) == Some(e@),
        },
{
    let failed = match response.get_str("status") {
        Some(status) => same_text(status, "error"),
        None => false,
    };
    if !failed {
        return Ok(());
    }
    let code: i64 = match response.get("code") {
        Some(value) => match value.as_i64() {
            Some(code) => code,
            None => 0,
        },
        None => 0,
    };
    let empty = String::new();
    assert(empty@ =~= Seq::<char>::empty());
    let message = text_field_or(response, "message", "operation failed");
    let entity = text_field_or(response, "entity", empty.as_str());
    let id = text_field_or(response, "id", empty.as_str());
    Err(
        match code {
            401 => EngineError::SessionInvalid,
            403 => EngineError::Ownership { entity, id },
            404 => EngineError::NotFound { entity, id },
            409 => EngineError::Conflict { entity, id },
            _ => EngineError::Mqtt(message),
        },
    )
}

/// The id in the data of a response, or why there is none.
pub open spec fn id_in_response(response: Map<Seq<char>, crate::json::Json>) -> Result<
    Seq<char>,
    ErrorModel,
> {
    match crate::json::field_in(response, "data"@) {
        Some(crate::json::Json::Object(data)) => match crate::json::text_in(data, "id"@) {
            Some(id) => Ok(id),
            None => Err(ErrorModel::Mqtt("response missing data.id"@)),
        },
        _ => Err(ErrorModel::Mqtt("response missing data object"@)),
    }
}

/// The id in the data of a response.
pub fn extract_id(response: &Record) -> (out: Result<String, EngineError>)
    ensures
        match out {
            Ok(id) => id_in_response(response@) == Ok::<Seq<char>, ErrorModel>(id@),
            Err(e) => id_in_response(response@) == Err::<Seq<char>, ErrorModel>(e@),
        },
{
    let data = match response.get("data") {
        Some(value) => match value.as_object() {
            Some(data) => data,
            None => return Err(EngineError::Mqtt("response missing data object".to_string())),
        },
        None => return Err(EngineError::Mqtt("response missing data object".to_string())),
    };
    match data.get_str("id") {
        Some(id) => Ok(id.to_string()),
        None => Err(EngineError::Mqtt("response missing data.id".to_string())),
    }
}

/// The sync engine's own state, between a store and its broker.
#[derive(Debug)]
pub struct SyncEngine {
    client_id: String,
    config: StoreConfig,
    pending: Assoc<String, ()>,
    subscribed: Assoc<String, ()>,
    awaiting: Assoc<String, ()>,
    buffered: Assoc<String, Vec<SyncMutation>>,
    applied: Assoc<String, i64>,
}

/// The mathematical content of a [`SyncEngine`].
#[verifier::ext_equal]
pub struct EngineModel {
    /// Requests that wait for their response.
    pub pending: Set<Seq<char>>,
    /// Scopes that are subscribed to.
    pub subscribed: Set<Seq<char>>,
    /// Scopes whose state is being fetched.
    pub awaiting: Set<Seq<char>>,
    /// Mutations that came in for such scopes.
    pub buffered: Map<Seq<char>, Seq<crate::types::SyncMutationModel>>,
    /// The version of each scope that is known to be applied.
    pub applied: Map<Seq<char>, i64>,
}

impl EngineModel {
    /// Nothing is going on.
    pub open spec fn idle() -> EngineModel {
        EngineModel {
            pending: Set::empty(),
            subscribed: Set::empty(),
            awaiting: Set::empty(),
            buffered: Map::empty(),
            applied: Map::empty(),
        }
    }

    /// A scope starts to be opened.
    pub open spec fn opening(self, scope_id: Seq<char>) -> EngineModel {
        EngineModel {
            awaiting: self.awaiting.insert(scope_id),
            buffered: self.buffered.insert(scope_id, Seq::empty()),
            ..self
        }
    }

    /// The scope's messages are subscribed to.
    pub open spec fn subscribing(self, scope_id: Seq<char>) -> EngineModel {
        EngineModel { subscribed: self.subscribed.insert(scope_id), ..self }
    }

    /// The scope's state was fetched, in this version.
    pub open spec fn opened(self, scope_id: Seq<char>, version: u64) -> EngineModel {
        EngineModel {
            awaiting: self.awaiting.remove(scope_id),
            buffered: self.buffered.remove(scope_id),
            applied: if 0 < version <= i64::MAX {
                self.applied.insert(scope_id, version as i64)
            } else {
                self.applied
            },
            ..self
        }
    }

    /// The scope could not be opened.
    pub open spec fn open_failed(self, scope_id: Seq<char>) -> EngineModel {
        EngineModel {
            awaiting: self.awaiting.remove(scope_id),
            buffered: self.buffered.remove(scope_id),
            subscribed: self.subscribed.remove(scope_id),
            ..self
        }
    }

    /// The scope is forgotten.
    pub open spec fn closed(self, scope_id: Seq<char>) -> EngineModel {
        EngineModel { applied: self.applied.remove(scope_id), ..self.open_failed(scope_id) }
    }

    /// A mutation came in: it is held back if its scope is being opened.
    pub open spec fn received(self, delivery: DeliveryModel) -> EngineModel {
        if self.holds_back(delivery.scope_id) {
            EngineModel {
                buffered: self.buffered.insert(
                    delivery.scope_id,
                    self.buffered[delivery.scope_id].push(delivery.mutation),
                ),
                ..self
            }
        } else {
            self
        }
    }

    /// Mutations came in, one after the other.
    pub open spec fn received_all(self, deliveries: Seq<DeliveryModel>) -> EngineModel
        decreases deliveries.len(),
    {
        if deliveries.len() == 0 {
            self
        } else {
            self.received_all(deliveries.drop_last()).received(deliveries.last())
        }
    }

    /// What the scope held back so far.
    pub open spec fn held_back(self, scope_id: Seq<char>) -> Seq<crate::types::SyncMutationModel> {
        if self.buffered.contains_key(scope_id) {
            self.buffered[scope_id]
        } else {
            Seq::empty()
        }
    }

    /// Nothing is known of the scope.
    pub open spec fn knows_nothing_of(self, scope_id: Seq<char>) -> bool {
        &&& !self.subscribed.contains(scope_id)
        &&& !self.awaiting.contains(scope_id)
        &&& !self.buffered.contains_key(scope_id)
        &&& !self.applied.contains_key(scope_id)
    }

    /// The scope is being fetched, so that its mutations are buffered.
    pub open spec fn holds_back(self, scope_id: Seq<char>) -> bool {
        self.awaiting.contains(scope_id) && self.buffered.contains_key(scope_id)
    }
}

impl View for SyncEngine {
    type V = EngineModel;

    closed spec fn view(&self) -> EngineModel {
        EngineModel {
            pending: self.pending@.dom(),
            subscribed: self.subscribed@.dom(),
            awaiting: self.awaiting@.dom(),
            buffered: self.buffered@.map_values(
                |list: Vec<SyncMutation>| crate::types::sync_models(list@),
            ),
            applied: self.applied@,
        }
    }
}

/// What the messages of a scope's topics mean: a mutation, unless the client
/// sent the message itself or the message is malformed.
pub open spec fn scope_delivery(
    client_id: Seq<char>,
    prefix: Seq<char>,
    root_entity: Seq<char>,
    topic: Seq<char>,
    user_properties: Seq<(String, String)>,
    payload: Option<crate::json::Json>,
) -> Option<DeliveryModel> {
    if is_own(user_properties, client_id) {
        None
    } else {
        match (scoped_topic(prefix, root_entity, topic), payload) {
            (Some(parsed), Some(payload)) => match event_operation(parsed.event_type) {
                Some(op) => if sent_by(client_id, payload) {
                    None
                } else {
                    match mutation_of(parsed.entity, op, payload) {
                        Some(mutation) => Some(
                            DeliveryModel { scope_id: parsed.scope_id, mutation },
                        ),
                        None => None,
                    }
                },
                None => None,
            },
            _ => None,
        }
    }
}

/// What the messages of a top-level entity mean.
pub open spec fn top_level_delivery(
    client_id: Seq<char>,
    entity: Seq<char>,
    user_properties: Seq<(String, String)>,
    payload: Option<crate::json::Json>,
) -> Option<DeliveryModel> {
    match payload {
        Some(payload) => if is_own(user_properties, client_id) || sent_by(client_id, payload) {
            None
        } else {
            match named_operation(payload) {
                Some(op) => match mutation_of(entity, op, payload) {
                    Some(mutation) => Some(DeliveryModel { scope_id: Seq::empty(), mutation }),
                    None => None,
                },
                None => None,
            }
        },
        None => None,
    }
}

fn keys_of<V>(map: &Assoc<String, V>) -> (keys: Vec<String>)
    ensures
        forall|i: int, j: int| 0 <= i < j < keys@.len() ==> (#[trigger] keys@[i])@ != (
        #[trigger] keys@[j])@,
        forall|k: Seq<char>| #[trigger]
            map@.contains_key(k) <==> crate::text::texts(keys@).contains(k),
{
    let mut out: Vec<String> = Vec::new();
    let count = map.len();
    let ghost listing = map.listing();
    proof {
        crate::assoc::lemma_map_of(listing);
    }
    let mut i: usize = 0;
    while i < count
        invariant
            i <= count,
            count == listing.len(),
            listing == map.listing(),
            out@.len() == i,
            forall|j: int| 0 <= j < i ==> (#[trigger] out@[j])@ == listing[j].0@,
        decreases count - i,
    {
        let (key, _) = map.at(i);
        out.push(key.clone());
        i = i + 1;
    }
    proof {
        assert forall|a: int, b: int| 0 <= a < b < out@.len() implies (#[trigger] out@[a])@ != (
        #[trigger] out@[b])@ by {
            assert(crate::assoc::Key::model(&listing[a].0) != crate::assoc::Key::model(
                &listing[b].0,
            ));
        }
        assert forall|k: Seq<char>| #[trigger]
            map@.contains_key(k) == crate::text::texts(out@).contains(k) by {
            if map@.contains_key(k) {
                let j = choose|j: int|
                    0 <= j < listing.len() && crate::assoc::Key::model(&(#[trigger] listing[j]).0)
                        == k;
                assert(out@[j]@ == listing[j].0@);
                assert(crate::text::texts(out@)[j] == k);
            }
            if crate::text::texts(out@).contains(k) {
                let j = choose|j: int|
                    0 <= j < crate::text::texts(out@).len() && crate::text::texts(out@)[j] == k;
                assert(out@[j]@ == k);
                assert(map@.contains_key(crate::assoc::Key::model(&listing[j].0)));
            }
        }
    }
    out
}

impl SyncEngine {
    /// The client's id.
    pub closed spec fn client(&self) -> Seq<char> {
        self.client_id@
    }

    /// How the store is laid out.
    pub closed spec fn layout(&self) -> StoreConfig {
        self.config
    }

    /// The client and the layout stay what they are.
    pub open spec fn same_setup(&self, other: SyncEngine) -> bool {
        self.client() == other.client() && self.layout() == other.layout()
    }

    /// An engine for a client. Its id becomes a level of topics, so it must not
    /// hold MQTT special characters.
    pub fn new(client_id: String, config: StoreConfig) -> (out: Result<Self, EngineError>)
        ensures
            match out {
                Ok(engine) => plain_level(client_id@) && engine.client() == client_id@
                    && engine.layout() == config && engine@ == EngineModel::idle(),
                Err(e) => !plain_level(client_id@) && e@ == ErrorModel::Config(
                    "clientId must not contain MQTT special characters (+, #, /): "@ + client_id@,
                ),
            },
    {
        if !is_plain_level(client_id.as_str()) {
            let mut text =
                "clientId must not contain MQTT special characters (+, #, /): ".to_string();
            text.append(client_id.as_str());
            return Err(EngineError::Config(text));
        }
        let engine = SyncEngine {
            client_id,
            config,
            pending: Assoc::new(),
            subscribed: Assoc::new(),
            awaiting: Assoc::new(),
            buffered: Assoc::new(),
            applied: Assoc::new(),
        };
        assert(engine@ =~= EngineModel::idle());
        Ok(engine)
    }

    /// The pattern of everything in a scope.
    pub open spec fn scope_pattern_of(&self, scope_id: Seq<char>) -> Seq<char> {
        topic4(
            self.layout().sync_topic_prefix@,
            self.layout().scope.root_entity@,
            scope_id,
            "#"@,
        )
    }

    /// The pattern of everything in a scope.
    pub fn scope_pattern(&self, scope_id: &str) -> (pattern: String)
        ensures
            pattern@ == self.scope_pattern_of(scope_id@),
    {
        join4(
            self.config.sync_topic_prefix.as_str(),
            self.config.scope.root_entity.as_str(),
            scope_id,
            "#",
        )
    }

    /// Where records of an entity are created.
    pub fn create_topic(&self, entity: &str) -> (topic: String)
        ensures
            topic@ == topic3(self.layout().sync_topic_prefix@, entity@, "create"@),
    {
        join3(self.config.sync_topic_prefix.as_str(), entity, "create")
    }

    /// Where a record is updated.
    pub fn update_topic(&self, entity: &str, id: &str) -> (topic: String)
        ensures
            topic@ == topic4(self.layout().sync_topic_prefix@, entity@, id@, "update"@),
    {
        join4(self.config.sync_topic_prefix.as_str(), entity, id, "update")
    }

    /// Where a record is deleted.
    pub fn delete_topic(&self, entity: &str, id: &str) -> (topic: String)
        ensures
            topic@ == topic4(self.layout().sync_topic_prefix@, entity@, id@, "delete"@),
    {
        join4(self.config.sync_topic_prefix.as_str(), entity, id, "delete")
    }

    /// Where a record is read.
    pub fn read_topic(&self, entity: &str, id: &str) -> (topic: String)
        ensures
            topic@ == topic3(self.layout().sync_topic_prefix@, entity@, id@),
    {
        join3(self.config.sync_topic_prefix.as_str(), entity, id)
    }

    /// Where the records of an entity are listed.
    pub fn list_topic(&self, entity: &str) -> (topic: String)
        ensures
            topic@ == topic3(self.layout().sync_topic_prefix@, entity@, "list"@),
    {
        join3(self.config.sync_topic_prefix.as_str(), entity, "list")
    }

    /// Where the root of a scope is updated.
    pub fn version_topic(&self, scope_id: &str) -> (topic: String)
        ensures
            topic@ == topic4(
                self.layout().sync_topic_prefix@,
                self.layout().scope.root_entity@,
                scope_id@,
                "update"@,
            ),
    {
        self.update_topic(self.config.scope.root_entity.as_str(), scope_id)
    }

    /// What to subscribe to on a connection whose session the broker did not
    /// keep: responses, events of all roots, the top-level entities, and each
    /// scope that was subscribed to before, once.
    pub fn resubscriptions(&self) -> (subs: Vec<Subscription>)
        ensures
            ({
                let n = self.layout().top_level_entities@.len();
                &&& subs@.len() >= 2 + n
                &&& subs@[0] matches Subscription::Responses(topic) && topic@ == topic3(
                    self.layout().response_topic_prefix@,
                    self.client(),
                    "#"@,
                )
                &&& subs@[1] matches Subscription::RootWildcard(topic) && topic@ == topic4(
                    self.layout().sync_topic_prefix@,
                    self.layout().scope.root_entity@,
                    "+"@,
                    "events/#"@,
                )
                &&& forall|i: int|
                    #![trigger subs@[2 + i]]
                    0 <= i < n ==> (subs@[2 + i] matches Subscription::TopLevel {
                        entity,
                        pattern,
                    } && entity@ == self.layout().top_level_entities@[i].entity@ && pattern@
                        == self.layout().top_level_entities@[i].subscription_pattern@)
                &&& forall|i: int|
                    2 + n <= i < subs@.len() ==> ((#[trigger] subs@[i]) matches Subscription::Scope {
                        scope_id,
                        pattern,
                    } && self@.subscribed.contains(scope_id@) && pattern@
                        == self.scope_pattern_of(scope_id@))
                &&& forall|s: Seq<char>| #[trigger]
                    self@.subscribed.contains(s) ==> exists|i: int|
                        2 + n <= i < subs@.len() && ((
                        #[trigger] subs@[i]) matches Subscription::Scope {
                            scope_id,
                            ..
                        } && scope_id@ == s)
                &&& forall|i: int, j: int|
                    2 + n <= i < j < subs@.len() ==> (#[trigger] subs@[i])->scope_id@ != (
                    #[trigger] subs@[j])->scope_id@
            }),
    {
        let mut out: Vec<Subscription> = Vec::new();
        let ghost n = self.layout().top_level_entities@.len();
        out.push(
            Subscription::Responses(
                join3(
                    self.config.response_topic_prefix.as_str(),
                    self.client_id.as_str(),
                    "#",
                ),
            ),
        );
        out.push(
            Subscription::RootWildcard(
                join4(
                    self.config.sync_topic_prefix.as_str(),
                    self.config.scope.root_entity.as_str(),
                    "+",
                    "events/#",
                ),
            ),
        );
        let ghost head = out@;
        let mut i: usize = 0;
        while i < self.config.top_level_entities.len()
            invariant
                i <= self.config.top_level_entities@.len(),
                n == self.config.top_level_entities@.len(),
                self.layout() == self.config,
                out@.len() == 2 + i,
                head.len() == 2,
                out@[0] == head[0],
                out@[1] == head[1],
                forall|j: int|
                    #![trigger out@[2 + j]]
                    0 <= j < i ==> (out@[2 + j] matches Subscription::TopLevel {
                        entity,
                        pattern,
                    } && entity@ == self.layout().top_level_entities@[j].entity@ && pattern@
                        == self.layout().top_level_entities@[j].subscription_pattern@),
            decreases self.config.top_level_entities@.len() - i,
        {
            let top = &self.config.top_level_entities[i];
            let ghost before = out@;
            out.push(
                Subscription::TopLevel {
                    entity: top.entity.clone(),
                    pattern: top.subscription_pattern.clone(),
                },
            );
            proof {
                assert forall|j: int|
                    #![trigger out@[2 + j]]
                    0 <= j < i + 1 implies (out@[2 + j] matches Subscription::TopLevel {
                    entity,
                    pattern,
                } && entity@ == self.layout().top_level_entities@[j].entity@ && pattern@
                    == self.layout().top_level_entities@[j].subscription_pattern@) by {
                    if j < i {
                        assert(out@[2 + j] == before[2 + j]);
                    }
                }
            }
            i = i + 1;
        }
        let ghost fixed = out@;
        let scopes = keys_of(&self.subscribed);
        let mut k: usize = 0;
        while k < scopes.len()
            invariant
                k <= scopes@.len(),
                fixed.len() == 2 + n,
                out@.len() == fixed.len() + k,
                forall|j: int| 0 <= j < fixed.len() ==> #[trigger] out@[j] == fixed[j],
                forall|j: int|
                    0 <= j < k ==> ((#[trigger] out@[fixed.len() + j]) matches Subscription::Scope {
                        scope_id,
                        pattern,
                    } && scope_id@ == scopes@[j]@ && pattern@ == self.scope_pattern_of(
                        scopes@[j]@,
                    )),
            decreases scopes@.len() - k,
        {
            let ghost before = out@;
            out.push(
                Subscription::Scope {
                    scope_id: scopes[k].clone(),
                    pattern: self.scope_pattern(scopes[k].as_str()),
                },
            );
            proof {
                assert forall|j: int| 0 <= j < k + 1 implies ((
                #[trigger] out@[fixed.len() + j]) matches Subscription::Scope {
                    scope_id,
                    pattern,
                } && scope_id@ == scopes@[j]@ && pattern@ == self.scope_pattern_of(
                    scopes@[j]@,
                )) by {
                    if j < k {
                        assert(out@[fixed.len() + j] == before[fixed.len() + j]);
                    }
                }
            }
            k = k + 1;
        }
        proof {
            assert(out@[0] == fixed[0] && out@[1] == fixed[1]);
            assert forall|i: int|
                #![trigger out@[2 + i]]
                0 <= i < n implies (out@[2 + i] matches Subscription::TopLevel {
                entity,
                pattern,
            } && entity@ == self.layout().top_level_entities@[i].entity@ && pattern@
                == self.layout().top_level_entities@[i].subscription_pattern@) by {
                assert(out@[2 + i] == fixed[2 + i]);
            }
            assert forall|i: int| 2 + n <= i < out@.len() implies ((
            #[trigger] out@[i]) matches Subscription::Scope { scope_id, pattern }
                && self@.subscribed.contains(scope_id@) && pattern@ == self.scope_pattern_of(
                scope_id@,
            )) by {
                let j = i - fixed.len();
                assert(out@[fixed.len() + j] == out@[i]);
                assert(crate::text::texts(scopes@)[j] == scopes@[j]@);
                assert(crate::text::texts(scopes@).contains(scopes@[j]@));
            }
            assert forall|s: Seq<char>| #[trigger]
                self@.subscribed.contains(s) implies exists|i: int|
                2 + n <= i < out@.len() && ((#[trigger] out@[i]) matches Subscription::Scope {
                    scope_id,
                    ..
                } && scope_id@ == s) by {
                assert(self.subscribed@.contains_key(s));
                let j = choose|j: int|
                    0 <= j < crate::text::texts(scopes@).len() && crate::text::texts(scopes@)[j]
                        == s;
                assert(scopes@[j]@ == s);
                assert(out@[fixed.len() + j] matches Subscription::Scope { scope_id, .. }
                    && scope_id@ == s);
            }
            assert forall|i: int, j: int| 2 + n <= i < j < out@.len() implies (
            #[trigger] out@[i])->scope_id@ != (#[trigger] out@[j])->scope_id@ by {
                let a = i - fixed.len();
                let b = j - fixed.len();
                assert(out@[fixed.len() + a] == out@[i] && out@[fixed.len() + b] == out@[j]);
                assert(scopes@[a]@ != scopes@[b]@);
            }
        }
        out
    }

    /// Registers a request under an id and says what to publish for it.
    pub fn begin_request(&mut self, request_id: String, topic: &str) -> (out: Outgoing)
        ensures
            final(self).same_setup(*old(self)),
            final(self)@ == (EngineModel {
                pending: old(self)@.pending.insert(request_id@),
                ..old(self)@
            }),
            out.request_id@ == request_id@,
            out.topic@ == topic@,
            out.response_topic@ == topic3(
                old(self).layout().response_topic_prefix@,
                old(self).client(),
                request_id@,
            ),
            out.correlation_data@ == vstd::utf8::encode_utf8(request_id@),
            out.user_properties@.len() == 1,
            out.user_properties@[0].0@ == ORIGIN_USER_PROPERTY@,
            out.user_properties@[0].1@ == old(self).client(),
    {
        let response_topic = join3(
            self.config.response_topic_prefix.as_str(),
            self.client_id.as_str(),
            request_id.as_str(),
        );
        let correlation_data = vstd::slice::slice_to_vec(request_id.as_str().as_bytes());
        let mut user_properties: Vec<(String, String)> = Vec::new();
        user_properties.push((ORIGIN_USER_PROPERTY.to_string(), self.client_id.clone()));
        self.pending.insert(request_id.clone(), ());
        assert(self@ =~= EngineModel {
            pending: old(self)@.pending.insert(request_id@),
            ..old(self)@
        });
        Outgoing {
            request_id,
            topic: topic.to_string(),
            response_topic,
            correlation_data,
            user_properties,
        }
    }

    /// Registers a request under a fresh id and says what to publish for it.
    pub fn request(&mut self, topic: &str) -> (out: Outgoing)
        ensures
            crate::signaling::uuid_text(out.request_id@, '7'),
            final(self).same_setup(*old(self)),
            final(self)@ == (EngineModel {
                pending: old(self)@.pending.insert(out.request_id@),
                ..old(self)@
            }),
            out.topic@ == topic@,
            out.response_topic@ == topic3(
                old(self).layout().response_topic_prefix@,
                old(self).client(),
                out.request_id@,
            ),
            out.correlation_data@ == vstd::utf8::encode_utf8(out.request_id@),
            out.user_properties@.len() == 1,
            out.user_properties@[0].0@ == ORIGIN_USER_PROPERTY@,
            out.user_properties@[0].1@ == old(self).client(),
    {
        let request_id = fresh_request_id();
        self.begin_request(request_id, topic)
    }

    /// The request that a message on a response topic answers, if it waits for
    /// its response. It then waits no longer.
    pub fn handle_response(&mut self, topic: &str) -> (answered: Option<String>)
        ensures
            final(self).same_setup(*old(self)),
            match answered {
                Some(id) => {
                    &&& topic@ == topic3(
                        old(self).layout().response_topic_prefix@,
                        old(self).client(),
                        Seq::empty(),
                    ) + id@
                    &&& old(self)@.pending.contains(id@)
                    &&& final(self)@ == (EngineModel {
                        pending: old(self)@.pending.remove(id@),
                        ..old(self)@
                    })
                },
                None => {
                    &&& final(self)@ == old(self)@
                    &&& forall|id: Seq<char>|
                        #![trigger old(self)@.pending.contains(id)]
                        topic@ == topic3(
                            old(self).layout().response_topic_prefix@,
                            old(self).client(),
                            Seq::empty(),
                        ) + id ==> !old(self)@.pending.contains(id)
                },
            },
    {
        let empty = String::new();
        assert(empty@ =~= Seq::<char>::empty());
        let head = join3(
            self.config.response_topic_prefix.as_str(),
            self.client_id.as_str(),
            empty.as_str(),
        );
        let id = match after_prefix(topic, head.as_str()) {
            Some(rest) => rest.to_string(),
            None => {
                proof {
                    assert forall|id: Seq<char>| topic@ == head@ + id implies !(
                    #[trigger] old(self)@.pending.contains(id)) by {
                        assert(head@.is_prefix_of(topic@));
                    }
                }
                return None;
            },
        };
        proof {
            assert forall|other: Seq<char>|
                topic@ == head@ + other && #[trigger] old(self)@.pending.contains(other) implies other
                == id@ by {
                assert((head@ + other).skip(head@.len() as int) =~= other);
                assert((head@ + id@).skip(head@.len() as int) =~= id@);
            }
        }
        match self.pending.remove(&id) {
            Some(_) => {
                assert(self@ =~= EngineModel {
                    pending: old(self)@.pending.remove(id@),
                    ..old(self)@
                });
                Some(id)
            },
            None => {
                assert(self.pending@ =~= old(self).pending@);
                assert(self@ =~= old(self)@);
                None
            },
        }
    }

    /// What a request comes to. One that was not published, or timed out, waits
    /// for its response no longer.
    pub fn finish_request(&mut self, request_id: &str, topic: &str, outcome: RequestOutcome) -> (
        out: Result<Record, EngineError>)
        ensures
            final(self).same_setup(*old(self)),
            final(self)@ == (EngineModel {
                pending: if outcome is PublishFailed || outcome is TimedOut {
                    old(self)@.pending.remove(request_id@)
                } else {
                    old(self)@.pending
                },
                ..old(self)@
            }),
            match outcome {
                RequestOutcome::PublishFailed(reason) => out matches Err(e) && e@
                    == ErrorModel::Mqtt("publish:"@ + topic@ + ": "@ + reason@),
                RequestOutcome::Answered(value) => match value@ {
                    crate::json::Json::Object(fields) => out matches Ok(record) && record@
                        == fields,
                    _ => out matches Err(e) && e@ == ErrorModel::Mqtt(
                        "response was not an object"@,
                    ),
                },
                RequestOutcome::Unreadable(reason) => out matches Err(e) && e@
                    == ErrorModel::Serde(reason@),
                RequestOutcome::Closed => out matches Err(e) && e@ == ErrorModel::ConnectionClosed,
                RequestOutcome::TimedOut(ms) => out matches Err(e) && e@ == ErrorModel::Timeout(
                    ms,
                ),
            },
    {
        match outcome {
            RequestOutcome::PublishFailed(reason) => {
                let _ = self.pending.remove(&request_id.to_string());
                assert(self@.pending =~= old(self)@.pending.remove(request_id@));
                let mut text = "publish:".to_string();
                text.append(topic);
                text.append(": ");
                text.append(reason.as_str());
                Err(EngineError::Mqtt(text))
            },
            RequestOutcome::Answered(value) => match value.into_object() {
                Some(record) => Ok(record),
                None => Err(EngineError::Mqtt("response was not an object".to_string())),
            },
            RequestOutcome::Unreadable(reason) => Err(EngineError::Serde(reason)),
            RequestOutcome::Closed => Err(EngineError::ConnectionClosed),
            RequestOutcome::TimedOut(ms) => {
                let _ = self.pending.remove(&request_id.to_string());
                assert(self@.pending =~= old(self)@.pending.remove(request_id@));
                Err(EngineError::Timeout(ms))
            },
        }
    }

    /// Starts to open a scope: from now on its mutations are held back. Returns
    /// the pattern to subscribe to.
    pub fn begin_open(&mut self, scope_id: &str) -> (pattern: String)
        ensures
            final(self).same_setup(*old(self)),
            final(self)@ == old(self)@.opening(scope_id@),
            pattern@ == old(self).scope_pattern_of(scope_id@),
    {
        self.awaiting.insert(scope_id.to_string(), ());
        let none: Vec<SyncMutation> = Vec::new();
        assert(crate::types::sync_models(none@) =~= Seq::empty());
        self.buffered.insert(scope_id.to_string(), none);
        assert(self@ =~= old(self)@.opening(scope_id@));
        self.scope_pattern(scope_id)
    }

    /// The scope was subscribed to.
    pub fn scope_subscribed(&mut self, scope_id: &str)
        ensures
            final(self).same_setup(*old(self)),
            final(self)@ == old(self)@.subscribing(scope_id@),
    {
        self.subscribed.insert(scope_id.to_string(), ());
        assert(self@ =~= old(self)@.subscribing(scope_id@));
    }

    /// The state of the scope was fetched. Its version is noted if it has one,
    /// and the mutations that were held back are handed out with it.
    pub fn complete_open(
        &mut self,
        scope_id: &str,
        root: Option<Record>,
        children: Assoc<String, Vec<Record>>,
    ) -> (state: ScopeState)
        ensures
            final(self).same_setup(*old(self)),
            state.root@ == (match root {
                Some(record) => record@,
                None => Map::empty(),
            }),
            state.children == children,
            state.version == scope_version(state.root@, old(self).layout().version_field@),
            crate::types::sync_models(state.buffered_mutations@) == old(self)@.held_back(scope_id@),
            final(self)@ == old(self)@.opened(scope_id@, state.version),
    {
        let root = match root {
            Some(record) => record,
            None => Record::new(),
        };
        let version: u64 = match root.get(self.config.version_field.as_str()) {
            Some(value) => match value.as_u64() {
                Some(version) => version,
                None => 0,
            },
            None => 0,
        };
        let key = scope_id.to_string();
        if version > 0 && version <= i64::MAX as u64 {
            self.applied.insert(scope_id.to_string(), version as i64);
        }
        let buffered_mutations = match self.buffered.remove(&key) {
            Some(list) => list,
            None => Vec::new(),
        };
        let _ = self.awaiting.remove(&key);
        proof {
            if !old(self)@.buffered.contains_key(scope_id@) {
                assert(crate::types::sync_models(buffered_mutations@) =~= Seq::empty());
            }
            assert(self@ =~= old(self)@.opened(scope_id@, version));
        }
        ScopeState { root, children, version, buffered_mutations }
    }

    /// The scope could not be opened: everything about the attempt is undone.
    pub fn fail_open(&mut self, scope_id: &str)
        ensures
            final(self).same_setup(*old(self)),
            final(self)@ == old(self)@.open_failed(scope_id@),
    {
        let key = scope_id.to_string();
        let _ = self.awaiting.remove(&key);
        let _ = self.buffered.remove(&key);
        let _ = self.subscribed.remove(&key);
        assert(self@ =~= old(self)@.open_failed(scope_id@));
    }

    /// Forgets a scope. Returns the pattern to unsubscribe from.
    pub fn close_scope(&mut self, scope_id: &str) -> (pattern: String)
        ensures
            final(self).same_setup(*old(self)),
            final(self)@ == old(self)@.closed(scope_id@),
            pattern@ == old(self).scope_pattern_of(scope_id@),
    {
        self.fail_open(scope_id);
        let _ = self.applied.remove(&scope_id.to_string());
        assert(self@ =~= old(self)@.closed(scope_id@));
        self.scope_pattern(scope_id)
    }

    /// Forgets everything after a disconnect. Returns the requests that now get
    /// no response: each has failed, as the connection was closed.
    pub fn cleanup_on_disconnect(&mut self) -> (failed: Vec<String>)
        ensures
            final(self).same_setup(*old(self)),
            final(self)@ == EngineModel::idle(),
            forall|i: int, j: int|
                0 <= i < j < failed@.len() ==> (#[trigger] failed@[i])@ != (
                #[trigger] failed@[j])@,
            forall|id: Seq<char>| #[trigger]
                old(self)@.pending.contains(id) <==> crate::text::texts(failed@).contains(id),
    {
        let failed = keys_of(&self.pending);
        proof {
            assert forall|id: Seq<char>| #[trigger]
                old(self)@.pending.contains(id) == crate::text::texts(failed@).contains(id) by {
                assert(self.pending@.contains_key(id) == crate::text::texts(failed@).contains(id));
            }
        }
        self.pending = Assoc::new();
        self.subscribed = Assoc::new();
        self.awaiting = Assoc::new();
        self.buffered = Assoc::new();
        self.applied = Assoc::new();
        assert(self@ =~= EngineModel::idle());
        failed
    }

    /// The version of a scope that is known to be applied.
    pub fn applied_version(&self, scope_id: &str) -> (version: Option<i64>)
        ensures
            version == (if self@.applied.contains_key(scope_id@) {
                Some(self@.applied[scope_id@])
            } else {
                None
            }),
    {
        match self.applied.get(&scope_id.to_string()) {
            Some(version) => Some(*version),
            None => None,
        }
    }

    /// What to send to create a record: a child names its scope if it does not
    /// do so already.
    pub fn create_payload(&self, entity: &str, scope_id: &str, data: Record) -> (payload: Record)
        ensures
            ({
                let field = self.layout().scope.scope_field@;
                payload@ == (if self.layout().is_child(entity@) && !data@.contains_key(field) {
                    data@.insert(field, crate::json::Json::String(scope_id@))
                } else {
                    data@
                })
            }),
    {
        let mut data = data;
        if self.config.child(entity) && !data.contains_key(
            self.config.scope.scope_field.as_str(),
        ) {
            data.insert(self.config.scope.scope_field.clone(), Value::text(scope_id));
        }
        data
    }

    /// A change to the entity is a new version of the scope.
    pub open spec fn bumps(&self, entity: Seq<char>, scope_id: Seq<char>) -> bool {
        self.layout().is_child(entity) && scope_id.len() > 0
    }

    /// What the response to a creation means: the id of the new record, and
    /// whether the scope's version is to be bumped.
    pub fn on_created(&self, entity: &str, scope_id: &str, response: &Record) -> (out: Result<
        (String, bool),
        EngineError,
    >)
        ensures
            match out {
                Ok((id, bump)) => {
                    &&& response_error(response@) is None
                    &&& id_in_response(response@) == Ok::<Seq<char>, ErrorModel>(id@)
                    &&& bump == self.bumps(entity@, scope_id@)
                },
                Err(e) => match response_error(response@) {
                    Some(error) => e@ == error,
                    None => id_in_response(response@) == Err::<Seq<char>, ErrorModel>(e@),
                },
            },
    {
        match check_response(response) {
            Ok(()) => {},
            Err(e) => return Err(e),
        }
        match extract_id(response) {
            Ok(id) => Ok((id, self.config.child(entity) && scope_id.unicode_len() > 0)),
            Err(e) => Err(e),
        }
    }

    /// What the response to an update or a deletion means: whether the scope's
    /// version is to be bumped.
    pub fn on_changed(&self, entity: &str, scope_id: &str, response: &Record) -> (out: Result<
        bool,
        EngineError,
    >)
        ensures
            match out {
                Ok(bump) => response_error(response@) is None && bump == self.bumps(
                    entity@,
                    scope_id@,
                ),
                Err(e) => response_error(response@) == Some(e@),
            },
    {
        match check_response(response) {
            Ok(()) => Ok(self.config.child(entity) && scope_id.unicode_len() > 0),
            Err(e) => Err(e),
        }
    }

    /// What to send to bump a scope's version.
    pub fn version_payload(&self, now: i64) -> (payload: Record)
        ensures
            payload@ == Map::<Seq<char>, crate::json::Json>::empty().insert(
                self.layout().version_field@,
                crate::json::Json::Number(crate::json::integer_number(now)),
            ).insert(
                self.layout().updated_at_field@,
                crate::json::Json::Number(crate::json::integer_number(now)),
            ),
    {
        let mut payload = Record::new();
        payload.insert(self.config.version_field.clone(), Value::integer(now));
        payload.insert(self.config.updated_at_field.clone(), Value::integer(now));
        payload
    }

    /// What the response to a version bump means: the version is applied, or the
    /// bump failed.
    pub fn bump_scope_version(&mut self, scope_id: &str, now: i64, response: &Record) -> (out:
        Result<(), EngineError>)
        ensures
            final(self).same_setup(*old(self)),
            match out {
                Ok(()) => response_error(response@) is None && final(self)@ == (EngineModel {
                    applied: old(self)@.applied.insert(scope_id@, now),
                    ..old(self)@
                }),
                Err(e) => response_error(response@) == Some(e@) && final(self)@ == old(self)@,
            },
    {
        match check_response(response) {
            Ok(()) => {
                self.applied.insert(scope_id.to_string(), now);
                assert(self@ =~= EngineModel {
                    applied: old(self)@.applied.insert(scope_id@, now),
                    ..old(self)@
                });
                Ok(())
            },
            Err(e) => Err(e),
        }
    }

    /// What the response to a read means: the record, or none if it does not
    /// exist.
    pub fn fetch_one(&self, response: Result<Record, EngineError>) -> (out: Result<
        Option<Record>,
        EngineError,
    >)
        ensures
            match response {
                Ok(record) => match response_error(record@) {
                    Some(error) => if error is NotFound {
                        out matches Ok(None)
                    } else {
                        out matches Err(e) && e@ == error
                    },
                    None => match crate::json::field_in(record@, "data"@) {
                        Some(crate::json::Json::Object(data)) => out matches Ok(Some(r)) && r@
                            == data,
                        _ => out matches Ok(None),
                    },
                },
                Err(error) => if error@ is NotFound {
                    out matches Ok(None)
                } else {
                    out matches Err(e) && e@ == error@
                },
            },
    {
        match response {
            Ok(record) => {
                if let Err(error) = check_response(&record) {
                    if error.is_not_found() {
                        return Ok(None);
                    }
                    return Err(error);
                }
                match record.get("data") {
                    Some(value) => match value.as_object() {
                        Some(data) => Ok(Some(data.clone())),
                        None => Ok(None),
                    },
                    None => Ok(None),
                }
            },
            Err(error) => {
                if error.is_not_found() {
                    Ok(None)
                } else {
                    Err(error)
                }
            },
        }
    }

    /// What to send to list the records of an entity, in one scope or in all.
    pub fn list_payload(&self, scope_id: Option<&str>) -> (payload: Record)
        ensures
            payload@ == (match scope_id {
                Some(id) => Map::<Seq<char>, crate::json::Json>::empty().insert(
                    "filters"@,
                    crate::json::Json::Array(
                        seq![
                            crate::json::Json::Object(
                                Map::<Seq<char>, crate::json::Json>::empty().insert(
                                    "field"@,
                                    crate::json::Json::String(self.layout().scope.scope_field@),
                                ).insert("op"@, crate::json::Json::String("eq"@)).insert(
                                    "value"@,
                                    crate::json::Json::String(id@),
                                ),
                            ),
                        ],
                    ),
                ),
                None => Map::empty(),
            }),
    {
        let mut payload = Record::new();
        if let Some(id) = scope_id {
            let mut filter = Record::new();
            filter.insert(
                "field".to_string(),
                Value::text(self.config.scope.scope_field.as_str()),
            );
            filter.insert("op".to_string(), Value::text("eq"));
            filter.insert("value".to_string(), Value::text(id));
            let mut filters: Vec<Value> = Vec::new();
            filters.push(Value::object(filter));
            assert(crate::json::values(filters@) =~= seq![crate::json::Json::Object(filter@)]);
            payload.insert("filters".to_string(), Value::array(filters));
        }
        payload
    }

    /// What the response to a listing means: the objects among its data.
    pub fn fetch_list(&self, response: &Record) -> (out: Result<Vec<Record>, EngineError>)
        ensures
            match out {
                Ok(rows) => response_error(response@) is None && crate::json::records(rows@)
                    == objects_among(
                    match crate::json::field_in(response@, "data"@) {
                        Some(crate::json::Json::Array(items)) => items,
                        _ => Seq::empty(),
                    },
                ),
                Err(e) => response_error(response@) == Some(e@),
            },
    {
        match check_response(response) {
            Ok(()) => {},
            Err(e) => return Err(e),
        }
        let mut out: Vec<Record> = Vec::new();
        assert(crate::json::records(out@) =~= objects_among(Seq::empty()));
        let items = match response.get("data") {
            Some(value) => match value.as_array() {
                Some(items) => items,
                None => return Ok(out),
            },
            None => return Ok(out),
        };
        let ghost models = crate::json::values(items@);
        let mut i: usize = 0;
        assert(models.take(0) =~= Seq::empty());
        while i < items.len()
            invariant
                i <= items@.len(),
                models == crate::json::values(items@),
                crate::json::records(out@) == objects_among(models.take(i as int)),
            decreases items@.len() - i,
        {
            assert(models.take(i + 1).drop_last() =~= models.take(i as int));
            assert(models.take(i + 1).last() == items@[i as int]@);
            let ghost before = crate::json::records(out@);
            if let Some(record) = items[i].as_object() {
                out.push(record.clone());
                assert(crate::json::records(out@) =~= before.push(record@));
            }
            i = i + 1;
        }
        assert(models.take(i as int) =~= models);
        Ok(out)
    }

    fn read_scope_message(
        &self,
        topic: &str,
        user_properties: &Vec<(String, String)>,
        payload: Option<&Value>,
    ) -> (delivery: Option<MutationDelivery>)
        ensures
            match delivery {
                Some(d) => scope_delivery(
                    self.client(),
                    self.layout().sync_topic_prefix@,
                    self.layout().scope.root_entity@,
                    topic@,
                    user_properties@,
                    payload_model(payload),
                ) == Some(d@),
                None => scope_delivery(
                    self.client(),
                    self.layout().sync_topic_prefix@,
                    self.layout().scope.root_entity@,
                    topic@,
                    user_properties@,
                    payload_model(payload),
                ) is None,
            },
    {
        if own_user_property(user_properties, self.client_id.as_str()) {
            return None;
        }
        let parsed = match parse_scoped_topic(
            self.config.sync_topic_prefix.as_str(),
            self.config.scope.root_entity.as_str(),
            topic,
        ) {
            Some(parsed) => parsed,
            None => return None,
        };
        let op = match operation_of_event(parsed.event_type.as_str()) {
            Some(op) => op,
            None => return None,
        };
        let payload = match payload {
            Some(payload) => payload,
            None => return None,
        };
        if sender_is_self(self.client_id.as_str(), payload) {
            return None;
        }
        match build_mutation(parsed.entity.as_str(), op, payload) {
            Some(mutation) => Some(MutationDelivery { scope_id: parsed.scope_id, mutation }),
            None => None,
        }
    }

    /// A message on a topic of a subscribed scope. Its mutation is held back
    /// while the scope is being opened, else delivered. `payload` is the
    /// message's payload if it is JSON.
    pub fn handle_scope_message(
        &mut self,
        topic: &str,
        user_properties: &Vec<(String, String)>,
        payload: Option<&Value>,
    ) -> (delivery: Option<MutationDelivery>)
        ensures
            final(self).same_setup(*old(self)),
            match scope_delivery(
                old(self).client(),
                old(self).layout().sync_topic_prefix@,
                old(self).layout().scope.root_entity@,
                topic@,
                user_properties@,
                payload_model(payload),
            ) {
                Some(model) => {
                    &&& final(self)@ == old(self)@.received(model)
                    &&& if old(self)@.holds_back(model.scope_id) {
                        delivery is None
                    } else {
                        delivery matches Some(d) && d@ == model
                    }
                },
                None => delivery is None && final(self)@ == old(self)@,
            },
    {
        let found = match self.read_scope_message(topic, user_properties, payload) {
            Some(found) => found,
            None => return None,
        };
        let ghost model = found@;
        if self.awaiting.contains_key(&found.scope_id) {
            match self.buffered.remove(&found.scope_id) {
                Some(list) => {
                    let mut list = list;
                    let ghost before = crate::types::sync_models(list@);
                    let scope_id = found.scope_id;
                    list.push(found.mutation);
                    assert(crate::types::sync_models(list@) =~= before.push(model.mutation));
                    self.buffered.insert(scope_id, list);
                    assert(self@ =~= old(self)@.received(model));
                    return None;
                },
                None => {
                    assert(self.buffered@ =~= old(self).buffered@);
                    assert(self@ =~= old(self)@);
                },
            }
        }
        Some(found)
    }

    /// A message on the topics of all scope roots: only events of roots whose
    /// scope is not subscribed to, which would get them anyway, are delivered.
    pub fn handle_root_wildcard_message(
        &self,
        topic: &str,
        user_properties: &Vec<(String, String)>,
        payload: Option<&Value>,
    ) -> (delivery: Option<MutationDelivery>)
        ensures
            ({
                let found = scope_delivery(
                    self.client(),
                    self.layout().sync_topic_prefix@,
                    self.layout().scope.root_entity@,
                    topic@,
                    user_properties@,
                    payload_model(payload),
                );
                match delivery {
                    Some(d) => found == Some(d@) && d@.mutation.entity
                        == self.layout().scope.root_entity@ && !self@.subscribed.contains(
                        d@.scope_id,
                    ),
                    None => match found {
                        Some(model) => model.mutation.entity != self.layout().scope.root_entity@
                            || self@.subscribed.contains(model.scope_id),
                        None => true,
                    },
                }
            }),
    {
        let found = match self.read_scope_message(topic, user_properties, payload) {
            Some(found) => found,
            None => return None,
        };
        if !self.config.root(found.mutation.entity.as_str()) {
            return None;
        }
        if self.subscribed.contains_key(&found.scope_id) {
            return None;
        }
        Some(found)
    }

    /// A message on the topic of a top-level entity.
    pub fn handle_top_level_message(
        &self,
        entity: &str,
        user_properties: &Vec<(String, String)>,
        payload: Option<&Value>,
    ) -> (delivery: Option<MutationDelivery>)
        ensures
            match delivery {
                Some(d) => top_level_delivery(
                    self.client(),
                    entity@,
                    user_properties@,
                    payload_model(payload),
                ) == Some(d@),
                None => top_level_delivery(
                    self.client(),
                    entity@,
                    user_properties@,
                    payload_model(payload),
                ) is None,
            },
    {
        if own_user_property(user_properties, self.client_id.as_str()) {
            return None;
        }
        let payload = match payload {
            Some(payload) => payload,
            None => return None,
        };
        if sender_is_self(self.client_id.as_str(), payload) {
            return None;
        }
        let op = match operation_of_payload(payload) {
            Some(op) => op,
            None => return None,
        };
        match build_mutation(entity, op, payload) {
            Some(mutation) => {
                let scope_id = String::new();
                assert(scope_id@ =~= Seq::<char>::empty());
                Some(MutationDelivery { scope_id, mutation })
            },
            None => None,
        }
    }
}

/// A payload by its content.
pub open spec fn payload_model(payload: Option<&Value>) -> Option<crate::json::Json> {
    match payload {
        Some(value) => Some(value@),
        None => None,
    }
}

/// The version that a root record says its scope has; zero if it says none.
pub open spec fn scope_version(
    root: Map<Seq<char>, crate::json::Json>,
    version_field: Seq<char>,
) -> u64 {
    match crate::json::field_in(root, version_field) {
        Some(value) => match crate::json::unsigned_in(value) {
            Some(version) => version,
            None => 0,
        },
        None => 0,
    }
}

/// The objects among some values, in order.
pub open spec fn objects_among(items: Seq<crate::json::Json>) -> Seq<
    Map<Seq<char>, crate::json::Json>,
>
    decreases items.len(),
{
    if items.len() == 0 {
        Seq::empty()
    } else {
        match items.last() {
            crate::json::Json::Object(fields) => objects_among(items.drop_last()).push(fields),
            _ => objects_among(items.drop_last()),
        }
    }
}

/// The time in milliseconds as a version: what is beyond the largest version is
/// that, and a time before the epoch is zero.
pub fn now_millis(since_epoch: Option<u128>) -> (now: i64)
    ensures
        now == (match since_epoch {
            Some(ms) => if ms <= i64::MAX {
                ms as i64
            } else {
                i64::MAX
            },
            None => 0,
        }),
{
    match since_epoch {
        Some(ms) => if ms <= i64::MAX as u128 {
            ms as i64
        } else {
            i64::MAX
        },
        None => 0,
    }
}

/// What a client sent itself never comes back to it as a mutation.
pub proof fn own_messages_are_ignored(
    client_id: Seq<char>,
    prefix: Seq<char>,
    root_entity: Seq<char>,
    entity: Seq<char>,
    topic: Seq<char>,
    user_properties: Seq<(String, String)>,
    payload: crate::json::Json,
)
    requires
        is_own(user_properties, client_id) || sent_by(client_id, payload),
    ensures
        scope_delivery(client_id, prefix, root_entity, topic, user_properties, Some(payload))
            is None,
        top_level_delivery(client_id, entity, user_properties, Some(payload)) is None,
{
}

/// The mutations of one scope, in order.
pub open spec fn mutations_for(deliveries: Seq<DeliveryModel>, scope_id: Seq<char>) -> Seq<
    crate::types::SyncMutationModel,
>
    decreases deliveries.len(),
{
    if deliveries.len() == 0 {
        Seq::empty()
    } else {
        let front = mutations_for(deliveries.drop_last(), scope_id);
        if deliveries.last().scope_id == scope_id {
            front.push(deliveries.last().mutation)
        } else {
            front
        }
    }
}

/// While a scope is being opened no mutation of it is lost: whatever comes in
/// after its opening began is handed out with its state, in order.
pub proof fn opening_loses_no_mutation(
    engine: EngineModel,
    scope_id: Seq<char>,
    deliveries: Seq<DeliveryModel>,
)
    ensures
        engine.opening(scope_id).subscribing(scope_id).received_all(deliveries).held_back(scope_id)
            == mutations_for(deliveries, scope_id),
        engine.opening(scope_id).subscribing(scope_id).received_all(deliveries).awaiting.contains(
            scope_id,
        ),
    decreases deliveries.len(),
{
    if deliveries.len() > 0 {
        opening_loses_no_mutation(engine, scope_id, deliveries.drop_last());
        lemma_buffer_stays(
            engine.opening(scope_id).subscribing(scope_id),
            scope_id,
            deliveries.drop_last(),
        );
    }
}

proof fn lemma_buffer_stays(
    engine: EngineModel,
    scope_id: Seq<char>,
    deliveries: Seq<DeliveryModel>,
)
    requires
        engine.holds_back(scope_id),
    ensures
        engine.received_all(deliveries).holds_back(scope_id),
    decreases deliveries.len(),
{
    if deliveries.len() > 0 {
        lemma_buffer_stays(engine, scope_id, deliveries.drop_last());
    }
}

/// A scope that is closed is forgotten, whatever was known of it; what is known
/// of other scopes stays.
pub proof fn closing_forgets_the_scope(
    engine: EngineModel,
    scope_id: Seq<char>,
    other: Seq<char>,
)
    requires
        other != scope_id,
    ensures
        engine.closed(scope_id).knows_nothing_of(scope_id),
        engine.closed(scope_id).pending == engine.pending,
        engine.closed(scope_id).subscribed.contains(other) == engine.subscribed.contains(other),
        engine.closed(scope_id).holds_back(other) == engine.holds_back(other),
        engine.closed(scope_id).held_back(other) == engine.held_back(other),
        engine.closed(scope_id).applied.contains_key(other) == engine.applied.contains_key(other),
        engine.applied.contains_key(other) ==> engine.closed(scope_id).applied[other]
            == engine.applied[other],
{
}

/// An attempt to open a scope that fails leaves no trace of the scope.
pub proof fn failed_opening_leaves_no_trace(engine: EngineModel, scope_id: Seq<char>)
    requires
        engine.knows_nothing_of(scope_id),
    ensures
        engine.opening(scope_id).open_failed(scope_id) == engine,
        engine.opening(scope_id).subscribing(scope_id).open_failed(scope_id) == engine,
{
    assert(engine.opening(scope_id).open_failed(scope_id) =~= engine);
    assert(engine.opening(scope_id).subscribing(scope_id).open_failed(scope_id) =~= engine);
}

/// An event that a peer publishes for the root or for a child of a scope is read
/// as just that, as long as no name in its topic holds a separator.
pub proof fn event_topic_reads_back(
    prefix: Seq<char>,
    root_entity: Seq<char>,
    scope_id: Seq<char>,
    entity: Seq<char>,
    event_type: Seq<char>,
)
    requires
        !scope_id.contains('/'),
        !entity.contains('/'),
        !event_type.contains('/'),
    ensures
        scoped_topic(
            prefix,
            root_entity,
            topic3(prefix, root_entity, topic3(scope_id, "events"@, event_type)),
        ) == Some(ScopedTopicModel { scope_id, entity: root_entity, event_type }),
        scoped_topic(
            prefix,
            root_entity,
            topic3(prefix, root_entity, topic4(scope_id, entity, "events"@, event_type)),
        ) == Some(ScopedTopicModel { scope_id, entity, event_type }),
{
    reveal_strlit("/");
    reveal_strlit("events");
    let head = topic3(prefix, root_entity, Seq::empty());
    let short = topic3(scope_id, "events"@, event_type);
    let long = topic4(scope_id, entity, "events"@, event_type);
    let first = topic3(prefix, root_entity, short);
    let second = topic3(prefix, root_entity, long);
    assert(first =~= head + short);
    assert(second =~= head + long);
    assert(first.skip(head.len() as int) =~= short);
    assert(second.skip(head.len() as int) =~= long);
    crate::text::lemma_split_joined(scope_id, "events"@, '/');
    crate::text::lemma_split_piece(scope_id, '/');
    crate::text::lemma_split_joined(scope_id + "/"@ + "events"@, event_type, '/');
    crate::text::lemma_split_joined(scope_id, entity, '/');
    crate::text::lemma_split_joined(scope_id + "/"@ + entity, "events"@, '/');
    crate::text::lemma_split_joined(
        scope_id + "/"@ + entity + "/"@ + "events"@,
        event_type,
        '/',
    );
    assert("/"@ =~= seq!['/']);
}

/// A fresh request id is one level of a topic, so that its response topic falls
/// under the subscription to the client's responses.
pub proof fn request_ids_are_plain_levels(request_id: Seq<char>, version: char)
    requires
        crate::signaling::uuid_text(request_id, version),
    ensures
        plain_level(request_id),
{
    assert forall|i: int| 0 <= i < request_id.len() implies (#[trigger] request_id[i]) != '+'
        && request_id[i] != '#' && request_id[i] != '/' by {
        assert(request_id[i] == request_id[i]);
    }
}

/// The response topic that a request names leads back to that request.
pub proof fn response_topic_names_the_request(
    response_prefix: Seq<char>,
    client_id: Seq<char>,
    request_id: Seq<char>,
)
    ensures
        topic3(response_prefix, client_id, request_id) == topic3(
            response_prefix,
            client_id,
            Seq::empty(),
        ) + request_id,
{
    assert(topic3(response_prefix, client_id, request_id) =~= topic3(
        response_prefix,
        client_id,
        Seq::empty(),
    ) + request_id);
}

/// Topics join their levels with slashes.
pub proof fn topics_join_levels(a: Seq<char>, b: Seq<char>, c: Seq<char>, d: Seq<char>)
    ensures
        topic3(a, b, c) == a + seq!['/'] + b + seq!['/'] + c,
        topic4(a, b, c, d) == a + seq!['/'] + b + seq!['/'] + c + seq!['/'] + d,
{
    reveal_strlit("/");
    assert("/"@ =~= seq!['/']);
}

/// An event payload with a text under `id` is read as a mutation of the operation,
/// entity and id that were given. Its data is the object under `data`, whatever the
/// operation, and there is none only if `data` holds no object. Its operation id is
/// the text under `operation_id`. A payload without such an `id` is no mutation.
pub proof fn events_are_read_with_their_data(
    entity: &str,
    op: Operation,
    payload: &Value,
    mutation: Option<SyncMutation>,
)
    requires
        call_ensures(build_mutation, (entity, op, payload), mutation),
    ensures
        !(payload@ is Object) ==> mutation is None,
        payload@ matches crate::json::Json::Object(fields) ==> {
            &&& fields.contains_key("id"@) && fields["id"@] is String <==> mutation is Some
            &&& mutation matches Some(m) ==> {
                &&& m.op == op
                &&& m.entity@ == entity@
                &&& fields["id"@] == crate::json::Json::String(m.id@)
                &&& m.data matches Some(record) ==> fields.contains_key("data"@)
                    && fields["data"@] == crate::json::Json::Object(record@)
                &&& m.data is None ==> !(fields.contains_key("data"@) && fields["data"@] is Object)
                &&& m.operation_id matches Some(text) ==> fields.contains_key("operation_id"@)
                    && fields["operation_id"@] == crate::json::Json::String(text@)
                &&& m.operation_id is None ==> !(fields.contains_key("operation_id"@)
                    && fields["operation_id"@] is String)
            }
        },
{
    if let Some(m) = mutation {
        if let Some(record) = m.data {
            assert(m@.data == Some(record@));
        }
    }
}

/// The payload names the client as its sender.
pub open spec fn names_sender(payload: crate::json::Json, client_id: Seq<char>) -> bool {
    payload matches crate::json::Json::Object(fields) && ((fields.contains_key("sender"@)
        && fields["sender"@] == crate::json::Json::String(client_id)) || (fields.contains_key(
        "client_id"@,
    ) && fields["client_id"@] == crate::json::Json::String(client_id)))
}

/// Some user property says that the client is where the message came from.
pub open spec fn carries_origin(user_properties: Seq<(String, String)>, client_id: Seq<char>) -> bool {
    exists|i: int|
        0 <= i < user_properties.len() && (#[trigger] user_properties[i]).0@
            == "x-origin-client-id"@ && user_properties[i].1@ == client_id
}

proof fn lemma_own_marks(
    user_properties: Seq<(String, String)>,
    client_id: Seq<char>,
    payload: crate::json::Json,
)
    ensures
        is_own(user_properties, client_id) == carries_origin(user_properties, client_id),
        sent_by(client_id, payload) == names_sender(payload, client_id),
{
    if is_own(user_properties, client_id) {
        let i = choose|i: int|
            0 <= i < user_properties.len() && (#[trigger] user_properties[i]).0@
                == ORIGIN_USER_PROPERTY@ && user_properties[i].1@ == client_id;
        assert(user_properties[i].0@ == "x-origin-client-id"@);
    }
    if carries_origin(user_properties, client_id) {
        let i = choose|i: int|
            0 <= i < user_properties.len() && (#[trigger] user_properties[i]).0@
                == "x-origin-client-id"@ && user_properties[i].1@ == client_id;
        assert(user_properties[i].0@ == ORIGIN_USER_PROPERTY@);
    }
}

proof fn lemma_event_names()
    ensures
        event_operation("created"@) == Some(Operation::Insert),
        event_operation("updated"@) == Some(Operation::Update),
        event_operation("deleted"@) == Some(Operation::Delete),
        named_operation_of("Create"@) == Some(Operation::Insert),
        named_operation_of("Update"@) == Some(Operation::Update),
        named_operation_of("Delete"@) == Some(Operation::Delete),
        "created"@ != "updated"@,
        "created"@ != "deleted"@,
        "updated"@ != "deleted"@,
        "Create"@ != "Update"@,
        "Create"@ != "Delete"@,
        "Update"@ != "Delete"@,
{
    reveal_strlit("created");
    reveal_strlit("updated");
    reveal_strlit("deleted");
    reveal_strlit("Create");
    reveal_strlit("Update");
    reveal_strlit("Delete");
    assert("created"@[0] != "updated"@[0]);
    assert("created"@[0] != "deleted"@[0]);
    assert("updated"@[0] != "deleted"@[0]);
    assert("Create"@[0] != "Update"@[0]);
    assert("Create"@[0] != "Delete"@[0]);
    assert("Update"@[0] != "Delete"@[0]);
}

spec fn named_operation_of(name: Seq<char>) -> Option<Operation> {
    named_operation(
        crate::json::Json::Object(
            Map::<Seq<char>, crate::json::Json>::empty().insert(
                "operation"@,
                crate::json::Json::String(name),
            ),
        ),
    )
}

/// Following a scope: a message of another client on the event topic of an entity
/// in the scope gives the mutation that its payload describes, for that scope. The
/// last level says which operation it is: created, updated or deleted. While the
/// scope is being opened the mutation is held back, after those that wait already,
/// otherwise it is delivered. Own messages and unreadable ones give nothing.
pub proof fn scope_events_are_followed(
    engine: &mut SyncEngine,
    topic: &str,
    user_properties: &Vec<(String, String)>,
    payload: &Value,
    delivery: Option<MutationDelivery>,
    scope_id: Seq<char>,
    entity: Seq<char>,
    event_type: Seq<char>,
    op: Operation,
    fields: Map<Seq<char>, crate::json::Json>,
    id: Seq<char>,
)
    requires
        call_ensures(
            SyncEngine::handle_scope_message,
            (engine, topic, user_properties, Some(payload)),
            delivery,
        ),
        topic@ == old(engine).layout().sync_topic_prefix@ + seq!['/'] + old(engine).layout().scope.root_entity@ + seq!['/'] + scope_id + seq!['/'] + entity + seq!['/']
            + "events"@ + seq!['/'] + event_type,
        !scope_id.contains('/'),
        !entity.contains('/'),
        (event_type == "created"@ && op is Insert) || (event_type == "updated"@ && op is Update)
            || (event_type == "deleted"@ && op is Delete),
        payload@ == crate::json::Json::Object(fields),
        fields.contains_key("id"@),
        fields["id"@] == crate::json::Json::String(id),
    ensures
        final(engine).layout() == old(engine).layout(),
        final(engine).client() == old(engine).client(),
        ({
            let own = carries_origin(user_properties@, old(engine).client()) || names_sender(
                payload@,
                old(engine).client(),
            );
            let holding = old(engine)@.awaiting.contains(scope_id) && old(engine)@.buffered.contains_key(scope_id);
            &&& own ==> delivery is None && final(engine)@ == old(engine)@
            &&& !own && !holding ==> {
                &&& final(engine)@ == old(engine)@
                &&& delivery matches Some(d) && d.scope_id@ == scope_id && d.mutation.op == op
                    && d.mutation.entity@ == entity && d.mutation.id@ == id && (match d.mutation.data {
                    Some(record) => fields.contains_key("data"@) && fields["data"@]
                        == crate::json::Json::Object(record@),
                    None => !(fields.contains_key("data"@) && fields["data"@] is Object),
                })
            }
            &&& !own && holding ==> {
                let before = old(engine)@.buffered[scope_id];
                let after = final(engine)@.buffered[scope_id];
                &&& delivery is None
                &&& final(engine)@.buffered.contains_key(scope_id)
                &&& after.len() == before.len() + 1
                &&& after.take(before.len() as int) == before
                &&& after.last().op == op
                &&& after.last().entity == entity
                &&& after.last().id == id
                &&& fields.contains_key("data"@) && fields["data"@] is Object
                    ==> after.last().data == Some(fields["data"@]->Object_0)
                &&& !(fields.contains_key("data"@) && fields["data"@] is Object)
                    ==> after.last().data is None
                &&& final(engine)@.awaiting == old(engine)@.awaiting
                &&& final(engine)@.subscribed == old(engine)@.subscribed
                &&& final(engine)@.pending == old(engine)@.pending
                &&& final(engine)@.applied == old(engine)@.applied
                &&& forall|other: Seq<char>|
                    other != scope_id ==> #[trigger] final(engine)@.buffered.contains_key(other)
                        == old(engine)@.buffered.contains_key(other) && final(engine)@.buffered[other] == old(engine)@.buffered[other]
            }
        }),
{
    let prefix = old(engine).layout().sync_topic_prefix@;
    let root = old(engine).layout().scope.root_entity@;
    lemma_event_names();
    lemma_own_marks(user_properties@, old(engine).client(), payload@);
    reveal_strlit("created");
    reveal_strlit("updated");
    reveal_strlit("deleted");
    assert(!event_type.contains('/'));
    topics_join_levels(prefix, root, topic4(scope_id, entity, "events"@, event_type), Seq::empty());
    topics_join_levels(scope_id, entity, "events"@, event_type);
    assert(topic@ =~= topic3(prefix, root, topic4(scope_id, entity, "events"@, event_type)));
    event_topic_reads_back(prefix, root, scope_id, entity, event_type);
    let model = scope_delivery(
        old(engine).client(),
        prefix,
        root,
        topic@,
        user_properties@,
        Some(payload@),
    );
    if model is Some && !(old(engine)@.awaiting.contains(scope_id) && old(engine)@.buffered.contains_key(scope_id)) {
        let d = delivery->0;
        assert(d@ == model->0);
        assert(d.mutation@ == model->0.mutation);
        if let Some(record) = d.mutation.data {
            assert(d.mutation@.data == Some(record@));
        }
    }
    if model is Some && old(engine)@.awaiting.contains(scope_id) && old(engine)@.buffered.contains_key(scope_id) {
        let before = old(engine)@.buffered[scope_id];
        let after = final(engine)@.buffered[scope_id];
        assert(after == before.push(model->0.mutation));
        assert(after.take(before.len() as int) =~= before);
    }
}

/// Following top-level entities: a message of another client whose payload names
/// the operation gives the mutation that it describes, outside any scope. Own
/// messages, and those without an operation or an id, give nothing.
pub proof fn top_level_events_are_followed(
    engine: &SyncEngine,
    entity: &str,
    user_properties: &Vec<(String, String)>,
    payload: &Value,
    delivery: Option<MutationDelivery>,
    fields: Map<Seq<char>, crate::json::Json>,
    name: Seq<char>,
    op: Operation,
    id: Seq<char>,
)
    requires
        call_ensures(
            SyncEngine::handle_top_level_message,
            (engine, entity, user_properties, Some(payload)),
            delivery,
        ),
        payload@ == crate::json::Json::Object(fields),
    ensures
        carries_origin(user_properties@, engine.client()) || names_sender(
            payload@,
            engine.client(),
        ) ==> delivery is None,
        !(fields.contains_key("id"@) && fields["id"@] is String) ==> delivery is None,
        !(fields.contains_key("operation"@) && fields["operation"@] is String) ==> delivery is None,
        fields.contains_key("operation"@) && fields["operation"@] == crate::json::Json::String(name)
            && name != "Create"@ && name != "Update"@ && name != "Delete"@ ==> delivery is None,
        !carries_origin(user_properties@, engine.client()) && !names_sender(
            payload@,
            engine.client(),
        ) && fields.contains_key("operation"@) && fields["operation"@]
            == crate::json::Json::String(name) && ((name == "Create"@ && op is Insert) || (name
            == "Update"@ && op is Update) || (name == "Delete"@ && op is Delete))
            && fields.contains_key("id"@) && fields["id"@] == crate::json::Json::String(id) ==> (
        delivery matches Some(d) && d.scope_id@.len() == 0 && d.mutation.op == op
            && d.mutation.entity@ == entity@ && d.mutation.id@ == id && (match d.mutation.data {
            Some(record) => fields.contains_key("data"@) && fields["data"@]
                == crate::json::Json::Object(record@),
            None => !(fields.contains_key("data"@) && fields["data"@] is Object),
        })),
{
    lemma_event_names();
    lemma_own_marks(user_properties@, engine.client(), payload@);
    if let Some(d) = delivery {
        assert(d@.mutation == d.mutation@);
        if let Some(record) = d.mutation.data {
            assert(d.mutation@.data == Some(record@));
        }
    }
}

/// A message on a topic of another tree, or whose last level names no operation,
/// gives nothing.
pub proof fn other_messages_are_ignored(
    engine: &mut SyncEngine,
    topic: &str,
    user_properties: &Vec<(String, String)>,
    payload: Option<&Value>,
    delivery: Option<MutationDelivery>,
)
    requires
        call_ensures(
            SyncEngine::handle_scope_message,
            (engine, topic, user_properties, payload),
            delivery,
        ),
    ensures
        payload is None ==> delivery is None && final(engine)@ == old(engine)@,
        !(old(engine).layout().sync_topic_prefix@ + seq!['/'] + old(engine).layout().scope.root_entity@ + seq!['/']).is_prefix_of(topic@) ==> delivery is None
            && final(engine)@ == old(engine)@,
{
    topics_join_levels(
        old(engine).layout().sync_topic_prefix@,
        old(engine).layout().scope.root_entity@,
        Seq::empty(),
        Seq::empty(),
    );
    let head = topic3(
        old(engine).layout().sync_topic_prefix@,
        old(engine).layout().scope.root_entity@,
        Seq::empty(),
    );
    assert(head =~= old(engine).layout().sync_topic_prefix@ + seq!['/'] + old(engine).layout().scope.root_entity@ + seq!['/']);
}

/// The rows of a listing after some more values are those of the first values and
/// then those of the others.
proof fn lemma_objects_append(a: Seq<crate::json::Json>, b: Seq<crate::json::Json>)
    ensures
        objects_among(a + b) == objects_among(a) + objects_among(b),
    decreases b.len(),
{
    if b.len() == 0 {
        assert(a + b =~= a);
        assert(objects_among(a) + objects_among(b) =~= objects_among(a));
    } else {
        assert((a + b).drop_last() =~= a + b.drop_last());
        assert((a + b).last() == b.last());
        lemma_objects_append(a, b.drop_last());
        assert(objects_among(a + b) =~= objects_among(a) + objects_among(b));
    }
}

/// A listing hands out every object of its array, in the order of the array, and
/// nothing else: the objects of an array are those of its first part and then those
/// of the rest, one object gives itself, and any other value gives nothing.
pub proof fn listings_hand_out_every_object(
    before: Seq<crate::json::Json>,
    item: crate::json::Json,
    after: Seq<crate::json::Json>,
)
    ensures
        item matches crate::json::Json::Object(fields) ==> objects_among(
            before.push(item) + after,
        ) == objects_among(before).push(fields) + objects_among(after),
        !(item is Object) ==> objects_among(before.push(item) + after) == objects_among(before)
            + objects_among(after),
        objects_among(Seq::empty()).len() == 0,
{
    lemma_objects_append(before.push(item), after);
    assert(before.push(item).drop_last() =~= before);
}

proof fn lemma_all_objects(
    items: Seq<crate::json::Json>,
    rows: Seq<Map<Seq<char>, crate::json::Json>>,
)
    requires
        items.len() == rows.len(),
        forall|i: int|
            0 <= i < items.len() ==> #[trigger] items[i] == crate::json::Json::Object(rows[i]),
    ensures
        objects_among(items) == rows,
    decreases items.len(),
{
    if items.len() > 0 {
        let front = items.drop_last();
        let some = rows.drop_last();
        assert forall|i: int| 0 <= i < front.len() implies #[trigger] front[i]
            == crate::json::Json::Object(some[i]) by {
            assert(front[i] == items[i] && some[i] == rows[i]);
        }
        lemma_all_objects(front, some);
        assert(items[items.len() - 1] == crate::json::Json::Object(rows[items.len() - 1]));
        assert(some.push(rows[items.len() - 1]) =~= rows);
    } else {
        assert(rows =~= Seq::empty());
    }
}

/// A listing whose data is an array of objects gives back as many records, and each
/// is the object at its position.
pub proof fn listed_records_are_the_rows(
    engine: &SyncEngine,
    response: &Record,
    out: Result<Vec<Record>, EngineError>,
    items: Seq<crate::json::Json>,
)
    requires
        call_ensures(SyncEngine::fetch_list, (engine, response), out),
        !response@.contains_key("status"@) || response@["status"@] != crate::json::Json::String(
            "error"@,
        ),
    ensures
        out is Ok,
        response@.contains_key("data"@) && response@["data"@] == crate::json::Json::Array(items)
            && (forall|i: int| 0 <= i < items.len() ==> #[trigger] items[i] is Object) ==> {
            let rows = out->Ok_0@;
            &&& rows.len() == items.len()
            &&& forall|i: int|
                0 <= i < items.len() ==> #[trigger] items[i] == crate::json::Json::Object(rows[i]@)
        },
        !(response@.contains_key("data"@) && response@["data"@] is Array) ==> out->Ok_0@.len() == 0,
{
    assert(response_error(response@) is None);
    let rows = out->Ok_0@;
    if response@.contains_key("data"@) && response@["data"@] == crate::json::Json::Array(items) && (
    forall|i: int| 0 <= i < items.len() ==> #[trigger] items[i] is Object) {
        let maps = Seq::new(items.len(), |i: int| items[i]->Object_0);
        assert forall|i: int| 0 <= i < items.len() implies #[trigger] items[i]
            == crate::json::Json::Object(maps[i]) by {
            assert(items[i] is Object);
        }
        lemma_all_objects(items, maps);
        assert(crate::json::records(rows) == maps);
        assert(rows.len() == crate::json::records(rows).len());
        assert forall|i: int| 0 <= i < items.len() implies #[trigger] items[i]
            == crate::json::Json::Object(rows[i]@) by {
            assert(crate::json::records(rows)[i] == rows[i]@);
            assert(items[i] == crate::json::Json::Object(maps[i]));
        }
    }
    if !(response@.contains_key("data"@) && response@["data"@] is Array) {
        assert(crate::json::records(rows).len() == 0);
        assert(rows.len() == crate::json::records(rows).len());
    }
}

/// A response is an error exactly if its status says so, and the code says which:
/// the session is invalid, the record belongs to someone else, is not there or is
/// in conflict; any other error is reported with its message.
pub proof fn error_responses_say_what_is_wrong(
    response: &Record,
    out: Result<(), EngineError>,
    code: i64,
    entity: Seq<char>,
    id: Seq<char>,
    message: Seq<char>,
)
    requires
        call_ensures(check_response, (response,), out),
    ensures
        out is Err <==> response@.contains_key("status"@) && response@["status"@]
            == crate::json::Json::String("error"@),
        out is Err && response@.contains_key("code"@) && response@["code"@]
            == crate::json::Json::Number(crate::json::Number::Unsigned(401)) ==> (out matches Err(
            e,
        ) && e is SessionInvalid),
        out is Err && response@.contains_key("entity"@) && response@["entity"@]
            == crate::json::Json::String(entity) && response@.contains_key("id"@)
            && response@["id"@] == crate::json::Json::String(id) && response@.contains_key("code"@)
            ==> {
            &&& response@["code"@] == crate::json::Json::Number(
                crate::json::Number::Unsigned(403),
            ) ==> out->Err_0@ == ErrorModel::Ownership(entity, id)
            &&& response@["code"@] == crate::json::Json::Number(
                crate::json::Number::Unsigned(404),
            ) ==> out->Err_0@ == ErrorModel::NotFound(entity, id)
            &&& response@["code"@] == crate::json::Json::Number(
                crate::json::Number::Unsigned(409),
            ) ==> out->Err_0@ == ErrorModel::Conflict(entity, id)
        },
        out is Err && !response@.contains_key("code"@) && response@.contains_key("message"@)
            && response@["message"@] == crate::json::Json::String(message) ==> out->Err_0@
            == ErrorModel::Mqtt(message),
        out is Err && !response@.contains_key("code"@) && !response@.contains_key("message"@)
            ==> out->Err_0@ == ErrorModel::Mqtt("operation failed"@),
        out is Err && response@.contains_key("code"@) && response@["code"@]
            == crate::json::Json::Number(crate::json::integer_number(code)) && code != 401 && code
            != 403 && code != 404 && code != 409 && response@.contains_key("message"@)
            && response@["message"@] == crate::json::Json::String(message) ==> out->Err_0@
            == ErrorModel::Mqtt(message),
{
}

/// The id of a created record is the text under `id` in the data of the response.
pub proof fn created_ids_are_read_from_the_response(
    response: &Record,
    out: Result<String, EngineError>,
    data: Map<Seq<char>, crate::json::Json>,
    id: Seq<char>,
)
    requires
        call_ensures(extract_id, (response,), out),
    ensures
        response@.contains_key("data"@) && response@["data"@] == crate::json::Json::Object(data)
            && data.contains_key("id"@) && data["id"@] == crate::json::Json::String(id) ==> (
        out matches Ok(text) && text@ == id),
        !(response@.contains_key("data"@) && response@["data"@] is Object) ==> out is Err,
        response@.contains_key("data"@) && response@["data"@] == crate::json::Json::Object(data)
            && !(data.contains_key("id"@) && data["id"@] is String) ==> out is Err,
{
}

/// A fetched record is the object under `data`; a record that is not there is no
/// error, and any other error is handed on.
pub proof fn fetched_records_are_the_data(
    engine: &SyncEngine,
    record: Record,
    out: Result<Option<Record>, EngineError>,
    data: Map<Seq<char>, crate::json::Json>,
    error: EngineError,
    failed: Result<Option<Record>, EngineError>,
)
    requires
        call_ensures(
            SyncEngine::fetch_one,
            (engine, Ok::<Record, EngineError>(record)),
            out,
        ),
        call_ensures(
            SyncEngine::fetch_one,
            (engine, Err::<Record, EngineError>(error)),
            failed,
        ),
    ensures
        !(record@.contains_key("status"@) && record@["status"@] == crate::json::Json::String(
            "error"@,
        )) && record@.contains_key("data"@) && record@["data"@] == crate::json::Json::Object(data)
            ==> (out matches Ok(Some(r)) && r@ == data),
        !(record@.contains_key("status"@) && record@["status"@] == crate::json::Json::String(
            "error"@,
        )) && !(record@.contains_key("data"@) && record@["data"@] is Object) ==> (out matches Ok(
            None,
        )),
        error is NotFound ==> (failed matches Ok(None)),
        !(error is NotFound) ==> (failed matches Err(e) && e@ == error@),
{
}

/// The version of a scope is the number under the version field of its root, and
/// zero where there is none.
pub proof fn versions_are_read_from_the_root(
    root: Map<Seq<char>, crate::json::Json>,
    field: Seq<char>,
    version: u64,
)
    ensures
        root.contains_key(field) && root[field] == crate::json::Json::Number(
            crate::json::Number::Unsigned(version),
        ) ==> scope_version(root, field) == version,
        !root.contains_key(field) ==> scope_version(root, field) == 0,
        root.contains_key(field) && !(root[field] matches crate::json::Json::Number(
            crate::json::Number::Unsigned(_),
        )) ==> scope_version(root, field) == 0,
{
}

/// Opening a scope: the pattern covers everything below the scope's topic, and from
/// then on its mutations are held back, starting with none.
pub proof fn opening_starts_to_hold_back(
    engine: &mut SyncEngine,
    scope_id: &str,
    pattern: String,
    other: Seq<char>,
)
    requires
        call_ensures(SyncEngine::begin_open, (engine, scope_id), pattern),
        other != scope_id@,
    ensures
        pattern@ == old(engine).layout().sync_topic_prefix@ + seq!['/'] + old(engine).layout().scope.root_entity@ + seq!['/'] + scope_id@ + seq!['/'] + seq!['#'],
        final(engine)@.awaiting.contains(scope_id@),
        final(engine)@.buffered.contains_key(scope_id@),
        final(engine)@.buffered[scope_id@].len() == 0,
        final(engine)@.awaiting.contains(other) == old(engine)@.awaiting.contains(other),
        final(engine)@.buffered.contains_key(other) == old(engine)@.buffered.contains_key(other),
        final(engine)@.buffered[other] == old(engine)@.buffered[other],
        final(engine)@.subscribed == old(engine)@.subscribed,
        final(engine)@.pending == old(engine)@.pending,
        final(engine)@.applied == old(engine)@.applied,
        final(engine).client() == old(engine).client(),
        final(engine).layout() == old(engine).layout(),
{
    reveal_strlit("#");
    assert("#"@ =~= seq!['#']);
    topics_join_levels(
        old(engine).layout().sync_topic_prefix@,
        old(engine).layout().scope.root_entity@,
        scope_id@,
        "#"@,
    );
}

/// An opened scope hands out its root, its children and every mutation that was
/// held back, in order, and holds back no more. Its version, if it has one, is
/// known from then on.
pub proof fn opened_scopes_hand_out_what_was_held_back(
    engine: &mut SyncEngine,
    scope_id: &str,
    root: Option<Record>,
    children: Assoc<String, Vec<Record>>,
    state: ScopeState,
    version: u64,
    other: Seq<char>,
)
    requires
        call_ensures(SyncEngine::complete_open, (engine, scope_id, root, children), state),
        other != scope_id@,
    ensures
        root matches Some(record) ==> state.root@ == record@,
        root is None ==> state.root@ == Map::<Seq<char>, crate::json::Json>::empty(),
        state.children == children,
        old(engine)@.buffered.contains_key(scope_id@) ==> state.buffered_mutations@.len() == old(engine)@.buffered[scope_id@].len() && forall|i: int|
            0 <= i < state.buffered_mutations@.len() ==> (#[trigger] state.buffered_mutations@[i])@
                == old(engine)@.buffered[scope_id@][i],
        !old(engine)@.buffered.contains_key(scope_id@) ==> state.buffered_mutations@.len() == 0,
        !final(engine)@.awaiting.contains(scope_id@),
        !final(engine)@.buffered.contains_key(scope_id@),
        state.root@.contains_key(old(engine).layout().version_field@) && state.root@[old(engine).layout().version_field@] == crate::json::Json::Number(
            crate::json::Number::Unsigned(version),
        ) ==> state.version == version && (0 < version <= i64::MAX ==> final(engine)@.applied.contains_key(scope_id@) && final(engine)@.applied[scope_id@] == version),
        final(engine)@.awaiting.contains(other) == old(engine)@.awaiting.contains(other),
        final(engine)@.buffered.contains_key(other) == old(engine)@.buffered.contains_key(other),
        final(engine)@.buffered[other] == old(engine)@.buffered[other],
        final(engine)@.subscribed == old(engine)@.subscribed,
        final(engine)@.pending == old(engine)@.pending,
{
    let handed = crate::types::sync_models(state.buffered_mutations@);
    assert(handed.len() == state.buffered_mutations@.len());
    assert forall|i: int|
        0 <= i < state.buffered_mutations@.len() implies (
    #[trigger] state.buffered_mutations@[i])@ == old(engine)@.held_back(scope_id@)[i] by {
        assert(handed[i] == state.buffered_mutations@[i]@);
    }
}

/// A scope that was subscribed to is among those to subscribe to anew, once, until
/// it is closed, fails to open or the connection is lost.
pub proof fn subscriptions_last_until_the_scope_is_closed(
    engine: &mut SyncEngine,
    scope_id: &str,
    unit: (),
    other: Seq<char>,
)
    requires
        call_ensures(SyncEngine::scope_subscribed, (engine, scope_id), unit),
    ensures
        final(engine)@.subscribed.contains(scope_id@),
        other != scope_id@ ==> final(engine)@.subscribed.contains(other) == old(engine)@.subscribed.contains(other),
        final(engine)@.awaiting == old(engine)@.awaiting,
        final(engine)@.buffered == old(engine)@.buffered,
        final(engine)@.applied == old(engine)@.applied,
        final(engine)@.pending == old(engine)@.pending,
{
}

/// A closed scope is forgotten and its subscription ended: the pattern is the one
/// it was opened with.
pub proof fn closing_ends_the_subscription(
    engine: &mut SyncEngine,
    scope_id: &str,
    pattern: String,
    other: Seq<char>,
)
    requires
        call_ensures(SyncEngine::close_scope, (engine, scope_id), pattern),
        other != scope_id@,
    ensures
        pattern@ == old(engine).layout().sync_topic_prefix@ + seq!['/'] + old(engine).layout().scope.root_entity@ + seq!['/'] + scope_id@ + seq!['/'] + seq!['#'],
        !final(engine)@.subscribed.contains(scope_id@),
        !final(engine)@.awaiting.contains(scope_id@),
        !final(engine)@.buffered.contains_key(scope_id@),
        !final(engine)@.applied.contains_key(scope_id@),
        final(engine)@.pending == old(engine)@.pending,
        final(engine)@.subscribed.contains(other) == old(engine)@.subscribed.contains(other),
        final(engine)@.awaiting.contains(other) == old(engine)@.awaiting.contains(other),
        final(engine)@.buffered.contains_key(other) == old(engine)@.buffered.contains_key(other),
        final(engine)@.buffered[other] == old(engine)@.buffered[other],
        final(engine)@.applied.contains_key(other) == old(engine)@.applied.contains_key(other),
        final(engine)@.applied[other] == old(engine)@.applied[other],
{
    reveal_strlit("#");
    assert("#"@ =~= seq!['#']);
    topics_join_levels(
        old(engine).layout().sync_topic_prefix@,
        old(engine).layout().scope.root_entity@,
        scope_id@,
        "#"@,
    );
}

/// A scope that fails to open is no longer subscribed to and holds nothing back;
/// other scopes, pending requests and known versions stay.
pub proof fn failing_to_open_stops_holding_back(
    engine: &mut SyncEngine,
    scope_id: &str,
    unit: (),
    other: Seq<char>,
)
    requires
        call_ensures(SyncEngine::fail_open, (engine, scope_id), unit),
        other != scope_id@,
    ensures
        !final(engine)@.subscribed.contains(scope_id@),
        !final(engine)@.awaiting.contains(scope_id@),
        !final(engine)@.buffered.contains_key(scope_id@),
        final(engine)@.applied == old(engine)@.applied,
        final(engine)@.pending == old(engine)@.pending,
        final(engine)@.subscribed.contains(other) == old(engine)@.subscribed.contains(other),
        final(engine)@.awaiting.contains(other) == old(engine)@.awaiting.contains(other),
        final(engine)@.buffered.contains_key(other) == old(engine)@.buffered.contains_key(other),
        final(engine)@.buffered[other] == old(engine)@.buffered[other],
{
}

/// A response finds its request: what comes back on the response topic of a request
/// answers exactly that request, which then no longer waits; the others still do.
pub proof fn responses_find_their_request(
    asking: &mut SyncEngine,
    request_id: String,
    topic: &str,
    out: Outgoing,
    answering: &mut SyncEngine,
    response_topic: &str,
    answered: Option<String>,
    other: Seq<char>,
)
    requires
        call_ensures(SyncEngine::begin_request, (asking, request_id, topic), out),
        *old(answering) == *final(asking),
        response_topic@ == out.response_topic@,
        call_ensures(SyncEngine::handle_response, (answering, response_topic), answered),
        other != request_id@,
    ensures
        answered matches Some(id) && id@ == request_id@,
        !final(answering)@.pending.contains(request_id@),
        final(answering)@.pending.contains(other) == old(asking)@.pending.contains(other),
        final(answering)@.subscribed == old(asking)@.subscribed,
        final(answering)@.awaiting == old(asking)@.awaiting,
        final(answering)@.buffered == old(asking)@.buffered,
        final(answering)@.applied == old(asking)@.applied,
        out.topic@ == topic@,
        out.request_id@ == request_id@,
        out.response_topic@ == old(asking).layout().response_topic_prefix@ + seq!['/'] + old(asking).client() + seq!['/'] + request_id@,
        carries_origin(out.user_properties@, old(asking).client()),
{
    let prefix = old(asking).layout().response_topic_prefix@;
    let client = old(asking).client();
    topics_join_levels(prefix, client, request_id@, Seq::empty());
    response_topic_names_the_request(prefix, client, request_id@);
    let head = topic3(prefix, client, Seq::empty());
    assert(response_topic@ == head + request_id@);
    assert(old(answering).layout() == old(asking).layout());
    assert(old(answering).client() == client);
    assert(old(answering)@.pending.contains(request_id@));
    if let Some(id) = answered {
        assert(head + id@ == head + request_id@);
        assert(id@ =~= (head + id@).skip(head.len() as int));
        assert(request_id@ =~= (head + request_id@).skip(head.len() as int));
    }
    assert(out.user_properties@[0].0@ == "x-origin-client-id"@);
}

/// A request that cannot be published or is not answered in time no longer waits.
/// An answer is handed on as the object that it is; anything else is an error that
/// says what went wrong.
pub proof fn requests_end_with_their_answer(
    engine: &mut SyncEngine,
    request_id: &str,
    topic: &str,
    outcome: RequestOutcome,
    out: Result<Record, EngineError>,
    other: Seq<char>,
)
    requires
        call_ensures(SyncEngine::finish_request, (engine, request_id, topic, outcome), out),
    ensures
        outcome is PublishFailed || outcome is TimedOut ==> !final(engine)@.pending.contains(
            request_id@,
        ),
        other != request_id@ ==> final(engine)@.pending.contains(other) == old(engine)@.pending.contains(other),
        out is Ok <==> (outcome matches RequestOutcome::Answered(value) && value@ is Object),
        outcome matches RequestOutcome::Answered(value) ==> (out matches Ok(record) ==> value@
            == crate::json::Json::Object(record@)),
        outcome is Closed ==> (out matches Err(e) && e is ConnectionClosed),
        outcome matches RequestOutcome::TimedOut(ms) ==> (out matches Err(e) && e@
            == ErrorModel::Timeout(ms)),
        outcome matches RequestOutcome::Unreadable(reason) ==> (out matches Err(e) && e@
            == ErrorModel::Serde(reason@)),
        outcome is PublishFailed ==> (out matches Err(e) && e is Mqtt),
        final(engine)@.subscribed == old(engine)@.subscribed,
        final(engine)@.buffered == old(engine)@.buffered,
        final(engine)@.awaiting == old(engine)@.awaiting,
        final(engine)@.applied == old(engine)@.applied,
{
}

/// Topics of requests: each names the entity, the record and what is to be done, below
/// the prefix.
pub proof fn request_topics_name_the_record(
    engine: &SyncEngine,
    entity: &str,
    id: &str,
    create: String,
    update: String,
    delete: String,
    read: String,
    list: String,
    version: String,
)
    requires
        call_ensures(SyncEngine::create_topic, (engine, entity), create),
        call_ensures(SyncEngine::update_topic, (engine, entity, id), update),
        call_ensures(SyncEngine::delete_topic, (engine, entity, id), delete),
        call_ensures(SyncEngine::read_topic, (engine, entity, id), read),
        call_ensures(SyncEngine::list_topic, (engine, entity), list),
        call_ensures(SyncEngine::version_topic, (engine, id), version),
    ensures
        ({
            let below = engine.layout().sync_topic_prefix@ + seq!['/'] + entity@ + seq!['/'];
            &&& create@ == below + "create"@
            &&& list@ == below + "list"@
            &&& read@ == below + id@
            &&& update@ == below + id@ + seq!['/'] + "update"@
            &&& delete@ == below + id@ + seq!['/'] + "delete"@
            &&& version@ == engine.layout().sync_topic_prefix@ + seq!['/']
                + engine.layout().scope.root_entity@ + seq!['/'] + id@ + seq!['/'] + "update"@
        }),
{
    let prefix = engine.layout().sync_topic_prefix@;
    topics_join_levels(prefix, entity@, "create"@, Seq::empty());
    topics_join_levels(prefix, entity@, "list"@, Seq::empty());
    topics_join_levels(prefix, entity@, id@, "update"@);
    topics_join_levels(prefix, entity@, id@, "delete"@);
    topics_join_levels(prefix, engine.layout().scope.root_entity@, id@, "update"@);
}

/// A child of a scope is created with the id of its scope, unless the record says
/// which scope it is in; no other field changes, and no other entity gets one.
pub proof fn children_are_created_in_their_scope(
    engine: &SyncEngine,
    entity: &str,
    scope_id: &str,
    data: Record,
    payload: Record,
    key: Seq<char>,
)
    requires
        call_ensures(SyncEngine::create_payload, (engine, entity, scope_id, data), payload),
    ensures
        ({
            let field = engine.layout().scope.scope_field@;
            let child = exists|i: int|
                0 <= i < engine.layout().scope.child_entities@.len() && (
                #[trigger] engine.layout().scope.child_entities@[i])@ == entity@;
            &&& data@.contains_key(key) ==> payload@.contains_key(key) && payload@[key]
                == data@[key]
            &&& !data@.contains_key(key) && key != field ==> !payload@.contains_key(key)
            &&& !data@.contains_key(field) && child ==> payload@.contains_key(field)
                && payload@[field] == crate::json::Json::String(scope_id@)
            &&& !data@.contains_key(field) && !child ==> !payload@.contains_key(field)
        }),
{
    crate::config::children_are_those_listed(&engine.layout(), entity@);
}

/// A change of a child in a scope bumps the version of the scope; a refused change
/// is an error, and a created record is answered with its id.
pub proof fn changes_of_children_bump_the_scope(
    engine: &SyncEngine,
    entity: &str,
    scope_id: &str,
    response: &Record,
    created: Result<(String, bool), EngineError>,
    changed: Result<bool, EngineError>,
    data: Map<Seq<char>, crate::json::Json>,
    id: Seq<char>,
)
    requires
        call_ensures(SyncEngine::on_created, (engine, entity, scope_id, response), created),
        call_ensures(SyncEngine::on_changed, (engine, entity, scope_id, response), changed),
    ensures
        ({
            let child = exists|i: int|
                0 <= i < engine.layout().scope.child_entities@.len() && (
                #[trigger] engine.layout().scope.child_entities@[i])@ == entity@;
            let refused = response@.contains_key("status"@) && response@["status"@]
                == crate::json::Json::String("error"@);
            &&& refused ==> created is Err && changed is Err
            &&& !refused ==> (changed matches Ok(bump) && bump == (child && scope_id@.len() > 0))
            &&& !refused && response@.contains_key("data"@) && response@["data"@]
                == crate::json::Json::Object(data) && data.contains_key("id"@) && data["id"@]
                == crate::json::Json::String(id) ==> (created matches Ok((text, bump)) && text@ == id
                && bump == (child && scope_id@.len() > 0))
        }),
{
    crate::config::children_are_those_listed(&engine.layout(), entity@);
}

/// A bumped version is known from then on, if the broker took it.
pub proof fn bumped_versions_are_known(
    engine: &mut SyncEngine,
    scope_id: &str,
    now: i64,
    response: &Record,
    out: Result<(), EngineError>,
    reader: &SyncEngine,
    version: Option<i64>,
    other: Seq<char>,
)
    requires
        call_ensures(SyncEngine::bump_scope_version, (engine, scope_id, now, response), out),
        *reader == *final(engine),
        call_ensures(SyncEngine::applied_version, (reader, scope_id), version),
    ensures
        out is Err <==> response@.contains_key("status"@) && response@["status"@]
            == crate::json::Json::String("error"@),
        out is Ok ==> version == Some(now),
        out is Err ==> final(engine)@ == old(engine)@,
        other != scope_id@ ==> final(engine)@.applied.contains_key(other) == old(engine)@.applied.contains_key(other) && final(engine)@.applied[other] == old(engine)@.applied[other],
        final(engine)@.subscribed == old(engine)@.subscribed,
        final(engine)@.buffered == old(engine)@.buffered,
        final(engine)@.awaiting == old(engine)@.awaiting,
        final(engine)@.pending == old(engine)@.pending,
{
}

/// What a bump writes is the time, under the version field and under the field that
/// says when the scope was last changed, and nothing else.
pub proof fn version_bumps_write_the_time(
    engine: &SyncEngine,
    now: i64,
    payload: Record,
    key: Seq<char>,
)
    requires
        call_ensures(SyncEngine::version_payload, (engine, now), payload),
    ensures
        payload@.contains_key(key) <==> key == engine.layout().version_field@ || key
            == engine.layout().updated_at_field@,
        payload@.contains_key(key) ==> crate::json::integer_in(payload@[key]) == Some(now),
{
}

/// A listing of a scope asks for the records whose scope field equals the scope; one
/// without a scope asks for all.
pub proof fn listings_ask_for_their_scope(
    engine: &SyncEngine,
    scope_id: &str,
    scoped: Record,
    all: Record,
)
    requires
        call_ensures(SyncEngine::list_payload, (engine, Some(scope_id)), scoped),
        call_ensures(SyncEngine::list_payload, (engine, None::<&str>), all),
    ensures
        all@ == Map::<Seq<char>, crate::json::Json>::empty(),
        scoped@.contains_key("filters"@),
        scoped@["filters"@] is Array,
        scoped@["filters"@]->Array_0.len() == 1,
        scoped@["filters"@]->Array_0[0] is Object,
        ({
            let filter = scoped@["filters"@]->Array_0[0]->Object_0;
            &&& filter.contains_key("field"@)
            &&& filter["field"@] == crate::json::Json::String(engine.layout().scope.scope_field@)
            &&& filter.contains_key("op"@)
            &&& filter["op"@] == crate::json::Json::String("eq"@)
            &&& filter.contains_key("value"@)
            &&& filter["value"@] == crate::json::Json::String(scope_id@)
        }),
{
    reveal_strlit("field");
    reveal_strlit("op");
    reveal_strlit("value");
    assert("field"@.len() == 5 && "op"@.len() == 2 && "value"@.len() == 5);
    assert("field"@[0] != "value"@[0]);
}

/// Events of the root of a scope that is not subscribed to are delivered to who
/// follows all roots; those of a subscribed scope, and of its children, are not.
pub proof fn roots_of_other_scopes_are_followed(
    engine: &SyncEngine,
    topic: &str,
    user_properties: &Vec<(String, String)>,
    payload: &Value,
    delivery: Option<MutationDelivery>,
    scope_id: Seq<char>,
    event_type: Seq<char>,
    op: Operation,
    fields: Map<Seq<char>, crate::json::Json>,
    id: Seq<char>,
)
    requires
        call_ensures(
            SyncEngine::handle_root_wildcard_message,
            (engine, topic, user_properties, Some(payload)),
            delivery,
        ),
        topic@ == engine.layout().sync_topic_prefix@ + seq!['/']
            + engine.layout().scope.root_entity@ + seq!['/'] + scope_id + seq!['/'] + "events"@
            + seq!['/'] + event_type,
        !scope_id.contains('/'),
        (event_type == "created"@ && op is Insert) || (event_type == "updated"@ && op is Update)
            || (event_type == "deleted"@ && op is Delete),
        payload@ == crate::json::Json::Object(fields),
        fields.contains_key("id"@),
        fields["id"@] == crate::json::Json::String(id),
    ensures
        ({
            let own = carries_origin(user_properties@, engine.client()) || names_sender(
                payload@,
                engine.client(),
            );
            &&& own || engine@.subscribed.contains(scope_id) ==> delivery is None
            &&& !own && !engine@.subscribed.contains(scope_id) ==> (delivery matches Some(d)
                && d.scope_id@ == scope_id && d.mutation.op == op && d.mutation.entity@
                == engine.layout().scope.root_entity@ && d.mutation.id@ == id && (
            match d.mutation.data {
                Some(record) => fields.contains_key("data"@) && fields["data"@]
                    == crate::json::Json::Object(record@),
                None => !(fields.contains_key("data"@) && fields["data"@] is Object),
            }))
        }),
{
    let prefix = engine.layout().sync_topic_prefix@;
    let root = engine.layout().scope.root_entity@;
    lemma_event_names();
    lemma_own_marks(user_properties@, engine.client(), payload@);
    reveal_strlit("created");
    reveal_strlit("updated");
    reveal_strlit("deleted");
    assert(!event_type.contains('/'));
    topics_join_levels(prefix, root, topic3(scope_id, "events"@, event_type), Seq::empty());
    topics_join_levels(scope_id, "events"@, event_type, Seq::empty());
    assert(topic@ =~= topic3(prefix, root, topic3(scope_id, "events"@, event_type)));
    assert(!Seq::<char>::empty().contains('/'));
    event_topic_reads_back(prefix, root, scope_id, Seq::empty(), event_type);
    if let Some(d) = delivery {
        assert(d@.mutation == d.mutation@);
        if let Some(record) = d.mutation.data {
            assert(d.mutation@.data == Some(record@));
        }
    }
}

/// A client id must be a single level of a topic.
pub proof fn client_ids_are_single_levels(
    client_id: String,
    config: StoreConfig,
    out: Result<SyncEngine, EngineError>,
)
    requires
        call_ensures(SyncEngine::new, (client_id, config), out),
    ensures
        out is Err <==> exists|i: int|
            0 <= i < client_id@.len() && (#[trigger] client_id@[i] == '/' || client_id@[i] == '+'
                || client_id@[i] == '#'),
        out matches Ok(engine) ==> engine.client() == client_id@ && engine.layout() == config
            && engine@.pending == Set::<Seq<char>>::empty() && engine@.subscribed
            == Set::<Seq<char>>::empty() && engine@.awaiting == Set::<Seq<char>>::empty()
            && engine@.buffered == Map::<
            Seq<char>,
            Seq<crate::types::SyncMutationModel>,
        >::empty() && engine@.applied == Map::<Seq<char>, i64>::empty(),
{
    let id = client_id@;
    if !plain_level(id) {
        if id.contains('/') {
            let i = choose|i: int| 0 <= i < id.len() && id[i] == '/';
            assert(id[i] == '/');
        } else if id.contains('+') {
            let i = choose|i: int| 0 <= i < id.len() && id[i] == '+';
            assert(id[i] == '+');
        } else {
            let i = choose|i: int| 0 <= i < id.len() && id[i] == '#';
            assert(id[i] == '#');
        }
    }
    if exists|i: int|
        0 <= i < id.len() && (#[trigger] id[i] == '/' || id[i] == '+' || id[i] == '#') {
        let i = choose|i: int|
            0 <= i < id.len() && (#[trigger] id[i] == '/' || id[i] == '+' || id[i] == '#');
        assert(id.contains(id[i]));
    }
}

/// What is subscribed to anew covers own responses, all roots, each top-level entity
/// with its pattern, and each subscribed scope, once.
pub proof fn everything_is_subscribed_anew(
    engine: &SyncEngine,
    subs: Vec<Subscription>,
    scope_id: Seq<char>,
)
    requires
        call_ensures(SyncEngine::resubscriptions, (engine,), subs),
    ensures
        ({
            let config = engine.layout();
            let fixed = 2 + config.top_level_entities@.len();
            &&& subs@[0] matches Subscription::Responses(topic) && topic@
                == config.response_topic_prefix@ + seq!['/'] + engine.client() + seq!['/'] + "#"@
            &&& subs@[1] matches Subscription::RootWildcard(topic) && topic@
                == config.sync_topic_prefix@ + seq!['/'] + config.scope.root_entity@ + seq!['/']
                + "+"@ + seq!['/'] + "events/#"@
            &&& forall|i: int|
                2 <= i < fixed ==> ((#[trigger] subs@[i]) matches Subscription::TopLevel {
                    entity,
                    pattern,
                } && entity@ == config.top_level_entities@[i - 2].entity@ && pattern@
                    == config.top_level_entities@[i - 2].subscription_pattern@)
            &&& engine@.subscribed.contains(scope_id) <==> exists|i: int|
                fixed <= i < subs@.len() && ((#[trigger] subs@[i]) matches Subscription::Scope {
                    scope_id: listed,
                    pattern,
                } && listed@ == scope_id && pattern@ == config.sync_topic_prefix@ + seq!['/']
                    + config.scope.root_entity@ + seq!['/'] + scope_id + seq!['/'] + "#"@)
        }),
{
    let config = engine.layout();
    let n = config.top_level_entities@.len();
    topics_join_levels(config.response_topic_prefix@, engine.client(), "#"@, Seq::empty());
    topics_join_levels(
        config.sync_topic_prefix@,
        config.scope.root_entity@,
        "+"@,
        "events/#"@,
    );
    topics_join_levels(config.sync_topic_prefix@, config.scope.root_entity@, scope_id, "#"@);
    assert forall|i: int| 2 <= i < 2 + n implies ((
    #[trigger] subs@[i]) matches Subscription::TopLevel { entity, pattern } && entity@
        == config.top_level_entities@[i - 2].entity@ && pattern@
        == config.top_level_entities@[i - 2].subscription_pattern@) by {
        assert(subs@[2 + (i - 2)] == subs@[i]);
    }
    if engine@.subscribed.contains(scope_id) {
        let i = choose|i: int|
            2 + n <= i < subs@.len() && ((#[trigger] subs@[i]) matches Subscription::Scope {
                scope_id: listed,
                ..
            } && listed@ == scope_id);
        assert(subs@[i] matches Subscription::Scope { scope_id: listed, pattern } && listed@
            == scope_id && pattern@ == engine.scope_pattern_of(scope_id));
    }
}

/// A lost connection fails every request that waits and forgets all scopes.
pub proof fn disconnecting_fails_what_waits(
    engine: &mut SyncEngine,
    failed: Vec<String>,
    request_id: Seq<char>,
)
    requires
        call_ensures(SyncEngine::cleanup_on_disconnect, (engine,), failed),
    ensures
        old(engine)@.pending.contains(request_id) <==> exists|i: int|
            0 <= i < failed@.len() && (#[trigger] failed@[i])@ == request_id,
        forall|id: Seq<char>| !(#[trigger] final(engine)@.pending.contains(id)),
        forall|id: Seq<char>| !(#[trigger] final(engine)@.subscribed.contains(id)),
        forall|id: Seq<char>| !(#[trigger] final(engine)@.awaiting.contains(id)),
        forall|id: Seq<char>| !(#[trigger] final(engine)@.buffered.contains_key(id)),
        forall|id: Seq<char>| !(#[trigger] final(engine)@.applied.contains_key(id)),
{
    let all = crate::text::texts(failed@);
    if old(engine)@.pending.contains(request_id) {
        let i = choose|i: int| 0 <= i < all.len() && all[i] == request_id;
        assert(failed@[i]@ == request_id);
    }
    if exists|i: int| 0 <= i < failed@.len() && (#[trigger] failed@[i])@ == request_id {
        let i = choose|i: int| 0 <= i < failed@.len() && (#[trigger] failed@[i])@ == request_id;
        assert(all[i] == request_id);
    }
}

/// The reported status follows the link; only a refused login says so.
pub proof fn the_status_follows_the_link(event: LinkEvent, status: (ConnectionStatus, bool))
    requires
        call_ensures(link_status, (event,), status),
    ensures
        status.0 is Connected <==> event is Connected,
        status.0 is Connecting <==> event is Connecting || event is Reconnecting,
        status.0 is Disconnected <==> event is Disconnected,
        status.0 is Error <==> event is AuthFailed || event is ReconnectFailed,
        status.1 <==> event is AuthFailed,
{
}

/// A ticket is preferred to a password, and a password needs a user name.
pub proof fn tickets_are_preferred(
    ticket: Option<String>,
    username: Option<String>,
    password: Option<String>,
    choice: AuthChoice,
)
    requires
        call_ensures(choose_auth, (ticket, username, password), choice),
    ensures
        choice is Jwt <==> ticket is Some,
        choice is Password <==> ticket is None && username is Some && password is Some,
        choice matches AuthChoice::Jwt(text) ==> ticket == Some(text),
        choice matches AuthChoice::Password(user, pass) ==> username == Some(user) && password
            == Some(pass),
{
}

/// Topics of events read back: a scope, an entity and what happened, or a scope and
/// what happened to its root.
pub proof fn event_topics_read_back(
    prefix: &str,
    root_entity: &str,
    topic: &str,
    parsed: Option<ScopedTopic>,
    scope_id: Seq<char>,
    entity: Seq<char>,
    event_type: Seq<char>,
)
    requires
        call_ensures(parse_scoped_topic, (prefix, root_entity, topic), parsed),
        !scope_id.contains('/'),
        !entity.contains('/'),
        !event_type.contains('/'),
    ensures
        topic@ == prefix@ + seq!['/'] + root_entity@ + seq!['/'] + scope_id + seq!['/'] + "events"@
            + seq!['/'] + event_type ==> (parsed matches Some(p) && p.scope_id@ == scope_id
            && p.entity@ == root_entity@ && p.event_type@ == event_type),
        topic@ == prefix@ + seq!['/'] + root_entity@ + seq!['/'] + scope_id + seq!['/'] + entity
            + seq!['/'] + "events"@ + seq!['/'] + event_type ==> (parsed matches Some(p)
            && p.scope_id@ == scope_id && p.entity@ == entity && p.event_type@ == event_type),
{
    reveal_strlit("/");
    assert("/"@ == seq!['/']);
    event_topic_reads_back(prefix@, root_entity@, scope_id, entity, event_type);
    assert(topic3(prefix@, root_entity@, topic3(scope_id, "events"@, event_type)) =~= prefix@ + seq![
        '/',
    ] + root_entity@ + seq!['/'] + scope_id + seq!['/'] + "events"@ + seq!['/'] + event_type);
    assert(topic3(prefix@, root_entity@, topic4(scope_id, entity, "events"@, event_type))
        =~= prefix@ + seq!['/'] + root_entity@ + seq!['/'] + scope_id + seq!['/'] + entity + seq![
        '/',
    ] + "events"@ + seq!['/'] + event_type);
}

/// Only topics of events are read as such: what a topic is read as, it says.
pub proof fn only_event_topics_are_read(
    prefix: &str,
    root_entity: &str,
    topic: &str,
    parsed: ScopedTopic,
)
    requires
        call_ensures(parse_scoped_topic, (prefix, root_entity, topic), Some(parsed)),
    ensures
        ({
            let head = prefix@ + seq!['/'] + root_entity@ + seq!['/'];
            let rest = parsed.scope_id@ + seq!['/'] + "events"@ + seq!['/'] + parsed.event_type@;
            let inner = parsed.scope_id@ + seq!['/'] + parsed.entity@ + seq!['/'] + "events"@ + seq![
                '/',
            ] + parsed.event_type@;
            topic@ == head + rest && parsed.entity@ == root_entity@ || topic@ == head + inner
        }),
        !parsed.scope_id@.contains('/'),
        !parsed.event_type@.contains('/'),
{
    reveal_strlit("/");
    assert("/"@ == seq!['/']);
    let start = topic3(prefix@, root_entity@, Seq::empty());
    assert(start =~= prefix@ + seq!['/'] + root_entity@ + seq!['/']);
    let rest = topic@.skip(start.len() as int);
    let parts = crate::text::split_on(rest, '/');
    crate::text::lemma_split_joins(rest, '/');
    crate::text::lemma_joined_few(parts, '/');
    assert(topic@ =~= start + rest);
    assert(!parts[0].contains('/'));
    assert(!parts[parts.len() - 1].contains('/'));
}

/// Events of other kinds than created, updated and deleted are ignored.
pub proof fn other_events_are_ignored(
    engine: &mut SyncEngine,
    topic: &str,
    user_properties: &Vec<(String, String)>,
    payload: Option<&Value>,
    delivery: Option<MutationDelivery>,
    prefix: &str,
    root_entity: &str,
    parsed: ScopedTopic,
)
    requires
        prefix@ == old(engine).layout().sync_topic_prefix@,
        root_entity@ == old(engine).layout().scope.root_entity@,
        call_ensures(parse_scoped_topic, (prefix, root_entity, topic), Some(parsed)),
        parsed.event_type@ != "created"@,
        parsed.event_type@ != "updated"@,
        parsed.event_type@ != "deleted"@,
        call_ensures(
            SyncEngine::handle_scope_message,
            (engine, topic, user_properties, payload),
            delivery,
        ),
    ensures
        delivery is None,
        final(engine)@ == old(engine)@,
{
}

/// What is missing from a response to a creation is said.
pub proof fn missing_ids_are_reported(
    response: &Record,
    out: Result<String, EngineError>,
    data: Map<Seq<char>, crate::json::Json>,
)
    requires
        call_ensures(extract_id, (response,), out),
    ensures
        !(response@.contains_key("data"@) && response@["data"@] is Object) ==> (out matches Err(e)
            && e@ == ErrorModel::Mqtt("response missing data object"@)),
        response@.contains_key("data"@) && response@["data"@] == crate::json::Json::Object(data)
            && !(data.contains_key("id"@) && data["id"@] is String) ==> (out matches Err(e) && e@
            == ErrorModel::Mqtt("response missing data.id"@)),
{
}

/// An error that names no record names the empty one.
pub proof fn errors_without_a_record_name_the_empty_one(
    response: &Record,
    out: Result<(), EngineError>,
)
    requires
        call_ensures(check_response, (response,), out),
        out is Err,
        !response@.contains_key("entity"@),
        !response@.contains_key("id"@),
        response@.contains_key("code"@),
    ensures
        ({
            let code = response@["code"@];
            let empty = Seq::<char>::empty();
            &&& code == crate::json::Json::Number(crate::json::Number::Unsigned(403))
                ==> out->Err_0@ == ErrorModel::Ownership(empty, empty)
            &&& code == crate::json::Json::Number(crate::json::Number::Unsigned(404))
                ==> out->Err_0@ == ErrorModel::NotFound(empty, empty)
            &&& code == crate::json::Json::Number(crate::json::Number::Unsigned(409))
                ==> out->Err_0@ == ErrorModel::Conflict(empty, empty)
        }),
{
}

/// A scope whose root says no version, or zero, leaves what is known of its version as
/// it was; one that says a version makes it known.
pub proof fn versions_are_known_from_the_root(
    opening: &mut SyncEngine,
    scope_id: &str,
    root: Option<Record>,
    children: Assoc<String, Vec<Record>>,
    state: ScopeState,
    before: Option<i64>,
    asked: &SyncEngine,
    known: Option<i64>,
)
    requires
        call_ensures(SyncEngine::applied_version, (&*old(opening), scope_id), before),
        call_ensures(SyncEngine::complete_open, (opening, scope_id, root, children), state),
        *asked == *final(opening),
        call_ensures(SyncEngine::applied_version, (asked, scope_id), known),
    ensures
        state.version == 0 ==> known == before,
        0 < state.version <= i64::MAX ==> (known matches Some(version) && version == state.version),
        root is None ==> state.version == 0,
        root matches Some(record) ==> {
            let field = old(opening).layout().version_field@;
            &&& !record@.contains_key(field) ==> state.version == 0
            &&& record@.contains_key(field) ==> match record@[field] {
                crate::json::Json::Number(crate::json::Number::Unsigned(version)) => state.version
                    == version,
                _ => state.version == 0,
            }
        },
{
}

/// The time is told in milliseconds, as far as it goes.
pub proof fn times_are_told_as_far_as_they_go(since_epoch: Option<u128>, now: i64)
    requires
        call_ensures(now_millis, (since_epoch,), now),
    ensures
        since_epoch is None ==> now == 0,
        since_epoch matches Some(ms) ==> (ms <= i64::MAX ==> now == ms) && (ms > i64::MAX ==> now
            == i64::MAX),
{
}

/// A new request is a request under a new id; the pattern of a scope is the one that is
/// subscribed to when it is opened; what was not found is told apart.
pub proof fn new_requests_are_requests(
    asking: &mut SyncEngine,
    topic: &str,
    out: Outgoing,
    engine: &SyncEngine,
    scope_id: &str,
    pattern: String,
    error: EngineError,
    not_found: bool,
)
    requires
        call_ensures(SyncEngine::request, (asking, topic), out),
        call_ensures(SyncEngine::scope_pattern, (engine, scope_id), pattern),
        call_ensures(EngineError::is_not_found, (&error,), not_found),
    ensures
        crate::signaling::uuid_text(out.request_id@, '7'),
        out.topic@ == topic@,
        out.response_topic@ == old(asking).layout().response_topic_prefix@ + seq!['/'] + old(asking).client() + seq!['/'] + out.request_id@,
        out.correlation_data@ == vstd::utf8::encode_utf8(out.request_id@),
        out.user_properties@.len() == 1,
        out.user_properties@[0].0@ == "x-origin-client-id"@,
        out.user_properties@[0].1@ == old(asking).client(),
        final(asking)@.pending == old(asking)@.pending.insert(out.request_id@),
        final(asking)@.subscribed == old(asking)@.subscribed,
        pattern@ == engine.layout().sync_topic_prefix@ + seq!['/']
            + engine.layout().scope.root_entity@ + seq!['/'] + scope_id@ + seq!['/'] + seq!['#'],
        not_found <==> error is NotFound,
{
    reveal_strlit("/");
    reveal_strlit("#");
    assert("/"@ == seq!['/']);
    assert("#"@ == seq!['#']);
}

proof fn lemma_objects_at(items: Seq<crate::json::Json>) -> (at: Seq<int>)
    ensures
        at.len() == objects_among(items).len(),
        forall|k: int|
            0 <= k < at.len() ==> 0 <= #[trigger] at[k] < items.len() && items[at[k]]
                == crate::json::Json::Object(objects_among(items)[k]),
        forall|j: int, k: int| 0 <= j < k < at.len() ==> #[trigger] at[j] < #[trigger] at[k],
        forall|i: int| 0 <= i < items.len() && (#[trigger] items[i]) is Object ==> at.contains(i),
    decreases items.len(),
{
    if items.len() == 0 {
        Seq::empty()
    } else {
        let front = items.drop_last();
        let last = items.len() - 1;
        let before = lemma_objects_at(front);
        assert forall|k: int| 0 <= k < before.len() implies 0 <= #[trigger] before[k] < front.len()
            && items[before[k]] == front[before[k]] by {
        }
        if items[last] is Object {
            let at = before.push(last);
            assert forall|i: int|
                0 <= i < items.len() && (#[trigger] items[i]) is Object implies at.contains(i) by {
                if i < last {
                    assert(front[i] == items[i]);
                    assert(before.contains(i));
                    let k = choose|k: int| 0 <= k < before.len() && before[k] == i;
                    assert(at[k] == i);
                } else {
                    assert(at[before.len() as int] == i);
                }
            }
            at
        } else {
            assert forall|i: int|
                0 <= i < items.len() && (#[trigger] items[i]) is Object implies before.contains(
                i,
            ) by {
                assert(front[i] == items[i]);
            }
            before
        }
    }
}

/// A listing hands out every object among the rows of a response, each once and in
/// their order, and passes over what is no object.
pub proof fn every_object_is_listed_in_order(
    engine: &SyncEngine,
    response: &Record,
    out: Result<Vec<Record>, EngineError>,
    items: Seq<crate::json::Json>,
) -> (at: Seq<int>)
    requires
        call_ensures(SyncEngine::fetch_list, (engine, response), out),
        out is Ok,
        response@.contains_key("data"@),
        response@["data"@] == crate::json::Json::Array(items),
    ensures
        at.len() == out->Ok_0@.len(),
        forall|k: int|
            0 <= k < at.len() ==> 0 <= #[trigger] at[k] < items.len() && items[at[k]]
                == crate::json::Json::Object(out->Ok_0@[k]@),
        forall|j: int, k: int| 0 <= j < k < at.len() ==> #[trigger] at[j] < #[trigger] at[k],
        forall|i: int| 0 <= i < items.len() && (#[trigger] items[i]) is Object ==> at.contains(i),
{
    let at = lemma_objects_at(items);
    let rows = out->Ok_0@;
    let models = crate::json::records(rows);
    assert(models.len() == rows.len());
    assert forall|k: int| 0 <= k < at.len() implies 0 <= #[trigger] at[k] < items.len()
        && items[at[k]] == crate::json::Json::Object(rows[k]@) by {
        assert(models[k] == rows[k]@);
    }
    at
}

} // verus!
