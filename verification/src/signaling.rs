//! What peers and the broker say to each other to set up connections.
use vstd::prelude::*;
use crate::addr::SocketAddr;
use crate::json::{Number, Record, Value};
use crate::text::same_text;

verus! {

/// A registered peer.
#[derive(Debug)]
pub struct PeerInfo {
    pub id: String,
    pub name: String,
    pub status: String,
    pub quic_port: u16,
    pub cert_fingerprint: String,
    pub public_addr: Option<String>,
}

/// The mathematical content of a [`PeerInfo`].
#[verifier::ext_equal]
pub struct PeerInfoModel {
    pub id: Seq<char>,
    pub name: Seq<char>,
    pub status: Seq<char>,
    pub quic_port: u16,
    pub cert_fingerprint: Seq<char>,
    pub public_addr: Option<Seq<char>>,
}

impl View for PeerInfo {
    type V = PeerInfoModel;

    open spec fn view(&self) -> PeerInfoModel {
        PeerInfoModel {
            id: self.id@,
            name: self.name@,
            status: self.status@,
            quic_port: self.quic_port,
            cert_fingerprint: self.cert_fingerprint@,
            public_addr: match self.public_addr {
                Some(addr) => Some(addr@),
                None => None,
            },
        }
    }
}

/// How an address was found.
#[derive(Debug, Clone, Copy, PartialEq, Eq, Structural)]
pub enum CandidateKind {
    /// An address of the host itself.
    Host,
    /// An address that a STUN server saw.
    Srflx,
}

impl Default for CandidateKind {
    fn default() -> (kind: Self)
        ensures
            kind == CandidateKind::Srflx,
    {
        CandidateKind::Srflx
    }
}

/// An address at which a peer may be reached.
#[derive(Debug, Clone, Copy, PartialEq, Eq)]
pub struct Candidate {
    pub addr: SocketAddr,
    pub kind: CandidateKind,
}

/// An offer to connect, or the answer to one.
#[derive(Debug)]
pub struct ConnectionOffer {
    pub from: String,
    pub session_id: String,
    pub cert_fingerprint: String,
    pub candidates: Vec<Candidate>,
}

/// The mathematical content of a [`ConnectionOffer`].
#[verifier::ext_equal]
pub struct ConnectionOfferModel {
    pub from: Seq<char>,
    pub session_id: Seq<char>,
    pub cert_fingerprint: Seq<char>,
    pub candidates: Seq<Candidate>,
}

impl View for ConnectionOffer {
    type V = ConnectionOfferModel;

    open spec fn view(&self) -> ConnectionOfferModel {
        ConnectionOfferModel {
            from: self.from@,
            session_id: self.session_id@,
            cert_fingerprint: self.cert_fingerprint@,
            candidates: self.candidates@,
        }
    }
}

/// Tells the other side how long signaling takes.
#[derive(Debug)]
pub struct ConnectionSync {
    pub from: String,
    pub session_id: String,
    pub rtt_ms: u64,
}

/// The text of a UUID of some version: hyphenated lower-case hexadecimal.
pub open spec fn uuid_text(text: Seq<char>, version: char) -> bool {
    &&& text.len() == 36
    &&& forall|i: int|
        0 <= i < 36 ==> if i == 8 || i == 13 || i == 18 || i == 23 {
            #[trigger] text[i] == '-'
        } else {
            '0' <= text[i] && text[i] <= '9' || 'a' <= text[i] && text[i] <= 'f'
        }
    &&& text[14] == version
    &&& text[19] == '8' || text[19] == '9' || text[19] == 'a' || text[19] == 'b'
}

/// `uuid::Uuid::new_v4`, as its `Display` gives it: a UUID of version 4. Which
/// one it is, chance decides.
#[verifier::external_body]
pub(crate) fn random_id() -> (id: String)
    ensures
        uuid_text(id@, '4'),
{
    uuid::Uuid::new_v4().to_string()
}

/// Where peers register.
pub fn create_topic() -> (topic: &'static str)
    ensures
        topic@ == "$DB/peers/create"@,
{
    "$DB/peers/create"
}

/// Where peers are listed.
pub fn list_topic() -> (topic: &'static str)
    ensures
        topic@ == "$DB/peers/list"@,
{
    "$DB/peers/list"
}

/// Where a peer's registration is updated.
pub fn update_topic(peer_id: &str) -> (topic: String)
    ensures
        topic@ == "$DB/peers/"@ + peer_id@ + "/update"@,
{
    let mut out = "$DB/peers/".to_string();
    out.append(peer_id);
    out.append("/update");
    out
}

/// Where a peer's registration is deleted.
pub fn delete_topic(peer_id: &str) -> (topic: String)
    ensures
        topic@ == "$DB/peers/"@ + peer_id@ + "/delete"@,
{
    let mut out = "$DB/peers/".to_string();
    out.append(peer_id);
    out.append("/delete");
    out
}

fn peer_topic(peer_id: &str, leaf: &str) -> (topic: String)
    ensures
        topic@ == "p2p/"@ + peer_id@ + leaf@,
{
    let mut out = "p2p/".to_string();
    out.append(peer_id);
    out.append(leaf);
    out
}

/// Where a peer is sent offers.
pub fn offer_topic(peer_id: &str) -> (topic: String)
    ensures
        topic@ == "p2p/"@ + peer_id@ + "/offer"@,
{
    peer_topic(peer_id, "/offer")
}

/// Where a peer is sent answers.
pub fn answer_topic(peer_id: &str) -> (topic: String)
    ensures
        topic@ == "p2p/"@ + peer_id@ + "/answer"@,
{
    peer_topic(peer_id, "/answer")
}

/// Where a peer is sent sync messages.
pub fn sync_topic(peer_id: &str) -> (topic: String)
    ensures
        topic@ == "p2p/"@ + peer_id@ + "/sync"@,
{
    peer_topic(peer_id, "/sync")
}

/// Where the response to the request with this id is expected.
pub fn response_topic(request_id: &str) -> (topic: String)
    ensures
        topic@ == "mqp2p/responses/"@ + request_id@,
{
    let mut out = "mqp2p/responses/".to_string();
    out.append(request_id);
    out
}

/// Where the response to a new request is expected: under a fresh random id.
pub fn new_response_topic() -> (topic: String)
    ensures
        exists|id: Seq<char>|
            #[trigger] uuid_text(id, '4') && topic@ == "mqp2p/responses/"@ + id,
{
    let id = random_id();
    assert(uuid_text(id@, '4'));
    response_topic(id.as_str())
}

/// What a peer registers.
pub fn register_payload(name: &str, quic_port: u16, cert_fingerprint: &str) -> (payload: Record)
    ensures
        payload@ == Map::<Seq<char>, crate::json::Json>::empty().insert(
            "name"@,
            crate::json::Json::String(name@),
        ).insert("status"@, crate::json::Json::String("online"@)).insert(
            "quic_port"@,
            crate::json::Json::Number(Number::Unsigned(quic_port as u64)),
        ).insert("cert_fingerprint"@, crate::json::Json::String(cert_fingerprint@)),
{
    let mut payload = Record::new();
    payload.insert("name".to_string(), Value::text(name));
    payload.insert("status".to_string(), Value::text("online"));
    payload.insert("quic_port".to_string(), Value::integer(quic_port as i64));
    payload.insert("cert_fingerprint".to_string(), Value::text(cert_fingerprint));
    payload
}

/// What a peer registers once it knows its public address.
pub fn address_payload(public_addr: &str) -> (payload: Record)
    ensures
        payload@ == Map::<Seq<char>, crate::json::Json>::empty().insert(
            "public_addr"@,
            crate::json::Json::String(public_addr@),
        ),
{
    let mut payload = Record::new();
    payload.insert("public_addr".to_string(), Value::text(public_addr));
    payload
}

/// The text of a field of a response, if it is one.
pub open spec fn response_text(response: crate::json::Json, key: Seq<char>) -> Option<Seq<char>> {
    match crate::json::field_of(response, key) {
        Some(crate::json::Json::String(s)) => Some(s),
        _ => None,
    }
}

fn text_field<'a>(response: &'a Value, key: &str) -> (text: Option<&'a str>)
    ensures
        match text {
            Some(s) => response_text(response@, key@) == Some(s@),
            None => response_text(response@, key@) is None,
        },
{
    match response.get(key) {
        Some(value) => value.as_str(),
        None => None,
    }
}

/// Why a response is no success, if it is none.
pub open spec fn response_error(response: crate::json::Json) -> Option<Seq<char>> {
    if response_text(response, "status"@) == Some("ok"@) {
        None
    } else {
        Some(
            "DB error: "@ + match response_text(response, "message"@) {
                Some(message) => message,
                None => "unknown error"@,
            },
        )
    }
}

/// Only a response whose status is `ok` is a success.
pub fn check_response(response: &Value) -> (out: Result<(), String>)
    ensures
        match out {
            Ok(()) => response_error(response@) is None,
            Err(text) => response_error(response@) == Some(text@),
        },
{
    let ok = match text_field(response, "status") {
        Some(status) => same_text(status, "ok"),
        None => false,
    };
    if ok {
        return Ok(());
    }
    let mut out = "DB error: ".to_string();
    match text_field(response, "message") {
        Some(message) => out.append(message),
        None => out.append("unknown error"),
    }
    Err(out)
}

/// The peer id in the response to a registration.
pub fn registered_id(response: &Value) -> (out: Result<String, String>)
    ensures
        match out {
            Ok(id) => response_error(response@) is None && crate::json::field_of(
                response@,
                "data"@,
            ) is Some && response_text(
                crate::json::field_of(response@, "data"@)->0,
                "id"@,
            ) == Some(id@),
            Err(text) => match response_error(response@) {
                Some(error) => text@ == error,
                None => text@ == "no peer ID in create response"@ && (crate::json::field_of(
                    response@,
                    "data"@,
                ) is None || response_text(
                    crate::json::field_of(response@, "data"@)->0,
                    "id"@,
                ) is None),
            },
        },
{
    match check_response(response) {
        Ok(()) => {},
        Err(text) => return Err(text),
    }
    match response.get("data") {
        Some(data) => match text_field(data, "id") {
            Some(id) => Ok(id.to_string()),
            None => Err("no peer ID in create response".to_string()),
        },
        None => Err("no peer ID in create response".to_string()),
    }
}

/// The rows that a list response carries: its `data`, if that is an array; the
/// `items` of its `data`, if that is an object with such an array; nothing, if
/// there is no `data`; else `data` itself as the only row.
pub open spec fn listed_items(response: crate::json::Json) -> Seq<crate::json::Json> {
    match crate::json::field_of(response, "data"@) {
        None => Seq::empty(),
        Some(crate::json::Json::Null) => Seq::empty(),
        Some(crate::json::Json::Array(items)) => items,
        Some(data) => match crate::json::field_of(data, "items"@) {
            Some(crate::json::Json::Array(items)) => items,
            _ => seq![data],
        },
    }
}

fn copy_items(items: &Vec<Value>) -> (copy: Vec<Value>)
    ensures
        crate::json::values(copy@) == crate::json::values(items@),
{
    let mut out: Vec<Value> = Vec::new();
    let mut i: usize = 0;
    while i < items.len()
        invariant
            i <= items@.len(),
            out@.len() == i,
            forall|j: int| 0 <= j < i ==> (#[trigger] out@[j])@ == items@[j]@,
        decreases items@.len() - i,
    {
        out.push(items[i].clone());
        i = i + 1;
    }
    assert(crate::json::values(out@) =~= crate::json::values(items@));
    out
}

/// The rows of a list response, or why it is no success.
pub fn list_items(response: &Value) -> (out: Result<Vec<Value>, String>)
    ensures
        match out {
            Ok(items) => response_error(response@) is None && crate::json::values(items@)
                == listed_items(response@),
            Err(text) => response_error(response@) == Some(text@),
        },
{
    match check_response(response) {
        Ok(()) => {},
        Err(text) => return Err(text),
    }
    let data = match response.get("data") {
        Some(data) => data,
        None => {
            let none: Vec<Value> = Vec::new();
            assert(crate::json::values(none@) =~= listed_items(response@));
            return Ok(none);
        },
    };
    if data.is_null() {
        let none: Vec<Value> = Vec::new();
        assert(crate::json::values(none@) =~= listed_items(response@));
        return Ok(none);
    }
    if let Some(items) = data.as_array() {
        return Ok(copy_items(items));
    }
    if let Some(value) = data.get("items") {
        if let Some(items) = value.as_array() {
            return Ok(copy_items(items));
        }
    }
    let mut only: Vec<Value> = Vec::new();
    only.push(data.clone());
    assert(crate::json::values(only@) =~= listed_items(response@));
    Ok(only)
}

/// The topics of a peer name it, between what they are for.
pub proof fn topics_name_the_peer(
    peer_id: &str,
    update: String,
    delete: String,
    offer: String,
    answer: String,
    sync: String,
    response: String,
)
    requires
        call_ensures(update_topic, (peer_id,), update),
        call_ensures(delete_topic, (peer_id,), delete),
        call_ensures(offer_topic, (peer_id,), offer),
        call_ensures(answer_topic, (peer_id,), answer),
        call_ensures(sync_topic, (peer_id,), sync),
        call_ensures(response_topic, (peer_id,), response),
    ensures
        update@ == "$DB/peers/"@ + peer_id@ + "/update"@,
        delete@ == "$DB/peers/"@ + peer_id@ + "/delete"@,
        offer@ == "p2p/"@ + peer_id@ + "/offer"@,
        answer@ == "p2p/"@ + peer_id@ + "/answer"@,
        sync@ == "p2p/"@ + peer_id@ + "/sync"@,
        response@ == "mqp2p/responses/"@ + peer_id@,
{
}

/// Registering says the name, that the peer is online, its port and its fingerprint.
pub proof fn registering_says_who_is_online(
    name: &str,
    quic_port: u16,
    cert_fingerprint: &str,
    payload: Record,
    public_addr: &str,
    address: Record,
)
    requires
        call_ensures(register_payload, (name, quic_port, cert_fingerprint), payload),
        call_ensures(address_payload, (public_addr,), address),
    ensures
        crate::json::text_in(payload@, "name"@) == Some(name@),
        crate::json::text_in(payload@, "status"@) == Some("online"@),
        crate::json::field_in(payload@, "quic_port"@) == Some(
            crate::json::Json::Number(Number::Unsigned(quic_port as u64)),
        ),
        crate::json::text_in(payload@, "cert_fingerprint"@) == Some(cert_fingerprint@),
        crate::json::text_in(address@, "public_addr"@) == Some(public_addr@),
{
    reveal_strlit("name");
    reveal_strlit("status");
    reveal_strlit("quic_port");
    reveal_strlit("cert_fingerprint");
    assert("name"@[0] == 'n' && "status"@[0] == 's' && "quic_port"@[0] == 'q'
        && "cert_fingerprint"@[0] == 'c');
}

/// A response is good exactly if its status is "ok"; another one is an error with its
/// message, where it has one.
pub proof fn only_ok_is_good(response: &Value, out: Result<(), String>)
    requires
        call_ensures(check_response, (response,), out),
    ensures
        out is Ok <==> crate::json::field_of(response@, "status"@) == Some(
            crate::json::Json::String("ok"@),
        ),
        out matches Err(text) ==> match crate::json::field_of(response@, "message"@) {
            Some(crate::json::Json::String(message)) => text@ == "DB error: "@ + message,
            _ => text@ == "DB error: "@ + "unknown error"@,
        },
{
}

/// A registration gives the id under its data.
pub proof fn registrations_give_the_id(
    response: &Value,
    checked: Result<(), String>,
    out: Result<String, String>,
    data: crate::json::Json,
    id: Seq<char>,
)
    requires
        call_ensures(check_response, (response,), checked),
        call_ensures(registered_id, (response,), out),
    ensures
        checked is Err ==> out is Err && out->Err_0@ == checked->Err_0@,
        checked is Ok && crate::json::field_of(response@, "data"@) == Some(data)
            && crate::json::field_of(data, "id"@) == Some(crate::json::Json::String(id)) ==> (
        out matches Ok(given) && given@ == id),
        out matches Ok(given) ==> checked is Ok && crate::json::field_of(
            response@,
            "data"@,
        ) is Some && crate::json::field_of(
            crate::json::field_of(response@, "data"@)->Some_0,
            "id"@,
        ) == Some(crate::json::Json::String(given@)),
{
}

/// A list of peers is read whole: the items of a good response are the array under
/// its data, or under the items of its data, or the data alone; none are left out.
pub proof fn lists_are_read_whole(
    response: &Value,
    checked: Result<(), String>,
    out: Result<Vec<Value>, String>,
    data: crate::json::Json,
)
    requires
        call_ensures(check_response, (response,), checked),
        call_ensures(list_items, (response,), out),
    ensures
        out is Ok <==> checked is Ok,
        checked is Err ==> out->Err_0@ == checked->Err_0@,
        checked is Ok && crate::json::field_of(response@, "data"@) == Some(data) ==> {
            let read = out->Ok_0@;
            match data {
                crate::json::Json::Array(items) => {
                    &&& read.len() == items.len()
                    &&& forall|i: int| 0 <= i < items.len() ==> (#[trigger] read[i])@ == items[i]
                },
                crate::json::Json::Null => read.len() == 0,
                _ => match crate::json::field_of(data, "items"@) {
                    Some(crate::json::Json::Array(items)) => {
                        &&& read.len() == items.len()
                        &&& forall|i: int|
                            0 <= i < items.len() ==> (#[trigger] read[i])@ == items[i]
                    },
                    _ => read.len() == 1 && read[0]@ == data,
                },
            }
        },
        checked is Ok && crate::json::field_of(response@, "data"@) is None ==> out->Ok_0@.len()
            == 0,
{
    if let Ok(items) = out {
        let read = crate::json::values(items@);
        assert(read.len() == items@.len());
        assert forall|i: int| 0 <= i < items@.len() implies (#[trigger] items@[i])@ == read[i] by {
        }
    }
}

/// The topics of the list of peers; a new response topic is that of a new request.
pub proof fn peers_are_listed_under_fixed_topics(
    create: &'static str,
    list: &'static str,
    topic: String,
)
    requires
        call_ensures(create_topic, (), create),
        call_ensures(list_topic, (), list),
        call_ensures(new_response_topic, (), topic),
    ensures
        create@ == "$DB/peers/create"@,
        list@ == "$DB/peers/list"@,
        "mqp2p/responses/"@.is_prefix_of(topic@),
        uuid_text(topic@.skip("mqp2p/responses/"@.len() as int), '4'),
{
    let id = choose|id: Seq<char>|
        #[trigger] uuid_text(id, '4') && topic@ == "mqp2p/responses/"@ + id;
    assert(topic@.skip("mqp2p/responses/"@.len() as int) == id);
}

} // verus!
