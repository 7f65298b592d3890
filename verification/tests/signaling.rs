use stitch::addr::{IpAddr, SocketAddr};
use stitch::json::{Record, Value};
use stitch::peer::{
    accepted_peer, host_address, is_unspecified, on_answer, probe_delay, probe_targets, LocalPeer,
    PeerConfig, PeerError,
};
use stitch::signaling::{
    address_payload, answer_topic, check_response, create_topic, delete_topic, list_items,
    list_topic, new_response_topic, offer_topic, register_payload, registered_id, response_topic,
    sync_topic, update_topic, Candidate, CandidateKind, ConnectionOffer, ConnectionSync,
};

fn addr(last: u8, port: u16) -> SocketAddr {
    SocketAddr::new(IpAddr::V4([10, 0, 0, last]), port)
}

fn response(fields: Vec<(&str, Value)>) -> Value {
    let mut record = Record::new();
    for (k, v) in fields {
        record.insert(k.to_string(), v);
    }
    Value::object(record)
}

#[test]
fn signaling_topics() {
    assert_eq!(create_topic(), "$DB/peers/create");
    assert_eq!(list_topic(), "$DB/peers/list");
    assert_eq!(update_topic("7"), "$DB/peers/7/update");
    assert_eq!(delete_topic("7"), "$DB/peers/7/delete");
    assert_eq!(offer_topic("7"), "p2p/7/offer");
    assert_eq!(answer_topic("7"), "p2p/7/answer");
    assert_eq!(sync_topic("7"), "p2p/7/sync");
    assert_eq!(response_topic("r"), "mqp2p/responses/r");
    let (a, b) = (new_response_topic(), new_response_topic());
    assert_ne!(a, b);
    assert_eq!(a.len(), "mqp2p/responses/".len() + 36);
}

#[test]
fn registrations() {
    let payload = register_payload("alice", 4433, "sha256:00");
    assert_eq!(payload.get_str("name"), Some("alice"));
    assert_eq!(payload.get_str("status"), Some("online"));
    assert_eq!(payload.get("quic_port").unwrap().as_u64(), Some(4433));
    assert_eq!(payload.get_str("cert_fingerprint"), Some("sha256:00"));
    assert_eq!(payload.len(), 4);
    assert_eq!(address_payload("1.2.3.4:5").get_str("public_addr"), Some("1.2.3.4:5"));

    let ok = response(vec![
        ("status", Value::text("ok")),
        ("data", response(vec![("id", Value::text("p7"))])),
    ]);
    assert_eq!(registered_id(&ok), Ok("p7".to_string()));
    let empty = response(vec![("status", Value::text("ok"))]);
    assert_eq!(registered_id(&empty), Err("no peer ID in create response".to_string()));
}

#[test]
fn only_ok_is_a_success() {
    assert!(check_response(&response(vec![("status", Value::text("ok"))])).is_ok());
    assert_eq!(
        check_response(&response(vec![("message", Value::text("full"))])),
        Err("DB error: full".to_string())
    );
    assert_eq!(
        check_response(&Value::Null),
        Err("DB error: unknown error".to_string())
    );
    assert!(registered_id(&Value::Null).is_err());
    assert!(list_items(&Value::Null).is_err());
}

#[test]
fn rows_come_in_several_shapes() {
    let rows = |data: Value| {
        list_items(&response(vec![("status", Value::text("ok")), ("data", data)])).unwrap().len()
    };
    let row = || response(vec![("id", Value::text("a"))]);
    assert_eq!(rows(Value::array(vec![row(), row()])), 2);
    assert_eq!(rows(response(vec![("items", Value::array(vec![row()]))])), 1);
    assert_eq!(rows(row()), 1);
    assert_eq!(rows(Value::Null), 0);
    assert_eq!(rows(Value::text("x")), 1);
    assert_eq!(list_items(&response(vec![("status", Value::text("ok"))])).unwrap().len(), 0);
}

#[test]
fn peer_configs_are_built() {
    let config = PeerConfig::new("alice", "broker:1883");
    assert_eq!(config.client_id(), "mqp2p-alice");
    assert_eq!(config.stun_server.as_deref(), Some("stun.l.google.com:19302"));
    assert!(is_unspecified(&config.bind_addr.ip()));
    let config = config
        .with_bind_addr(addr(1, 9))
        .with_stun_server("stun:1")
        .with_credentials("u", "p");
    assert_eq!(config.bind_addr, addr(1, 9));
    assert_eq!(config.stun_server.as_deref(), Some("stun:1"));
    assert_eq!(config.credentials, Some(("u".to_string(), "p".to_string())));
    assert_eq!(config.without_stun().stun_server, None);
}

#[test]
fn the_host_address_is_never_unspecified() {
    let any = SocketAddr::new(IpAddr::V4([0; 4]), 9);
    assert_eq!(host_address(any, IpAddr::V4([10, 0, 0, 5])), addr(5, 9));
    assert_eq!(host_address(addr(1, 9), IpAddr::V4([10, 0, 0, 5])), addr(1, 9));
    assert!(is_unspecified(&IpAddr::V6([0; 16])));
    let mut local = [0u8; 16];
    local[15] = 1;
    assert!(!is_unspecified(&IpAddr::V6(local)));
}

fn local(id: Option<&str>, srflx: Option<SocketAddr>) -> LocalPeer {
    LocalPeer {
        peer_id: id.map(str::to_string),
        fingerprint: "sha256:aa".to_string(),
        host_addr: addr(1, 100),
        srflx_addr: srflx,
    }
}

#[test]
fn offers_and_answers_share_a_session() {
    let a = local(Some("a"), Some(addr(9, 900)));
    let b = local(Some("b"), None);
    let offer = a.new_offer().unwrap();
    assert_eq!(offer.from, "a");
    assert_eq!(offer.session_id.len(), 36);
    assert_eq!(
        offer.candidates,
        vec![
            Candidate { addr: addr(1, 100), kind: CandidateKind::Host },
            Candidate { addr: addr(9, 900), kind: CandidateKind::Srflx },
        ]
    );
    let answer = b.answer_to(&offer).unwrap();
    assert_eq!(answer.session_id, offer.session_id);
    assert_eq!(answer.candidates.len(), 1);
    let (sync, mut dialer) = on_answer(&offer, &answer, 80).unwrap();
    assert_eq!((sync.from.as_str(), sync.rtt_ms), ("a", 80));
    assert_eq!(sync.session_id, offer.session_id);
    assert_eq!(probe_delay(&sync), 40);
    assert_eq!(dialer.next_addr(), Ok(addr(1, 100)));
    assert_eq!(dialer.next_addr(), Err(PeerError::CandidatesExhausted));
    assert_eq!(local(None, None).new_offer().unwrap_err(), PeerError::NotRegistered);
    assert_eq!(local(None, None).answer_to(&offer).unwrap_err(), PeerError::NotRegistered);
}

fn offer(session: &str, candidates: Vec<Candidate>) -> ConnectionOffer {
    ConnectionOffer {
        from: "x".to_string(),
        session_id: session.to_string(),
        cert_fingerprint: "f".to_string(),
        candidates,
    }
}

#[test]
fn addresses_from_outside_are_dialled_first() {
    let host = |n| Candidate { addr: addr(n, 1), kind: CandidateKind::Host };
    let srflx = |n| Candidate { addr: addr(n, 1), kind: CandidateKind::Srflx };
    let answer = offer("s", vec![host(1), srflx(2), host(3), srflx(4)]);
    let (_, mut dialer) = on_answer(&offer("s", vec![]), &answer, 0).unwrap();
    let mut order = Vec::new();
    while let Ok(next) = dialer.next_addr() {
        order.push(next);
    }
    assert_eq!(order, vec![addr(2, 1), addr(4, 1), addr(1, 1), addr(3, 1)]);
    assert_eq!(CandidateKind::default(), CandidateKind::Srflx);
}

#[test]
fn bad_answers_are_refused() {
    assert_eq!(
        on_answer(&offer("s", vec![]), &offer("t", vec![]), 0).unwrap_err(),
        PeerError::SessionMismatch { expected: "s".to_string(), got: "t".to_string() }
    );
    assert_eq!(
        on_answer(&offer("s", vec![]), &offer("s", vec![]), 0).unwrap_err(),
        PeerError::NoCandidatesInAnswer
    );
    assert_eq!(
        probe_targets(&offer("s", vec![])).unwrap_err(),
        PeerError::NoCandidatesInOffer
    );
    let one = offer("s", vec![Candidate { addr: addr(3, 3), kind: CandidateKind::Host }]);
    assert_eq!(probe_targets(&one), Ok(vec![addr(3, 3)]));
    assert_eq!(
        PeerError::SessionMismatch { expected: "s".to_string(), got: "t".to_string() }.message(),
        "signaling error: session ID mismatch: expected s, got t"
    );
    assert_eq!(
        PeerError::AnswerTimeout.message(),
        "signaling error: timeout waiting for connection answer"
    );
    assert_eq!(PeerError::SyncTimeout.message(), "signaling error: timeout waiting for sync");
    assert_eq!(
        PeerError::CandidatesExhausted.message(),
        "QUIC connection error: all candidates exhausted"
    );
}

#[test]
fn an_accepted_peer_is_described() {
    let info = accepted_peer(offer("s", vec![]), 4433, "1.2.3.4:4433".to_string());
    assert_eq!(info.id, "x");
    assert_eq!(info.name, "");
    assert_eq!(info.status, "connected");
    assert_eq!(info.quic_port, 4433);
    assert_eq!(info.cert_fingerprint, "f");
    assert_eq!(info.public_addr.as_deref(), Some("1.2.3.4:4433"));
    let sync = ConnectionSync { from: "x".to_string(), session_id: "s".to_string(), rtt_ms: 7 };
    assert_eq!(probe_delay(&sync), 3);
}

#[test]
fn fresh_ids_are_random_uuids() {
    let topic = new_response_topic();
    let id = topic.strip_prefix("mqp2p/responses/").unwrap();
    let parsed = uuid::Uuid::parse_str(id).unwrap();
    assert_eq!(parsed.get_version_num(), 4);
    assert_eq!(parsed.to_string(), id);
    assert_eq!(id.len(), 36);
}
