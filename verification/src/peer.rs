//! How two peers agree on a connection.
use vstd::prelude::*;
use crate::addr::{IpAddr, SocketAddr};
use crate::signaling::{
    random_id,
    Candidate,
    CandidateKind,
    ConnectionOffer,
    ConnectionSync,
    PeerInfo,
};
use crate::stun::DEFAULT_STUN_SERVER;
use crate::text::same_text;

verus! {

/// How a peer is set up.
#[derive(Debug)]
pub struct PeerConfig {
    pub name: String,
    pub broker_addr: String,
    pub bind_addr: SocketAddr,
    pub stun_server: Option<String>,
    pub credentials: Option<(String, String)>,
}

/// Every address of the host, and a port of the system's choice.
pub open spec fn any_addr() -> SocketAddr {
    SocketAddr { ip: IpAddr::V4([0u8, 0u8, 0u8, 0u8]), port: 0 }
}

impl PeerConfig {
    /// A peer that binds to any address, asks the default STUN server and has no
    /// credentials.
    pub fn new(name: &str, broker_addr: &str) -> (config: Self)
        ensures
            config.name@ == name@,
            config.broker_addr@ == broker_addr@,
            config.bind_addr == any_addr(),
            config.stun_server matches Some(server) && server@ == DEFAULT_STUN_SERVER@,
            config.credentials is None,
    {
        let octets: [u8; 4] = [0, 0, 0, 0];
        PeerConfig {
            name: name.to_string(),
            broker_addr: broker_addr.to_string(),
            bind_addr: SocketAddr::new(IpAddr::V4(octets), 0),
            stun_server: Some(DEFAULT_STUN_SERVER.to_string()),
            credentials: None,
        }
    }

    pub fn with_bind_addr(self, addr: SocketAddr) -> (config: Self)
        ensures
            config == (PeerConfig { bind_addr: addr, ..self }),
    {
        PeerConfig { bind_addr: addr, ..self }
    }

    pub fn with_stun_server(self, server: &str) -> (config: Self)
        ensures
            config == (PeerConfig { stun_server: config.stun_server, ..self }),
            config.stun_server matches Some(s) && s@ == server@,
    {
        PeerConfig { stun_server: Some(server.to_string()), ..self }
    }

    pub fn without_stun(self) -> (config: Self)
        ensures
            config == (PeerConfig { stun_server: None, ..self }),
    {
        PeerConfig { stun_server: None, ..self }
    }

    pub fn with_credentials(self, username: &str, password: &str) -> (config: Self)
        ensures
            config == (PeerConfig { credentials: config.credentials, ..self }),
            config.credentials matches Some((user, pass)) && user@ == username@ && pass@
                == password@,
    {
        PeerConfig { credentials: Some((username.to_string(), password.to_string())), ..self }
    }

    /// The id under which the peer talks to the broker.
    pub fn client_id(&self) -> (id: String)
        ensures
            id@ == "mqp2p-"@ + self.name@,
    {
        let mut out = "mqp2p-".to_string();
        out.append(self.name.as_str());
        out
    }
}

/// Why two peers did not come together.
#[derive(Debug, PartialEq, Eq)]
pub enum PeerError {
    NotRegistered,
    AnswerTimeout,
    SessionMismatch { expected: String, got: String },
    NoCandidatesInAnswer,
    NoCandidatesInOffer,
    SyncTimeout,
    CandidatesExhausted,
}

/// The sentence that describes a [`PeerError`].
pub open spec fn peer_error_text(error: PeerError) -> Seq<char> {
    match error {
        PeerError::NotRegistered => "signaling error: not registered"@,
        PeerError::AnswerTimeout => "signaling error: timeout waiting for connection answer"@,
        PeerError::SessionMismatch { expected, got } =>
            "signaling error: session ID mismatch: expected "@ + expected@ + ", got "@ + got@,
        PeerError::NoCandidatesInAnswer => "signaling error: no candidates in answer"@,
        PeerError::NoCandidatesInOffer => "signaling error: no candidates in offer"@,
        PeerError::SyncTimeout => "signaling error: timeout waiting for sync"@,
        PeerError::CandidatesExhausted => "QUIC connection error: all candidates exhausted"@,
    }
}

impl PeerError {
    /// The error as a sentence.
    pub fn message(&self) -> (text: String)
        ensures
            text@ == peer_error_text(*self),
    {
        match self {
            PeerError::NotRegistered => "signaling error: not registered".to_string(),
            PeerError::AnswerTimeout =>
                "signaling error: timeout waiting for connection answer".to_string(),
            PeerError::SessionMismatch { expected, got } => {
                let mut out = "signaling error: session ID mismatch: expected ".to_string();
                out.append(expected.as_str());
                out.append(", got ");
                out.append(got.as_str());
                out
            },
            PeerError::NoCandidatesInAnswer =>
                "signaling error: no candidates in answer".to_string(),
            PeerError::NoCandidatesInOffer =>
                "signaling error: no candidates in offer".to_string(),
            PeerError::SyncTimeout => "signaling error: timeout waiting for sync".to_string(),
            PeerError::CandidatesExhausted =>
                "QUIC connection error: all candidates exhausted".to_string(),
        }
    }
}

/// The address stands for every address of the host.
pub open spec fn unspecified(ip: IpAddr) -> bool {
    match ip {
        IpAddr::V4(octets) => forall|i: int| 0 <= i < 4 ==> #[trigger] octets@[i] == 0,
        IpAddr::V6(octets) => forall|i: int| 0 <= i < 16 ==> #[trigger] octets@[i] == 0,
    }
}

fn all_zero(octets: &[u8]) -> (zero: bool)
    ensures
        zero == (forall|i: int| 0 <= i < octets@.len() ==> #[trigger] octets@[i] == 0),
{
    let mut i: usize = 0;
    while i < octets.len()
        invariant
            i <= octets@.len(),
            forall|j: int| 0 <= j < i ==> #[trigger] octets@[j] == 0,
        decreases octets@.len() - i,
    {
        if octets[i] != 0 {
            return false;
        }
        i = i + 1;
    }
    true
}

/// Whether the address stands for every address of the host, so that the one in
/// use has to be found out.
pub fn is_unspecified(ip: &IpAddr) -> (yes: bool)
    ensures
        yes == unspecified(*ip),
{
    match ip {
        IpAddr::V4(octets) => all_zero(octets.as_slice()),
        IpAddr::V6(octets) => all_zero(octets.as_slice()),
    }
}

/// The address to tell other peers: the bound one, or the address in use at the
/// bound port if every address was bound.
pub fn host_address(bound: SocketAddr, in_use: IpAddr) -> (addr: SocketAddr)
    ensures
        addr == (if unspecified(bound.ip) {
            SocketAddr { ip: in_use, port: bound.port }
        } else {
            bound
        }),
{
    if is_unspecified(&bound.ip) {
        SocketAddr::new(in_use, bound.port)
    } else {
        bound
    }
}

/// The candidates of a peer: its own address, then the one a STUN server saw.
pub open spec fn own_candidates(host: SocketAddr, srflx: Option<SocketAddr>) -> Seq<Candidate> {
    let first = Candidate { addr: host, kind: CandidateKind::Host };
    match srflx {
        Some(addr) => seq![first, Candidate { addr, kind: CandidateKind::Srflx }],
        None => seq![first],
    }
}

fn gather_candidates(host: SocketAddr, srflx: Option<SocketAddr>) -> (candidates: Vec<Candidate>)
    ensures
        candidates@ == own_candidates(host, srflx),
{
    let mut out: Vec<Candidate> = Vec::new();
    out.push(Candidate { addr: host, kind: CandidateKind::Host });
    if let Some(addr) = srflx {
        out.push(Candidate { addr, kind: CandidateKind::Srflx });
    }
    assert(out@ =~= own_candidates(host, srflx));
    out
}

/// A peer as the other side is to see it.
#[derive(Debug)]
pub struct LocalPeer {
    /// The id under which it is registered.
    pub peer_id: Option<String>,
    pub fingerprint: String,
    pub host_addr: SocketAddr,
    pub srflx_addr: Option<SocketAddr>,
}

impl LocalPeer {
    /// An offer to connect under the given session id. The peer has to be
    /// registered.
    pub fn offer_for(&self, session_id: &str) -> (offer: Result<ConnectionOffer, PeerError>)
        ensures
            match offer {
                Ok(o) => self.peer_id is Some && o@ == (crate::signaling::ConnectionOfferModel {
                    from: self.peer_id->0@,
                    session_id: session_id@,
                    cert_fingerprint: self.fingerprint@,
                    candidates: own_candidates(self.host_addr, self.srflx_addr),
                }),
                Err(e) => self.peer_id is None && e == PeerError::NotRegistered,
            },
    {
        match &self.peer_id {
            Some(id) => Ok(
                ConnectionOffer {
                    from: id.clone(),
                    session_id: session_id.to_string(),
                    cert_fingerprint: self.fingerprint.clone(),
                    candidates: gather_candidates(self.host_addr, self.srflx_addr),
                },
            ),
            None => Err(PeerError::NotRegistered),
        }
    }

    /// An offer to connect under a fresh random session id.
    pub fn new_offer(&self) -> (offer: Result<ConnectionOffer, PeerError>)
        ensures
            match offer {
                Ok(o) => self.peer_id is Some && crate::signaling::uuid_text(o@.session_id, '4')
                    && o@ == (crate::signaling::ConnectionOfferModel {
                    from: self.peer_id->0@,
                    session_id: o@.session_id,
                    cert_fingerprint: self.fingerprint@,
                    candidates: own_candidates(self.host_addr, self.srflx_addr),
                }),
                Err(e) => self.peer_id is None && e == PeerError::NotRegistered,
            },
    {
        let session_id = random_id();
        self.offer_for(session_id.as_str())
    }

    /// The answer to an offer: the same session, and how to reach this peer.
    pub fn answer_to(&self, offer: &ConnectionOffer) -> (answer: Result<
        ConnectionOffer,
        PeerError,
    >)
        ensures
            match answer {
                Ok(a) => self.peer_id is Some && a@ == (crate::signaling::ConnectionOfferModel {
                    from: self.peer_id->0@,
                    session_id: offer@.session_id,
                    cert_fingerprint: self.fingerprint@,
                    candidates: own_candidates(self.host_addr, self.srflx_addr),
                }),
                Err(e) => self.peer_id is None && e == PeerError::NotRegistered,
            },
    {
        self.offer_for(offer.session_id.as_str())
    }
}

/// The addresses of one kind, in order.
pub open spec fn of_kind(candidates: Seq<Candidate>, kind: CandidateKind) -> Seq<SocketAddr>
    decreases candidates.len(),
{
    if candidates.len() == 0 {
        Seq::empty()
    } else if candidates.last().kind == kind {
        of_kind(candidates.drop_last(), kind).push(candidates.last().addr)
    } else {
        of_kind(candidates.drop_last(), kind)
    }
}

/// The order in which candidates are tried: those a STUN server saw first, then
/// those of the host.
pub open spec fn dial_order(candidates: Seq<Candidate>) -> Seq<SocketAddr> {
    of_kind(candidates, CandidateKind::Srflx) + of_kind(candidates, CandidateKind::Host)
}

fn addresses_of_kind(candidates: &Vec<Candidate>, kind: CandidateKind) -> (addrs: Vec<SocketAddr>)
    ensures
        addrs@ == of_kind(candidates@, kind),
{
    let mut out: Vec<SocketAddr> = Vec::new();
    let mut i: usize = 0;
    assert(out@ =~= of_kind(candidates@.take(0), kind));
    while i < candidates.len()
        invariant
            i <= candidates@.len(),
            out@ == of_kind(candidates@.take(i as int), kind),
        decreases candidates@.len() - i,
    {
        assert(candidates@.take(i + 1).drop_last() =~= candidates@.take(i as int));
        if candidates[i].kind == kind {
            out.push(candidates[i].addr);
        }
        i = i + 1;
    }
    assert(candidates@.take(i as int) =~= candidates@);
    out
}

/// The addresses still to be tried, in order.
#[derive(Debug)]
pub struct Dialer {
    addrs: Vec<SocketAddr>,
    tried: usize,
}

impl View for Dialer {
    type V = Seq<SocketAddr>;

    /// The addresses still to be tried.
    closed spec fn view(&self) -> Seq<SocketAddr> {
        self.addrs@.skip(self.tried as int)
    }
}

impl Dialer {
    #[verifier::type_invariant]
    spec fn in_range(self) -> bool {
        self.tried <= self.addrs@.len()
    }

    /// The next address to try. When there is none left, no connection could be
    /// made.
    pub fn next_addr(&mut self) -> (addr: Result<SocketAddr, PeerError>)
        ensures
            match addr {
                Ok(a) => old(self)@.len() > 0 && a == old(self)@[0] && final(self)@
                    == old(self)@.skip(1),
                Err(e) => old(self)@.len() == 0 && e == PeerError::CandidatesExhausted
                    && final(self)@ == old(self)@,
            },
    {
        proof {
            use_type_invariant(&*self);
        }
        if self.tried == self.addrs.len() {
            return Err(PeerError::CandidatesExhausted);
        }
        let addr = self.addrs[self.tried];
        self.tried = self.tried + 1;
        assert(self@ =~= old(self)@.skip(1));
        Ok(addr)
    }
}

/// What the answer to an offer means: tell the other side how long signaling
/// took, then try its candidates. An answer to another session, or one without
/// candidates, is an error.
pub fn on_answer(offer: &ConnectionOffer, answer: &ConnectionOffer, rtt_ms: u64) -> (out: Result<
    (ConnectionSync, Dialer),
    PeerError,
>)
    ensures
        match out {
            Ok((sync, dialer)) => {
                &&& answer@.session_id == offer@.session_id
                &&& answer@.candidates.len() > 0
                &&& sync.from@ == offer@.from
                &&& sync.session_id@ == offer@.session_id
                &&& sync.rtt_ms == rtt_ms
                &&& dialer@ == dial_order(answer@.candidates)
            },
            Err(PeerError::SessionMismatch { expected, got }) => {
                &&& answer@.session_id != offer@.session_id
                &&& expected@ == offer@.session_id
                &&& got@ == answer@.session_id
            },
            Err(e) => {
                &&& answer@.session_id == offer@.session_id
                &&& answer@.candidates.len() == 0
                &&& e == PeerError::NoCandidatesInAnswer
            },
        },
{
    if !same_text(answer.session_id.as_str(), offer.session_id.as_str()) {
        return Err(
            PeerError::SessionMismatch {
                expected: offer.session_id.clone(),
                got: answer.session_id.clone(),
            },
        );
    }
    let mut addrs = addresses_of_kind(&answer.candidates, CandidateKind::Srflx);
    let mut host = addresses_of_kind(&answer.candidates, CandidateKind::Host);
    addrs.append(&mut host);
    proof {
        dial_order_keeps_all(answer.candidates@);
        assert(addrs@ =~= dial_order(answer.candidates@));
    }
    if addrs.len() == 0 {
        return Err(PeerError::NoCandidatesInAnswer);
    }
    let sync = ConnectionSync {
        from: offer.from.clone(),
        session_id: offer.session_id.clone(),
        rtt_ms,
    };
    let dialer = Dialer { addrs, tried: 0 };
    assert(dialer@ =~= dial_order(answer.candidates@));
    Ok((sync, dialer))
}

/// Where to send hole-punching probes for an offer: to every candidate.
pub fn probe_targets(offer: &ConnectionOffer) -> (out: Result<Vec<SocketAddr>, PeerError>)
    ensures
        match out {
            Ok(addrs) => offer@.candidates.len() > 0 && addrs@ == offer@.candidates.map_values(
                |c: Candidate| c.addr,
            ),
            Err(e) => offer@.candidates.len() == 0 && e == PeerError::NoCandidatesInOffer,
        },
{
    if offer.candidates.len() == 0 {
        return Err(PeerError::NoCandidatesInOffer);
    }
    let mut out: Vec<SocketAddr> = Vec::new();
    let mut i: usize = 0;
    while i < offer.candidates.len()
        invariant
            i <= offer.candidates@.len(),
            out@.len() == i,
            forall|j: int| 0 <= j < i ==> #[trigger] out@[j] == offer.candidates@[j].addr,
        decreases offer.candidates@.len() - i,
    {
        out.push(offer.candidates[i].addr);
        i = i + 1;
    }
    assert(out@ =~= offer@.candidates.map_values(|c: Candidate| c.addr));
    Ok(out)
}

/// How long to wait before probing: until the other side has the answer.
pub fn probe_delay(sync: &ConnectionSync) -> (wait_ms: u64)
    ensures
        wait_ms == sync.rtt_ms / 2,
{
    sync.rtt_ms / 2
}

/// The peer that an accepted connection leads to.
pub fn accepted_peer(offer: ConnectionOffer, remote_port: u16, remote_addr: String) -> (info:
    PeerInfo)
    ensures
        info@ == (crate::signaling::PeerInfoModel {
            id: offer@.from,
            name: Seq::empty(),
            status: "connected"@,
            quic_port: remote_port,
            cert_fingerprint: offer@.cert_fingerprint,
            public_addr: Some(remote_addr@),
        }),
{
    PeerInfo {
        id: offer.from,
        name: String::new(),
        status: "connected".to_string(),
        quic_port: remote_port,
        cert_fingerprint: offer.cert_fingerprint,
        public_addr: Some(remote_addr),
    }
}

/// Every candidate is tried, each once.
pub proof fn dial_order_keeps_all(candidates: Seq<Candidate>)
    ensures
        dial_order(candidates).len() == candidates.len(),
        dial_order(candidates).to_multiset() == candidates.map_values(
            |c: Candidate| c.addr,
        ).to_multiset(),
    decreases candidates.len(),
{
    broadcast use vstd::seq_lib::group_to_multiset_ensures;

    let srflx = of_kind(candidates, CandidateKind::Srflx);
    let host = of_kind(candidates, CandidateKind::Host);
    let addrs = candidates.map_values(|c: Candidate| c.addr);
    if candidates.len() == 0 {
        assert(dial_order(candidates) =~= addrs);
    } else {
        let front = candidates.drop_last();
        dial_order_keeps_all(front);
        let front_srflx = of_kind(front, CandidateKind::Srflx);
        let front_host = of_kind(front, CandidateKind::Host);
        let front_addrs = front.map_values(|c: Candidate| c.addr);
        let last = candidates.last().addr;
        assert(addrs =~= front_addrs.push(last));
        vstd::seq_lib::lemma_multiset_commutative(front_srflx, front_host);
        vstd::seq_lib::lemma_multiset_commutative(srflx, host);
        assert(srflx.to_multiset().add(host.to_multiset()) =~= front_srflx.to_multiset().add(
            front_host.to_multiset(),
        ).insert(last));
    }
}

/// What an offer and its answer say: who sends them, the session, which the answer
/// repeats, the fingerprint, and the addresses of the sender, its own first and then
/// the one that others see.
pub proof fn offers_say_where_to_reach_the_peer(
    peer: &LocalPeer,
    session_id: &str,
    offer: Result<ConnectionOffer, PeerError>,
    other: &LocalPeer,
    answer: Result<ConnectionOffer, PeerError>,
)
    requires
        call_ensures(LocalPeer::offer_for, (peer, session_id), offer),
        offer is Ok ==> call_ensures(LocalPeer::answer_to, (other, &offer->Ok_0), answer),
    ensures
        match offer {
            Ok(o) => {
                &&& peer.peer_id matches Some(id) && o.from@ == id@
                &&& o.session_id@ == session_id@
                &&& o.cert_fingerprint@ == peer.fingerprint@
                &&& o.candidates@.len() == (if peer.srflx_addr is Some {
                    2int
                } else {
                    1
                })
                &&& o.candidates@[0].addr == peer.host_addr && o.candidates@[0].kind is Host
                &&& peer.srflx_addr matches Some(addr) ==> o.candidates@[1].addr == addr
                    && o.candidates@[1].kind is Srflx
                &&& match answer {
                    Ok(a) => {
                        &&& other.peer_id matches Some(id) && a.from@ == id@
                        &&& a.session_id@ == session_id@
                        &&& a.cert_fingerprint@ == other.fingerprint@
                        &&& a.candidates@[0].addr == other.host_addr && a.candidates@[0].kind is Host
                        &&& other.srflx_addr matches Some(addr) ==> a.candidates@[1].addr == addr
                            && a.candidates@[1].kind is Srflx
                    },
                    Err(e) => other.peer_id is None && e is NotRegistered,
                }
            },
            Err(e) => peer.peer_id is None && e is NotRegistered,
        },
{
}

/// Where each candidate is dialed: those that others see come before those of the
/// host, and within a kind the order of the list is kept.
pub open spec fn dialed_at(
    candidates: Seq<Candidate>,
    dialed: Seq<SocketAddr>,
    at: Seq<int>,
) -> bool {
    &&& dialed.len() == candidates.len()
    &&& at.len() == candidates.len()
    &&& forall|i: int|
        0 <= i < candidates.len() ==> 0 <= #[trigger] at[i] < dialed.len() && dialed[at[i]]
            == candidates[i].addr
    &&& forall|i: int, j: int|
        0 <= i < candidates.len() && 0 <= j < candidates.len() && (candidates[i].kind is Srflx
            && candidates[j].kind is Host || candidates[i].kind == candidates[j].kind && i < j)
            ==> #[trigger] at[i] < #[trigger] at[j]
}

proof fn lemma_of_kind(candidates: Seq<Candidate>, kind: CandidateKind) -> (at: Seq<int>)
    ensures
        at.len() == candidates.len(),
        forall|i: int|
            0 <= i < candidates.len() && candidates[i].kind == kind ==> 0 <= #[trigger] at[i]
                < of_kind(candidates, kind).len() && of_kind(candidates, kind)[at[i]]
                == candidates[i].addr,
        forall|i: int, j: int|
            0 <= i < j < candidates.len() && candidates[i].kind == kind && candidates[j].kind
                == kind ==> #[trigger] at[i] < #[trigger] at[j],
    decreases candidates.len(),
{
    if candidates.len() == 0 {
        Seq::empty()
    } else {
        let front = candidates.drop_last();
        let before = lemma_of_kind(front, kind);
        let at = before.push(of_kind(front, kind).len() as int);
        assert forall|i: int| 0 <= i < candidates.len() && candidates[i].kind == kind implies 0
            <= #[trigger] at[i] < of_kind(candidates, kind).len() && of_kind(
            candidates,
            kind,
        )[at[i]] == candidates[i].addr by {
            if i < front.len() {
                assert(front[i].kind == kind);
                assert(at[i] == before[i]);
            }
        }
        assert forall|i: int, j: int|
            0 <= i < j < candidates.len() && candidates[i].kind == kind && candidates[j].kind
                == kind implies #[trigger] at[i] < #[trigger] at[j] by {
            assert(front[i].kind == kind);
            assert(at[i] == before[i]);
            if j < front.len() {
                assert(front[j].kind == kind);
                assert(at[j] == before[j]);
            }
        }
        at
    }
}

/// After an answer every candidate is dialed, those that others see first, in the
/// order of the answer, and the sync names the session and the time it took.
pub proof fn answers_are_dialed_in_order(
    offer: &ConnectionOffer,
    answer: &ConnectionOffer,
    rtt_ms: u64,
    sync: ConnectionSync,
    dialer: Dialer,
)
    requires
        call_ensures(on_answer, (offer, answer, rtt_ms), Ok((sync, dialer))),
    ensures
        exists|at: Seq<int>| #[trigger] dialed_at(answer.candidates@, dialer@, at),
        sync.from@ == offer.from@,
        sync.session_id@ == offer.session_id@,
        sync.rtt_ms == rtt_ms,
        answer.session_id@ == offer.session_id@,
        answer.candidates@.len() > 0,
{
    let candidates = answer.candidates@;
    dial_order_keeps_all(candidates);
    let seen = of_kind(candidates, CandidateKind::Srflx);
    let own = of_kind(candidates, CandidateKind::Host);
    let seen_at = lemma_of_kind(candidates, CandidateKind::Srflx);
    let own_at = lemma_of_kind(candidates, CandidateKind::Host);
    let at = Seq::new(
        candidates.len(),
        |i: int|
            if candidates[i].kind is Srflx {
                seen_at[i]
            } else {
                seen.len() + own_at[i]
            },
    );
    assert forall|i: int| 0 <= i < candidates.len() implies 0 <= #[trigger] at[i] < dialer@.len()
        && dialer@[at[i]] == candidates[i].addr by {
        if candidates[i].kind is Srflx {
            assert(0 <= seen_at[i] < seen.len());
        } else {
            assert(0 <= own_at[i] < own.len());
        }
    }
    assert forall|i: int, j: int|
        0 <= i < candidates.len() && 0 <= j < candidates.len() && (candidates[i].kind is Srflx
            && candidates[j].kind is Host || candidates[i].kind == candidates[j].kind && i
            < j) implies #[trigger] at[i] < #[trigger] at[j] by {
        if candidates[i].kind is Srflx {
            assert(0 <= seen_at[i] < seen.len());
            if candidates[j].kind is Host {
                assert(0 <= own_at[j]);
            } else {
                assert(seen_at[i] < seen_at[j]);
            }
        } else {
            assert(own_at[i] < own_at[j]);
        }
    }
    assert(dialed_at(candidates, dialer@, at));
}

/// An answer of another session, or one without addresses, is refused and named as
/// such.
pub proof fn wrong_answers_are_refused(
    offer: &ConnectionOffer,
    answer: &ConnectionOffer,
    rtt_ms: u64,
    out: Result<(ConnectionSync, Dialer), PeerError>,
)
    requires
        call_ensures(on_answer, (offer, answer, rtt_ms), out),
    ensures
        out is Ok <==> answer.session_id@ == offer.session_id@ && answer.candidates@.len() > 0,
        answer.session_id@ != offer.session_id@ ==> (out matches Err(
            PeerError::SessionMismatch { expected, got },
        ) && expected@ == offer.session_id@ && got@ == answer.session_id@),
        answer.session_id@ == offer.session_id@ && answer.candidates@.len() == 0 ==> (
        out matches Err(e) && e is NoCandidatesInAnswer),
{
}

/// Dialing goes through the addresses one by one and then says that there are no
/// more.
pub proof fn addresses_are_dialed_one_by_one(
    first: &mut Dialer,
    one: Result<SocketAddr, PeerError>,
    second: &mut Dialer,
    two: Result<SocketAddr, PeerError>,
)
    requires
        call_ensures(Dialer::next_addr, (first,), one),
        *old(second) == *final(first),
        call_ensures(Dialer::next_addr, (second,), two),
    ensures
        old(first)@.len() >= 1 ==> (one matches Ok(addr) && addr == old(first)@[0]),
        old(first)@.len() >= 2 ==> (two matches Ok(addr) && addr == old(first)@[1]),
        old(first)@.len() == 0 ==> (one matches Err(e) && e is CandidatesExhausted),
        old(first)@.len() == 1 ==> (two matches Err(e) && e is CandidatesExhausted),
{
}

/// Every candidate of an offer is probed, in the order of the offer.
pub proof fn every_candidate_is_probed(
    offer: &ConnectionOffer,
    out: Result<Vec<SocketAddr>, PeerError>,
)
    requires
        call_ensures(probe_targets, (offer,), out),
    ensures
        match out {
            Ok(addrs) => {
                &&& addrs@.len() == offer.candidates@.len() > 0
                &&& forall|i: int|
                    0 <= i < addrs@.len() ==> #[trigger] addrs@[i] == offer.candidates@[i].addr
            },
            Err(e) => offer.candidates@.len() == 0 && e is NoCandidatesInOffer,
        },
{
}

/// A peer that was accepted is known by what it offered and where it came from.
pub proof fn accepted_peers_are_known_by_their_offer(
    offer: ConnectionOffer,
    remote_port: u16,
    remote_addr: String,
    info: PeerInfo,
    sync: &ConnectionSync,
    wait_ms: u64,
)
    requires
        call_ensures(accepted_peer, (offer, remote_port, remote_addr), info),
        call_ensures(probe_delay, (sync,), wait_ms),
    ensures
        info.id@ == offer.from@,
        info.status@ == "connected"@,
        info.quic_port == remote_port,
        info.cert_fingerprint@ == offer.cert_fingerprint@,
        info.public_addr matches Some(addr) && addr@ == remote_addr@,
        2 * wait_ms <= sync.rtt_ms < 2 * wait_ms + 2,
{
}

/// The address to reach the host at: the bound one, with the address in use in place
/// of one that is all zeros.
pub proof fn hosts_are_reached_at_a_real_address(
    bound: SocketAddr,
    in_use: IpAddr,
    addr: SocketAddr,
    yes: bool,
)
    requires
        call_ensures(host_address, (bound, in_use), addr),
        call_ensures(is_unspecified, (&bound.ip,), yes),
    ensures
        addr.port == bound.port,
        yes ==> addr.ip == in_use,
        !yes ==> addr.ip == bound.ip,
        bound.ip matches IpAddr::V4(octets) ==> (yes <==> octets@ == seq![0u8, 0u8, 0u8, 0u8]),
        bound.ip matches IpAddr::V6(octets) ==> (yes <==> octets@ == Seq::new(16, |i: int| 0u8)),
{
    if let IpAddr::V4(octets) = bound.ip {
        if octets@ == seq![0u8, 0u8, 0u8, 0u8] {
            assert forall|i: int| 0 <= i < 4 implies #[trigger] octets@[i] == 0 by {
                assert(seq![0u8, 0u8, 0u8, 0u8][i] == 0);
            }
        }
        if yes {
            assert(octets@ == seq![0u8, 0u8, 0u8, 0u8]);
        }
    }
    if let IpAddr::V6(octets) = bound.ip {
        if yes {
            assert(octets@ == Seq::new(16, |i: int| 0u8));
        } else if octets@ == Seq::new(16, |i: int| 0u8) {
            assert forall|i: int| 0 <= i < 16 implies #[trigger] octets@[i] == 0 by {
            }
        }
    }
}

/// A peer binds to any address and port, asks the default STUN server and uses no
/// credentials until it is told otherwise; each setting changes one thing.
pub proof fn settings_change_one_thing(
    name: &str,
    broker_addr: &str,
    fresh: PeerConfig,
    addr: SocketAddr,
    bound: PeerConfig,
    server: &str,
    asking: PeerConfig,
    not_asking: PeerConfig,
    username: &str,
    password: &str,
    known: PeerConfig,
    id: String,
)
    requires
        call_ensures(PeerConfig::new, (name, broker_addr), fresh),
        call_ensures(PeerConfig::with_bind_addr, (fresh, addr), bound),
        call_ensures(PeerConfig::with_stun_server, (bound, server), asking),
        call_ensures(PeerConfig::without_stun, (asking,), not_asking),
        call_ensures(PeerConfig::with_credentials, (asking, username, password), known),
        call_ensures(PeerConfig::client_id, (&known,), id),
    ensures
        fresh.bind_addr.port == 0,
        fresh.bind_addr.ip matches IpAddr::V4(octets) && octets@ == seq![0u8, 0u8, 0u8, 0u8],
        fresh.stun_server matches Some(s) && s@ == DEFAULT_STUN_SERVER@,
        fresh.credentials is None,
        not_asking.stun_server is None,
        not_asking.bind_addr == addr,
        known.name@ == name@,
        known.broker_addr@ == broker_addr@,
        known.bind_addr == addr,
        known.stun_server matches Some(s) && s@ == server@,
        known.credentials matches Some((user, pass)) && user@ == username@ && pass@ == password@,
        id@ == "mqp2p-"@ + name@,
{
}

/// What the errors of connecting say.
pub proof fn peer_errors_say_what_is_wrong(error: PeerError, text: String)
    requires
        call_ensures(PeerError::message, (&error,), text),
    ensures
        match error {
            PeerError::NotRegistered => text@ == "signaling error: not registered"@,
            PeerError::AnswerTimeout => text@
                == "signaling error: timeout waiting for connection answer"@,
            PeerError::SessionMismatch { expected, got } => text@
                == "signaling error: session ID mismatch: expected "@ + expected@ + ", got "@ + got@,
            PeerError::NoCandidatesInAnswer => text@ == "signaling error: no candidates in answer"@,
            PeerError::NoCandidatesInOffer => text@ == "signaling error: no candidates in offer"@,
            PeerError::SyncTimeout => text@ == "signaling error: timeout waiting for sync"@,
            PeerError::CandidatesExhausted => text@
                == "QUIC connection error: all candidates exhausted"@,
        },
{
}

/// A new offer is an offer for a session of its own.
pub proof fn new_offers_are_offers_for_a_new_session(
    peer: &LocalPeer,
    offer: ConnectionOffer,
    session_id: &str,
    same: Result<ConnectionOffer, PeerError>,
)
    requires
        call_ensures(LocalPeer::new_offer, (peer,), Ok(offer)),
        session_id@ == offer.session_id@,
        call_ensures(LocalPeer::offer_for, (peer, session_id), same),
    ensures
        crate::signaling::uuid_text(session_id@, '4'),
        same matches Ok(o) && o@ == offer@,
{
}

} // verus!
