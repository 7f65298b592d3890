//! Identities, roles and who may write to a scope.
use vstd::prelude::*;
use crate::assoc::Assoc;
use crate::hlc::{same_peer, PeerId};
use crate::sync_state::{FrameAuth, SyncState};
use crate::text::{hex_digit, same_text, to_hex};
use crate::wire::WriteFrame;

verus! {

/// The entity whose records grant membership.
pub const MEMBERS_ENTITY: &'static str = "_members";

/// The Ed25519 public key of a private seed.
pub uninterp spec fn ed25519_public(seed: Seq<u8>) -> Seq<u8>;

/// The Ed25519 signature of a message under a private seed.
pub uninterp spec fn ed25519_signature(seed: Seq<u8>, message: Seq<u8>) -> Seq<u8>;

/// Ed25519 verification accepts the signature.
pub uninterp spec fn ed25519_accepts(key: Seq<u8>, message: Seq<u8>, signature: Seq<u8>) -> bool;

/// `ring::signature::Ed25519KeyPair::from_seed_unchecked` and `public_key`: the
/// public key depends on the 32-byte seed alone.
#[verifier::external_body]
fn public_key_of(seed: &[u8; 32]) -> (key: [u8; 32])
    ensures
        key@ == ed25519_public(seed@),
{
    let pair = ring::signature::Ed25519KeyPair::from_seed_unchecked(seed).expect("32-byte seed");
    let mut key = [0u8; 32];
    key.copy_from_slice(ring::signature::KeyPair::public_key(&pair).as_ref());
    key
}

/// `ring::signature::Ed25519KeyPair::sign`: Ed25519 signing is deterministic,
/// and what it signs verifies under the public key of the same seed.
#[verifier::external_body]
fn sign_with(seed: &[u8; 32], message: &[u8]) -> (signature: [u8; 64])
    ensures
        signature@ == ed25519_signature(seed@, message@),
        ed25519_accepts(ed25519_public(seed@), message@, signature@),
{
    let pair = ring::signature::Ed25519KeyPair::from_seed_unchecked(seed).expect("32-byte seed");
    let mut signature = [0u8; 64];
    signature.copy_from_slice(pair.sign(message).as_ref());
    signature
}

/// `ring::signature::UnparsedPublicKey::verify` with `ring::signature::ED25519`:
/// whether the signature verifies depends on the key, the message and the
/// signature alone.
#[verifier::external_body]
fn verify_with(key: &[u8; 32], message: &[u8], signature: &[u8; 64]) -> (valid: bool)
    ensures
        valid == ed25519_accepts(key@, message@, signature@),
{
    ring::signature::UnparsedPublicKey::new(&ring::signature::ED25519, key.as_slice()).verify(
        message,
        signature.as_slice(),
    ).is_ok()
}

/// A peer's signing identity. Its peer id is its public key.
pub struct Identity {
    seed: [u8; 32],
    peer: PeerId,
}

/// The frame carries a signature of its author over its signed part.
pub open spec fn frame_verifies(frame: crate::wire::FrameModel) -> bool {
    match frame.signature {
        Some(signature) => frame.names_fit() && frame.data.len() <= u32::MAX && ed25519_accepts(
            frame.stamp.peer@,
            frame.signed_part(),
            signature@,
        ),
        None => false,
    }
}

impl Identity {
    #[verifier::type_invariant]
    spec fn keys_match(self) -> bool {
        self.peer@ == ed25519_public(self.seed@)
    }

    /// The private seed.
    pub closed spec fn secret(&self) -> Seq<u8> {
        self.seed@
    }

    /// The peer id.
    pub closed spec fn id(&self) -> PeerId {
        self.peer
    }

    /// The identity of a private seed.
    #[must_use]
    pub fn from_seed(seed: [u8; 32]) -> (identity: Self)
        ensures
            identity.secret() == seed@,
            identity.id()@ == ed25519_public(seed@),
    {
        let peer = public_key_of(&seed);
        Identity { seed, peer }
    }

    /// The public key, which is the peer id.
    #[must_use]
    pub fn peer_id(&self) -> (id: PeerId)
        ensures
            id == self.id(),
            id@ == ed25519_public(self.secret()),
    {
        proof {
            use_type_invariant(self);
        }
        self.peer
    }
}

impl FrameAuth for Identity {
    fn sign(&self, signing_bytes: &[u8]) -> (signature: [u8; 64])
        ensures
            signature@ == ed25519_signature(self.secret(), signing_bytes@),
            ed25519_accepts(self.id()@, signing_bytes@, signature@),
    {
        proof {
            use_type_invariant(self);
        }
        sign_with(&self.seed, signing_bytes)
    }

    fn verify(&self, frame: &WriteFrame) -> (valid: bool)
        ensures
            valid == frame_verifies(frame@),
    {
        match &frame.signature {
            Some(signature) => {
                if frame.data.len() as u64 > u32::MAX as u64 {
                    return false;
                }
                match frame.signing_bytes() {
                    Ok(bytes) => verify_with(&frame.stamp.peer, bytes.as_slice(), signature),
                    Err(_) => false,
                }
            },
            None => false,
        }
    }
}

impl SyncState<Identity> {
    /// A peer without history. Its writes are unsigned until an identity is set.
    #[must_use]
    pub fn new(self_id: PeerId) -> (state: Self)
        ensures
            state.wf(),
            state@ == crate::sync_state::SyncModel::fresh(self_id),
            state.auth() is None,
    {
        SyncState::unsigned(self_id)
    }
}

/// A frame that an identity signed as its author verifies everywhere.
pub proof fn signed_frames_verify(identity: Identity, frame: crate::wire::FrameModel)
    requires
        frame.stamp.peer == identity.id(),
        frame.names_fit(),
        frame.data.len() <= u32::MAX,
        frame.signature is Some,
        crate::sync_state::signed_by(identity, frame.signed_part(), frame.signature->0),
    ensures
        frame_verifies(frame),
{
}

/// What a member may do.
#[derive(Debug, Clone, Copy, PartialEq, Eq, Structural)]
pub enum Role {
    /// May write records.
    Member,
    /// May write records and invite peers.
    Admin,
}

impl Role {
    /// The byte that stands for the role.
    pub open spec fn byte(self) -> u8 {
        match self {
            Role::Member => 1,
            Role::Admin => 2,
        }
    }

    pub fn as_byte(&self) -> (byte: u8)
        ensures
            byte == self.byte(),
    {
        match self {
            Role::Member => 1,
            Role::Admin => 2,
        }
    }

    /// The role that a byte stands for.
    pub fn from_byte(byte: u8) -> (role: Option<Role>)
        ensures
            role matches Some(r) ==> r.byte() == byte,
            role is None ==> byte != 1 && byte != 2,
    {
        match byte {
            1 => Some(Role::Member),
            2 => Some(Role::Admin),
            _ => None,
        }
    }
}

/// The id of the record that grants membership to a peer.
pub fn member_record_id(peer: &PeerId) -> (id: String)
    ensures
        id@ == crate::text::hex(peer@),
{
    to_hex(peer.as_slice())
}

/// The peer whose membership a record id stands for.
pub fn peer_from_record_id(id: &str) -> (peer: Option<PeerId>)
    ensures
        peer matches Some(p) ==> id@ == crate::text::hex(p@),
        peer is None ==> forall|other: PeerId| id@ != #[trigger] crate::text::hex(other@),
{
    let len = id.unicode_len();
    if len != 64 {
        proof {
            assert forall|p: PeerId| id@ != #[trigger] crate::text::hex(p@) by {
                crate::text::lemma_hex_digits(p@);
            }
        }
        return None;
    }
    let mut peer: PeerId = [0u8; 32];
    let mut i: usize = 0;
    while i < 32
        invariant
            i <= 32,
            id@.len() == 64,
            forall|p: PeerId, j: int|
                0 <= j < i && id@ == #[trigger] crate::text::hex(p@) ==> p@[j] == (
                #[trigger] peer@[j]),
        decreases 32 - i,
    {
        let high = hex_digit(id.get_char(2 * i));
        let low = hex_digit(id.get_char(2 * i + 1));
        let ghost before = peer@;
        proof {
            assert forall|p: PeerId| id@ == #[trigger] crate::text::hex(p@) implies (
            crate::text::hex_digit_value(id@[2 * i as int]) == Some(p@[i as int] as nat / 16)
                && crate::text::hex_digit_value(id@[2 * i as int + 1]) == Some(
                p@[i as int] as nat % 16,
            )) by {
                crate::text::lemma_hex_digits(p@);
                assert(p@[i as int] == p@[i as int]);
                crate::text::lemma_hex_digit_round_trip(p@[i as int] as nat / 16);
                crate::text::lemma_hex_digit_round_trip(p@[i as int] as nat % 16);
            }
        }
        match (high, low) {
            (Some(h), Some(l)) => {
                peer[i] = h * 16 + l;
            },
            _ => {
                return None;
            },
        }
        proof {
            assert forall|p: PeerId, j: int|
                0 <= j < i + 1 && id@ == #[trigger] crate::text::hex(p@) implies p@[j] == (
            #[trigger] peer@[j]) by {
                if j < i {
                    assert(before[j] == peer@[j]);
                }
            }
        }
        i = i + 1;
    }
    let text = to_hex(peer.as_slice());
    if same_text(text.as_str(), id) {
        Some(peer)
    } else {
        proof {
            assert forall|p: PeerId| id@ != #[trigger] crate::text::hex(p@) by {
                if id@ == crate::text::hex(p@) {
                    assert(p@ =~= peer@);
                }
            }
        }
        None
    }
}

/// One membership record: `granter` gives `target` a role.
#[derive(Debug, Clone, Copy, PartialEq, Eq)]
pub struct Grant {
    pub target: PeerId,
    pub granter: PeerId,
    pub role: Role,
}

/// `peer` is an admin by a chain of at most `n` grants from the owner.
pub open spec fn admin_within(owner: PeerId, grants: Set<Grant>, peer: PeerId, n: nat) -> bool
    decreases n,
{
    peer == owner || (n > 0 && exists|g: Grant| #[trigger]
        grants.contains(g) && g.target == peer && g.role is Admin && admin_within(
            owner,
            grants,
            g.granter,
            (n - 1) as nat,
        ))
}

/// `peer` is the owner, or was made an admin by it or by another admin.
pub open spec fn is_admin(owner: PeerId, grants: Set<Grant>, peer: PeerId) -> bool {
    exists|n: nat| admin_within(owner, grants, peer, n)
}

/// `peer` was invited by an admin.
pub open spec fn is_invited(owner: PeerId, grants: Set<Grant>, peer: PeerId) -> bool {
    exists|g: Grant| #[trigger]
        grants.contains(g) && g.target == peer && is_admin(owner, grants, g.granter)
}

/// The grants of a list.
pub open spec fn granted(grants: Seq<Grant>) -> Set<Grant> {
    Set::new(|g: Grant| grants.contains(g))
}

/// The role of `peer`, if it has any: the owner and the admins are admins,
/// everyone else whom an admin invited is a member.
pub open spec fn role_of(owner: PeerId, grants: Set<Grant>, peer: PeerId) -> Option<Role> {
    if is_admin(owner, grants, peer) {
        Some(Role::Admin)
    } else if is_invited(owner, grants, peer) {
        Some(Role::Member)
    } else {
        None
    }
}

fn holds(peers: &Vec<PeerId>, peer: &PeerId) -> (found: bool)
    ensures
        found == peers@.contains(*peer),
{
    let mut i: usize = 0;
    while i < peers.len()
        invariant
            i <= peers@.len(),
            forall|j: int| 0 <= j < i ==> peers@[j] != *peer,
        decreases peers@.len() - i,
    {
        if same_peer(&peers[i], peer) {
            assert(peers@[i as int] == *peer);
            return true;
        }
        i = i + 1;
    }
    false
}

/// `peer` is among the first `n` of `peers`.
spec fn listed(peers: Seq<PeerId>, n: int, peer: PeerId) -> bool {
    exists|j: int| 0 <= j < n && #[trigger] peers[j] == peer
}

/// A grant that makes someone an admin who is not one yet.
spec fn promotes(grant: Grant, admins: Seq<PeerId>) -> bool {
    grant.role is Admin && admins.contains(grant.granter) && !admins.contains(grant.target)
}

fn next_promotion(grants: &[Grant], admins: &Vec<PeerId>) -> (found: Option<usize>)
    ensures
        match found {
            Some(i) => i < grants@.len() && promotes(grants@[i as int], admins@),
            None => forall|j: int|
                0 <= j < grants@.len() ==> !promotes(#[trigger] grants@[j], admins@),
        },
{
    let mut i: usize = 0;
    while i < grants.len()
        invariant
            i <= grants@.len(),
            forall|j: int| 0 <= j < i ==> !promotes(#[trigger] grants@[j], admins@),
        decreases grants@.len() - i,
    {
        let grant = &grants[i];
        if grant.role == Role::Admin && holds(admins, &grant.granter) && !holds(
            admins,
            &grant.target,
        ) {
            return Some(i);
        }
        i = i + 1;
    }
    None
}

/// How many grants are for peers that are not admins.
spec fn open_grants(grants: Seq<Grant>, admins: Seq<PeerId>) -> nat
    decreases grants.len(),
{
    if grants.len() == 0 {
        0
    } else {
        open_grants(grants.drop_last(), admins) + (if admins.contains(grants.last().target) {
            0nat
        } else {
            1nat
        })
    }
}

proof fn lemma_promotion_shrinks(grants: Seq<Grant>, admins: Seq<PeerId>, peer: PeerId)
    ensures
        open_grants(grants, admins.push(peer)) <= open_grants(grants, admins),
        !admins.contains(peer) && (exists|i: int|
            0 <= i < grants.len() && (#[trigger] grants[i]).target == peer) ==> open_grants(
            grants,
            admins.push(peer),
        ) < open_grants(grants, admins),
    decreases grants.len(),
{
    if grants.len() > 0 {
        let front = grants.drop_last();
        lemma_promotion_shrinks(front, admins, peer);
        assert forall|p: PeerId| admins.contains(p) implies #[trigger] admins.push(peer).contains(
            p,
        ) by {
            let i = choose|i: int| 0 <= i < admins.len() && admins[i] == p;
            assert(admins.push(peer)[i] == p);
        }
        assert(admins.push(peer).contains(peer)) by {
            assert(admins.push(peer)[admins.len() as int] == peer);
        }
        if exists|i: int| 0 <= i < grants.len() && (#[trigger] grants[i]).target == peer {
            let i = choose|i: int| 0 <= i < grants.len() && (#[trigger] grants[i]).target == peer;
            if i < front.len() {
                assert(front[i].target == peer);
            }
        }
    }
}

proof fn lemma_closed_under_promotion(
    owner: PeerId,
    grants: Seq<Grant>,
    admins: Seq<PeerId>,
    peer: PeerId,
    n: nat,
)
    requires
        admins.contains(owner),
        forall|j: int| 0 <= j < grants.len() ==> !promotes(#[trigger] grants[j], admins),
        admin_within(owner, granted(grants), peer, n),
    ensures
        admins.contains(peer),
    decreases n,
{
    if peer != owner {
        let g = choose|g: Grant| #[trigger]
            granted(grants).contains(g) && g.target == peer && g.role is Admin && admin_within(
                owner,
                granted(grants),
                g.granter,
                (n - 1) as nat,
            );
        lemma_closed_under_promotion(owner, grants, admins, g.granter, (n - 1) as nat);
        let i = choose|i: int| 0 <= i < grants.len() && grants[i] == g;
        assert(!promotes(grants[i], admins));
    }
}

fn admins_of(owner: PeerId, grants: &[Grant]) -> (admins: Vec<PeerId>)
    ensures
        forall|p: PeerId| #[trigger]
            admins@.contains(p) <==> is_admin(owner, granted(grants@), p),
{
    let mut admins: Vec<PeerId> = Vec::new();
    admins.push(owner);
    proof {
        assert(admins@[0] == owner);
        assert(admin_within(owner, granted(grants@), owner, 0));
    }
    loop
        invariant
            admins@.contains(owner),
            forall|p: PeerId| #[trigger] admins@.contains(p) ==> is_admin(owner, granted(grants@), p),
        ensures
            admins@.contains(owner),
            forall|p: PeerId| #[trigger] admins@.contains(p) ==> is_admin(owner, granted(grants@), p),
            forall|j: int| 0 <= j < grants@.len() ==> !promotes(#[trigger] grants@[j], admins@),
        decreases open_grants(grants@, admins@),
    {
        match next_promotion(grants, &admins) {
            Some(i) => {
                let peer = grants[i].target;
                let ghost before = admins@;
                admins.push(peer);
                proof {
                    lemma_promotion_shrinks(grants@, before, peer);
                    assert(grants@[i as int].target == peer);
                    assert(granted(grants@).contains(grants@[i as int]));
                    let granter = grants@[i as int].granter;
                    assert(is_admin(owner, granted(grants@), granter));
                    let n = choose|n: nat| admin_within(owner, granted(grants@), granter, n);
                    assert(admin_within(owner, granted(grants@), peer, n + 1));
                    assert forall|p: PeerId| #[trigger] admins@.contains(p) implies is_admin(
                        owner,
                        granted(grants@),
                        p,
                    ) by {
                        let k = choose|k: int| 0 <= k < admins@.len() && admins@[k] == p;
                        if k < before.len() {
                            assert(before[k] == p);
                            assert(before.contains(p));
                        }
                    }
                    let k = choose|k: int| 0 <= k < before.len() && before[k] == owner;
                    assert(admins@[k] == owner);
                }
            },
            None => {
                break;
            },
        }
    }
    proof {
        assert forall|p: PeerId| #[trigger] admins@.contains(p) == is_admin(owner, granted(grants@), p) by {
            if is_admin(owner, granted(grants@), p) {
                let n = choose|n: nat| admin_within(owner, granted(grants@), p, n);
                lemma_closed_under_promotion(owner, grants@, admins@, p, n);
            }
        }
    }
    admins
}

/// Everyone who may write, with their role: the owner, plus peers it or its
/// admins invited.
pub fn authorized_members(owner: PeerId, grants: &[Grant]) -> (members: Assoc<PeerId, Role>)
    ensures
        forall|p: PeerId| #[trigger]
            members@.contains_key(p) <==> role_of(owner, granted(grants@), p) is Some,
        forall|p: PeerId| #[trigger]
            members@.contains_key(p) ==> role_of(owner, granted(grants@), p) == Some(members@[p]),
{
    let admins = admins_of(owner, grants);
    let mut members: Assoc<PeerId, Role> = Assoc::new();
    let mut i: usize = 0;
    while i < grants.len()
        invariant
            i <= grants@.len(),
            forall|p: PeerId| #[trigger] admins@.contains(p) <==> is_admin(owner, granted(grants@), p),
            forall|p: PeerId| #[trigger]
                members@.contains_key(p) <==> exists|j: int|
                    0 <= j < i && (#[trigger] grants@[j]).target == p && is_admin(owner, granted(grants@), grants@[j].granter),
            forall|p: PeerId| #[trigger] members@.contains_key(p) ==> members@[p] is Member,
        decreases grants@.len() - i,
    {
        let grant = &grants[i];
        let ghost before = members@;
        if holds(&admins, &grant.granter) {
            members.insert(grant.target, Role::Member);
        }
        proof {
            assert forall|p: PeerId| #[trigger] members@.contains_key(p) implies exists|j: int|
                0 <= j < i + 1 && (#[trigger] grants@[j]).target == p && is_admin(owner, granted(grants@), grants@[j].granter) by {
                if before.contains_key(p) {
                    let j = choose|j: int|
                        0 <= j < i && (#[trigger] grants@[j]).target == p && is_admin(owner, granted(grants@), grants@[j].granter);
                    assert(0 <= j < i + 1 && grants@[j].target == p);
                } else {
                    assert(grants@[i as int].target == p);
                }
            }
            assert forall|p: PeerId|
                (exists|j: int|
                    0 <= j < i + 1 && (#[trigger] grants@[j]).target == p && is_admin(owner, granted(grants@), grants@[j].granter)) implies #[trigger] members@.contains_key(p) by {
                let j = choose|j: int|
                    0 <= j < i + 1 && (#[trigger] grants@[j]).target == p && is_admin(owner, granted(grants@), grants@[j].granter);
                if j < i {
                    assert(before.contains_key(p));
                }
            }
        }
        i = i + 1;
    }
    let ghost invited = members@;
    let mut k: usize = 0;
    while k < admins.len()
        invariant
            k <= admins@.len(),
            forall|p: PeerId| #[trigger]
                members@.contains_key(p) <==> invited.contains_key(p) || listed(
                    admins@,
                    k as int,
                    p,
                ),
            forall|p: PeerId| #[trigger]
                members@.contains_key(p) ==> (members@[p] is Admin <==> listed(
                    admins@,
                    k as int,
                    p,
                )),
            forall|p: PeerId| #[trigger] invited.contains_key(p) ==> invited[p] is Member,
            i == grants@.len(),
        decreases admins@.len() - k,
    {
        let ghost before = members@;
        let peer = admins[k];
        members.insert(peer, Role::Admin);
        proof {
            assert forall|p: PeerId| #[trigger]
                listed(admins@, k + 1, p) == (p == peer || listed(admins@, k as int, p)) by {
                if p == peer {
                    assert(admins@[k as int] == p);
                }
                if listed(admins@, k as int, p) {
                    let j = choose|j: int| 0 <= j < k && #[trigger] admins@[j] == p;
                    assert(0 <= j < k + 1 && admins@[j] == p);
                }
            }
        }
        k = k + 1;
    }
    proof {
        assert forall|p: PeerId| #[trigger] listed(admins@, k as int, p) == admins@.contains(
            p,
        ) by {}
        assert forall|p: PeerId| #[trigger] invited.contains_key(p) == is_invited(
            owner,
            granted(grants@),
            p,
        ) by {
            if invited.contains_key(p) {
                let j = choose|j: int|
                    0 <= j < i && (#[trigger] grants@[j]).target == p && is_admin(
                        owner,
                        granted(grants@),
                        grants@[j].granter,
                    );
                assert(granted(grants@).contains(grants@[j]));
            }
            if is_invited(owner, granted(grants@), p) {
                let g = choose|g: Grant| #[trigger]
                    granted(grants@).contains(g) && g.target == p && is_admin(
                        owner,
                        granted(grants@),
                        g.granter,
                    );
                let j = choose|j: int| 0 <= j < grants@.len() && grants@[j] == g;
                assert(0 <= j < i && grants@[j].target == p);
            }
        }
        assert forall|p: PeerId| #[trigger] members@.contains_key(p) == (role_of(
            owner,
            granted(grants@),
            p,
        ) is Some) by {
            assert(admins@.contains(p) == is_admin(owner, granted(grants@), p));
        }
        assert forall|p: PeerId| #[trigger] members@.contains_key(p) implies role_of(
            owner,
            granted(grants@),
            p,
        ) == Some(members@[p]) by {
            assert(admins@.contains(p) == is_admin(owner, granted(grants@), p));
        }
    }
    members
}

/// The owner is an admin whatever was granted.
pub proof fn owner_is_always_admin(owner: PeerId, grants: Set<Grant>)
    ensures
        role_of(owner, grants, owner) == Some(Role::Admin),
{
    assert(admin_within(owner, grants, owner, 0));
}

/// Only an admin's grant counts: a peer that was named by nobody, or only by
/// peers that are no admins, has no role, unless it is the owner.
pub proof fn only_admins_grant(owner: PeerId, grants: Set<Grant>, peer: PeerId)
    requires
        peer != owner,
        forall|g: Grant| #[trigger]
            grants.contains(g) && g.target == peer ==> !is_admin(owner, grants, g.granter),
    ensures
        role_of(owner, grants, peer) is None,
{
    if is_admin(owner, grants, peer) {
        let n = choose|n: nat| admin_within(owner, grants, peer, n);
        let g = choose|g: Grant| #[trigger]
            grants.contains(g) && g.target == peer && g.role is Admin && admin_within(
                owner,
                grants,
                g.granter,
                (n - 1) as nat,
            );
        assert(is_admin(owner, grants, g.granter));
    }
}

/// Whom the owner invites is in, with the role that the invitation names at
/// least.
pub proof fn owner_invitation_counts(owner: PeerId, grants: Set<Grant>, grant: Grant)
    requires
        grants.contains(grant),
        grant.granter == owner,
    ensures
        role_of(owner, grants, grant.target) is Some,
        grant.role is Admin ==> role_of(owner, grants, grant.target) == Some(Role::Admin),
{
    assert(admin_within(owner, grants, owner, 0));
    assert(is_admin(owner, grants, owner));
    if grant.role is Admin {
        assert(admin_within(owner, grants, grant.target, 1));
    }
}

/// A role is one byte, one for a member and two for an admin, and reads back; no other
/// byte is a role.
pub proof fn roles_read_back(role: Role, byte: u8, back: Option<Role>, other: u8, read: Option<Role>)
    requires
        call_ensures(Role::as_byte, (&role,), byte),
        call_ensures(Role::from_byte, (byte,), back),
        call_ensures(Role::from_byte, (other,), read),
    ensures
        role is Member <==> byte == 1,
        role is Admin <==> byte == 2,
        back == Some(role),
        read is Some <==> other == 1 || other == 2,
{
}

/// A membership record is named by its peer: the name reads back as the peer.
pub proof fn record_ids_name_their_peer(peer: PeerId, id: String, text: &str, back: Option<PeerId>)
    requires
        call_ensures(member_record_id, (&peer,), id),
        text@ == id@,
        call_ensures(peer_from_record_id, (text,), back),
    ensures
        id@.len() == 64,
        back matches Some(p) && p@ == peer@,
{
    crate::text::lemma_hex_digits(peer@);
    if let Some(p) = back {
        crate::text::lemma_hex_injective(p@, peer@);
    }
}

/// Who is authorized: the owner as an admin, and whom an admin granted a role, with an
/// admin's role if an admin granted that; nobody else.
pub proof fn members_are_granted_by_admins(
    owner: PeerId,
    grants: &[Grant],
    members: Assoc<PeerId, Role>,
    peer: PeerId,
    i: int,
)
    requires
        call_ensures(authorized_members, (owner, grants), members),
    ensures
        members@.contains_key(owner) && members@[owner] is Admin,
        0 <= i < grants@.len() && members@.contains_key(grants@[i].granter)
            && members@[grants@[i].granter] is Admin ==> {
            &&& members@.contains_key(grants@[i].target)
            &&& grants@[i].role is Admin ==> members@[grants@[i].target] is Admin
        },
        peer != owner && members@.contains_key(peer) ==> exists|j: int|
            0 <= j < grants@.len() && (#[trigger] grants@[j]).target == peer
                && members@.contains_key(grants@[j].granter) && members@[grants@[j].granter] is Admin
                && (members@[peer] is Admin ==> grants@[j].role is Admin),
{
    let set = granted(grants@);
    owner_is_always_admin(owner, set);
    assert(members@.contains_key(owner));
    if 0 <= i < grants@.len() && members@.contains_key(grants@[i].granter)
        && members@[grants@[i].granter] is Admin {
        let grant = grants@[i];
        assert(set.contains(grant));
        assert(is_admin(owner, set, grant.granter));
        assert(is_invited(owner, set, grant.target));
        if grant.role is Admin {
            let n = choose|n: nat| admin_within(owner, set, grant.granter, n);
            assert(admin_within(owner, set, grant.target, n + 1));
        }
        assert(members@.contains_key(grant.target));
    }
    if peer != owner && members@.contains_key(peer) {
        if members@[peer] is Admin {
            assert(is_admin(owner, set, peer));
            let n = choose|n: nat| admin_within(owner, set, peer, n);
            let g = choose|g: Grant| #[trigger]
                set.contains(g) && g.target == peer && g.role is Admin && admin_within(
                    owner,
                    set,
                    g.granter,
                    (n - 1) as nat,
                );
            assert(is_admin(owner, set, g.granter));
            assert(members@.contains_key(g.granter));
            let j = choose|j: int| 0 <= j < grants@.len() && grants@[j] == g;
            assert(grants@[j].target == peer);
        } else {
            assert(is_invited(owner, set, peer));
            let g = choose|g: Grant| #[trigger]
                set.contains(g) && g.target == peer && is_admin(owner, set, g.granter);
            assert(members@.contains_key(g.granter));
            let j = choose|j: int| 0 <= j < grants@.len() && grants@[j] == g;
            assert(grants@[j].target == peer);
        }
    }
}

proof fn lemma_admins_within(
    owner: PeerId,
    grants: Set<Grant>,
    trusted: Set<PeerId>,
    peer: PeerId,
    n: nat,
)
    requires
        trusted.contains(owner),
        forall|g: Grant| #[trigger]
            grants.contains(g) && g.role is Admin && trusted.contains(g.granter)
                ==> trusted.contains(g.target),
        admin_within(owner, grants, peer, n),
    ensures
        trusted.contains(peer),
    decreases n,
{
    if peer != owner {
        let g = choose|g: Grant| #[trigger]
            grants.contains(g) && g.target == peer && g.role is Admin && admin_within(
                owner,
                grants,
                g.granter,
                (n - 1) as nat,
            );
        lemma_admins_within(owner, grants, trusted, g.granter, (n - 1) as nat);
    }
}

/// Admins do not make each other: a set of peers that holds the owner, and whom its
/// peers grant an admin's role, holds every admin.
pub proof fn admins_descend_from_the_owner(
    owner: PeerId,
    grants: &[Grant],
    members: Assoc<PeerId, Role>,
    trusted: Set<PeerId>,
    peer: PeerId,
)
    requires
        call_ensures(authorized_members, (owner, grants), members),
        trusted.contains(owner),
        forall|i: int|
            0 <= i < grants@.len() && (#[trigger] grants@[i]).role is Admin && trusted.contains(
                grants@[i].granter,
            ) ==> trusted.contains(grants@[i].target),
        members@.contains_key(peer),
        members@[peer] is Admin,
    ensures
        trusted.contains(peer),
{
    let set = granted(grants@);
    assert(is_admin(owner, set, peer));
    let n = choose|n: nat| admin_within(owner, set, peer, n);
    assert forall|g: Grant| #[trigger]
        set.contains(g) && g.role is Admin && trusted.contains(g.granter) implies trusted.contains(
        g.target,
    ) by {
        let i = choose|i: int| 0 <= i < grants@.len() && grants@[i] == g;
        assert(grants@[i].role is Admin);
    }
    lemma_admins_within(owner, set, trusted, peer, n);
}

/// An identity signs so that its own frames verify, and a frame without a signature
/// does not.
pub proof fn only_signed_frames_verify(
    identity: Identity,
    id: PeerId,
    bytes: &[u8],
    signature: [u8; 64],
    frame: WriteFrame,
    reader: Identity,
    valid: bool,
)
    requires
        call_ensures(Identity::peer_id, (&identity,), id),
        call_ensures(Identity::sign, (&identity, bytes), signature),
        bytes@ == frame@.signed_part(),
        frame@.names_fit(),
        frame.data@.len() <= u32::MAX,
        call_ensures(Identity::verify, (&reader, &frame), valid),
    ensures
        frame.stamp.peer == id && frame.signature == Some(signature) ==> valid,
        frame.signature is None ==> !valid,
{
}

} // verus!
