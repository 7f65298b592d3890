//! A document store over the sync state, filtered by membership.
use vstd::prelude::*;
use crate::assoc::Assoc;
use crate::hlc::PeerId;
use crate::lww::Op;
use crate::membership::{
    authorized_members,
    member_record_id,
    peer_from_record_id,
    Grant,
    Identity,
    Role,
    MEMBERS_ENTITY,
};
use crate::sync_state::SyncState;
use crate::wire::WriteFrame;

verus! {

/// The records hold the membership grant `grant`: its target's membership
/// record was last written by its granter and starts with the byte of its role.
pub open spec fn grant_in(state: crate::lww::StateModel, grant: Grant) -> bool {
    match crate::lww::visible_slot(
        state,
        MEMBERS_ENTITY@,
        crate::text::hex(grant.target@),
    ) {
        Some((data, author)) => author == grant.granter && data.len() > 0 && data[0]
            == grant.role.byte(),
        None => false,
    }
}

/// All membership grants that the records hold.
pub open spec fn grants_in(state: crate::lww::StateModel) -> Set<Grant> {
    Set::new(|g: Grant| grant_in(state, g))
}

/// Records of `author` are shown: the store is open, or its membership rules
/// give the author a role.
pub open spec fn shows_author(
    owner: Option<PeerId>,
    state: crate::lww::StateModel,
    author: PeerId,
) -> bool {
    match owner {
        Some(owner) => crate::membership::role_of(owner, grants_in(state), author) is Some,
        None => true,
    }
}

/// The data of a record as the store shows it.
pub open spec fn readable(
    owner: Option<PeerId>,
    state: crate::lww::StateModel,
    entity: Seq<char>,
    id: Seq<char>,
) -> Option<Seq<u8>> {
    match crate::lww::visible_slot(state, entity, id) {
        Some((data, author)) => if shows_author(owner, state, author) {
            Some(data)
        } else {
            None
        },
        None => None,
    }
}

/// App-facing document store backed by the P2P sync engine.
///
/// Records are byte strings (serialized JSON objects) keyed by `(entity, id)`.
/// Conflict resolution is last-writer-wins per record, ordered by Hybrid
/// Logical Clock with a peer-fingerprint tiebreak.
pub struct Store {
    state: SyncState<Identity>,
    /// Genesis owner when membership filtering is enabled; `None` = open store
    /// (every validly-signed author's records are visible).
    owner: Option<PeerId>,
}

/// The frame is signed if there is an identity and its names can be framed. The
/// signature is the identity's over the signed part, and verifies with its id.
pub open spec fn signed_as(auth: Option<Identity>, frame: crate::wire::FrameModel) -> bool {
    &&& frame.signature is Some <==> auth is Some && frame.names_fit()
    &&& frame.signature matches Some(signature) ==> {
        &&& signature@ == crate::membership::ed25519_signature(
            auth->0.secret(),
            frame.signed_part(),
        )
        &&& crate::membership::ed25519_accepts(auth->0.id()@, frame.signed_part(), signature@)
    }
}

/// `after` is `before` plus one local write, whose frame is `frame`.
pub open spec fn wrote(
    before: SyncState<Identity>,
    after: SyncState<Identity>,
    frame: crate::wire::FrameModel,
    wall_ms: u64,
    op: Op,
    entity: Seq<char>,
    id: Seq<char>,
    data: Seq<u8>,
) -> bool {
    &&& after.wf()
    &&& after.auth() == before.auth()
    &&& frame == before@.local_frame(wall_ms, op, entity, id, data, frame.signature)
    &&& signed_as(before.auth(), frame)
    &&& after@ == before@.written(frame)
}

impl Store {
    /// The sync state.
    pub closed spec fn inner(&self) -> SyncState<Identity> {
        self.state
    }

    /// Whose membership rules apply.
    pub closed spec fn scope_owner(&self) -> Option<PeerId> {
        self.owner
    }

    /// The sync state is in order.
    pub open spec fn wf(&self) -> bool {
        self.inner().wf()
    }

    /// An open store without identity.
    #[must_use]
    pub fn new(self_id: PeerId) -> (store: Self)
        ensures
            store.wf(),
            store.inner()@ == crate::sync_state::SyncModel::fresh(self_id),
            store.inner().auth() is None,
            store.scope_owner() is None,
    {
        Store { state: SyncState::new(self_id), owner: None }
    }

    fn signed(identity: Identity, owner: Option<PeerId>) -> (store: Self)
        ensures
            store.wf(),
            store.inner()@ == crate::sync_state::SyncModel::fresh(identity.id()),
            store.inner().auth() == Some(identity),
            store.scope_owner() == owner,
    {
        let mut state = SyncState::new(identity.peer_id());
        state.set_auth(identity);
        Store { state, owner }
    }

    /// A store whose writes are Ed25519-signed by `identity` and whose peer id
    /// is the identity's public key. Received writes failing verification are
    /// rejected. No membership filtering — see [`Store::with_owner`].
    #[must_use]
    pub fn with_identity(identity: Identity) -> (store: Self)
        ensures
            store.wf(),
            store.inner()@ == crate::sync_state::SyncModel::fresh(identity.id()),
            store.inner().auth() == Some(identity),
            store.scope_owner() is None,
    {
        Store::signed(identity, None)
    }

    /// A store where this identity is the genesis owner of the scope. Writes are
    /// signed; reads are filtered to records authored by authorized members
    /// (the owner, plus peers it or its admins invited). See [`Store::invite`].
    #[must_use]
    pub fn with_owner(identity: Identity) -> (store: Self)
        ensures
            store.wf(),
            store.inner()@ == crate::sync_state::SyncModel::fresh(identity.id()),
            store.inner().auth() == Some(identity),
            store.scope_owner() == Some(identity.id()),
    {
        let owner = identity.peer_id();
        Store::signed(identity, Some(owner))
    }

    /// A store that joins a scope owned by `owner`. Writes are signed by
    /// `identity`; reads filter by the same membership rules. The peer becomes
    /// effective once the owner (or an admin) has invited it and that record
    /// has replicated in.
    #[must_use]
    pub fn join(identity: Identity, owner: PeerId) -> (store: Self)
        ensures
            store.wf(),
            store.inner()@ == crate::sync_state::SyncModel::fresh(identity.id()),
            store.inner().auth() == Some(identity),
            store.scope_owner() == Some(owner),
    {
        Store::signed(identity, Some(owner))
    }

    /// A store rebuilt from its persisted frames, which queues every further
    /// frame for persistence. Also returns how many frames were replayed: all
    /// of them, unless the clock has no room left.
    #[must_use]
    pub fn open(self_id: PeerId, frames: Vec<WriteFrame>) -> (opened: (Self, usize))
        ensures
            opened.0.wf(),
            opened.0.inner().auth() is None,
            opened.0.scope_owner() is None,
            opened.1 <= frames@.len(),
            opened.0.inner()@ == (crate::sync_state::SyncModel {
                durable: true,
                ..crate::sync_state::SyncModel::fresh(self_id).replayed_all(
                    crate::replog::frame_models(frames@).take(opened.1 as int),
                )
            }),
            opened.1 < frames@.len() ==> !opened.0.inner()@.can_replay(
                frames@[opened.1 as int]@,
            ),
    {
        let mut state = SyncState::new(self_id);
        let count = state.replay_all(frames);
        state.set_durable();
        (Store { state, owner: None }, count)
    }

    /// Durable + signed: as [`Store::open`], and signs with `identity` and
    /// verifies inbound writes.
    #[must_use]
    pub fn open_with_identity(identity: Identity, frames: Vec<WriteFrame>) -> (opened: (
        Self,
        usize,
    ))
        ensures
            opened.0.wf(),
            opened.0.inner().auth() == Some(identity),
            opened.0.scope_owner() is None,
            opened.1 <= frames@.len(),
            opened.0.inner()@ == (crate::sync_state::SyncModel {
                durable: true,
                ..crate::sync_state::SyncModel::fresh(identity.id()).replayed_all(
                    crate::replog::frame_models(frames@).take(opened.1 as int),
                )
            }),
            opened.1 < frames@.len() ==> !opened.0.inner()@.can_replay(
                frames@[opened.1 as int]@,
            ),
    {
        let (mut store, count) = Store::open(identity.peer_id(), frames);
        store.state.set_auth(identity);
        (store, count)
    }

    /// The underlying sync state.
    #[must_use]
    pub fn node(&self) -> (state: &SyncState<Identity>)
        ensures
            *state == self.inner(),
    {
        &self.state
    }

    /// The underlying sync state, for the sessions with other peers.
    pub fn node_mut(&mut self) -> (state: &mut SyncState<Identity>)
        ensures
            *state == old(self).inner(),
            final(self).inner() == *final(state),
            final(self).scope_owner() == old(self).scope_owner(),
    {
        &mut self.state
    }

    fn write(
        &mut self,
        wall_ms: u64,
        op: Op,
        entity: &str,
        id: &str,
        data: Vec<u8>,
    ) -> (frame: WriteFrame)
        requires
            old(self).wf(),
            old(self).inner().can_write(wall_ms, entity@, id@, data@),
        ensures
            final(self).scope_owner() == old(self).scope_owner(),
            wrote(
                old(self).inner(),
                final(self).inner(),
                frame@,
                wall_ms,
                op,
                entity@,
                id@,
                data@,
            ),
    {
        self.state.local_write(wall_ms, op, entity, id, data)
    }

    /// Insert or replace a record. Returns the frame to broadcast.
    pub fn create(&mut self, wall_ms: u64, entity: &str, id: &str, record: Vec<u8>) -> (frame:
        WriteFrame)
        requires
            old(self).wf(),
            old(self).inner().can_write(wall_ms, entity@, id@, record@),
        ensures
            final(self).wf(),
            final(self).scope_owner() == old(self).scope_owner(),
            wrote(
                old(self).inner(),
                final(self).inner(),
                frame@,
                wall_ms,
                Op::Insert,
                entity@,
                id@,
                record@,
            ),
    {
        self.write(wall_ms, Op::Insert, entity, id, record)
    }

    /// Read a record from local converged state. When the store has an owner,
    /// records authored by non-members are filtered out.
    #[must_use]
    pub fn read(&self, entity: &str, id: &str) -> (record: Option<Vec<u8>>)
        ensures
            match record {
                Some(data) => readable(
                    self.scope_owner(),
                    self.inner()@.state,
                    entity@,
                    id@,
                ) == Some(data@),
                None => readable(self.scope_owner(), self.inner()@.state, entity@, id@) is None,
            },
    {
        match self.state.visible_with_author(entity, id) {
            Some((data, author)) => if self.author_authorized(&author) {
                Some(data)
            } else {
                None
            },
            None => None,
        }
    }

    /// Replaces a record by the merge of its fields with new ones, which
    /// [`crate::json::merge_fields`] computes from what [`Store::read`] gives.
    /// Returns the frame to broadcast.
    pub fn update(&mut self, wall_ms: u64, entity: &str, id: &str, merged: Vec<u8>) -> (frame:
        WriteFrame)
        requires
            old(self).wf(),
            old(self).inner().can_write(wall_ms, entity@, id@, merged@),
        ensures
            final(self).wf(),
            final(self).scope_owner() == old(self).scope_owner(),
            wrote(
                old(self).inner(),
                final(self).inner(),
                frame@,
                wall_ms,
                Op::Update,
                entity@,
                id@,
                merged@,
            ),
    {
        self.write(wall_ms, Op::Update, entity, id, merged)
    }

    /// Delete a record (writes a tombstone). Returns the frame to broadcast.
    pub fn delete(&mut self, wall_ms: u64, entity: &str, id: &str) -> (frame: WriteFrame)
        requires
            old(self).wf(),
            old(self).inner().can_write(wall_ms, entity@, id@, Seq::empty()),
        ensures
            final(self).wf(),
            final(self).scope_owner() == old(self).scope_owner(),
            wrote(
                old(self).inner(),
                final(self).inner(),
                frame@,
                wall_ms,
                Op::Delete,
                entity@,
                id@,
                Seq::empty(),
            ),
    {
        self.write(wall_ms, Op::Delete, entity, id, Vec::new())
    }

    /// All visible `(id, record)` pairs of an entity, filtered to authorized
    /// authors when the store has an owner.
    #[must_use]
    pub fn entries(&self, entity: &str) -> (rows: Vec<(String, Vec<u8>)>)
        ensures
            forall|i: int, j: int|
                0 <= i < j < rows@.len() ==> (#[trigger] rows@[i]).0@ != (#[trigger] rows@[j]).0@,
            forall|i: int|
                0 <= i < rows@.len() ==> readable(
                    self.scope_owner(),
                    self.inner()@.state,
                    entity@,
                    (#[trigger] rows@[i]).0@,
                ) == Some(rows@[i].1@),
            forall|id: Seq<char>| #[trigger]
                readable(self.scope_owner(), self.inner()@.state, entity@, id) is Some ==> exists|
                    i: int,
                |
                    0 <= i < rows@.len() && (#[trigger] rows@[i]).0@ == id,
    {
        let authorized = self.authorized_authors();
        let all = self.state.entries_with_authors(entity);
        let ghost owner = self.scope_owner();
        let ghost state = self.inner()@.state;
        let mut out: Vec<(String, Vec<u8>)> = Vec::new();
        let ghost mut from: Seq<int> = Seq::empty();
        let mut i: usize = 0;
        while i < all.len()
            invariant
                i <= all@.len(),
                owner == self.scope_owner(),
                state == self.inner()@.state,
                crate::lww::lists_entity(state, entity@, all@),
                match authorized {
                    Some(members) => owner is Some && forall|p: PeerId| #[trigger]
                        members@.contains_key(p) <==> crate::membership::role_of(
                            owner->0,
                            grants_in(state),
                            p,
                        ) is Some,
                    None => owner is None,
                },
                from.len() == out@.len(),
                forall|k: int|
                    0 <= k < out@.len() ==> 0 <= #[trigger] from[k] < i && out@[k].0@
                        == all@[from[k]].0@ && out@[k].1@ == all@[from[k]].1@ && shows_author(
                        owner,
                        state,
                        all@[from[k]].2,
                    ),
                forall|k: int, l: int| 0 <= k < l < from.len() ==> from[k] < from[l],
                forall|j: int|
                    0 <= j < i && shows_author(owner, state, (#[trigger] all@[j]).2) ==> exists|
                        k: int,
                    |
                        0 <= k < from.len() && #[trigger] from[k] == j,
            decreases all@.len() - i,
        {
            let row = &all[i];
            let keep = match &authorized {
                Some(members) => members.contains_key(&row.2),
                None => true,
            };
            assert(keep == shows_author(owner, state, row.2));
            let ghost before = from;
            if keep {
                out.push((row.0.clone(), row.1.clone()));
                proof {
                    from = from.push(i as int);
                }
            }
            proof {
                assert forall|j: int|
                    0 <= j < i + 1 && shows_author(
                        owner,
                        state,
                        (#[trigger] all@[j]).2,
                    ) implies exists|k: int| 0 <= k < from.len() && #[trigger] from[k] == j by {
                    if j < i {
                        let k = choose|k: int| 0 <= k < before.len() && #[trigger] before[k] == j;
                        assert(from[k] == j);
                    } else {
                        assert(from[before.len() as int] == j);
                    }
                }
            }
            i = i + 1;
        }
        proof {
            assert forall|k: int, l: int| 0 <= k < l < out@.len() implies (
            #[trigger] out@[k]).0@ != (#[trigger] out@[l]).0@ by {
                assert(from[k] < from[l]);
                assert(all@[from[k]].0@ != all@[from[l]].0@);
            }
            assert forall|k: int| 0 <= k < out@.len() implies readable(
                owner,
                state,
                entity@,
                (#[trigger] out@[k]).0@,
            ) == Some(out@[k].1@) by {
                assert(0 <= from[k] < i);
                assert(crate::lww::visible_slot(state, entity@, all@[from[k]].0@) == Some(
                    (all@[from[k]].1@, all@[from[k]].2),
                ));
            }
            assert forall|id: Seq<char>| #[trigger]
                readable(owner, state, entity@, id) is Some implies exists|k: int|
                0 <= k < out@.len() && (#[trigger] out@[k]).0@ == id by {
                assert(crate::lww::visible_slot(state, entity@, id) is Some);
                let j = choose|j: int| 0 <= j < all@.len() && (#[trigger] all@[j]).0@ == id;
                assert(shows_author(owner, state, all@[j].2));
                let k = choose|k: int| 0 <= k < from.len() && #[trigger] from[k] == j;
                assert(out@[k].0@ == id);
            }
        }
        out
    }

    /// All visible records of an entity, filtered to authorized authors when the
    /// store has an owner.
    #[must_use]
    pub fn list(&self, entity: &str) -> (records: Vec<Vec<u8>>)
        ensures
            exists|ids: Seq<Seq<char>>| #[trigger]
                lists_records(
                    self.scope_owner(),
                    self.inner()@.state,
                    entity@,
                    ids,
                    records@,
                ),
    {
        let rows = self.entries(entity);
        let ghost ids = Seq::new(rows@.len(), |i: int| rows@[i].0@);
        let mut out: Vec<Vec<u8>> = Vec::new();
        let mut i: usize = 0;
        while i < rows.len()
            invariant
                i <= rows@.len(),
                out@.len() == i,
                forall|j: int| 0 <= j < i ==> (#[trigger] out@[j])@ == rows@[j].1@,
            decreases rows@.len() - i,
        {
            out.push(rows[i].1.clone());
            i = i + 1;
        }
        proof {
            let owner = self.scope_owner();
            let state = self.inner()@.state;
            assert forall|i: int, j: int| 0 <= i < j < ids.len() implies ids[i] != ids[j] by {
                assert(rows@[i].0@ != rows@[j].0@);
            }
            assert forall|i: int| 0 <= i < ids.len() implies readable(
                owner,
                state,
                entity@,
                #[trigger] ids[i],
            ) == Some(out@[i]@) by {
                assert(readable(owner, state, entity@, rows@[i].0@) == Some(rows@[i].1@));
            }
            assert forall|id: Seq<char>| #[trigger]
                readable(owner, state, entity@, id) is Some implies ids.contains(id) by {
                let i = choose|i: int| 0 <= i < rows@.len() && (#[trigger] rows@[i]).0@ == id;
                assert(ids[i] == id);
            }
            assert(lists_records(owner, state, entity@, ids, out@));
        }
        out
    }

    /// Invite a peer at `role` (owner/admin only — enforced when authorization
    /// is evaluated). No-op semantics if the caller lacks authority: the record
    /// is written but ignored by [`authorized_members`].
    pub fn invite(&mut self, wall_ms: u64, target: PeerId, role: Role) -> (frame: WriteFrame)
        requires
            old(self).wf(),
            old(self).inner().can_write(
                wall_ms,
                MEMBERS_ENTITY@,
                crate::text::hex(target@),
                seq![role.byte()],
            ),
        ensures
            final(self).wf(),
            final(self).scope_owner() == old(self).scope_owner(),
            wrote(
                old(self).inner(),
                final(self).inner(),
                frame@,
                wall_ms,
                Op::Insert,
                MEMBERS_ENTITY@,
                crate::text::hex(target@),
                seq![role.byte()],
            ),
    {
        let id = member_record_id(&target);
        let mut data: Vec<u8> = Vec::new();
        data.push(role.as_byte());
        assert(data@ =~= seq![role.byte()]);
        self.write(wall_ms, Op::Insert, MEMBERS_ENTITY, id.as_str(), data)
    }

    /// Revoke a peer's membership.
    pub fn revoke(&mut self, wall_ms: u64, target: PeerId) -> (frame: WriteFrame)
        requires
            old(self).wf(),
            old(self).inner().can_write(
                wall_ms,
                MEMBERS_ENTITY@,
                crate::text::hex(target@),
                Seq::empty(),
            ),
        ensures
            final(self).wf(),
            final(self).scope_owner() == old(self).scope_owner(),
            wrote(
                old(self).inner(),
                final(self).inner(),
                frame@,
                wall_ms,
                Op::Delete,
                MEMBERS_ENTITY@,
                crate::text::hex(target@),
                Seq::empty(),
            ),
    {
        let id = member_record_id(&target);
        self.write(wall_ms, Op::Delete, MEMBERS_ENTITY, id.as_str(), Vec::new())
    }

    /// Whether the store shows records of `author`.
    pub fn author_authorized(&self, author: &PeerId) -> (authorized: bool)
        ensures
            authorized == shows_author(self.scope_owner(), self.inner()@.state, *author),
    {
        match self.authorized_authors() {
            Some(members) => members.contains_key(author),
            None => true,
        }
    }

    /// Everyone whose records the store shows, with their role; nothing when
    /// the store has no owner and shows everyone's.
    pub fn authorized_authors(&self) -> (members: Option<Assoc<PeerId, Role>>)
        ensures
            members is Some <==> self.scope_owner() is Some,
            members matches Some(m) ==> forall|p: PeerId| #[trigger]
                m@.contains_key(p) <==> crate::membership::role_of(
                    self.scope_owner()->0,
                    grants_in(self.inner()@.state),
                    p,
                ) is Some,
            members matches Some(m) ==> forall|p: PeerId| #[trigger]
                m@.contains_key(p) ==> crate::membership::role_of(
                    self.scope_owner()->0,
                    grants_in(self.inner()@.state),
                    p,
                ) == Some(m@[p]),
    {
        let owner = match self.owner {
            Some(owner) => owner,
            None => return None,
        };
        let rows = self.state.entries_with_authors(MEMBERS_ENTITY);
        let grants = grants_of(&rows);
        proof {
            lemma_grants_of(self.inner()@.state, rows@, grants@);
        }
        Some(authorized_members(owner, grants.as_slice()))
    }
}

/// The records are those that the store shows of an entity, each once; their
/// ids are `ids`.
pub open spec fn lists_records(
    owner: Option<PeerId>,
    state: crate::lww::StateModel,
    entity: Seq<char>,
    ids: Seq<Seq<char>>,
    records: Seq<Vec<u8>>,
) -> bool {
    &&& ids.len() == records.len()
    &&& forall|i: int, j: int| 0 <= i < j < ids.len() ==> ids[i] != ids[j]
    &&& forall|i: int|
        0 <= i < ids.len() ==> readable(owner, state, entity, #[trigger] ids[i]) == Some(
            records[i]@,
        )
    &&& forall|id: Seq<char>| #[trigger]
        readable(owner, state, entity, id) is Some ==> ids.contains(id)
}

/// The grant that a membership record stands for.
spec fn row_grant(row: (String, Vec<u8>, PeerId), grant: Grant) -> bool {
    &&& row.0@ == crate::text::hex(grant.target@)
    &&& row.1@.len() > 0
    &&& row.1@[0] == grant.role.byte()
    &&& row.2 == grant.granter
}

/// Reads the grants out of membership records; malformed ones are skipped.
fn grants_of(rows: &Vec<(String, Vec<u8>, PeerId)>) -> (grants: Vec<Grant>)
    ensures
        forall|g: Grant| #[trigger]
            grants@.contains(g) <==> exists|i: int| 0 <= i < rows@.len() && row_grant(
                #[trigger] rows@[i],
                g,
            ),
{
    let mut grants: Vec<Grant> = Vec::new();
    let mut i: usize = 0;
    while i < rows.len()
        invariant
            i <= rows@.len(),
            forall|g: Grant| #[trigger]
                grants@.contains(g) <==> exists|j: int| 0 <= j < i && row_grant(
                    #[trigger] rows@[j],
                    g,
                ),
        decreases rows@.len() - i,
    {
        let row = &rows[i];
        let ghost before = grants@;
        let found = match peer_from_record_id(row.0.as_str()) {
            Some(target) => if row.1.len() > 0 {
                match Role::from_byte(row.1[0]) {
                    Some(role) => Some(Grant { target, granter: row.2, role }),
                    None => None,
                }
            } else {
                None
            },
            None => None,
        };
        proof {
            assert forall|g: Grant| row_grant(*row, g) implies found == Some(g) by {
                let t = found->0.target;
                assert(found is Some);
                crate::text::lemma_hex_injective(t@, g.target@);
                assert(t =~= g.target);
            }
        }
        if let Some(grant) = found {
            grants.push(grant);
            assert(row_grant(*row, grant));
            assert(grants@[before.len() as int] == grant);
        }
        proof {
            assert forall|g: Grant| #[trigger] grants@.contains(g) implies exists|j: int|
                0 <= j < i + 1 && row_grant(#[trigger] rows@[j], g) by {
                let k = choose|k: int| 0 <= k < grants@.len() && grants@[k] == g;
                if k < before.len() {
                    assert(before[k] == g);
                    assert(before.contains(g));
                    let j = choose|j: int| 0 <= j < i && row_grant(#[trigger] rows@[j], g);
                    assert(row_grant(rows@[j], g));
                } else {
                    assert(row_grant(rows@[i as int], g));
                }
            }
            assert forall|g: Grant|
                (exists|j: int| 0 <= j < i + 1 && row_grant(
                    #[trigger] rows@[j],
                    g,
                )) implies #[trigger] grants@.contains(g) by {
                let j = choose|j: int| 0 <= j < i + 1 && row_grant(#[trigger] rows@[j], g);
                if j < i {
                    assert(before.contains(g));
                    let k = choose|k: int| 0 <= k < before.len() && before[k] == g;
                    assert(grants@[k] == g);
                }
            }
        }
        i = i + 1;
    }
    grants
}

proof fn lemma_grants_of(
    state: crate::lww::StateModel,
    rows: Seq<(String, Vec<u8>, PeerId)>,
    grants: Seq<Grant>,
)
    requires
        crate::lww::lists_entity(state, MEMBERS_ENTITY@, rows),
        forall|g: Grant| #[trigger]
            grants.contains(g) <==> exists|i: int| 0 <= i < rows.len() && row_grant(
                #[trigger] rows[i],
                g,
            ),
    ensures
        crate::membership::granted(grants) == grants_in(state),
{
    assert forall|g: Grant| grants.contains(g) == #[trigger] grant_in(state, g) by {
        let id = crate::text::hex(g.target@);
        if grants.contains(g) {
            let i = choose|i: int| 0 <= i < rows.len() && row_grant(#[trigger] rows[i], g);
            assert(crate::lww::visible_slot(state, MEMBERS_ENTITY@, rows[i].0@) == Some(
                (rows[i].1@, rows[i].2),
            ));
        }
        if grant_in(state, g) {
            assert(crate::lww::visible_slot(state, MEMBERS_ENTITY@, id) is Some);
            let i = choose|i: int| 0 <= i < rows.len() && (#[trigger] rows[i]).0@ == id;
            assert(crate::lww::visible_slot(state, MEMBERS_ENTITY@, rows[i].0@) == Some(
                (rows[i].1@, rows[i].2),
            ));
            assert(row_grant(rows[i], g));
        }
    }
    assert(crate::membership::granted(grants) =~= grants_in(state));
}

/// A store reads back what it wrote, as long as the writer is authorized.
pub proof fn reads_back_what_was_written(
    owner: Option<PeerId>,
    before: crate::sync_state::SyncModel,
    wall_ms: u64,
    op: Op,
    entity: Seq<char>,
    id: Seq<char>,
    data: Seq<u8>,
    signature: Option<[u8; 64]>,
)
    requires
        before.ok(),
        before.clock.can_tick(wall_ms),
        crate::replog::cursor(before.log, before.self_id) < u64::MAX,
        !(op is Delete),
    ensures
        ({
            let after = before.written(
                before.local_frame(wall_ms, op, entity, id, data, signature),
            );
            readable(owner, after.state, entity, id) == (if shows_author(
                owner,
                after.state,
                before.self_id,
            ) {
                Some(data)
            } else {
                None
            })
        }),
{
    crate::convergence::local_write_is_visible(before, wall_ms, op, entity, id, data, signature);
}

/// Signed stores verify each other's writes: a frame that a store makes under its
/// own identity is accepted by every store that has one.
pub proof fn written_frames_verify(
    before: SyncState<Identity>,
    after: SyncState<Identity>,
    frame: WriteFrame,
    wall_ms: u64,
    op: Op,
    entity: Seq<char>,
    id: Seq<char>,
    data: Seq<u8>,
    reader: Identity,
    verdict: bool,
)
    requires
        wrote(before, after, frame@, wall_ms, op, entity, id, data),
        before.auth() matches Some(identity) && identity.id() == before@.self_id,
        frame@.names_fit(),
        data.len() <= u32::MAX,
        crate::sync_state::judged(Some(reader), frame, verdict),
    ensures
        crate::membership::frame_verifies(frame@),
        verdict,
{
}

/// A deleted record is gone, whoever wrote it.
pub proof fn deleted_record_is_gone(
    owner: Option<PeerId>,
    before: crate::sync_state::SyncModel,
    wall_ms: u64,
    entity: Seq<char>,
    id: Seq<char>,
    data: Seq<u8>,
    signature: Option<[u8; 64]>,
)
    requires
        before.ok(),
        before.clock.can_tick(wall_ms),
        crate::replog::cursor(before.log, before.self_id) < u64::MAX,
    ensures
        readable(
            owner,
            before.written(
                before.local_frame(wall_ms, Op::Delete, entity, id, data, signature),
            ).state,
            entity,
            id,
        ) is None,
{
    crate::convergence::local_write_is_visible(
        before,
        wall_ms,
        Op::Delete,
        entity,
        id,
        data,
        signature,
    );
}

/// Membership: whom the owner invites is authorized from then on.
pub proof fn owner_invitation_authorizes(
    before: crate::sync_state::SyncModel,
    wall_ms: u64,
    target: PeerId,
    role: Role,
    signature: Option<[u8; 64]>,
)
    requires
        before.ok(),
        before.clock.can_tick(wall_ms),
        crate::replog::cursor(before.log, before.self_id) < u64::MAX,
    ensures
        shows_author(
            Some(before.self_id),
            before.written(
                before.local_frame(
                    wall_ms,
                    Op::Insert,
                    MEMBERS_ENTITY@,
                    crate::text::hex(target@),
                    seq![role.byte()],
                    signature,
                ),
            ).state,
            target,
        ),
{
    let id = crate::text::hex(target@);
    let data = seq![role.byte()];
    crate::convergence::local_write_is_visible(
        before,
        wall_ms,
        Op::Insert,
        MEMBERS_ENTITY@,
        id,
        data,
        signature,
    );
    let after = before.written(
        before.local_frame(wall_ms, Op::Insert, MEMBERS_ENTITY@, id, data, signature),
    );
    let grant = Grant { target, granter: before.self_id, role };
    assert(grant_in(after.state, grant));
    crate::membership::owner_invitation_counts(before.self_id, grants_in(after.state), grant);
}

/// Membership: a peer whose membership record was deleted is no longer
/// authorized, unless it is the owner: all its records are hidden.
pub proof fn revocation_hides_the_peer(
    owner: PeerId,
    before: crate::sync_state::SyncModel,
    wall_ms: u64,
    target: PeerId,
    data: Seq<u8>,
    signature: Option<[u8; 64]>,
    entity: Seq<char>,
    id: Seq<char>,
)
    requires
        before.ok(),
        before.clock.can_tick(wall_ms),
        crate::replog::cursor(before.log, before.self_id) < u64::MAX,
        target != owner,
    ensures
        ({
            let after = before.written(
                before.local_frame(
                    wall_ms,
                    Op::Delete,
                    MEMBERS_ENTITY@,
                    crate::text::hex(target@),
                    data,
                    signature,
                ),
            ).state;
            &&& !shows_author(Some(owner), after, target)
            &&& match crate::lww::visible_slot(after, entity, id) {
                Some((_, author)) => author == target ==> readable(
                    Some(owner),
                    after,
                    entity,
                    id,
                ) is None,
                None => true,
            }
        }),
{
    crate::convergence::local_write_is_visible(
        before,
        wall_ms,
        Op::Delete,
        MEMBERS_ENTITY@,
        crate::text::hex(target@),
        data,
        signature,
    );
    let after = before.written(
        before.local_frame(
            wall_ms,
            Op::Delete,
            MEMBERS_ENTITY@,
            crate::text::hex(target@),
            data,
            signature,
        ),
    ).state;
    assert forall|g: Grant| #[trigger]
        grants_in(after).contains(g) && g.target == target implies !crate::membership::is_admin(
        owner,
        grants_in(after),
        g.granter,
    ) by {
        assert(grant_in(after, g));
    }
    crate::membership::only_admins_grant(owner, grants_in(after), target);
}

/// What a subscriber of a store gets: after a write the events that wait end with
/// one that names the operation and the record, is local, and carries the data that
/// was written, or none for a delete.
pub proof fn subscribers_get_local_writes(
    state: &mut SyncState<Identity>,
    wall_ms: u64,
    op: Op,
    entity: &str,
    id: &str,
    data: Vec<u8>,
    frame: WriteFrame,
    taker: &mut SyncState<Identity>,
    events: Vec<crate::sync_state::MutationEvent>,
)
    requires
        old(state).wf(),
        old(state).can_write(wall_ms, entity@, id@, data@),
        call_ensures(
            SyncState::<Identity>::local_write,
            (state, wall_ms, op, entity, id, data),
            frame,
        ),
        *old(taker) == *final(state),
        call_ensures(SyncState::<Identity>::take_events, (taker,), events),
    ensures
        events@.len() == old(state)@.events.len() + 1,
        forall|i: int|
            0 <= i < old(state)@.events.len() ==> (#[trigger] events@[i])@ == old(state)@.events[i],
        ({
            let event = events@.last();
            &&& event.op == op
            &&& event.entity@ == entity@
            &&& event.id@ == id@
            &&& event.origin is Local
            &&& op is Delete ==> event.data is None
            &&& !(op is Delete) ==> (event.data matches Some(bytes) && bytes@ == data@)
        }),
        final(taker)@.events.len() == 0,
{
    crate::sync_state::local_writes_are_announced(
        old(state)@,
        wall_ms,
        op,
        entity@,
        id@,
        data@,
        frame@.signature,
    );
    let models = crate::sync_state::event_models(events@);
    assert(models.len() == events@.len());
    assert forall|i: int| 0 <= i < old(state)@.events.len() implies (#[trigger] events@[i])@ == old(state)@.events[i] by {
        assert(models[i] == events@[i]@);
        assert(final(state)@.events.take(old(state)@.events.len() as int)[i] == old(state)@.events[i]);
    }
    let last = events@.len() - 1;
    assert(models[last] == events@[last]@);
}

/// What a subscriber of a store gets of other peers: a received frame that is later
/// than what the record held gives one event, marked as remote, with the data of the
/// frame, or none for a delete. Frames that are refused, come too early or again, or
/// are earlier give none.
pub proof fn subscribers_get_remote_writes(
    state: &mut SyncState<Identity>,
    frame: WriteFrame,
    wall_ms: u64,
    verified: bool,
    outcome: crate::replog::RecordOutcome,
    taker: &mut SyncState<Identity>,
    events: Vec<crate::sync_state::MutationEvent>,
)
    requires
        old(state).wf(),
        verified ==> old(state)@.clock.can_observe(frame@.stamp.hlc, wall_ms),
        call_ensures(
            SyncState::<Identity>::receive_checked,
            (state, frame, wall_ms, verified),
            outcome,
        ),
        *old(taker) == *final(state),
        call_ensures(SyncState::<Identity>::take_events, (taker,), events),
        old(state)@.events.len() == 0,
    ensures
        ({
            let key = (frame.entity@, frame.id@);
            let next = verified && frame.seq == crate::replog::cursor(
                old(state)@.log,
                frame.stamp.peer,
            ) + 1;
            let later = old(state)@.state.contains_key(key) ==> old(state)@.state[key].stamp.before(frame.stamp);
            &&& outcome is Appended <==> next
            &&& !verified ==> outcome is Rejected
            &&& !(next && later) ==> events@.len() == 0
            &&& next && later ==> {
                let event = events@[0];
                &&& events@.len() == 1
                &&& event.op == frame.op
                &&& event.entity@ == frame.entity@
                &&& event.id@ == frame.id@
                &&& event.origin is Remote
                &&& frame.op is Delete ==> event.data is None
                &&& !(frame.op is Delete) ==> (event.data matches Some(bytes) && bytes@
                    == frame.data@)
            }
        }),
{
    crate::sync_state::received_changes_are_announced(old(state)@, frame@, wall_ms, verified);
    if old(state)@.log.contains_key(frame.stamp.peer) {
        assert(crate::replog::origin_ok(
            frame.stamp.peer,
            old(state)@.log[frame.stamp.peer],
        ));
    }
    let models = crate::sync_state::event_models(events@);
    assert(models.len() == events@.len());
    if events@.len() > 0 {
        assert(models[0] == events@[0]@);
    }
}

/// A peer serves its writes as it made them: the frame that a local write returned
/// is among the frames that are sent to a peer whose cursor is below it.
pub proof fn writes_are_served_as_made(
    state: &mut SyncState<Identity>,
    wall_ms: u64,
    op: Op,
    entity: &str,
    id: &str,
    data: Vec<u8>,
    frame: WriteFrame,
    server: &SyncState<Identity>,
    their: &crate::replog::Cursors,
    delta: Vec<WriteFrame>,
)
    requires
        old(state).wf(),
        old(state).can_write(wall_ms, entity@, id@, data@),
        call_ensures(
            SyncState::<Identity>::local_write,
            (state, wall_ms, op, entity, id, data),
            frame,
        ),
        *server == *final(state),
        call_ensures(SyncState::<Identity>::delta_since, (server, their), delta),
        !their@.contains_key(old(state)@.self_id) || their@[old(state)@.self_id] < frame.seq,
    ensures
        exists|i: int| 0 <= i < delta@.len() && (#[trigger] delta@[i])@ == frame@,
        frame.op == op,
        frame.entity@ == entity@,
        frame.id@ == id@,
        frame.data@ == data@,
        frame.stamp.peer == old(state)@.self_id,
{
    let before = old(state)@;
    let after = final(state)@;
    let me = before.self_id;
    crate::sync_state::local_frames_say_what_was_written(
        before,
        wall_ms,
        op,
        entity@,
        id@,
        data@,
        frame@.signature,
    );
    assert(crate::replog::origin_ok(me, after.log[me]));
    let from = crate::replog::reported(their@, me);
    crate::replog::served_frames_are_those_above_the_cursor(after.log, me, from);
    let frames = after.log[me].frames;
    let served = crate::replog::unseen(after.log, me, from);
    let models = crate::replog::frame_models(delta@);
    assert(crate::replog::of_origin(models, me) == served);
    assert(frames[frames.len() - 1] == frame@);
    assert(served.len() > 0);
    assert(served[served.len() - 1] == frame@);
    crate::convergence::frames_of_an_origin_stand_in_the_list(models, me);
    assert(models.contains(crate::replog::of_origin(models, me)[served.len() - 1]));
    let i = choose|i: int| 0 <= i < models.len() && models[i] == frame@;
    assert(delta@[i]@ == frame@);
}

/// A store reads back what it writes: after creating or updating a record an open
/// store shows exactly the data that was given, and after deleting it nothing. No
/// other record changes.
pub proof fn open_stores_read_back_their_writes(
    store: &mut Store,
    wall_ms: u64,
    entity: &str,
    id: &str,
    data: Vec<u8>,
    frame: WriteFrame,
    reader: &Store,
    record: Option<Vec<u8>>,
    other_entity: Seq<char>,
    other_id: Seq<char>,
)
    requires
        old(store).wf(),
        old(store).scope_owner() is None,
        old(store).inner().can_write(wall_ms, entity@, id@, data@),
        call_ensures(Store::create, (store, wall_ms, entity, id, data), frame) || call_ensures(
            Store::update,
            (store, wall_ms, entity, id, data),
            frame,
        ),
        *reader == *final(store),
        call_ensures(Store::read, (reader, entity, id), record),
    ensures
        record matches Some(bytes) && bytes@ == data@,
        frame.data@ == data@,
        !(frame.op is Delete),
        (other_entity, other_id) != (entity@, id@) ==> readable(
            None,
            final(store).inner()@.state,
            other_entity,
            other_id,
        ) == readable(None, old(store).inner()@.state, other_entity, other_id),
{
    let before = old(store).inner()@;
    crate::convergence::local_write_is_visible(
        before,
        wall_ms,
        frame.op,
        entity@,
        id@,
        data@,
        frame@.signature,
    );
    if (other_entity, other_id) != (entity@, id@) {
        crate::convergence::local_write_leaves_other_records(
            before,
            frame@,
            other_entity,
            other_id,
        );
    }
}

/// After a delete the record cannot be read.
pub proof fn stores_do_not_read_deleted_records(
    store: &mut Store,
    wall_ms: u64,
    entity: &str,
    id: &str,
    frame: WriteFrame,
    reader: &Store,
    record: Option<Vec<u8>>,
)
    requires
        old(store).wf(),
        old(store).inner().can_write(wall_ms, entity@, id@, Seq::empty()),
        call_ensures(Store::delete, (store, wall_ms, entity, id), frame),
        *reader == *final(store),
        call_ensures(Store::read, (reader, entity, id), record),
    ensures
        record is None,
        frame.op is Delete,
        frame.entity@ == entity@,
        frame.id@ == id@,
{
    crate::convergence::local_write_is_visible(
        old(store).inner()@,
        wall_ms,
        Op::Delete,
        entity@,
        id@,
        Seq::empty(),
        frame@.signature,
    );
}

/// Listing and reading agree: a record can be read exactly if it is listed, with the
/// same data, and no record is listed twice.
pub proof fn listings_are_what_can_be_read(
    store: &Store,
    entity: &str,
    id: &str,
    record: Option<Vec<u8>>,
    rows: Vec<(String, Vec<u8>)>,
)
    requires
        call_ensures(Store::read, (store, entity, id), record),
        call_ensures(Store::entries, (store, entity), rows),
    ensures
        record matches Some(bytes) ==> exists|i: int|
            0 <= i < rows@.len() && (#[trigger] rows@[i]).0@ == id@ && rows@[i].1@ == bytes@,
        record is None ==> forall|i: int|
            0 <= i < rows@.len() ==> (#[trigger] rows@[i]).0@ != id@,
        forall|i: int, j: int|
            0 <= i < j < rows@.len() ==> (#[trigger] rows@[i]).0@ != (#[trigger] rows@[j]).0@,
{
    if let Some(bytes) = record {
        assert(readable(store.scope_owner(), store.inner()@.state, entity@, id@) is Some);
        let i = choose|i: int| 0 <= i < rows@.len() && (#[trigger] rows@[i]).0@ == id@;
        assert(readable(store.scope_owner(), store.inner()@.state, entity@, rows@[i].0@) == Some(
            rows@[i].1@,
        ));
    } else {
        assert forall|i: int| 0 <= i < rows@.len() implies (#[trigger] rows@[i]).0@ != id@ by {
            assert(readable(
                store.scope_owner(),
                store.inner()@.state,
                entity@,
                rows@[i].0@,
            ) == Some(rows@[i].1@));
        }
    }
}

/// Membership decides what a store with an owner shows: a record is shown with its
/// data if its author is the owner or was granted a role by an admin, and is not
/// shown otherwise. A store without an owner shows every record.
pub proof fn authors_decide_what_is_shown(
    owner: PeerId,
    state: crate::lww::StateModel,
    entity: Seq<char>,
    id: Seq<char>,
    data: Seq<u8>,
    author: PeerId,
)
    requires
        crate::lww::visible_slot(state, entity, id) == Some((data, author)),
    ensures
        readable(None, state, entity, id) == Some(data),
        author == owner ==> readable(Some(owner), state, entity, id) == Some(data),
        (exists|g: Grant| #[trigger]
            grants_in(state).contains(g) && g.target == author && crate::membership::is_admin(
                owner,
                grants_in(state),
                g.granter,
            )) ==> readable(Some(owner), state, entity, id) == Some(data),
        author != owner && (forall|g: Grant| #[trigger]
            grants_in(state).contains(g) && g.target == author ==> !crate::membership::is_admin(
                owner,
                grants_in(state),
                g.granter,
            )) ==> readable(Some(owner), state, entity, id) is None,
{
    crate::membership::owner_is_always_admin(owner, grants_in(state));
    if author != owner && (forall|g: Grant| #[trigger]
        grants_in(state).contains(g) && g.target == author ==> !crate::membership::is_admin(
            owner,
            grants_in(state),
            g.granter,
        )) {
        crate::membership::only_admins_grant(owner, grants_in(state), author);
    }
}

/// A grant stands in the records exactly if the membership record of its target, named
/// by its id in hexadecimal, was written by the granter and starts with the byte of
/// the role: one for a member, two for an admin.
pub proof fn grants_are_membership_records(
    state: crate::lww::StateModel,
    target: PeerId,
    author: PeerId,
    data: Seq<u8>,
    role: Role,
)
    requires
        crate::lww::visible_slot(state, "_members"@, crate::text::hex(target@)) == Some(
            (data, author),
        ),
    ensures
        grants_in(state).contains(Grant { target, granter: author, role }) <==> data.len() > 0
            && data[0] == (if role is Member {
            1u8
        } else {
            2u8
        }),
        forall|g: Grant| #[trigger]
            grants_in(state).contains(g) && g.target == target ==> g.granter == author,
{
}

/// A peer that is replayed a frame holds what the frame says: its write is merged as a
/// received one is, and nothing is announced or to be persisted anew.
pub proof fn replayed_frames_are_held(
    replaying: &mut SyncState<Identity>,
    frame: WriteFrame,
    fits: bool,
    events: Seq<crate::sync_state::EventModel>,
    asked: &SyncState<Identity>,
    data: Option<&[u8]>,
    entity: &str,
    id: &str,
)
    requires
        old(replaying).wf(),
        call_ensures(SyncState::<Identity>::check_replay, (&*old(replaying), &frame), fits),
        fits,
        call_ensures(SyncState::<Identity>::replay, (replaying, frame), ()),
        *asked == *final(replaying),
        entity@ == frame.entity@,
        id@ == frame.id@,
        call_ensures(SyncState::<Identity>::visible, (asked, entity, id), data),
        frame.seq == crate::replog::cursor(old(replaying)@.log, frame.stamp.peer) + 1,
        !old(replaying)@.state.contains_key((frame.entity@, frame.id@)) || old(replaying)@.state[(frame.entity@, frame.id@)].stamp.before(frame.stamp),
    ensures
        final(replaying)@.events == old(replaying)@.events,
        final(replaying)@.unsaved == old(replaying)@.unsaved,
        crate::replog::cursor(final(replaying)@.log, frame.stamp.peer) == frame.seq,
        !(frame.op is Delete) ==> (data matches Some(bytes) && bytes@ == frame.data@),
        frame.op is Delete ==> data is None,
        frame.stamp.hlc.before(final(replaying)@.clock),
{
    let origin = frame.stamp.peer;
    if old(replaying)@.log.contains_key(origin) {
        assert(crate::replog::origin_ok(origin, old(replaying)@.log[origin]));
    }
    crate::hlc::observe_moves_past_both(
        old(replaying)@.clock,
        frame.stamp.hlc,
        frame.stamp.hlc.physical,
    );
}

/// What a durable peer accepts is handed out once to be persisted, as it is.
pub proof fn accepted_frames_are_handed_out_once(
    state: &mut SyncState<Identity>,
    frame: WriteFrame,
    wall_ms: u64,
    outcome: crate::replog::RecordOutcome,
    taking: &mut SyncState<Identity>,
    frames: Vec<WriteFrame>,
    again: &mut SyncState<Identity>,
    second: Vec<WriteFrame>,
)
    requires
        old(state).wf(),
        old(state)@.durable,
        old(state)@.unsaved.len() == 0,
        old(state)@.clock.can_observe(frame@.stamp.hlc, wall_ms),
        call_ensures(
            SyncState::<Identity>::receive_checked,
            (state, frame, wall_ms, true),
            outcome,
        ),
        *old(taking) == *final(state),
        call_ensures(SyncState::<Identity>::take_unsaved, (taking,), frames),
        *old(again) == *final(taking),
        call_ensures(SyncState::<Identity>::take_unsaved, (again,), second),
    ensures
        outcome is Appended ==> frames@.len() == 1 && frames@[0]@ == frame@,
        !(outcome is Appended) ==> frames@.len() == 0,
        second@.len() == 0,
        final(taking)@.log == final(state)@.log,
        final(taking)@.state == final(state)@.state,
{
    let models = crate::replog::frame_models(frames@);
    assert(models.len() == frames@.len());
    if frames@.len() > 0 {
        assert(models[0] == frames@[0]@);
    }
    assert(crate::replog::frame_models(second@).len() == second@.len());
}

/// Reclaiming drops only what every member has: a member that noted how far it has come
/// is served after it as before.
pub proof fn reclaiming_serves_members_as_before(
    noting: &mut SyncState<Identity>,
    member: PeerId,
    cursors: crate::replog::Cursors,
    reclaiming: &mut SyncState<Identity>,
    members: &[PeerId],
    dropped: usize,
    origin: PeerId,
)
    requires
        old(noting).wf(),
        member != old(noting)@.self_id,
        call_ensures(SyncState::<Identity>::note_peer_cursors, (noting, member, cursors), ()),
        *old(reclaiming) == *final(noting),
        members@.contains(member),
        call_ensures(SyncState::<Identity>::reclaim, (reclaiming, members), dropped),
    ensures
        crate::replog::unseen(
            final(reclaiming)@.log,
            origin,
            crate::replog::reported(cursors@, origin),
        ) == crate::replog::unseen(
            old(reclaiming)@.log,
            origin,
            crate::replog::reported(cursors@, origin),
        ),
        crate::replog::cursor(final(reclaiming)@.log, origin) == crate::replog::cursor(
            old(reclaiming)@.log,
            origin,
        ),
        final(reclaiming)@.state == old(noting)@.state,
        final(reclaiming)@.clock == old(noting)@.clock,
{
    let model = old(reclaiming)@;
    crate::sync_state::low_water_is_the_least_cursor(model, members@, origin);
    let mark = model.low_water(members@, origin);
    let from = crate::replog::reported(cursors@, origin);
    let k = choose|k: int| 0 <= k < members@.len() && members@[k] == member;
    assert(members@[k] == member);
    assert(model.reported_by(member, origin) == from);
    assert(mark <= from);
    crate::replog::truncating_serves_delivered_peers(model.log, origin, mark, origin, from);
    if model.log.contains_key(origin) {
        assert(crate::replog::origin_ok(origin, model.log[origin]));
    }
}

/// A store opened with a stored frame reads what the frame says.
pub proof fn opened_stores_read_what_was_stored(
    self_id: PeerId,
    frames: Vec<WriteFrame>,
    opened: (Store, usize),
    entity: &str,
    id: &str,
    record: Option<Vec<u8>>,
)
    requires
        frames@.len() == 1,
        frames@[0].seq == 1,
        call_ensures(Store::open, (self_id, frames), opened),
        opened.1 == 1,
        entity@ == frames@[0].entity@,
        id@ == frames@[0].id@,
        call_ensures(Store::read, (&opened.0, entity, id), record),
    ensures
        !(frames@[0].op is Delete) ==> (record matches Some(data) && data@ == frames@[0].data@),
        frames@[0].op is Delete ==> record is None,
        opened.0.inner()@.durable,
        opened.0.inner()@.events.len() == 0,
        opened.0.inner()@.unsaved.len() == 0,
        crate::replog::cursor(opened.0.inner()@.log, frames@[0].stamp.peer) == 1,
{
    let models = crate::replog::frame_models(frames@);
    let fresh = crate::sync_state::SyncModel::fresh(self_id);
    assert(models.take(1) == models);
    assert(models.drop_last() == Seq::<crate::wire::FrameModel>::empty());
    assert(models.last() == frames@[0]@);
    assert(fresh.replayed_all(models.drop_last()) == fresh);
    assert(fresh.replayed_all(models) == fresh.replayed(frames@[0]@));
}

/// Whose scope a store is in: its own for an owner, that of the owner for who joins,
/// and nobody's for an open store; each is empty.
pub proof fn stores_start_empty_in_their_scope(
    identity: Identity,
    own: Store,
    owner: PeerId,
    joined: Store,
    plain: Store,
    open: Store,
    self_id: PeerId,
    entity: &str,
    id: &str,
    record: Option<Vec<u8>>,
)
    requires
        call_ensures(Store::with_owner, (identity,), own),
        call_ensures(Store::join, (identity, owner), joined),
        call_ensures(Store::with_identity, (identity,), plain),
        call_ensures(Store::new, (self_id,), open),
        call_ensures(Store::read, (&joined, entity, id), record),
    ensures
        own.scope_owner() == Some(identity.id()),
        joined.scope_owner() == Some(owner),
        plain.scope_owner() is None,
        open.scope_owner() is None,
        own.inner()@.self_id == identity.id(),
        joined.inner()@.self_id == identity.id(),
        plain.inner()@.self_id == identity.id(),
        open.inner()@.self_id == self_id,
        own.inner().auth() == Some(identity),
        joined.inner().auth() == Some(identity),
        plain.inner().auth() == Some(identity),
        open.inner().auth() is None,
        record is None,
{
}

/// An owner reads what it writes: its own records are always shown.
pub proof fn owners_read_back_their_writes(
    store: &mut Store,
    wall_ms: u64,
    entity: &str,
    id: &str,
    data: Vec<u8>,
    frame: WriteFrame,
    reader: &Store,
    record: Option<Vec<u8>>,
)
    requires
        old(store).wf(),
        old(store).scope_owner() == Some(old(store).inner()@.self_id),
        old(store).inner().can_write(wall_ms, entity@, id@, data@),
        call_ensures(Store::create, (store, wall_ms, entity, id, data), frame) || call_ensures(
            Store::update,
            (store, wall_ms, entity, id, data),
            frame,
        ),
        *reader == *final(store),
        call_ensures(Store::read, (reader, entity, id), record),
    ensures
        record matches Some(bytes) && bytes@ == data@,
{
    let before = old(store).inner()@;
    crate::convergence::local_write_is_visible(
        before,
        wall_ms,
        frame.op,
        entity@,
        id@,
        data@,
        frame@.signature,
    );
    crate::membership::owner_is_always_admin(
        before.self_id,
        grants_in(final(store).inner()@.state),
    );
    reads_back_what_was_written(
        Some(before.self_id),
        before,
        wall_ms,
        frame.op,
        entity@,
        id@,
        data@,
        frame@.signature,
    );
}

/// The owner decides who is authorized: a peer is after it was invited, and is not after
/// it was revoked.
pub proof fn owners_invite_and_revoke(
    inviting: &mut Store,
    wall_ms: u64,
    target: PeerId,
    role: Role,
    invitation: WriteFrame,
    authorized: bool,
    revoking: &mut Store,
    later_ms: u64,
    revocation: WriteFrame,
    still: bool,
)
    requires
        old(inviting).wf(),
        old(inviting).scope_owner() == Some(old(inviting).inner()@.self_id),
        target != old(inviting).inner()@.self_id,
        old(inviting).inner().can_write(
            wall_ms,
            "_members"@,
            crate::text::hex(target@),
            seq![if role is Member {
                1u8
            } else {
                2u8
            }],
        ),
        call_ensures(Store::invite, (inviting, wall_ms, target, role), invitation),
        call_ensures(Store::author_authorized, (&*final(inviting), &target), authorized),
        *old(revoking) == *final(inviting),
        old(revoking).inner().can_write(
            later_ms,
            "_members"@,
            crate::text::hex(target@),
            Seq::empty(),
        ),
        call_ensures(Store::revoke, (revoking, later_ms, target), revocation),
        call_ensures(Store::author_authorized, (&*final(revoking), &target), still),
    ensures
        authorized,
        !still,
        invitation.entity@ == "_members"@,
        invitation.op is Insert,
        revocation.op is Delete,
{
    owner_invitation_authorizes(
        old(inviting).inner()@,
        wall_ms,
        target,
        role,
        invitation@.signature,
    );
    revocation_hides_the_peer(
        old(inviting).inner()@.self_id,
        old(revoking).inner()@,
        later_ms,
        target,
        Seq::empty(),
        revocation@.signature,
        Seq::empty(),
        Seq::empty(),
    );
}

/// The authorized authors are those who are authorized one by one; an open store names
/// none.
pub proof fn authors_are_authorized_one_by_one(
    store: &Store,
    members: Option<Assoc<PeerId, Role>>,
    author: PeerId,
    authorized: bool,
)
    requires
        call_ensures(Store::authorized_authors, (store,), members),
        call_ensures(Store::author_authorized, (store, &author), authorized),
    ensures
        store.scope_owner() is None ==> members is None && authorized,
        members matches Some(m) ==> (m@.contains_key(author) <==> authorized),
        store.scope_owner() matches Some(owner) ==> members is Some && (owner == author
            ==> authorized),
{
    if let Some(owner) = store.scope_owner() {
        crate::membership::owner_is_always_admin(owner, grants_in(store.inner()@.state));
    }
}

/// A list of records is the data of the listed rows.
pub proof fn lists_are_the_data_of_the_rows(
    store: &Store,
    entity: &str,
    records: Vec<Vec<u8>>,
    rows: Vec<(String, Vec<u8>)>,
    i: int,
)
    requires
        call_ensures(Store::list, (store, entity), records),
        call_ensures(Store::entries, (store, entity), rows),
    ensures
        0 <= i < records@.len() ==> exists|k: int|
            0 <= k < rows@.len() && (#[trigger] rows@[k]).1@ == records@[i]@,
        0 <= i < rows@.len() ==> exists|k: int|
            0 <= k < records@.len() && (#[trigger] records@[k])@ == rows@[i].1@,
{
    let owner = store.scope_owner();
    let state = store.inner()@.state;
    let ids = choose|ids: Seq<Seq<char>>| #[trigger]
        lists_records(owner, state, entity@, ids, records@);
    if 0 <= i < records@.len() {
        assert(readable(owner, state, entity@, ids[i]) == Some(records@[i]@));
        let k = choose|k: int| 0 <= k < rows@.len() && (#[trigger] rows@[k]).0@ == ids[i];
        assert(readable(owner, state, entity@, rows@[k].0@) == Some(rows@[k].1@));
    }
    if 0 <= i < rows@.len() {
        assert(readable(owner, state, entity@, rows@[i].0@) == Some(rows@[i].1@));
        assert(ids.contains(rows@[i].0@));
        let k = choose|k: int| 0 <= k < ids.len() && ids[k] == rows@[i].0@;
        assert(readable(owner, state, entity@, ids[k]) == Some(records@[k]@));
        assert(records@[k]@ == rows@[i].1@);
    }
}

/// A peer with an identity takes only frames that verify: one without a signature, or
/// whose signature its author's key does not accept, is rejected and changes nothing. A
/// peer without one takes every frame.
pub proof fn only_verified_frames_are_taken(
    receiving: &mut SyncState<Identity>,
    frame: WriteFrame,
    wall_ms: u64,
    outcome: crate::replog::RecordOutcome,
)
    requires
        call_ensures(SyncState::<Identity>::receive, (receiving, frame, wall_ms), outcome),
    ensures
        old(receiving).auth() is None ==> !(outcome is Rejected),
        old(receiving).auth() is Some && frame.signature is None ==> outcome is Rejected,
        old(receiving).auth() is Some ==> (frame.signature matches Some(signature) ==> (
        !crate::membership::ed25519_accepts(
            frame.stamp.peer@,
            frame@.signed_part(),
            signature@,
        ) ==> outcome is Rejected)),
        outcome is Rejected ==> final(receiving)@ == old(receiving)@,
        !(outcome is Rejected) ==> (outcome is Appended <==> frame.seq == crate::replog::cursor(
            old(receiving)@.log,
            frame.stamp.peer,
        ) + 1),
{
    let verified = choose|verified: bool|
        {
            &&& crate::sync_state::judged(old(receiving).auth(), frame, verified)
            &&& outcome == #[trigger] old(receiving)@.receive_outcome(frame@, verified)
            &&& final(receiving)@ == old(receiving)@.received(frame@, wall_ms, verified)
        };
    assert(outcome == old(receiving)@.receive_outcome(frame@, verified));
}

/// A peer can write unless its clock or its numbering is used up, or the data of a write
/// that is to be signed is too long for a frame.
pub proof fn peers_can_write_while_there_is_room(
    state: &SyncState<Identity>,
    wall_ms: u64,
    entity: &str,
    id: &str,
    data: &[u8],
    fits: bool,
    ticks: bool,
    clock: crate::hlc::Hlc,
    frame: WriteFrame,
    replays: bool,
    observes: bool,
)
    requires
        state.wf(),
        call_ensures(SyncState::<Identity>::check_write, (state, wall_ms, entity, id, data), fits),
        call_ensures(SyncState::<Identity>::clock, (state,), clock),
        call_ensures(crate::hlc::Hlc::check_tick, (&clock, wall_ms), ticks),
        call_ensures(SyncState::<Identity>::check_replay, (state, &frame), replays),
        call_ensures(
            crate::hlc::Hlc::check_observe,
            (&clock, frame.stamp.hlc, frame.stamp.hlc.physical),
            observes,
        ),
    ensures
        !ticks ==> !fits,
        ticks && crate::replog::cursor(state@.log, state@.self_id) < 0xFFFF_FFFF_FFFF_FFFFu64
            && data@.len() <= 0xFFFF_FFFFu32 ==> fits,
        ticks && crate::replog::cursor(state@.log, state@.self_id) < 0xFFFF_FFFF_FFFF_FFFFu64
            && state.auth() is None ==> fits,
        replays == observes,
{
}

/// Writing changes neither who a store is nor whose scope it is in, and numbers its
/// writes one after another.
pub proof fn writing_keeps_identity_and_scope(
    first: &mut Store,
    wall_ms: u64,
    entity: &str,
    id: &str,
    data: Vec<u8>,
    one: WriteFrame,
    second: &mut Store,
    later_ms: u64,
    other_id: &str,
    two: WriteFrame,
)
    requires
        old(first).wf(),
        old(first).inner().can_write(wall_ms, entity@, id@, data@),
        call_ensures(Store::create, (first, wall_ms, entity, id, data), one),
        *old(second) == *final(first),
        old(second).inner().can_write(later_ms, entity@, other_id@, Seq::empty()),
        call_ensures(Store::delete, (second, later_ms, entity, other_id), two),
    ensures
        final(second).scope_owner() == old(first).scope_owner(),
        final(second).inner().auth() == old(first).inner().auth(),
        final(second).inner()@.self_id == old(first).inner()@.self_id,
        one.stamp.peer == two.stamp.peer,
        two.seq == one.seq + 1,
        one.stamp.hlc.before(two.stamp.hlc),
        one.signature is Some <==> old(first).inner().auth() is Some && one@.names_fit(),
        two.signature is Some <==> old(first).inner().auth() is Some && two@.names_fit(),
{
    let before = old(first).inner()@;
    let me = before.self_id;
    if before.log.contains_key(me) {
        assert(crate::replog::origin_ok(me, before.log[me]));
    }
    let after = final(first).inner()@;
    assert(crate::replog::origin_ok(me, after.log[me]));
    crate::hlc::tick_moves_forward(after.clock, later_ms);
}

} // verus!
