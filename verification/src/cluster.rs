//! A cluster of peers with links that can be cut and restored.
//!
//! Peer 0 is the project owner; the rest join and are invited as members.
use vstd::prelude::*;
use crate::hlc::PeerId;
use crate::membership::{Identity, Role, MEMBERS_ENTITY};
use crate::store::Store;
use crate::text::same_text;
use crate::wire::WriteFrame;

verus! {

/// The largest number of peers: each has a seed of its own.
pub const MAX_PEERS: usize = 255;

/// A link by its two ends, the smaller one first.
pub open spec fn link(a: usize, b: usize) -> (usize, usize) {
    if a < b {
        (a, b)
    } else {
        (b, a)
    }
}

/// A link by its two ends, the smaller one first.
pub fn link_key(a: usize, b: usize) -> (key: (usize, usize))
    ensures
        key == link(a, b),
{
    if a < b {
        (a, b)
    } else {
        (b, a)
    }
}

/// The seed of a peer: one more than its number, then zeros.
pub open spec fn seed_bytes(i: nat) -> Seq<u8> {
    Seq::new(
        32,
        |k: int|
            if k == 0 {
                (1 + i) as u8
            } else {
                0
            },
    )
}

/// The seed of a peer.
pub fn seed(i: usize) -> (bytes: [u8; 32])
    requires
        i < MAX_PEERS,
    ensures
        bytes@ == seed_bytes(i as nat),
{
    let mut bytes = [0u8; 32];
    bytes[0] = 1 + i as u8;
    assert(bytes@ =~= seed_bytes(i as nat));
    bytes
}

/// A cluster of peers, each a [`Store`], with links that can be toggled.
pub struct Cluster {
    stores: Vec<Store>,
    ids: Vec<PeerId>,
    links: Vec<(usize, usize)>,
}

/// The state after local writes that made `frames`.
pub open spec fn written_all(
    before: crate::sync_state::SyncModel,
    frames: Seq<crate::wire::FrameModel>,
) -> crate::sync_state::SyncModel
    decreases frames.len(),
{
    if frames.len() == 0 {
        before
    } else {
        written_all(before, frames.drop_last()).written(frames.last())
    }
}

/// What a store shows of a record.
pub open spec fn shown(store: Store, entity: Seq<char>, id: Seq<char>) -> Option<Seq<u8>> {
    crate::store::readable(store.scope_owner(), store.inner()@.state, entity, id)
}

/// The value that `serde_json::from_slice` reads from bytes, `None` if they are
/// not JSON. Values stand for themselves only as far as `==` of
/// `serde_json::Value` tells them apart: each has a number, and equal values
/// have the same.
pub uninterp spec fn parsed_json(bytes: Seq<u8>) -> Option<nat>;

/// `serde_json::from_slice` for `serde_json::Value`: whether it reads a value
/// depends on the bytes alone. On which it does takes the JSON grammar to say,
/// and is left unsaid.
#[verifier::external_body]
fn is_json(bytes: &[u8]) -> (read: bool)
    ensures
        read == (parsed_json(bytes@) is Some),
{
    serde_json::from_slice::<serde_json::Value>(bytes).is_ok()
}

/// `==` of `serde_json::Value` on what `serde_json::from_slice` reads from two
/// byte strings. A number that is read from JSON is never NaN, so this is an
/// equivalence.
#[verifier::external_body]
fn same_json(a: &[u8], b: &[u8]) -> (same: bool)
    requires
        parsed_json(a@) is Some,
        parsed_json(b@) is Some,
    ensures
        same == (parsed_json(a@) == parsed_json(b@)),
{
    let read: Result<serde_json::Value, serde_json::Error> = serde_json::from_slice(a);
    let other: Result<serde_json::Value, serde_json::Error> = serde_json::from_slice(b);
    matches!((read, other), (Ok(x), Ok(y)) if x == y)
}

/// The record that a store shows, as JSON; one that is not JSON does not count.
pub open spec fn shown_json(store: Store, entity: Seq<char>, id: Seq<char>) -> Option<nat> {
    match shown(store, entity, id) {
        Some(data) => parsed_json(data),
        None => None,
    }
}

/// The two stores show the same JSON records of an entity.
pub open spec fn same_records(a: Store, b: Store, entity: Seq<char>) -> bool {
    forall|id: Seq<char>|
        #![trigger shown_json(a, entity, id)]
        #![trigger shown_json(b, entity, id)]
        shown_json(a, entity, id) == shown_json(b, entity, id)
}

/// The rows are the JSON records of an entity that a store shows, each once.
pub open spec fn lists_board(
    store: Store,
    entity: Seq<char>,
    rows: Seq<(String, Vec<u8>)>,
) -> bool {
    &&& forall|i: int, j: int|
        0 <= i < j < rows.len() ==> (#[trigger] rows[i]).0@ != (#[trigger] rows[j]).0@
    &&& forall|i: int|
        0 <= i < rows.len() ==> shown(store, entity, (#[trigger] rows[i]).0@) == Some(rows[i].1@)
            && parsed_json(rows[i].1@) is Some
    &&& forall|id: Seq<char>| #[trigger]
        shown_json(store, entity, id) is Some ==> exists|i: int|
            0 <= i < rows.len() && (#[trigger] rows[i]).0@ == id
}

/// What a store shows of an entity: its records by id, as stored. Records that
/// are not JSON are left out.
pub fn snapshot(store: &Store, entity: &str) -> (rows: Vec<(String, Vec<u8>)>)
    ensures
        lists_board(*store, entity@, rows@),
{
    let all = store.entries(entity);
    let mut rows: Vec<(String, Vec<u8>)> = Vec::new();
    let ghost mut from: Seq<int> = Seq::empty();
    let mut i: usize = 0;
    while i < all.len()
        invariant
            i <= all@.len(),
            from.len() == rows@.len(),
            forall|k: int|
                0 <= k < rows@.len() ==> 0 <= #[trigger] from[k] < i && rows@[k].0@
                    == all@[from[k]].0@ && rows@[k].1@ == all@[from[k]].1@ && parsed_json(
                    rows@[k].1@,
                ) is Some,
            forall|k: int, l: int| 0 <= k < l < from.len() ==> from[k] < from[l],
            forall|j: int|
                0 <= j < i && parsed_json((#[trigger] all@[j]).1@) is Some ==> exists|k: int|
                    0 <= k < from.len() && #[trigger] from[k] == j,
        decreases all@.len() - i,
    {
        let ghost before = from;
        if is_json(all[i].1.as_slice()) {
            rows.push((all[i].0.clone(), all[i].1.clone()));
            proof {
                from = from.push(i as int);
                assert(rows@.last().1@ =~= all@[i as int].1@);
            }
        }
        proof {
            assert forall|j: int|
                0 <= j < i + 1 && parsed_json((#[trigger] all@[j]).1@) is Some implies exists|
                k: int,
            |
                0 <= k < from.len() && #[trigger] from[k] == j by {
                if j < i {
                    let k = choose|k: int| 0 <= k < before.len() && #[trigger] before[k] == j;
                    assert(from[k] == j);
                } else {
                    assert(from[before.len() as int] == j);
                }
            }
        }
        i = i + 1;
    }
    proof {
        assert forall|k: int, l: int| 0 <= k < l < rows@.len() implies (
        #[trigger] rows@[k]).0@ != (#[trigger] rows@[l]).0@ by {
            assert(from[k] < from[l]);
            assert(all@[from[k]].0@ != all@[from[l]].0@);
        }
        assert forall|k: int| 0 <= k < rows@.len() implies shown(
            *store,
            entity@,
            (#[trigger] rows@[k]).0@,
        ) == Some(rows@[k].1@) && parsed_json(rows@[k].1@) is Some by {
            assert(0 <= from[k] < i);
            assert(shown(*store, entity@, all@[from[k]].0@) == Some(all@[from[k]].1@));
        }
        assert forall|id: Seq<char>| #[trigger]
            shown_json(*store, entity@, id) is Some implies exists|k: int|
            0 <= k < rows@.len() && (#[trigger] rows@[k]).0@ == id by {
            assert(shown(*store, entity@, id) is Some);
            let j = choose|j: int| 0 <= j < all@.len() && (#[trigger] all@[j]).0@ == id;
            assert(shown(*store, entity@, all@[j].0@) == Some(all@[j].1@));
            let k = choose|k: int| 0 <= k < from.len() && #[trigger] from[k] == j;
            assert(rows@[k].0@ == id);
        }
    }
    rows
}

/// The row is among the rows, with the same JSON value.
spec fn has_row(rows: Seq<(String, Vec<u8>)>, row: (String, Vec<u8>)) -> bool {
    exists|j: int|
        0 <= j < rows.len() && (#[trigger] rows[j]).0@ == row.0@ && parsed_json(rows[j].1@)
            == parsed_json(row.1@)
}

fn same_document(a: &Vec<u8>, b: &Vec<u8>) -> (same: bool)
    ensures
        same == (parsed_json(a@) == parsed_json(b@)),
{
    let read = is_json(a.as_slice());
    let other = is_json(b.as_slice());
    if read && other {
        same_json(a.as_slice(), b.as_slice())
    } else {
        !read && !other
    }
}

fn holds_row(rows: &Vec<(String, Vec<u8>)>, row: &(String, Vec<u8>)) -> (held: bool)
    ensures
        held == has_row(rows@, *row),
{
    let mut j: usize = 0;
    while j < rows.len()
        invariant
            j <= rows@.len(),
            forall|k: int|
                0 <= k < j ==> !((#[trigger] rows@[k]).0@ == row.0@ && parsed_json(rows@[k].1@)
                    == parsed_json(row.1@)),
        decreases rows@.len() - j,
    {
        if same_text(rows[j].0.as_str(), row.0.as_str()) && same_document(&rows[j].1, &row.1) {
            assert(rows@[j as int].0@ == row.0@);
            return true;
        }
        j = j + 1;
    }
    false
}

fn holds_rows(rows: &Vec<(String, Vec<u8>)>, part: &Vec<(String, Vec<u8>)>) -> (held: bool)
    ensures
        held == forall|i: int| 0 <= i < part@.len() ==> has_row(rows@, #[trigger] part@[i]),
{
    let mut i: usize = 0;
    while i < part.len()
        invariant
            i <= part@.len(),
            forall|k: int| 0 <= k < i ==> has_row(rows@, #[trigger] part@[k]),
        decreases part@.len() - i,
    {
        if !holds_row(rows, &part[i]) {
            assert(!has_row(rows@, part@[i as int]));
            return false;
        }
        i = i + 1;
    }
    true
}

/// If every row of one board is on the other, the other shows whatever the one
/// shows.
proof fn lemma_rows_are_shown(
    a: Store,
    rows_a: Seq<(String, Vec<u8>)>,
    b: Store,
    rows_b: Seq<(String, Vec<u8>)>,
    entity: Seq<char>,
)
    requires
        lists_board(a, entity, rows_a),
        lists_board(b, entity, rows_b),
    ensures
        (forall|i: int| 0 <= i < rows_a.len() ==> has_row(rows_b, #[trigger] rows_a[i])) <==> (
        forall|id: Seq<char>| #[trigger]
            shown_json(a, entity, id) is Some ==> shown_json(b, entity, id) == shown_json(
                a,
                entity,
                id,
            )),
{
    if forall|i: int| 0 <= i < rows_a.len() ==> has_row(rows_b, #[trigger] rows_a[i]) {
        assert forall|id: Seq<char>| #[trigger]
            shown_json(a, entity, id) is Some implies shown_json(b, entity, id) == shown_json(
            a,
            entity,
            id,
        ) by {
            let i = choose|i: int| 0 <= i < rows_a.len() && (#[trigger] rows_a[i]).0@ == id;
            assert(shown(a, entity, rows_a[i].0@) == Some(rows_a[i].1@));
            assert(has_row(rows_b, rows_a[i]));
            let j = choose|j: int|
                0 <= j < rows_b.len() && (#[trigger] rows_b[j]).0@ == rows_a[i].0@ && parsed_json(
                    rows_b[j].1@,
                ) == parsed_json(rows_a[i].1@);
            assert(shown(b, entity, rows_b[j].0@) == Some(rows_b[j].1@));
        }
    }
    if forall|id: Seq<char>| #[trigger]
        shown_json(a, entity, id) is Some ==> shown_json(b, entity, id) == shown_json(
            a,
            entity,
            id,
        ) {
        assert forall|i: int| 0 <= i < rows_a.len() implies has_row(
            rows_b,
            #[trigger] rows_a[i],
        ) by {
            let id = rows_a[i].0@;
            assert(shown(a, entity, id) == Some(rows_a[i].1@));
            assert(shown_json(a, entity, id) is Some);
            assert(shown_json(b, entity, id) is Some);
            let j = choose|j: int| 0 <= j < rows_b.len() && (#[trigger] rows_b[j]).0@ == id;
            assert(shown(b, entity, rows_b[j].0@) == Some(rows_b[j].1@));
        }
    }
}

/// Whether two stores show the same JSON records of an entity. The records are
/// compared as values, however they are written down.
pub fn agree(a: &Store, b: &Store, entity: &str) -> (same: bool)
    ensures
        same == same_records(*a, *b, entity@),
{
    let rows_a = snapshot(a, entity);
    let rows_b = snapshot(b, entity);
    proof {
        lemma_rows_are_shown(*a, rows_a@, *b, rows_b@, entity@);
        lemma_rows_are_shown(*b, rows_b@, *a, rows_a@, entity@);
        if (forall|id: Seq<char>| #[trigger]
            shown_json(*a, entity@, id) is Some ==> shown_json(*b, entity@, id) == shown_json(
                *a,
                entity@,
                id,
            )) && (forall|id: Seq<char>| #[trigger]
            shown_json(*b, entity@, id) is Some ==> shown_json(*a, entity@, id) == shown_json(
                *b,
                entity@,
                id,
            )) {
            assert forall|id: Seq<char>| #[trigger] shown_json(*a, entity@, id) == shown_json(
                *b,
                entity@,
                id,
            ) by {
                if shown_json(*a, entity@, id) is None && shown_json(*b, entity@, id) is Some {
                    assert(shown_json(*a, entity@, id) == shown_json(*b, entity@, id));
                }
            }
        }
    }
    holds_rows(&rows_b, &rows_a) && holds_rows(&rows_a, &rows_b)
}

/// Every two of the stores show the same JSON records of an entity.
pub open spec fn all_agree(stores: Seq<Store>, entity: Seq<char>) -> bool {
    forall|i: int, j: int|
        0 <= i < stores.len() && 0 <= j < stores.len() ==> same_records(
            #[trigger] stores[i],
            #[trigger] stores[j],
            entity,
        )
}

/// The owner's invitation of a peer as a member stands in the records.
spec fn invited(owner: PeerId, state: crate::lww::StateModel, target: PeerId) -> bool {
    crate::store::grant_in(
        state,
        crate::membership::Grant { target, granter: owner, role: Role::Member },
    )
}

/// Inviting one peer keeps the invitations of the others.
proof fn lemma_invitations_stay(
    before: crate::sync_state::SyncModel,
    frame: crate::wire::FrameModel,
    wall_ms: u64,
    target: PeerId,
    other: PeerId,
)
    requires
        before.ok(),
        before.clock.can_tick(wall_ms),
        crate::replog::cursor(before.log, before.self_id) < u64::MAX,
        frame == before.local_frame(
            wall_ms,
            crate::lww::Op::Insert,
            MEMBERS_ENTITY@,
            crate::text::hex(target@),
            seq![Role::Member.byte()],
            frame.signature,
        ),
        other == target || invited(before.self_id, before.state, other),
    ensures
        invited(before.self_id, before.written(frame).state, other),
        crate::store::shows_author(
            Some(before.self_id),
            before.written(frame).state,
            other,
        ),
{
    let state = before.written(frame).state;
    let id = crate::text::hex(other@);
    crate::convergence::local_write_is_visible(
        before,
        wall_ms,
        crate::lww::Op::Insert,
        MEMBERS_ENTITY@,
        crate::text::hex(target@),
        seq![Role::Member.byte()],
        frame.signature,
    );
    if id != crate::text::hex(target@) {
        crate::convergence::local_write_leaves_other_records(before, frame, MEMBERS_ENTITY@, id);
    }
    let grant = crate::membership::Grant {
        target: other,
        granter: before.self_id,
        role: Role::Member,
    };
    assert(crate::store::grant_in(state, grant));
    crate::membership::owner_invitation_counts(
        before.self_id,
        crate::store::grants_in(state),
        grant,
    );
}

impl Cluster {
    /// The peers' stores.
    pub closed spec fn peers(&self) -> Seq<Store> {
        self.stores@
    }

    /// The peers' ids.
    pub closed spec fn peer_ids(&self) -> Seq<PeerId> {
        self.ids@
    }

    /// The links that are up.
    pub closed spec fn link_set(&self) -> Set<(usize, usize)> {
        self.links@.to_set()
    }

    /// Every peer has a store that is in order, and no link is kept twice.
    pub closed spec fn wf(&self) -> bool {
        &&& self.stores@.len() == self.ids@.len()
        &&& forall|i: int| 0 <= i < self.stores@.len() ==> (#[trigger] self.stores@[i]).wf()
        &&& self.links@.no_duplicates()
    }

    /// Build `n` peers. Peer 0 owns the project; peers `1..n` join it.
    #[must_use]
    pub fn new(n: usize) -> (cluster: Self)
        requires
            n <= MAX_PEERS,
        ensures
            cluster.wf(),
            cluster.link_set() == Set::<(usize, usize)>::empty(),
            cluster.peers().len() == n,
            cluster.peer_ids().len() == cluster.peers().len(),
            forall|i: int|
                #![trigger cluster.peers()[i]]
                #![trigger cluster.peer_ids()[i]]
                0 <= i < cluster.peers().len() ==> {
                    let store = cluster.peers()[i];
                    &&& cluster.peer_ids()[i]@ == crate::membership::ed25519_public(
                        seed_bytes(i as nat),
                    )
                    &&& store.inner()@ == crate::sync_state::SyncModel::fresh(
                        cluster.peer_ids()[i],
                    )
                    &&& store.inner().auth() matches Some(identity) && identity.secret()
                        == seed_bytes(i as nat) && identity.id() == cluster.peer_ids()[i]
                    &&& store.scope_owner() == Some(cluster.peer_ids()[0])
                },
    {
        let mut stores: Vec<Store> = Vec::new();
        let mut ids: Vec<PeerId> = Vec::new();
        if n == 0 {
            let cluster = Cluster { stores, ids, links: Vec::new() };
            assert(cluster.link_set() =~= Set::<(usize, usize)>::empty());
            return cluster;
        }
        let owner_identity = Identity::from_seed(seed(0));
        let owner_id = owner_identity.peer_id();
        stores.push(Store::with_owner(owner_identity));
        ids.push(owner_id);
        let mut i: usize = 1;
        while i < n
            invariant
                1 <= i <= n,
                n <= MAX_PEERS,
                stores@.len() == i,
                ids@.len() == i,
                ids@[0] == owner_id,
                forall|k: int|
                    0 <= k < i ==> (#[trigger] stores@[k]).wf() && stores@[k].inner()@
                        == crate::sync_state::SyncModel::fresh(ids@[k])
                        && stores@[k].scope_owner() == Some(owner_id),
                forall|k: int|
                    0 <= k < i ==> (#[trigger] stores@[k]).inner().auth() is Some
                        && stores@[k].inner().auth()->0.secret() == seed_bytes(k as nat)
                        && stores@[k].inner().auth()->0.id() == ids@[k],
                forall|k: int|
                    0 <= k < i ==> (#[trigger] ids@[k])@ == crate::membership::ed25519_public(
                        seed_bytes(k as nat),
                    ),
            decreases n - i,
        {
            let identity = Identity::from_seed(seed(i));
            ids.push(identity.peer_id());
            stores.push(Store::join(identity, owner_id));
            i = i + 1;
        }
        let cluster = Cluster { stores, ids, links: Vec::new() };
        assert(cluster.link_set() =~= Set::<(usize, usize)>::empty());
        cluster
    }

    /// How many peers there are.
    #[must_use]
    pub fn len(&self) -> (len: usize)
        ensures
            len == self.peers().len(),
    {
        self.stores.len()
    }

    /// Whether there are no peers.
    #[must_use]
    pub fn is_empty(&self) -> (empty: bool)
        ensures
            empty == (self.peers().len() == 0),
    {
        self.stores.len() == 0
    }

    /// The store of peer `i`.
    #[must_use]
    pub fn board(&self, i: usize) -> (store: &Store)
        requires
            i < self.peers().len(),
        ensures
            *store == self.peers()[i as int],
    {
        &self.stores[i]
    }

    /// The store of peer `i`, for writes and for its sessions.
    pub fn board_mut(&mut self, i: usize) -> (store: &mut Store)
        requires
            i < old(self).peers().len(),
        ensures
            *store == old(self).peers()[i as int],
            final(self).peers() == old(self).peers().update(i as int, *final(store)),
            final(self).peer_ids() == old(self).peer_ids(),
            final(self).link_set() == old(self).link_set(),
            old(self).wf() && final(store).wf() ==> final(self).wf(),
    {
        &mut self.stores[i]
    }

    /// The id of peer `i`.
    #[must_use]
    pub fn peer_id(&self, i: usize) -> (id: PeerId)
        requires
            self.wf(),
            i < self.peers().len(),
        ensures
            id == self.peer_ids()[i as int],
    {
        self.ids[i]
    }

    /// Owner invites every other peer as a member. Returns the frames to
    /// broadcast: one for each peer, signed as the owner signs, unless the owner's
    /// clock has no room left. Whom they name is a member for the owner from then
    /// on.
    /// Without peers there is nothing to do.
    pub fn invite_all(&mut self, wall_ms: u64) -> (frames: Vec<WriteFrame>)
        requires
            old(self).wf(),
        ensures
            final(self).wf(),
            final(self).peer_ids() == old(self).peer_ids(),
            final(self).link_set() == old(self).link_set(),
            final(self).peers().len() == old(self).peers().len(),
            forall|i: int|
                1 <= i < old(self).peers().len() ==> #[trigger] final(self).peers()[i]
                    == old(self).peers()[i],
            old(self).peers().len() == 0 ==> frames@.len() == 0,
            old(self).peers().len() > 0 ==> {
                &&& final(self).peers()[0].scope_owner() == old(self).peers()[0].scope_owner()
                &&& final(self).peers()[0].inner().auth() == old(self).peers()[0].inner().auth()
                &&& final(self).peers()[0].inner()@ == written_all(
                    old(self).peers()[0].inner()@,
                    crate::replog::frame_models(frames@),
                )
                &&& frames@.len() < old(self).peers().len()
            },
            forall|k: int|
                0 <= k < frames@.len() ==> (#[trigger] frames@[k])@ == written_all(
                    old(self).peers()[0].inner()@,
                    crate::replog::frame_models(frames@).take(k),
                ).local_frame(
                    wall_ms,
                    crate::lww::Op::Insert,
                    MEMBERS_ENTITY@,
                    crate::text::hex(old(self).peer_ids()[k + 1]@),
                    seq![Role::Member.byte()],
                    frames@[k]@.signature,
                ),
            forall|k: int|
                0 <= k < frames@.len() ==> crate::store::signed_as(
                    old(self).peers()[0].inner().auth(),
                    (#[trigger] frames@[k])@,
                ),
            forall|k: int|
                1 <= k <= frames@.len() ==> crate::store::shows_author(
                    Some(old(self).peers()[0].inner()@.self_id),
                    final(self).peers()[0].inner()@.state,
                    #[trigger] old(self).peer_ids()[k],
                ),
            frames@.len() + 1 < old(self).peers().len()
                ==> !final(self).peers()[0].inner().can_write(
                wall_ms,
                MEMBERS_ENTITY@,
                crate::text::hex(old(self).peer_ids()[frames@.len() as int + 1]@),
                seq![Role::Member.byte()],
            ),
    {
        let mut frames: Vec<WriteFrame> = Vec::new();
        let count = self.stores.len();
        if count == 0 {
            return frames;
        }
        let ghost start = self.stores@[0].inner()@;
        let ghost ids = self.ids@;
        assert(crate::replog::frame_models(frames@) =~= Seq::empty());
        let mut i: usize = 1;
        while i < count
            invariant
                1 <= i <= count,
                count == self.stores@.len(),
                count == old(self).stores@.len(),
                old(self).wf(),
                self.wf(),
                start == old(self).stores@[0].inner()@,
                ids == self.ids@,
                self.ids@ == old(self).ids@,
                self.links@ == old(self).links@,
                frames@.len() + 1 == i,
                forall|k: int|
                    1 <= k < count ==> #[trigger] self.stores@[k] == old(self).stores@[k],
                self.stores@[0].scope_owner() == old(self).stores@[0].scope_owner(),
                self.stores@[0].inner().auth() == old(self).stores@[0].inner().auth(),
                self.stores@[0].inner()@.self_id == start.self_id,
                forall|k: int|
                    0 <= k < frames@.len() ==> crate::store::signed_as(
                        old(self).stores@[0].inner().auth(),
                        (#[trigger] frames@[k])@,
                    ),
                forall|k: int|
                    1 <= k < i ==> crate::store::shows_author(
                        Some(start.self_id),
                        self.stores@[0].inner()@.state,
                        #[trigger] ids[k],
                    ),
                forall|k: int|
                    1 <= k < i ==> invited(
                        start.self_id,
                        self.stores@[0].inner()@.state,
                        #[trigger] ids[k],
                    ),
                self.stores@[0].inner()@ == written_all(
                    start,
                    crate::replog::frame_models(frames@),
                ),
                forall|k: int|
                    0 <= k < frames@.len() ==> (#[trigger] frames@[k])@ == written_all(
                        start,
                        crate::replog::frame_models(frames@).take(k),
                    ).local_frame(
                        wall_ms,
                        crate::lww::Op::Insert,
                        MEMBERS_ENTITY@,
                        crate::text::hex(ids[k + 1]@),
                        seq![Role::Member.byte()],
                        frames@[k]@.signature,
                    ),
            decreases count - i,
        {
            let target = self.ids[i];
            let ghost before = crate::replog::frame_models(frames@);
            let id = crate::membership::member_record_id(&target);
            let mut data: Vec<u8> = Vec::new();
            data.push(Role::Member.as_byte());
            assert(data@ =~= seq![Role::Member.byte()]);
            assert(self.stores@[0].wf());
            if !self.stores[0].node().check_write(
                wall_ms,
                MEMBERS_ENTITY,
                id.as_str(),
                data.as_slice(),
            ) {
                return frames;
            }
            let ghost held = self.stores@[0].inner()@;
            let frame = self.stores[0].invite(wall_ms, target, Role::Member);
            frames.push(frame);
            proof {
                let now = self.stores@[0].inner()@;
                assert forall|k: int| 1 <= k < i + 1 implies invited(
                    start.self_id,
                    now.state,
                    #[trigger] ids[k],
                ) && crate::store::shows_author(Some(start.self_id), now.state, ids[k]) by {
                    lemma_invitations_stay(held, frame@, wall_ms, target, ids[k]);
                }
                let after = crate::replog::frame_models(frames@);
                assert(after.drop_last() =~= before);
                assert(after.last() == frame@);
                assert forall|k: int| 0 <= k < frames@.len() implies (#[trigger] frames@[k])@
                    == written_all(start, after.take(k)).local_frame(
                    wall_ms,
                    crate::lww::Op::Insert,
                    MEMBERS_ENTITY@,
                    crate::text::hex(ids[k + 1]@),
                    seq![Role::Member.byte()],
                    frames@[k]@.signature,
                ) by {
                    assert(after.take(k) =~= before.take(k));
                    if k == before.len() {
                        assert(before.take(k) =~= before);
                    }
                }
            }
            i = i + 1;
        }
        frames
    }

    /// Owner revokes peer `i`. Returns the frame to broadcast.
    pub fn revoke(&mut self, wall_ms: u64, i: usize) -> (frame: WriteFrame)
        requires
            old(self).wf(),
            i < old(self).peers().len(),
            old(self).peers()[0].inner().can_write(
                wall_ms,
                MEMBERS_ENTITY@,
                crate::text::hex(old(self).peer_ids()[i as int]@),
                Seq::empty(),
            ),
        ensures
            final(self).wf(),
            final(self).peer_ids() == old(self).peer_ids(),
            final(self).link_set() == old(self).link_set(),
            final(self).peers() == old(self).peers().update(0, final(self).peers()[0]),
            final(self).peers()[0].scope_owner() == old(self).peers()[0].scope_owner(),
            crate::store::wrote(
                old(self).peers()[0].inner(),
                final(self).peers()[0].inner(),
                frame@,
                wall_ms,
                crate::lww::Op::Delete,
                MEMBERS_ENTITY@,
                crate::text::hex(old(self).peer_ids()[i as int]@),
                Seq::empty(),
            ),
    {
        let target = self.ids[i];
        assert(self.stores@[0].wf());
        let frame = self.stores[0].revoke(wall_ms, target);
        assert(self.stores@ =~= old(self).stores@.update(0, self.stores@[0]));
        frame
    }

    fn link_position(&self, key: (usize, usize)) -> (found: Option<usize>)
        ensures
            match found {
                Some(i) => i < self.links@.len() && self.links@[i as int] == key,
                None => !self.links@.contains(key),
            },
    {
        let mut i: usize = 0;
        while i < self.links.len()
            invariant
                i <= self.links@.len(),
                forall|k: int| 0 <= k < i ==> #[trigger] self.links@[k] != key,
            decreases self.links@.len() - i,
        {
            if self.links[i].0 == key.0 && self.links[i].1 == key.1 {
                return Some(i);
            }
            i = i + 1;
        }
        None
    }

    /// Links peers `a` and `b`. Says whether the link is new, so that a session
    /// between them is to be started.
    pub fn connect(&mut self, a: usize, b: usize) -> (fresh: bool)
        requires
            old(self).wf(),
            a < old(self).peers().len(),
            b < old(self).peers().len(),
        ensures
            final(self).wf(),
            final(self).peers() == old(self).peers(),
            final(self).peer_ids() == old(self).peer_ids(),
            fresh == (a != b && !old(self).link_set().contains(link(a, b))),
            final(self).link_set() == (if a == b {
                old(self).link_set()
            } else {
                old(self).link_set().insert(link(a, b))
            }),
    {
        let key = link_key(a, b);
        if a == b {
            return false;
        }
        let ghost before = self.links@;
        if let Some(i) = self.link_position(key) {
            assert(before.contains(before[i as int]));
            assert(self.link_set() =~= self.link_set().insert(key));
            return false;
        }
        self.links.push(key);
        proof {
            assert forall|l: (usize, usize)| #[trigger] self.links@.to_set().contains(l)
                == before.to_set().insert(key).contains(l) by {
                if before.contains(l) {
                    let k = choose|k: int| 0 <= k < before.len() && before[k] == l;
                    assert(self.links@[k] == l);
                }
                if l == key {
                    assert(self.links@[before.len() as int] == key);
                }
                if self.links@.contains(l) {
                    let k = choose|k: int| 0 <= k < self.links@.len() && self.links@[k] == l;
                    if k < before.len() {
                        assert(before[k] == l);
                    }
                }
            }
            assert(self.link_set() =~= old(self).link_set().insert(key));
        }
        true
    }

    /// Cuts the link between `a` and `b`. Says whether it was up, so that its
    /// session is to be ended.
    pub fn partition(&mut self, a: usize, b: usize) -> (cut: bool)
        requires
            old(self).wf(),
        ensures
            final(self).wf(),
            final(self).peers() == old(self).peers(),
            final(self).peer_ids() == old(self).peer_ids(),
            cut == old(self).link_set().contains(link(a, b)),
            final(self).link_set() == old(self).link_set().remove(link(a, b)),
    {
        let key = link_key(a, b);
        let ghost before = self.links@;
        match self.link_position(key) {
            Some(i) => {
                self.links.remove(i);
                proof {
                    assert(before.contains(before[i as int]));
                    assert forall|l: (usize, usize)| #[trigger] self.links@.to_set().contains(l)
                        == before.to_set().remove(key).contains(l) by {
                        if self.links@.contains(l) {
                            let k = choose|k: int|
                                0 <= k < self.links@.len() && self.links@[k] == l;
                            let from = if k < i {
                                k
                            } else {
                                k + 1
                            };
                            assert(before[from] == l);
                            assert(before[i as int] == key);
                        }
                        if before.contains(l) && l != key {
                            let k = choose|k: int| 0 <= k < before.len() && before[k] == l;
                            let to = if k < i {
                                k
                            } else {
                                k - 1
                            };
                            assert(self.links@[to] == l);
                        }
                    }
                    assert(self.link_set() =~= old(self).link_set().remove(key));
                }
                true
            },
            None => {
                assert(self.link_set() =~= self.link_set().remove(key));
                false
            },
        }
    }

    /// Links every pair of peers. Returns the links that are new.
    pub fn full_mesh(&mut self) -> (fresh: Vec<(usize, usize)>)
        requires
            old(self).wf(),
        ensures
            final(self).wf(),
            final(self).peers() == old(self).peers(),
            final(self).peer_ids() == old(self).peer_ids(),
            forall|l: (usize, usize)| #[trigger]
                final(self).link_set().contains(l) <==> old(self).link_set().contains(l) || (l.0
                    < l.1 && l.1 < old(self).peers().len()),
            fresh@.no_duplicates(),
            forall|l: (usize, usize)| #[trigger]
                fresh@.contains(l) <==> !old(self).link_set().contains(l) && l.0 < l.1 && l.1
                    < old(self).peers().len(),
    {
        let mut fresh: Vec<(usize, usize)> = Vec::new();
        let n = self.stores.len();
        let ghost before = self.link_set();
        let mut a: usize = 0;
        while a < n
            invariant
                a <= n,
                self.wf(),
                n == self.stores@.len(),
                self.stores@ == old(self).stores@,
                self.ids@ == old(self).ids@,
                before == old(self).link_set(),
                forall|l: (usize, usize)| #[trigger]
                    self.link_set().contains(l) <==> before.contains(l) || fresh@.contains(l),
                fresh@.no_duplicates(),
                forall|l: (usize, usize)| #[trigger]
                    fresh@.contains(l) <==> !before.contains(l) && l.0 < a && l.0 < l.1 && l.1 < n,
            decreases n - a,
        {
            let mut b: usize = a + 1;
            while b < n
                invariant
                    a < b <= n,
                    self.wf(),
                    n == self.stores@.len(),
                    self.stores@ == old(self).stores@,
                    self.ids@ == old(self).ids@,
                    before == old(self).link_set(),
                    forall|l: (usize, usize)| #[trigger]
                        self.link_set().contains(l) <==> before.contains(l) || fresh@.contains(l),
                    fresh@.no_duplicates(),
                    forall|l: (usize, usize)| #[trigger]
                        fresh@.contains(l) <==> !before.contains(l) && l.0 < l.1 && l.1 < n && (l.0
                            < a || (l.0 == a && l.1 < b)),
                decreases n - b,
            {
                let ghost links = self.link_set();
                let ghost had = fresh@;
                if self.connect(a, b) {
                    fresh.push((a, b));
                    proof {
                        assert(!had.contains((a, b)));
                        assert forall|l: (usize, usize)| #[trigger] fresh@.contains(l) == (
                        had.contains(l) || l == (a, b)) by {
                            if had.contains(l) {
                                let k = choose|k: int| 0 <= k < had.len() && had[k] == l;
                                assert(fresh@[k] == l);
                            }
                            if l == (a, b) {
                                assert(fresh@[had.len() as int] == l);
                            }
                        }
                    }
                }
                b = b + 1;
            }
            a = a + 1;
        }
        fresh
    }

    /// How many links are up.
    #[must_use]
    pub fn active_links(&self) -> (count: usize)
        requires
            self.wf(),
        ensures
            count == self.link_set().len(),
    {
        proof {
            self.links@.unique_seq_to_set();
        }
        self.links.len()
    }

    /// What every peer shows of an entity, by peer.
    #[must_use]
    pub fn snapshots(&self, entity: &str) -> (boards: Vec<Vec<(String, Vec<u8>)>>)
        ensures
            boards@.len() == self.peers().len(),
            forall|i: int|
                0 <= i < boards@.len() ==> lists_board(
                    self.peers()[i],
                    entity@,
                    (#[trigger] boards@[i])@,
                ),
    {
        let mut boards: Vec<Vec<(String, Vec<u8>)>> = Vec::new();
        let mut i: usize = 0;
        while i < self.stores.len()
            invariant
                i <= self.stores@.len(),
                boards@.len() == i,
                forall|k: int|
                    0 <= k < i ==> lists_board(self.stores@[k], entity@, (#[trigger] boards@[k])@),
            decreases self.stores@.len() - i,
        {
            boards.push(snapshot(&self.stores[i], entity));
            i = i + 1;
        }
        boards
    }

    /// Whether every two peers show the same JSON records of an entity. Without
    /// peers, or with one, they do.
    #[must_use]
    pub fn converged(&self, entity: &str) -> (same: bool)
        ensures
            same <==> forall|i: int, j: int|
                0 <= i < self.peers().len() && 0 <= j < self.peers().len() ==> same_records(
                    #[trigger] self.peers()[i],
                    #[trigger] self.peers()[j],
                    entity@,
                ),
            same == all_agree(self.peers(), entity@),
    {
        let count = self.stores.len();
        let mut i: usize = 1;
        while i < count
            invariant
                1 <= i,
                i <= count || count == 0,
                count == self.stores@.len(),
                forall|k: int|
                    0 <= k < i && k < count ==> same_records(
                        self.stores@[0],
                        #[trigger] self.stores@[k],
                        entity@,
                    ),
            decreases count - i,
        {
            if !agree(&self.stores[i - 1], &self.stores[i], entity) {
                assert(!same_records(self.peers()[i - 1], self.peers()[i as int], entity@));
                return false;
            }
            proof {
                assert(same_records(self.stores@[0], self.stores@[i - 1], entity@));
                assert(same_records(self.stores@[0], self.stores@[i as int], entity@));
            }
            i = i + 1;
        }
        proof {
            assert forall|j: int, k: int|
                0 <= j < self.peers().len() && 0 <= k < self.peers().len() implies same_records(
                #[trigger] self.peers()[j],
                #[trigger] self.peers()[k],
                entity@,
            ) by {
                assert(same_records(self.stores@[0], self.stores@[j], entity@));
                assert(same_records(self.stores@[0], self.stores@[k], entity@));
            }
        }
        true
    }

    /// Cuts all links (use at the end of a run).
    pub fn shutdown(&mut self)
        requires
            old(self).wf(),
        ensures
            final(self).wf(),
            final(self).peers() == old(self).peers(),
            final(self).peer_ids() == old(self).peer_ids(),
            final(self).link_set() == Set::<(usize, usize)>::empty(),
    {
        self.links = Vec::new();
        assert(self.link_set() =~= Set::<(usize, usize)>::empty());
    }
}

/// A link is the same from both ends.
pub proof fn links_have_no_direction(a: usize, b: usize)
    ensures
        link(a, b) == link(b, a),
{
}

/// Peers have seeds of their own: the number of the peer, from one, in the first byte
/// and zeros after it.
pub proof fn seeds_tell_peers_apart(
    i: usize,
    bytes: [u8; 32],
    j: usize,
    other: [u8; 32],
    k: int,
)
    requires
        i < 255,
        j < 255,
        call_ensures(seed, (i,), bytes),
        call_ensures(seed, (j,), other),
        1 <= k < 32,
    ensures
        bytes@[0] == i + 1,
        bytes@[k] == 0,
        bytes@ == other@ <==> i == j,
{
    assert(other@[0] == j + 1);
}

/// A link has no direction: once made it is there from either end, it is made and cut
/// once, and only between two peers.
pub proof fn links_are_made_and_cut_from_either_end(
    connecting: &mut Cluster,
    a: usize,
    b: usize,
    fresh: bool,
    again: &mut Cluster,
    second: bool,
    counted: &Cluster,
    count: usize,
    cutting: &mut Cluster,
    cut: bool,
    recounted: &Cluster,
    left: usize,
    key: (usize, usize),
    back: (usize, usize),
)
    requires
        a != b,
        call_ensures(Cluster::connect, (connecting, a, b), fresh),
        *old(again) == *final(connecting),
        call_ensures(Cluster::connect, (again, b, a), second),
        *counted == *final(again),
        call_ensures(Cluster::active_links, (counted,), count),
        *old(cutting) == *final(again),
        call_ensures(Cluster::partition, (cutting, b, a), cut),
        *recounted == *final(cutting),
        call_ensures(Cluster::active_links, (recounted,), left),
        call_ensures(link_key, (a, b), key),
        call_ensures(link_key, (b, a), back),
        old(connecting).link_set().finite(),
    ensures
        !second,
        cut,
        left + 1 == count,
        fresh ==> left == old(connecting).link_set().len(),
        !fresh ==> count == old(connecting).link_set().len(),
        key == back,
        key.0 < key.1,
        key.0 == a && key.1 == b || key.0 == b && key.1 == a,
        forall|l: (usize, usize)|
            l != key ==> (#[trigger] final(cutting).link_set().contains(l) <==> old(connecting).link_set().contains(l)),
{
    let before = old(connecting).link_set();
    let with = before.insert(key);
    assert(final(again).link_set() == with);
    assert(final(cutting).link_set() == with.remove(key));
    if fresh {
        assert(with.remove(key) == before);
    } else {
        assert(with == before);
    }
}

/// No peer is linked to itself.
pub proof fn no_peer_is_linked_to_itself(connecting: &mut Cluster, a: usize, fresh: bool)
    requires
        call_ensures(Cluster::connect, (connecting, a, a), fresh),
    ensures
        !fresh,
        final(connecting).link_set() == old(connecting).link_set(),
{
}

/// In a full mesh every two peers are linked; shutting down cuts every link.
pub proof fn full_meshes_link_all(
    meshing: &mut Cluster,
    fresh: Vec<(usize, usize)>,
    a: usize,
    b: usize,
    cutting: &mut Cluster,
    cut: bool,
    ending: &mut Cluster,
    after: &mut Cluster,
    still: bool,
)
    requires
        call_ensures(Cluster::full_mesh, (meshing,), fresh),
        a != b,
        a < old(meshing).peers().len(),
        b < old(meshing).peers().len(),
        *old(cutting) == *final(meshing),
        call_ensures(Cluster::partition, (cutting, a, b), cut),
        *old(ending) == *final(meshing),
        call_ensures(Cluster::shutdown, (ending,), ()),
        *old(after) == *final(ending),
        call_ensures(Cluster::partition, (after, a, b), still),
    ensures
        cut,
        !still,
        final(meshing).peers() == old(meshing).peers(),
        final(ending).peers() == old(meshing).peers(),
{
    let l = if a < b {
        (a, b)
    } else {
        (b, a)
    };
    assert(final(meshing).link_set().contains(l));
}

/// Boards agree when they show the same: a record that one shows as JSON the other
/// shows too, as the same JSON.
pub proof fn agreeing_boards_show_the_same(
    a: &Store,
    b: &Store,
    entity: &str,
    same: bool,
    id: &str,
    one: Option<Vec<u8>>,
    other: Option<Vec<u8>>,
)
    requires
        call_ensures(agree, (a, b, entity), same),
        call_ensures(Store::read, (a, entity, id), one),
        call_ensures(Store::read, (b, entity, id), other),
    ensures
        same ==> {
            &&& one is Some && parsed_json(one->Some_0@) is Some ==> other is Some && parsed_json(
                other->Some_0@,
            ) == parsed_json(one->Some_0@)
            &&& other is Some && parsed_json(other->Some_0@) is Some ==> one is Some
                && parsed_json(one->Some_0@) == parsed_json(other->Some_0@)
        },
        one is Some && other is Some && parsed_json(one->Some_0@) != parsed_json(other->Some_0@)
            ==> !same,
        one is Some && parsed_json(one->Some_0@) is Some && other is None ==> !same,
        other is Some && parsed_json(other->Some_0@) is Some && one is None ==> !same,
{
    assert(same ==> shown_json(*a, entity@, id@) == shown_json(*b, entity@, id@));
}

/// A cluster has converged exactly if every two of its boards agree.
pub proof fn converged_clusters_agree(
    cluster: &Cluster,
    entity: &str,
    all: bool,
    i: int,
    j: int,
    same: bool,
)
    requires
        call_ensures(Cluster::converged, (cluster, entity), all),
        0 <= i < cluster.peers().len(),
        0 <= j < cluster.peers().len(),
        call_ensures(agree, (&cluster.peers()[i], &cluster.peers()[j], entity), same),
    ensures
        all ==> same,
        !same ==> !all,
{
    let a = cluster.peers()[i];
    let b = cluster.peers()[j];
    assert(all ==> same_records(a, b, entity@));
}

/// A snapshot shows the records that can be read and are JSON, each once, with their
/// data.
pub proof fn snapshots_show_what_can_be_read(
    store: &Store,
    entity: &str,
    rows: Vec<(String, Vec<u8>)>,
    id: &str,
    record: Option<Vec<u8>>,
)
    requires
        call_ensures(snapshot, (store, entity), rows),
        call_ensures(Store::read, (store, entity, id), record),
    ensures
        record is Some && parsed_json(record->Some_0@) is Some ==> exists|i: int|
            0 <= i < rows@.len() && (#[trigger] rows@[i]).0@ == id@ && rows@[i].1@
                == record->Some_0@,
        record is None || parsed_json(record->Some_0@) is None ==> forall|i: int|
            0 <= i < rows@.len() ==> (#[trigger] rows@[i]).0@ != id@,
{
    if record is Some && parsed_json(record->Some_0@) is Some {
        assert(shown_json(*store, entity@, id@) is Some);
        let i = choose|i: int| 0 <= i < rows@.len() && (#[trigger] rows@[i]).0@ == id@;
        assert(shown(*store, entity@, rows@[i].0@) == Some(rows@[i].1@));
    } else {
        assert forall|i: int| 0 <= i < rows@.len() implies (#[trigger] rows@[i]).0@ != id@ by {
            assert(shown(*store, entity@, rows@[i].0@) == Some(rows@[i].1@));
        }
    }
}

/// Every peer of a new cluster joins the scope of the first and is empty; a record
/// cannot be read before it is written.
pub proof fn new_clusters_are_empty(
    n: usize,
    cluster: Cluster,
    i: int,
    entity: &str,
    id: &str,
    record: Option<Vec<u8>>,
)
    requires
        n <= 255,
        call_ensures(Cluster::new, (n,), cluster),
        0 <= i < n,
        call_ensures(Store::read, (&cluster.peers()[i], entity, id), record),
    ensures
        cluster.peers().len() == n,
        cluster.peers()[i].scope_owner() == Some(cluster.peer_ids()[0]),
        cluster.peers()[i].inner()@.self_id == cluster.peer_ids()[i],
        record is None,
{
}

/// Inviting all makes each invited peer an authorized author on the board of the owner.
pub proof fn invited_peers_are_authorized(
    inviting: &mut Cluster,
    wall_ms: u64,
    frames: Vec<WriteFrame>,
    k: int,
    authorized: bool,
)
    requires
        old(inviting).wf(),
        call_ensures(Cluster::invite_all, (inviting, wall_ms), frames),
        1 <= k <= frames@.len(),
        old(inviting).peers()[0].scope_owner() == Some(old(inviting).peers()[0].inner()@.self_id),
        call_ensures(
            Store::author_authorized,
            (&final(inviting).peers()[0], &old(inviting).peer_ids()[k]),
            authorized,
        ),
    ensures
        authorized,
{
}

/// Revoking a peer takes its authority on the board of the owner away.
pub proof fn revoked_peers_are_not_authorized(
    revoking: &mut Cluster,
    wall_ms: u64,
    i: usize,
    frame: WriteFrame,
    authorized: bool,
)
    requires
        old(revoking).wf(),
        i < old(revoking).peers().len(),
        old(revoking).peers()[0].wf(),
        old(revoking).peers()[0].inner().can_write(
            wall_ms,
            MEMBERS_ENTITY@,
            crate::text::hex(old(revoking).peer_ids()[i as int]@),
            Seq::empty(),
        ),
        call_ensures(Cluster::revoke, (revoking, wall_ms, i), frame),
        old(revoking).peers()[0].scope_owner() matches Some(owner) && owner != old(revoking).peer_ids()[i as int],
        call_ensures(
            Store::author_authorized,
            (&final(revoking).peers()[0], &old(revoking).peer_ids()[i as int]),
            authorized,
        ),
    ensures
        !authorized,
{
    crate::store::revocation_hides_the_peer(
        old(revoking).peers()[0].scope_owner()->Some_0,
        old(revoking).peers()[0].inner()@,
        wall_ms,
        old(revoking).peer_ids()[i as int],
        Seq::empty(),
        frame@.signature,
        Seq::empty(),
        Seq::empty(),
    );
}

/// Peers are numbered: each board and each id is that of the peer, and a change of one
/// board leaves the others.
pub proof fn boards_are_numbered(
    cluster: &Cluster,
    len: usize,
    empty: bool,
    i: usize,
    id: PeerId,
    board: Store,
)
    requires
        cluster.wf(),
        call_ensures(Cluster::len, (cluster,), len),
        call_ensures(Cluster::is_empty, (cluster,), empty),
        i < cluster.peers().len(),
        call_ensures(Cluster::peer_id, (cluster, i), id),
        call_ensures(Cluster::board, (cluster, i), &board),
    ensures
        len == cluster.peers().len(),
        empty <==> len == 0,
        id == cluster.peer_ids()[i as int],
        board == cluster.peers()[i as int],
{
}

/// The snapshots of a cluster are those of its boards, in order.
pub proof fn snapshots_are_those_of_the_boards(
    cluster: &Cluster,
    entity: &str,
    boards: Vec<Vec<(String, Vec<u8>)>>,
    i: int,
    rows: Vec<(String, Vec<u8>)>,
    id: Seq<char>,
)
    requires
        call_ensures(Cluster::snapshots, (cluster, entity), boards),
        0 <= i < cluster.peers().len(),
        call_ensures(snapshot, (&cluster.peers()[i], entity), rows),
    ensures
        boards@.len() == cluster.peers().len(),
        (exists|k: int| 0 <= k < boards@[i]@.len() && (#[trigger] boards@[i]@[k]).0@ == id) <==> (
        exists|k: int| 0 <= k < rows@.len() && (#[trigger] rows@[k]).0@ == id),
{
    let store = cluster.peers()[i];
    assert(lists_board(store, entity@, boards@[i]@));
    if exists|k: int| 0 <= k < boards@[i]@.len() && (#[trigger] boards@[i]@[k]).0@ == id {
        let k = choose|k: int| 0 <= k < boards@[i]@.len() && (#[trigger] boards@[i]@[k]).0@ == id;
        assert(shown_json(store, entity@, boards@[i]@[k].0@) is Some);
    }
    if exists|k: int| 0 <= k < rows@.len() && (#[trigger] rows@[k]).0@ == id {
        let k = choose|k: int| 0 <= k < rows@.len() && (#[trigger] rows@[k]).0@ == id;
        assert(shown_json(store, entity@, rows@[k].0@) is Some);
    }
}

/// Inviting all writes one invitation for each other peer, in their order: a membership
/// record of that peer, with the role of a member, by the owner.
pub proof fn each_peer_is_invited_once(
    inviting: &mut Cluster,
    wall_ms: u64,
    frames: Vec<WriteFrame>,
    k: int,
)
    requires
        old(inviting).wf(),
        old(inviting).peers().len() > 0,
        call_ensures(Cluster::invite_all, (inviting, wall_ms), frames),
        0 <= k < frames@.len(),
    ensures
        frames@[k].op is Insert,
        frames@[k].entity@ == "_members"@,
        frames@[k].id@ == crate::text::hex(old(inviting).peer_ids()[k + 1]@),
        frames@[k].data@ == seq![1u8],
        frames@.len() < old(inviting).peers().len(),
        final(inviting).peers().len() == old(inviting).peers().len(),
        forall|i: int|
            1 <= i < old(inviting).peers().len() ==> #[trigger] final(inviting).peers()[i] == old(inviting).peers()[i],
        crate::store::shows_author(
            Some(old(inviting).peers()[0].inner()@.self_id),
            final(inviting).peers()[0].inner()@.state,
            old(inviting).peer_ids()[k + 1],
        ),
{
    assert(frames@[k]@.op is Insert);
    assert(frames@[k]@.data == seq![1u8]);
}

} // verus!
