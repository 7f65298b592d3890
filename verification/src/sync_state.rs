//! One peer's complete sync state.
use vstd::prelude::*;
use crate::assoc::Assoc;
use crate::hlc::{same_peer, Hlc, PeerId, Stamp};
use crate::lww::{Applier, MergeOutcome, Op};
use crate::replog::{Cursors, RecordOutcome, ReplLog};
use crate::wire::WriteFrame;

verus! {

/// Durable sink for the per-origin replication log. Every frame that enters the
/// log (local or received) is handed to `append`; `load` returns all persisted
/// frames at startup so state can be rebuilt by replay.
pub trait FramePersister: Send + Sync {
    fn append(&self, frame: &WriteFrame);

    fn load(&self) -> Vec<WriteFrame>;
}

/// Signs locally-originated frames and verifies/authorizes received ones. With
/// no `FrameAuth` set, writes are unsigned and every frame is accepted.
pub trait FrameAuth: Send + Sync {
    /// Sign a local frame's [`WriteFrame::signing_bytes`].
    fn sign(&self, signing_bytes: &[u8]) -> [u8; 64];

    /// Accept a received frame?
    fn verify(&self, frame: &WriteFrame) -> bool;
}

/// Where an observable mutation came from.
#[derive(Debug, Clone, Copy, PartialEq, Eq, Structural)]
pub enum WriteOrigin {
    Local,
    Remote,
}

/// Emitted whenever a write changes the visible state (the LWW winner), whether
/// originated locally or applied from a peer.
#[derive(Debug, PartialEq, Eq)]
pub struct MutationEvent {
    pub op: Op,
    pub entity: String,
    pub id: String,
    /// Serialized record for inserts/updates; `None` for deletes.
    pub data: Option<Vec<u8>>,
    pub origin: WriteOrigin,
}

/// The mathematical content of a [`MutationEvent`].
#[verifier::ext_equal]
pub struct EventModel {
    pub op: Op,
    pub entity: Seq<char>,
    pub id: Seq<char>,
    pub data: Option<Seq<u8>>,
    pub origin: WriteOrigin,
}

impl View for MutationEvent {
    type V = EventModel;

    open spec fn view(&self) -> EventModel {
        EventModel {
            op: self.op,
            entity: self.entity@,
            id: self.id@,
            data: match self.data {
                Some(data) => Some(data@),
                None => None,
            },
            origin: self.origin,
        }
    }
}

/// The event that tells of a frame.
pub open spec fn event_of(frame: crate::wire::FrameModel, origin: WriteOrigin) -> EventModel {
    EventModel {
        op: frame.op,
        entity: frame.entity,
        id: frame.id,
        data: if frame.op is Delete {
            None
        } else {
            Some(frame.data)
        },
        origin,
    }
}

/// Events by their content.
pub open spec fn event_models(events: Seq<MutationEvent>) -> Seq<EventModel> {
    Seq::new(events.len(), |i: int| events[i]@)
}

/// The mathematical content of a [`SyncState`].
#[verifier::ext_equal]
pub struct SyncModel {
    pub self_id: PeerId,
    /// The hybrid clock.
    pub clock: Hlc,
    /// What was delivered.
    pub log: crate::replog::LogModel,
    /// Who won.
    pub state: crate::lww::StateModel,
    /// Events not yet handed out.
    pub events: Seq<EventModel>,
    /// Whether frames are to be persisted.
    pub durable: bool,
    /// Frames to be persisted, not yet handed out.
    pub unsaved: Seq<crate::wire::FrameModel>,
    /// The cursors that other peers reported.
    pub peer_cursors: Map<PeerId, Map<PeerId, u64>>,
}

impl SyncModel {
    /// A peer that has neither written nor received anything.
    pub open spec fn fresh(self_id: PeerId) -> SyncModel {
        SyncModel {
            self_id,
            clock: Hlc { physical: 0, logical: 0 },
            log: Map::empty(),
            state: Map::empty(),
            events: Seq::empty(),
            durable: false,
            unsaved: Seq::empty(),
            peer_cursors: Map::empty(),
        }
    }

    /// The log is in order and no stored stamp is ahead of the clock.
    pub open spec fn ok(self) -> bool {
        &&& crate::replog::log_ok(self.log)
        &&& forall|key: (Seq<char>, Seq<char>)| #[trigger]
            self.state.contains_key(key) ==> self.state[key].stamp.hlc.not_after(self.clock)
    }

    /// The frame of a local write at `wall_ms`.
    pub open spec fn local_frame(
        self,
        wall_ms: u64,
        op: Op,
        entity: Seq<char>,
        id: Seq<char>,
        data: Seq<u8>,
        signature: Option<[u8; 64]>,
    ) -> crate::wire::FrameModel {
        crate::wire::FrameModel {
            stamp: Stamp { hlc: self.clock.ticked(wall_ms), peer: self.self_id },
            seq: (crate::replog::cursor(self.log, self.self_id) + 1) as u64,
            op,
            entity,
            id,
            data,
            signature,
        }
    }

    /// The state after a local write that made `frame`.
    pub open spec fn written(self, frame: crate::wire::FrameModel) -> SyncModel {
        SyncModel {
            clock: frame.stamp.hlc,
            log: crate::replog::recorded(self.log, frame),
            state: crate::lww::merged(self.state, frame.stamped()),
            events: self.events.push(event_of(frame, WriteOrigin::Local)),
            unsaved: if self.durable {
                self.unsaved.push(frame)
            } else {
                self.unsaved
            },
            ..self
        }
    }

    /// What [`SyncState::receive`] answers, given what verification said.
    pub open spec fn receive_outcome(
        self,
        frame: crate::wire::FrameModel,
        verified: bool,
    ) -> RecordOutcome {
        if verified {
            crate::replog::record_outcome(self.log, frame)
        } else {
            RecordOutcome::Rejected
        }
    }

    /// The state after a frame from a peer, given what verification said: a
    /// rejected frame leaves everything as it was, an accepted one always
    /// advances the clock, and only the next frame of its origin is logged and
    /// merged.
    pub open spec fn received(
        self,
        frame: crate::wire::FrameModel,
        wall_ms: u64,
        verified: bool,
    ) -> SyncModel {
        let clock = self.clock.observed(frame.stamp.hlc, wall_ms);
        match self.receive_outcome(frame, verified) {
            RecordOutcome::Rejected => self,
            RecordOutcome::Appended => SyncModel {
                clock,
                log: crate::replog::recorded(self.log, frame),
                state: crate::lww::merged(self.state, frame.stamped()),
                events: if crate::lww::wins(self.state, frame.stamped()) {
                    self.events.push(event_of(frame, WriteOrigin::Remote))
                } else {
                    self.events
                },
                unsaved: if self.durable {
                    self.unsaved.push(frame)
                } else {
                    self.unsaved
                },
                ..self
            },
            _ => SyncModel { clock, ..self },
        }
    }

    /// The state after frames from a peer one after another, given what
    /// verification said of each.
    pub open spec fn received_all(
        self,
        frames: Seq<crate::wire::FrameModel>,
        wall_ms: u64,
        verdicts: Seq<bool>,
    ) -> SyncModel
        decreases frames.len(),
    {
        if frames.len() == 0 {
            self
        } else {
            self.received_all(frames.drop_last(), wall_ms, verdicts).received(
                frames.last(),
                wall_ms,
                verdicts[frames.len() - 1],
            )
        }
    }

    /// The state after a persisted frame was replayed.
    pub open spec fn replayed(self, frame: crate::wire::FrameModel) -> SyncModel {
        SyncModel {
            clock: self.clock.observed(frame.stamp.hlc, frame.stamp.hlc.physical),
            log: crate::replog::recorded(self.log, frame),
            state: if crate::replog::record_outcome(self.log, frame) is Appended {
                crate::lww::merged(self.state, frame.stamped())
            } else {
                self.state
            },
            ..self
        }
    }

    /// The state after persisted frames were replayed one after another.
    pub open spec fn replayed_all(self, frames: Seq<crate::wire::FrameModel>) -> SyncModel
        decreases frames.len(),
    {
        if frames.len() == 0 {
            self
        } else {
            self.replayed_all(frames.drop_last()).replayed(frames.last())
        }
    }

    /// The clock has room to replay `frame`.
    pub open spec fn can_replay(self, frame: crate::wire::FrameModel) -> bool {
        self.clock.can_observe(frame.stamp.hlc, frame.stamp.hlc.physical)
    }

    /// The cursor that `member` reported for `origin`; zero if none is known.
    pub open spec fn reported_by(self, member: PeerId, origin: PeerId) -> u64 {
        if self.peer_cursors.contains_key(member) {
            crate::replog::reported(self.peer_cursors[member], origin)
        } else {
            0
        }
    }

    /// The lowest cursor for `origin` across this peer and `members`.
    pub open spec fn low_water(self, members: Seq<PeerId>, origin: PeerId) -> u64
        decreases members.len(),
    {
        if members.len() == 0 {
            crate::replog::cursor(self.log, origin) as u64
        } else {
            let rest = self.low_water(members.drop_last(), origin);
            let member = members.last();
            if member != self.self_id && self.reported_by(member, origin) < rest {
                self.reported_by(member, origin)
            } else {
                rest
            }
        }
    }

    /// The log after reclaiming what all `members` have delivered.
    pub open spec fn reclaimed_log(self, members: Seq<PeerId>) -> crate::replog::LogModel {
        self.log.map_entries(
            |origin: PeerId, part: crate::replog::OriginModel|
                crate::replog::truncated(self.log, origin, self.low_water(members, origin))[origin],
        )
    }

    /// How many frames of the origins in `order` are dropped.
    pub open spec fn reclaimed_count(self, members: Seq<PeerId>, order: Seq<PeerId>) -> nat
        decreases order.len(),
    {
        if order.len() == 0 {
            0
        } else {
            self.reclaimed_count(members, order.drop_last()) + crate::replog::truncated_count(
                self.log,
                order.last(),
                self.low_water(members, order.last()),
            )
        }
    }
}

/// `signature` is what `auth` may give for the bytes `part`.
pub open spec fn signed_by<A: FrameAuth>(auth: A, part: Seq<u8>, signature: [u8; 64]) -> bool {
    exists|bytes: &[u8]|
        bytes@ == part && #[trigger] call_ensures(A::sign, (&auth, bytes), signature)
}

/// `verdict` is what `auth` may say of `frame`; without `auth` every frame is
/// accepted.
pub open spec fn judged<A: FrameAuth>(auth: Option<A>, frame: WriteFrame, verdict: bool) -> bool {
    match auth {
        Some(auth) => call_ensures(A::verify, (&auth, &frame), verdict),
        None => verdict,
    }
}

/// `order` lists every origin of `log` once.
pub open spec fn enumerates(order: Seq<PeerId>, log: crate::replog::LogModel) -> bool {
    &&& order.no_duplicates()
    &&& forall|origin: PeerId| #[trigger] order.contains(origin) <==> log.contains_key(origin)
}

impl<A> SyncState<A> {
    /// A local write can be made: the clock and the numbering have room, and
    /// what is to be signed can be framed.
    pub open spec fn can_write(
        &self,
        wall_ms: u64,
        entity: Seq<char>,
        id: Seq<char>,
        data: Seq<u8>,
    ) -> bool {
        &&& self@.clock.can_tick(wall_ms)
        &&& crate::replog::cursor(self@.log, self@.self_id) < u64::MAX
        &&& self.auth() is Some && vstd::utf8::encode_utf8(entity).len() <= 255
            && vstd::utf8::encode_utf8(id).len() <= 255 ==> data.len() <= u32::MAX
    }
}

/// One peer's complete sync state: the HLC, the per-origin replication log
/// (delivery), and the LWW applier (conflict resolution + GC).
pub struct SyncState<A> {
    self_id: PeerId,
    clock: Hlc,
    log: ReplLog,
    applier: Applier,
    events: Vec<MutationEvent>,
    durable: bool,
    unsaved: Vec<WriteFrame>,
    auth: Option<A>,
    peer_cursors: Assoc<PeerId, Cursors>,
}

impl<A> View for SyncState<A> {
    type V = SyncModel;

    closed spec fn view(&self) -> SyncModel {
        SyncModel {
            self_id: self.self_id,
            clock: self.clock,
            log: self.log@,
            state: self.applier@,
            events: event_models(self.events@),
            durable: self.durable,
            unsaved: crate::replog::frame_models(self.unsaved@),
            peer_cursors: self.peer_cursors@.map_values(|cursors: Cursors| cursors@),
        }
    }
}

fn event_for(frame: &WriteFrame, origin: WriteOrigin) -> (event: MutationEvent)
    ensures
        event@ == event_of(frame@, origin),
{
    let data = match frame.op {
        Op::Delete => None,
        _ => Some(frame.data.clone()),
    };
    MutationEvent {
        op: frame.op,
        entity: frame.entity.clone(),
        id: frame.id.clone(),
        data,
        origin,
    }
}

impl<A> SyncState<A> {
    /// See [`SyncModel::ok`].
    pub open spec fn wf(&self) -> bool {
        self@.ok()
    }

    /// What signs and verifies frames.
    pub closed spec fn auth(&self) -> Option<A> {
        self.auth
    }

    /// A peer without history, for any kind of [`FrameAuth`].
    #[must_use]
    pub fn unsigned(self_id: PeerId) -> (state: Self)
        ensures
            state.wf(),
            state@ == SyncModel::fresh(self_id),
            state.auth() is None,
    {
        let state = SyncState {
            self_id,
            clock: Hlc::default(),
            log: ReplLog::new(self_id),
            applier: Applier::new(),
            events: Vec::new(),
            durable: false,
            unsaved: Vec::new(),
            auth: None,
            peer_cursors: Assoc::new(),
        };
        assert(state@ =~= SyncModel::fresh(self_id));
        state
    }

    /// Record a peer's reported cursors (from its `Hello`). Feeds the
    /// reclamation low-water-mark.
    pub fn note_peer_cursors(&mut self, peer: PeerId, cursors: Cursors)
        requires
            old(self).wf(),
        ensures
            final(self).wf(),
            final(self).auth() == old(self).auth(),
            final(self)@ == (SyncModel {
                peer_cursors: old(self)@.peer_cursors.insert(peer, cursors@),
                ..old(self)@
            }),
    {
        self.peer_cursors.insert(peer, cursors);
        assert(self@ =~= SyncModel {
            peer_cursors: old(self)@.peer_cursors.insert(peer, cursors@),
            ..old(self)@
        });
    }

    fn low_water_mark(&self, members: &[PeerId], origin: &PeerId) -> (mark: u64)
        requires
            self.wf(),
        ensures
            mark == self@.low_water(members@, *origin),
    {
        let mut mark = self.log.cursor_for(origin);
        let mut i: usize = 0;
        assert(members@.take(0) =~= Seq::empty());
        while i < members.len()
            invariant
                i <= members@.len(),
                mark == self@.low_water(members@.take(i as int), *origin),
            decreases members@.len() - i,
        {
            let member = members[i];
            assert(members@.take(i + 1).drop_last() =~= members@.take(i as int));
            if !same_peer(&member, &self.self_id) {
                let cursor: u64 = match self.peer_cursors.get(&member) {
                    Some(cursors) => match cursors.get(origin) {
                        Some(cursor) => *cursor,
                        None => 0,
                    },
                    None => 0,
                };
                assert(cursor == self@.reported_by(member, *origin));
                if cursor < mark {
                    mark = cursor;
                }
            }
            i = i + 1;
        }
        assert(members@.take(i as int) =~= members@);
        mark
    }

    /// Reclaim **in-memory** replication-log prefixes that every listed member
    /// has already delivered. For each origin, the low-water-mark is the minimum
    /// cursor across this peer and all `members`; frames at or below it are
    /// dropped from the in-memory log. Returns frames dropped (at most
    /// `usize::MAX`).
    ///
    /// No member can still send an older write once all have delivered through
    /// the mark. A member whose cursor is unknown (never heard from) holds the
    /// mark at 0, so nothing is reclaimed until it reports in.
    ///
    /// This bounds a long-running peer's memory. It does not truncate durable
    /// storage: a persisted store rebuilds state by replaying the full log on
    /// reopen.
    pub fn reclaim(&mut self, members: &[PeerId]) -> (dropped: usize)
        requires
            old(self).wf(),
        ensures
            final(self).wf(),
            final(self).auth() == old(self).auth(),
            final(self)@ == (SyncModel {
                log: old(self)@.reclaimed_log(members@),
                ..old(self)@
            }),
            exists|order: Seq<PeerId>| #[trigger]
                enumerates(order, old(self)@.log) && dropped == (
                if old(self)@.reclaimed_count(members@, order) <= usize::MAX {
                    old(self)@.reclaimed_count(members@, order) as int
                } else {
                    usize::MAX as int
                }),
    {
        let ghost start = self@;
        let mut dropped: usize = 0;
        let origins = self.log.cursors();
        let count = origins.len();
        let ghost listing = origins.listing();
        let ghost order = Seq::new(listing.len(), |i: int| listing[i].0);
        proof {
            crate::assoc::lemma_map_of(listing);
            assert(order.no_duplicates()) by {
                assert forall|i: int, j: int|
                    0 <= i < order.len() && 0 <= j < order.len() && i != j implies order[i]
                    != order[j] by {
                    assert(listing[i].0 != listing[j].0);
                }
            }
            assert forall|origin: PeerId| #[trigger]
                order.contains(origin) == start.log.contains_key(origin) by {
                if order.contains(origin) {
                    let i = choose|i: int| 0 <= i < order.len() && order[i] == origin;
                    assert(listing[i].0 == origin);
                    assert(origins@.contains_key(listing[i].0));
                }
                if start.log.contains_key(origin) {
                    assert(origins@.contains_key(origin));
                    let i = choose|i: int|
                        0 <= i < listing.len() && (#[trigger] listing[i]).0 == origin;
                    assert(order[i] == origin);
                }
            }
            assert(enumerates(order, start.log));
            assert(order.take(0) =~= Seq::empty());
        }
        let mut i: usize = 0;
        while i < count
            invariant
                i <= count,
                count == listing.len(),
                listing == origins.listing(),
                order == Seq::new(listing.len(), |i: int| listing[i].0),
                enumerates(order, start.log),
                start.ok(),
                self.wf(),
                self.auth() == old(self).auth(),
                self@ == (SyncModel { log: self@.log, ..start }),
                forall|o: PeerId| #[trigger]
                    self@.log.contains_key(o) <==> start.log.contains_key(o),
                forall|j: int|
                    0 <= j < i ==> self@.log[#[trigger] order[j]] == crate::replog::truncated(
                        start.log,
                        order[j],
                        start.low_water(members@, order[j]),
                    )[order[j]],
                forall|j: int| i <= j < order.len() ==> self@.log[#[trigger] order[j]] == start.log[order[j]],
                dropped == (if start.reclaimed_count(members@, order.take(i as int))
                    <= usize::MAX {
                    start.reclaimed_count(members@, order.take(i as int)) as int
                } else {
                    usize::MAX as int
                }),
            decreases count - i,
        {
            let (origin, _) = origins.at(i);
            let ghost this = *origin;
            let ghost before = self@;
            proof {
                assert(order[i as int] == this);
                assert(order.contains(this));
                lemma_low_water_of_untouched(start, before.log, members@, this);
            }
            let mark = self.low_water_mark(members, origin);
            let count_here = if mark > 0 {
                self.log.truncate(origin, mark)
            } else {
                proof {
                    assert(start.log[this].frames.skip(0) =~= start.log[this].frames);
                    assert(crate::replog::truncated(start.log, this, 0)[this] =~= start.log[this]);
                }
                0
            };
            dropped = dropped.saturating_add(count_here);
            proof {
                assert(before.log[this] == start.log[this]);
                assert(order.take(i + 1).drop_last() =~= order.take(i as int));
                assert(order.take(i + 1).last() == this);
                assert(count_here == crate::replog::truncated_count(start.log, this, mark));
                assert(self@ =~= SyncModel { log: self@.log, ..start });
                assert forall|j: int| 0 <= j < order.len() && j != i implies self@.log[
                    #[trigger] order[j]] == before.log[order[j]] by {
                    assert(order[j] != order[i as int]);
                }
            }
            i = i + 1;
        }
        proof {
            assert(order.take(i as int) =~= order);
            assert forall|o: PeerId| #[trigger] self@.log.contains_key(o) implies self@.log[o]
                == start.reclaimed_log(members@)[o] by {
                assert(order.contains(o));
                let j = choose|j: int| 0 <= j < order.len() && order[j] == o;
                assert(self@.log[order[j]] == start.reclaimed_log(members@)[order[j]]);
            }
            assert(self@.log =~= start.reclaimed_log(members@));
            assert(self@ =~= SyncModel { log: start.reclaimed_log(members@), ..start });
        }
        dropped
    }

    /// Attach signing/verification. Local writes are signed; received frames
    /// failing `verify` are rejected before they touch the log or state.
    pub fn set_auth(&mut self, auth: A)
        requires
            old(self).wf(),
        ensures
            final(self).wf(),
            final(self)@ == old(self)@,
            final(self).auth() == Some(auth),
    {
        self.auth = Some(auth);
    }

    /// From now on queue every frame that enters the log for
    /// [`SyncState::take_unsaved`]. Call after [`SyncState::replay`]-ing any
    /// persisted frames so replay doesn't re-persist what's already stored.
    pub fn set_durable(&mut self)
        requires
            old(self).wf(),
        ensures
            final(self).wf(),
            final(self).auth() == old(self).auth(),
            final(self)@ == (SyncModel { durable: true, ..old(self)@ }),
    {
        self.durable = true;
    }

    /// Whether the clock has room to replay a frame.
    pub fn check_replay(&self, frame: &WriteFrame) -> (fits: bool)
        ensures
            fits == self@.can_replay(frame@),
    {
        self.clock.check_observe(frame.stamp.hlc, frame.stamp.hlc.physical)
    }

    /// Rebuild state from a persisted frame at startup: advances the clock,
    /// records into the log, and merges into the applier — without re-persisting
    /// or emitting events.
    pub fn replay(&mut self, frame: WriteFrame)
        requires
            old(self).wf(),
            old(self)@.can_replay(frame@),
        ensures
            final(self).wf(),
            final(self).auth() == old(self).auth(),
            final(self)@ == old(self)@.replayed(frame@),
    {
        let _ = self.clock.observe(frame.stamp.hlc, frame.stamp.hlc.physical);
        let outcome = self.log.record(frame.clone());
        if outcome == RecordOutcome::Appended {
            let _ = self.applier.merge(frame.into_stamped());
        }
        proof {
            assert(self@ =~= old(self)@.replayed(frame@));
        }
    }

    /// Replays persisted frames in order, as far as the clock has room. Returns
    /// how many were replayed.
    pub fn replay_all(&mut self, frames: Vec<WriteFrame>) -> (count: usize)
        requires
            old(self).wf(),
        ensures
            final(self).wf(),
            final(self).auth() == old(self).auth(),
            count <= frames@.len(),
            final(self)@ == old(self)@.replayed_all(
                crate::replog::frame_models(frames@).take(count as int),
            ),
            count < frames@.len() ==> !final(self)@.can_replay(frames@[count as int]@),
    {
        let ghost models = crate::replog::frame_models(frames@);
        assert(models.take(0) =~= Seq::empty());
        let mut i: usize = 0;
        while i < frames.len()
            invariant
                i <= frames@.len(),
                models == crate::replog::frame_models(frames@),
                self.wf(),
                self.auth() == old(self).auth(),
                self@ == old(self)@.replayed_all(models.take(i as int)),
            decreases frames@.len() - i,
        {
            if !self.check_replay(&frames[i]) {
                return i;
            }
            self.replay(frames[i].clone());
            proof {
                assert(models.take(i + 1).drop_last() =~= models.take(i as int));
                assert(models.take(i + 1).last() == frames@[i as int]@);
            }
            i = i + 1;
        }
        i
    }

    #[must_use]
    pub fn self_id(&self) -> (id: PeerId)
        ensures
            id == self@.self_id,
    {
        self.self_id
    }

    /// The clock's latest reading.
    #[must_use]
    pub fn clock(&self) -> (clock: Hlc)
        ensures
            clock == self@.clock,
    {
        self.clock
    }

    /// Whether [`SyncState::local_write`] may be called.
    pub fn check_write(&self, wall_ms: u64, entity: &str, id: &str, data: &[u8]) -> (fits: bool)
        requires
            self.wf(),
        ensures
            fits == self.can_write(wall_ms, entity@, id@, data@),
    {
        let framed = match &self.auth {
            Some(_) => entity.as_bytes().len() > 255 || id.as_bytes().len() > 255
                || data.len() as u64 <= u32::MAX as u64,
            None => true,
        };
        framed && self.clock.check_tick(wall_ms) && self.log.cursor_for(&self.self_id) < u64::MAX
    }

    /// Takes the events that were not handed out yet, oldest first.
    pub fn take_events(&mut self) -> (events: Vec<MutationEvent>)
        requires
            old(self).wf(),
        ensures
            final(self).wf(),
            final(self).auth() == old(self).auth(),
            event_models(events@) == old(self)@.events,
            final(self)@ == (SyncModel { events: Seq::empty(), ..old(self)@ }),
    {
        let mut out: Vec<MutationEvent> = Vec::new();
        std::mem::swap(&mut out, &mut self.events);
        assert(self@ =~= SyncModel { events: Seq::empty(), ..old(self)@ });
        out
    }

    /// Takes the frames that wait to be persisted, oldest first.
    pub fn take_unsaved(&mut self) -> (frames: Vec<WriteFrame>)
        requires
            old(self).wf(),
        ensures
            final(self).wf(),
            final(self).auth() == old(self).auth(),
            crate::replog::frame_models(frames@) == old(self)@.unsaved,
            final(self)@ == (SyncModel { unsaved: Seq::empty(), ..old(self)@ }),
    {
        let mut out: Vec<WriteFrame> = Vec::new();
        std::mem::swap(&mut out, &mut self.unsaved);
        assert(self@ =~= SyncModel { unsaved: Seq::empty(), ..old(self)@ });
        out
    }

    fn persist(&mut self, frame: &WriteFrame)
        ensures
            final(self).auth() == old(self).auth(),
            final(self)@ == (SyncModel {
                unsaved: if old(self)@.durable {
                    old(self)@.unsaved.push(frame@)
                } else {
                    old(self)@.unsaved
                },
                ..old(self)@
            }),
    {
        if self.durable {
            self.unsaved.push(frame.clone());
            assert(self@.unsaved =~= old(self)@.unsaved.push(frame@));
        }
    }

    fn emit(&mut self, frame: &WriteFrame, origin: WriteOrigin)
        ensures
            final(self).auth() == old(self).auth(),
            final(self)@ == (SyncModel {
                events: old(self)@.events.push(event_of(frame@, origin)),
                ..old(self)@
            }),
    {
        self.events.push(event_for(frame, origin));
        assert(self@.events =~= old(self)@.events.push(event_of(frame@, origin)));
    }

    /// Logs, queues, applies and announces a local frame.
    fn commit_local(&mut self, frame: &WriteFrame)
        requires
            old(self).wf(),
            old(self)@.clock.before(frame.stamp.hlc),
            crate::replog::record_outcome(old(self)@.log, frame@) is Appended,
        ensures
            final(self).wf(),
            final(self).auth() == old(self).auth(),
            final(self)@ == old(self)@.written(frame@),
    {
        self.clock = frame.stamp.hlc;
        let _ = self.log.record(frame.clone());
        self.persist(frame);
        let _ = self.applier.merge(frame.clone().into_stamped());
        self.emit(frame, WriteOrigin::Local);
        assert(self@ =~= old(self)@.written(frame@));
    }

    /// Applies a frame from a peer that was verified, or not, by the caller.
    pub fn receive_checked(
        &mut self,
        frame: WriteFrame,
        wall_ms: u64,
        verified: bool,
    ) -> (outcome: RecordOutcome)
        requires
            old(self).wf(),
            verified ==> old(self)@.clock.can_observe(frame@.stamp.hlc, wall_ms),
        ensures
            final(self).wf(),
            final(self).auth() == old(self).auth(),
            outcome == old(self)@.receive_outcome(frame@, verified),
            final(self)@ == old(self)@.received(frame@, wall_ms, verified),
    {
        if !verified {
            return RecordOutcome::Rejected;
        }
        let _ = self.clock.observe(frame.stamp.hlc, wall_ms);
        let outcome = self.log.record(frame.clone());
        if outcome == RecordOutcome::Appended {
            self.persist(&frame);
            let merged = self.applier.merge(frame.clone().into_stamped());
            if merged == MergeOutcome::Applied {
                self.emit(&frame, WriteOrigin::Remote);
            }
        }
        assert(self@ =~= old(self)@.received(frame@, wall_ms, verified));
        outcome
    }

    /// The cursor of every known origin.
    #[must_use]
    pub fn cursors(&self) -> (cursors: Cursors)
        requires
            self.wf(),
        ensures
            forall|origin: PeerId| #[trigger]
                cursors@.contains_key(origin) <==> self@.log.contains_key(origin),
            forall|origin: PeerId| #[trigger]
                cursors@.contains_key(origin) ==> cursors@[origin] == crate::replog::cursor(
                    self@.log,
                    origin,
                ),
    {
        self.log.cursors()
    }

    /// Every held frame above the given cursors.
    #[must_use]
    pub fn delta_since(&self, their: &Cursors) -> (delta: Vec<WriteFrame>)
        requires
            self.wf(),
        ensures
            forall|origin: PeerId| #[trigger]
                crate::replog::of_origin(crate::replog::frame_models(delta@), origin)
                    == crate::replog::unseen(
                    self@.log,
                    origin,
                    crate::replog::reported(their@, origin),
                ),
    {
        self.log.delta_since(their)
    }

    /// The data of a record, if the record is there and not deleted.
    #[must_use]
    pub fn visible(&self, entity: &str, id: &str) -> (data: Option<&[u8]>)
        ensures
            match data {
                Some(bytes) => crate::lww::visible_in(self@.state, entity@, id@) == Some(bytes@),
                None => crate::lww::visible_in(self@.state, entity@, id@) is None,
            },
    {
        self.applier.visible(entity, id)
    }

    /// Every visible (non-deleted) record of an entity, as `(id, data)`.
    #[must_use]
    pub fn visible_entity(&self, entity: &str) -> (rows: Vec<(String, Vec<u8>)>)
        ensures
            forall|i: int, j: int|
                0 <= i < j < rows@.len() ==> (#[trigger] rows@[i]).0@ != (#[trigger] rows@[j]).0@,
            forall|i: int|
                0 <= i < rows@.len() ==> crate::lww::visible_in(
                    self@.state,
                    entity@,
                    (#[trigger] rows@[i]).0@,
                ) == Some(rows@[i].1@),
            forall|id: Seq<char>| #[trigger]
                crate::lww::visible_in(self@.state, entity@, id) is Some ==> exists|i: int|
                    0 <= i < rows@.len() && (#[trigger] rows@[i]).0@ == id,
    {
        self.applier.visible_entity(entity)
    }

    /// The visible record plus the peer id that authored the winning write.
    #[must_use]
    pub fn visible_with_author(&self, entity: &str, id: &str) -> (found: Option<(Vec<u8>, PeerId)>)
        ensures
            match found {
                Some((data, author)) => crate::lww::visible_slot(self@.state, entity@, id@)
                    == Some((data@, author)),
                None => crate::lww::visible_slot(self@.state, entity@, id@) is None,
            },
    {
        self.applier.visible_with_author(entity, id)
    }

    /// Every visible record of an entity as `(id, data, author)`.
    #[must_use]
    pub fn entries_with_authors(&self, entity: &str) -> (rows: Vec<(String, Vec<u8>, PeerId)>)
        ensures
            crate::lww::lists_entity(self@.state, entity@, rows@),
    {
        self.applier.entries_with_authors(entity)
    }

    /// Drops the tombstone of a deleted record and keeps its stamp as a floor.
    pub fn collect_tombstone(&mut self, entity: &str, id: &str) -> (done: bool)
        requires
            old(self).wf(),
        ensures
            final(self).wf(),
            final(self).auth() == old(self).auth(),
            done == crate::lww::collectable(old(self)@.state, entity@, id@),
            final(self)@ == (SyncModel {
                state: crate::lww::collected(old(self)@.state, entity@, id@),
                ..old(self)@
            }),
    {
        let done = self.applier.collect_tombstone(entity, id);
        assert(self@ =~= SyncModel {
            state: crate::lww::collected(old(self)@.state, entity@, id@),
            ..old(self)@
        });
        done
    }
}

impl<A: FrameAuth> SyncState<A> {
    /// Originate a local mutation. Advances the HLC, builds and (if a
    /// [`FrameAuth`] is set) signs the frame, records it to our own log, applies
    /// it locally, emits a [`MutationEvent`], and returns the frame to broadcast.
    /// A frame whose names are too long to be framed stays unsigned.
    pub fn local_write(
        &mut self,
        wall_ms: u64,
        op: Op,
        entity: &str,
        id: &str,
        data: Vec<u8>,
    ) -> (frame: WriteFrame)
        requires
            old(self).wf(),
            old(self).can_write(wall_ms, entity@, id@, data@),
        ensures
            final(self).wf(),
            final(self).auth() == old(self).auth(),
            frame@ == old(self)@.local_frame(wall_ms, op, entity@, id@, data@, frame@.signature),
            frame@.signature is Some <==> old(self).auth() is Some && frame@.names_fit(),
            frame@.signature matches Some(signature) ==> signed_by(
                old(self).auth()->0,
                frame@.signed_part(),
                signature,
            ),
            final(self)@ == old(self)@.written(frame@),
    {
        let mut clock = self.clock;
        let hlc = clock.tick(wall_ms);
        let seq = self.log.next_seq(&self.self_id);
        let mut frame = WriteFrame {
            stamp: Stamp::new(hlc, self.self_id),
            seq,
            op,
            entity: entity.to_string(),
            id: id.to_string(),
            data,
            signature: None,
        };
        if let Some(auth) = &self.auth {
            if let Ok(bytes) = frame.signing_bytes() {
                let slice = bytes.as_slice();
                let signature = auth.sign(slice);
                frame.signature = Some(signature);
                proof {
                    assert(call_ensures(A::sign, (auth, slice), signature));
                    assert(signed_by(*auth, frame@.signed_part(), signature));
                }
            }
        }
        self.commit_local(&frame);
        frame
    }

    /// Apply a frame received from a peer. With a [`FrameAuth`] set, an
    /// unverified frame is rejected before it touches the log or state. An
    /// accepted frame always advances the HLC by observing the remote stamp. It
    /// is merged only when it is the next in-order write for its origin; a
    /// [`MutationEvent`] is emitted only when it won.
    pub fn receive(&mut self, frame: WriteFrame, wall_ms: u64) -> (outcome: RecordOutcome)
        requires
            old(self).wf(),
            judged(old(self).auth(), frame, true) ==> old(self)@.clock.can_observe(
                frame@.stamp.hlc,
                wall_ms,
            ),
        ensures
            final(self).wf(),
            final(self).auth() == old(self).auth(),
            exists|verified: bool|
                {
                    &&& judged(old(self).auth(), frame, verified)
                    &&& outcome == #[trigger] old(self)@.receive_outcome(frame@, verified)
                    &&& final(self)@ == old(self)@.received(frame@, wall_ms, verified)
                },
    {
        let verified = match &self.auth {
            Some(auth) => auth.verify(&frame),
            None => true,
        };
        self.receive_checked(frame, wall_ms, verified)
    }

    /// Applies frames received from a peer in order, as far as the clock has
    /// room. Returns how many were applied.
    pub fn receive_all(&mut self, frames: Vec<WriteFrame>, wall_ms: u64) -> (count: usize)
        requires
            old(self).wf(),
        ensures
            final(self).wf(),
            final(self).auth() == old(self).auth(),
            count <= frames@.len(),
            exists|verdicts: Seq<bool>|
                {
                    &&& verdicts.len() == count
                    &&& forall|i: int|
                        0 <= i < count ==> judged(
                            old(self).auth(),
                            frames@[i],
                            #[trigger] verdicts[i],
                        )
                    &&& final(self)@ == #[trigger] old(self)@.received_all(
                        crate::replog::frame_models(frames@).take(count as int),
                        wall_ms,
                        verdicts,
                    )
                },
            count < frames@.len() ==> !final(self)@.clock.can_observe(
                frames@[count as int]@.stamp.hlc,
                wall_ms,
            ),
    {
        let ghost models = crate::replog::frame_models(frames@);
        let ghost mut verdicts: Seq<bool> = Seq::empty();
        let mut i: usize = 0;
        assert(models.take(0) =~= Seq::empty());
        while i < frames.len()
            invariant
                i <= frames@.len(),
                models == crate::replog::frame_models(frames@),
                self.wf(),
                self.auth() == old(self).auth(),
                verdicts.len() == i,
                forall|j: int|
                    0 <= j < i ==> judged(old(self).auth(), frames@[j], #[trigger] verdicts[j]),
                self@ == old(self)@.received_all(models.take(i as int), wall_ms, verdicts),
            decreases frames@.len() - i,
        {
            let verified = match &self.auth {
                Some(auth) => auth.verify(&frames[i]),
                None => true,
            };
            if verified && !self.clock.check_observe(frames[i].stamp.hlc, wall_ms) {
                return i;
            }
            let ghost before = verdicts;
            let _ = self.receive_checked(frames[i].clone(), wall_ms, verified);
            proof {
                verdicts = verdicts.push(verified);
                assert(models.take(i + 1).drop_last() =~= models.take(i as int));
                assert(models.take(i + 1).last() == frames@[i as int]@);
                lemma_received_all_prefix(
                    old(self)@,
                    models.take(i as int),
                    wall_ms,
                    before,
                    verdicts,
                );
            }
            i = i + 1;
        }
        i
    }
}

proof fn lemma_received_all_prefix(
    model: SyncModel,
    frames: Seq<crate::wire::FrameModel>,
    wall_ms: u64,
    a: Seq<bool>,
    b: Seq<bool>,
)
    requires
        forall|i: int| 0 <= i < frames.len() ==> a[i] == b[i],
    ensures
        model.received_all(frames, wall_ms, a) == model.received_all(frames, wall_ms, b),
    decreases frames.len(),
{
    if frames.len() > 0 {
        lemma_received_all_prefix(model, frames.drop_last(), wall_ms, a, b);
        assert(a[frames.len() - 1] == b[frames.len() - 1]);
    }
}

proof fn lemma_low_water_of_untouched(
    start: SyncModel,
    log: crate::replog::LogModel,
    members: Seq<PeerId>,
    origin: PeerId,
)
    requires
        start.log.contains_key(origin) == log.contains_key(origin),
        start.log[origin] == log[origin],
    ensures
        (SyncModel { log, ..start }).low_water(members, origin) == start.low_water(members, origin),
    decreases members.len(),
{
    if members.len() > 0 {
        lemma_low_water_of_untouched(start, log, members.drop_last(), origin);
    }
}

/// Every local write is announced: one event is queued after those that wait
/// already. It names the operation and the record, is marked as local, and carries
/// the data that was written, which is what reading the record then gives; after
/// a delete it carries none and the record shows nothing.
pub proof fn local_writes_are_announced(
    before: SyncModel,
    wall_ms: u64,
    op: Op,
    entity: Seq<char>,
    id: Seq<char>,
    data: Seq<u8>,
    signature: Option<[u8; 64]>,
)
    requires
        before.ok(),
        before.clock.can_tick(wall_ms),
    ensures
        ({
            let after = before.written(
                before.local_frame(wall_ms, op, entity, id, data, signature),
            );
            let waiting = before.events.len();
            let event = after.events[waiting as int];
            &&& after.events.len() == waiting + 1
            &&& after.events.take(waiting as int) == before.events
            &&& event.op == op
            &&& event.entity == entity
            &&& event.id == id
            &&& event.origin is Local
            &&& !(op is Delete) ==> event.data == Some(data)
            &&& op is Delete ==> event.data is None
            &&& event.data == crate::lww::visible_in(after.state, entity, id)
        }),
{
    let frame = before.local_frame(wall_ms, op, entity, id, data, signature);
    let after = before.written(frame);
    crate::hlc::tick_moves_forward(before.clock, wall_ms);
    assert(frame.stamped().key() == (entity, id));
    if before.state.contains_key((entity, id)) {
        assert(before.state[(entity, id)].stamp.hlc.not_after(before.clock));
    }
    assert(after.events.take(before.events.len() as int) =~= before.events);
}

/// A received frame is announced if it changes what the record holds: it is the
/// next of its origin, and later than what was held. The event is marked as
/// remote and carries the data of the frame, which is what reading the record
/// then gives, and none for a delete. Any other frame is not announced.
pub proof fn received_changes_are_announced(
    before: SyncModel,
    frame: crate::wire::FrameModel,
    wall_ms: u64,
    verified: bool,
)
    requires
        before.ok(),
    ensures
        ({
            let after = before.received(frame, wall_ms, verified);
            let key = (frame.entity, frame.id);
            let waiting = before.events.len();
            let news = verified && frame.seq == crate::replog::cursor(
                before.log,
                frame.stamp.peer,
            ) + 1 && (before.state.contains_key(key) ==> before.state[key].stamp.before(
                frame.stamp,
            ));
            &&& !news ==> after.events == before.events && after.state == before.state
            &&& news ==> {
                let event = after.events[waiting as int];
                &&& after.events.len() == waiting + 1
                &&& after.events.take(waiting as int) == before.events
                &&& event.op == frame.op
                &&& event.entity == frame.entity
                &&& event.id == frame.id
                &&& event.origin is Remote
                &&& !(frame.op is Delete) ==> event.data == Some(frame.data)
                &&& frame.op is Delete ==> event.data is None
                &&& event.data == crate::lww::visible_in(after.state, frame.entity, frame.id)
            }
        }),
{
    let after = before.received(frame, wall_ms, verified);
    assert(frame.stamped().key() == (frame.entity, frame.id));
    if before.log.contains_key(frame.stamp.peer) {
        assert(crate::replog::origin_ok(frame.stamp.peer, before.log[frame.stamp.peer]));
    }
    assert(after.events.len() == before.events.len() + 1 ==> after.events.take(
        before.events.len() as int,
    ) =~= before.events);
}

/// A durable peer queues every frame that it writes or accepts for persistence, as
/// it is and after those that wait already; one that is not durable queues none.
pub proof fn accepted_frames_are_queued_for_persistence(
    before: SyncModel,
    frame: crate::wire::FrameModel,
    wall_ms: u64,
    verified: bool,
)
    requires
        before.ok(),
    ensures
        before.durable ==> before.written(frame).unsaved == before.unsaved.push(frame),
        !before.durable ==> before.written(frame).unsaved == before.unsaved,
        ({
            let accepted = verified && frame.seq == crate::replog::cursor(
                before.log,
                frame.stamp.peer,
            ) + 1;
            before.received(frame, wall_ms, verified).unsaved == (if before.durable && accepted {
                before.unsaved.push(frame)
            } else {
                before.unsaved
            })
        }),
{
    if before.log.contains_key(frame.stamp.peer) {
        assert(crate::replog::origin_ok(frame.stamp.peer, before.log[frame.stamp.peer]));
    }
}

/// A local frame says what was written, by whom and when: it carries the next
/// sequence number of the peer and a stamp later than everything the peer has seen.
pub proof fn local_frames_say_what_was_written(
    before: SyncModel,
    wall_ms: u64,
    op: Op,
    entity: Seq<char>,
    id: Seq<char>,
    data: Seq<u8>,
    signature: Option<[u8; 64]>,
)
    requires
        before.ok(),
        before.clock.can_tick(wall_ms),
        crate::replog::cursor(before.log, before.self_id) < u64::MAX,
    ensures
        ({
            let frame = before.local_frame(wall_ms, op, entity, id, data, signature);
            let after = before.written(frame);
            &&& frame.op == op && frame.entity == entity && frame.id == id && frame.data == data
            &&& frame.signature == signature
            &&& frame.stamp.peer == before.self_id
            &&& frame.seq == crate::replog::cursor(before.log, before.self_id) + 1
            &&& before.clock.before(frame.stamp.hlc)
            &&& wall_ms <= frame.stamp.hlc.physical
            &&& after.clock == frame.stamp.hlc
            &&& after.self_id == before.self_id
            &&& after.durable == before.durable
            &&& after.peer_cursors == before.peer_cursors
            &&& after.log[before.self_id].frames.last() == frame
            &&& crate::replog::cursor(after.log, before.self_id) == frame.seq
        }),
{
    crate::hlc::tick_moves_forward(before.clock, wall_ms);
    if before.log.contains_key(before.self_id) {
        assert(crate::replog::origin_ok(before.self_id, before.log[before.self_id]));
    }
}

/// The low-water mark of an origin is the least of the own cursor and of what the
/// listed members, oneself aside, have reported; a member that was not heard from
/// counts as zero.
pub proof fn low_water_is_the_least_cursor(model: SyncModel, members: Seq<PeerId>, origin: PeerId)
    requires
        crate::replog::log_ok(model.log),
    ensures
        ({
            let mark = model.low_water(members, origin);
            &&& mark <= crate::replog::cursor(model.log, origin)
            &&& forall|i: int|
                0 <= i < members.len() && #[trigger] members[i] != model.self_id ==> {
                    &&& !model.peer_cursors.contains_key(members[i]) ==> mark == 0
                    &&& model.peer_cursors.contains_key(members[i])
                        && !model.peer_cursors[members[i]].contains_key(origin) ==> mark == 0
                    &&& model.peer_cursors.contains_key(members[i])
                        && model.peer_cursors[members[i]].contains_key(origin) ==> mark
                        <= model.peer_cursors[members[i]][origin]
                }
            &&& mark == crate::replog::cursor(model.log, origin) || exists|i: int|
                0 <= i < members.len() && #[trigger] members[i] != model.self_id && mark
                    == model.reported_by(members[i], origin)
        }),
    decreases members.len(),
{
    if model.log.contains_key(origin) {
        assert(crate::replog::origin_ok(origin, model.log[origin]));
    }
    if members.len() > 0 {
        let front = members.drop_last();
        low_water_is_the_least_cursor(model, front, origin);
        let mark = model.low_water(members, origin);
        let rest = model.low_water(front, origin);
        assert forall|i: int|
            0 <= i < members.len() && #[trigger] members[i] != model.self_id implies {
            &&& !model.peer_cursors.contains_key(members[i]) ==> mark == 0
            &&& model.peer_cursors.contains_key(members[i])
                && !model.peer_cursors[members[i]].contains_key(origin) ==> mark == 0
            &&& model.peer_cursors.contains_key(members[i])
                && model.peer_cursors[members[i]].contains_key(origin) ==> mark
                <= model.peer_cursors[members[i]][origin]
        } by {
            if i < front.len() {
                assert(front[i] == members[i]);
            }
        }
        if mark == rest && rest != crate::replog::cursor(model.log, origin) {
            let i = choose|i: int|
                0 <= i < front.len() && #[trigger] front[i] != model.self_id && rest
                    == model.reported_by(front[i], origin);
            assert(members[i] == front[i]);
        } else if mark != rest {
            assert(members[members.len() - 1] == members.last());
        }
    }
}

/// Reclaiming drops of every origin the frames up to its low-water mark and no
/// others, and counts what it drops.
pub proof fn reclaiming_drops_up_to_the_mark(
    model: SyncModel,
    members: Seq<PeerId>,
    order: Seq<PeerId>,
    origin: PeerId,
)
    requires
        crate::replog::log_ok(model.log),
    ensures
        model.reclaimed_log(members).dom() == model.log.dom(),
        model.log.contains_key(origin) ==> {
            let mark = model.low_water(members, origin);
            let frames = model.log[origin].frames;
            let kept = model.reclaimed_log(members)[origin].frames;
            let dropped = frames.len() - kept.len();
            &&& dropped >= 0
            &&& model.reclaimed_log(members)[origin].base == model.log[origin].base + dropped
            &&& forall|i: int| 0 <= i < kept.len() ==> #[trigger] kept[i] == frames[dropped + i]
            &&& forall|i: int| 0 <= i < dropped ==> (#[trigger] frames[i]).seq <= mark
            &&& forall|i: int| dropped <= i < frames.len() ==> (#[trigger] frames[i]).seq > mark
            &&& model.reclaimed_count(members, order.push(origin)) == model.reclaimed_count(
                members,
                order,
            ) + dropped
        },
        model.reclaimed_count(members, Seq::empty()) == 0,
{
    assert(model.reclaimed_log(members).dom() =~= model.log.dom());
    if model.log.contains_key(origin) {
        assert(crate::replog::origin_ok(origin, model.log[origin]));
        crate::replog::truncating_drops_the_prefix(
            model.log,
            origin,
            model.low_water(members, origin),
            origin,
        );
        assert(order.push(origin).drop_last() =~= order);
    }
}

/// A new peer has seen nothing, announced nothing and queued nothing.
pub proof fn new_peers_know_nothing(self_id: PeerId, origin: PeerId, entity: Seq<char>, id: Seq<char>)
    ensures
        SyncModel::fresh(self_id).ok(),
        SyncModel::fresh(self_id).self_id == self_id,
        crate::replog::cursor(SyncModel::fresh(self_id).log, origin) == 0,
        crate::lww::visible_in(SyncModel::fresh(self_id).state, entity, id) is None,
        SyncModel::fresh(self_id).events.len() == 0,
        SyncModel::fresh(self_id).unsaved.len() == 0,
        !SyncModel::fresh(self_id).durable,
        SyncModel::fresh(self_id).clock == (Hlc { physical: 0, logical: 0 }),
{
}

/// Replaying a persisted frame has the effect on the log and on the records that
/// receiving it had, and neither announces nor queues anything.
pub proof fn replaying_repeats_receiving(
    model: SyncModel,
    frame: crate::wire::FrameModel,
    wall_ms: u64,
)
    ensures
        model.replayed(frame).log == model.received(frame, wall_ms, true).log,
        model.replayed(frame).state == model.received(frame, wall_ms, true).state,
        model.replayed(frame).events == model.events,
        model.replayed(frame).unsaved == model.unsaved,
        model.replayed(frame).self_id == model.self_id,
        model.replayed(frame).peer_cursors == model.peer_cursors,
{
}

/// Receiving, and replaying, several frames is receiving them one after another.
pub proof fn frames_are_taken_one_after_another(
    model: SyncModel,
    frames: Seq<crate::wire::FrameModel>,
    frame: crate::wire::FrameModel,
    wall_ms: u64,
    verdicts: Seq<bool>,
)
    requires
        verdicts.len() == frames.len() + 1,
    ensures
        model.received_all(frames.push(frame), wall_ms, verdicts) == model.received_all(
            frames,
            wall_ms,
            verdicts,
        ).received(frame, wall_ms, verdicts.last()),
        model.replayed_all(frames.push(frame)) == model.replayed_all(frames).replayed(frame),
        model.received_all(Seq::empty(), wall_ms, verdicts) == model,
        model.replayed_all(Seq::empty()) == model,
{
    assert(frames.push(frame).drop_last() =~= frames);
}

} // verus!
