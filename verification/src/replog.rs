//! The per-origin replication log: what each peer has written, in order.
use vstd::prelude::*;
use crate::assoc::Assoc;
use crate::hlc::PeerId;
use crate::wire::WriteFrame;

verus! {

/// For each origin, the highest sequence number that was delivered.
pub type Cursors = Assoc<PeerId, u64>;

/// What became of a frame that was offered to the log.
#[derive(Debug, Clone, Copy, PartialEq, Eq, Structural)]
pub enum RecordOutcome {
    Appended,
    Duplicate,
    Gap { expected: u64, got: u64 },
    /// The frame failed authentication/authorization and was not recorded.
    Rejected,
}

/// One origin's part of the log.
#[derive(Debug)]
pub struct OriginLog {
    /// Seq of the last reclaimed frame. Stored frames are those with seq in
    /// `base + 1 ..= base + frames.len()`.
    base: u64,
    frames: Vec<WriteFrame>,
}

/// The mathematical content of an [`OriginLog`].
#[verifier::ext_equal]
pub struct OriginModel {
    pub base: u64,
    pub frames: Seq<crate::wire::FrameModel>,
}

/// The mathematical content of a [`ReplLog`]: one part per known origin.
pub type LogModel = Map<PeerId, OriginModel>;

/// Frames by their content.
pub open spec fn frame_models(frames: Seq<WriteFrame>) -> Seq<crate::wire::FrameModel> {
    Seq::new(frames.len(), |i: int| frames[i]@)
}

impl View for OriginLog {
    type V = OriginModel;

    closed spec fn view(&self) -> OriginModel {
        OriginModel { base: self.base, frames: frame_models(self.frames@) }
    }
}

/// The frames of an origin are its own and numbered without holes.
pub open spec fn origin_ok(origin: PeerId, log: OriginModel) -> bool {
    &&& log.base + log.frames.len() <= u64::MAX
    &&& forall|i: int|
        0 <= i < log.frames.len() ==> (#[trigger] log.frames[i]).seq == log.base + 1 + i
            && log.frames[i].stamp.peer == origin
}

/// Every part of the log is in order.
pub open spec fn log_ok(log: LogModel) -> bool {
    forall|origin: PeerId| #[trigger]
        log.contains_key(origin) ==> origin_ok(origin, log[origin])
}

/// Seq of the last frame of `origin` that was reclaimed.
pub open spec fn base_in(log: LogModel, origin: PeerId) -> u64 {
    if log.contains_key(origin) {
        log[origin].base
    } else {
        0
    }
}

/// The frames of `origin` still held.
pub open spec fn held(log: LogModel, origin: PeerId) -> Seq<crate::wire::FrameModel> {
    if log.contains_key(origin) {
        log[origin].frames
    } else {
        Seq::empty()
    }
}

/// Highest seq of `origin` that was recorded, reclaimed or not.
pub open spec fn cursor(log: LogModel, origin: PeerId) -> int {
    base_in(log, origin) + held(log, origin).len()
}

/// What [`ReplLog::record`] answers.
pub open spec fn record_outcome(
    log: LogModel,
    frame: crate::wire::FrameModel,
) -> RecordOutcome {
    let have = cursor(log, frame.stamp.peer);
    if frame.seq <= have {
        RecordOutcome::Duplicate
    } else if frame.seq != have + 1 {
        RecordOutcome::Gap { expected: (have + 1) as u64, got: frame.seq }
    } else {
        RecordOutcome::Appended
    }
}

/// The log after [`ReplLog::record`].
pub open spec fn recorded(log: LogModel, frame: crate::wire::FrameModel) -> LogModel {
    let origin = frame.stamp.peer;
    if record_outcome(log, frame) is Appended {
        log.insert(
            origin,
            OriginModel { base: base_in(log, origin), frames: held(log, origin).push(frame) },
        )
    } else {
        log
    }
}

/// A cursor as a peer reported it; an origin it does not mention is at zero.
pub open spec fn reported(cursors: Map<PeerId, u64>, origin: PeerId) -> u64 {
    if cursors.contains_key(origin) {
        cursors[origin]
    } else {
        0
    }
}

/// The held frames of `origin` with a seq above `from`.
pub open spec fn unseen(log: LogModel, origin: PeerId, from: u64) -> Seq<crate::wire::FrameModel> {
    let frames = held(log, origin);
    let skip = from - base_in(log, origin);
    if skip <= 0 {
        frames
    } else if skip <= frames.len() {
        frames.skip(skip)
    } else {
        Seq::empty()
    }
}

/// The frames of one origin, in the order in which they stand.
pub open spec fn of_origin(
    frames: Seq<crate::wire::FrameModel>,
    origin: PeerId,
) -> Seq<crate::wire::FrameModel>
    decreases frames.len(),
{
    if frames.len() == 0 {
        Seq::empty()
    } else if frames.last().stamp.peer == origin {
        of_origin(frames.drop_last(), origin).push(frames.last())
    } else {
        of_origin(frames.drop_last(), origin)
    }
}

/// How many frames of `origin` a truncation at `up_to` drops.
pub open spec fn truncated_count(log: LogModel, origin: PeerId, up_to: u64) -> nat {
    let wanted = up_to - base_in(log, origin);
    if wanted <= 0 {
        0
    } else if wanted <= held(log, origin).len() {
        wanted as nat
    } else {
        held(log, origin).len()
    }
}

/// The log after dropping the frames of `origin` with seq up to `up_to`.
pub open spec fn truncated(log: LogModel, origin: PeerId, up_to: u64) -> LogModel {
    if log.contains_key(origin) {
        let n = truncated_count(log, origin, up_to);
        log.insert(
            origin,
            OriginModel {
                base: (log[origin].base + n) as u64,
                frames: log[origin].frames.skip(n as int),
            },
        )
    } else {
        log
    }
}

/// Every frame a peer has seen, per origin and in order.
#[derive(Debug)]
pub struct ReplLog {
    self_id: PeerId,
    origins: Assoc<PeerId, OriginLog>,
}

impl View for ReplLog {
    type V = LogModel;

    closed spec fn view(&self) -> LogModel {
        self.origins@.map_values(|log: OriginLog| log@)
    }
}

proof fn lemma_of_origin_append(
    a: Seq<crate::wire::FrameModel>,
    b: Seq<crate::wire::FrameModel>,
    origin: PeerId,
)
    ensures
        of_origin(a + b, origin) == of_origin(a, origin) + of_origin(b, origin),
    decreases b.len(),
{
    if b.len() == 0 {
        assert(a + b =~= a);
        assert(of_origin(a, origin) + of_origin(b, origin) =~= of_origin(a, origin));
    } else {
        assert((a + b).drop_last() =~= a + b.drop_last());
        lemma_of_origin_append(a, b.drop_last(), origin);
        assert(of_origin(a + b, origin) =~= of_origin(a, origin) + of_origin(b, origin));
    }
}

proof fn lemma_of_origin_all(frames: Seq<crate::wire::FrameModel>, peer: PeerId, origin: PeerId)
    requires
        forall|i: int| 0 <= i < frames.len() ==> (#[trigger] frames[i]).stamp.peer == peer,
    ensures
        of_origin(frames, origin) == (if peer == origin {
            frames
        } else {
            Seq::empty()
        }),
    decreases frames.len(),
{
    if frames.len() > 0 {
        let front = frames.drop_last();
        assert forall|i: int| 0 <= i < front.len() implies (#[trigger] front[i]).stamp.peer
            == peer by {
            assert(front[i] == frames[i]);
        }
        lemma_of_origin_all(front, peer, origin);
        assert(frames.last() == frames[frames.len() - 1]);
        assert(front.push(frames.last()) =~= frames);
    }
    assert(frames.len() == 0 ==> frames =~= Seq::empty());
}

impl ReplLog {
    /// Frames are numbered without holes.
    pub open spec fn wf(&self) -> bool {
        log_ok(self@)
    }

    /// The peer whose log this is.
    pub closed spec fn owner(&self) -> PeerId {
        self.self_id
    }

    #[must_use]
    pub fn new(self_id: PeerId) -> (log: Self)
        ensures
            log.wf(),
            log@ == LogModel::empty(),
            log.owner() == self_id,
    {
        let log = ReplLog { self_id, origins: Assoc::new() };
        assert(log@ =~= LogModel::empty());
        log
    }

    #[must_use]
    pub fn self_id(&self) -> (id: PeerId)
        ensures
            id == self.owner(),
    {
        self.self_id
    }

    /// Seq of the last reclaimed frame of `origin`.
    pub fn base_of(&self, origin: &PeerId) -> (base: u64)
        ensures
            base == base_in(self@, *origin),
    {
        match self.origins.get(origin) {
            Some(log) => log.base,
            None => 0,
        }
    }

    /// Highest seq applied for `origin` (covers reclaimed frames too).
    #[must_use]
    pub fn cursor_for(&self, origin: &PeerId) -> (seq: u64)
        requires
            self.wf(),
        ensures
            seq == cursor(self@, *origin),
    {
        match self.origins.get(origin) {
            Some(log) => {
                assert(self@.contains_key(*origin));
                assert(origin_ok(*origin, self@[*origin]));
                log.base + log.frames.len() as u64
            },
            None => 0,
        }
    }

    /// The seq the next write from `origin` will take (1-based).
    #[must_use]
    pub fn next_seq(&self, origin: &PeerId) -> (seq: u64)
        requires
            self.wf(),
            cursor(self@, *origin) < u64::MAX,
        ensures
            seq == cursor(self@, *origin) + 1,
    {
        self.cursor_for(origin) + 1
    }

    /// Appends a frame if it is the next one of its origin.
    pub fn record(&mut self, frame: WriteFrame) -> (outcome: RecordOutcome)
        requires
            old(self).wf(),
        ensures
            final(self).wf(),
            final(self).owner() == old(self).owner(),
            outcome == record_outcome(old(self)@, frame@),
            final(self)@ == recorded(old(self)@, frame@),
    {
        let origin = frame.stamp.peer;
        let have = self.cursor_for(&origin);
        if frame.seq <= have {
            return RecordOutcome::Duplicate;
        }
        if frame.seq != have + 1 {
            return RecordOutcome::Gap { expected: have + 1, got: frame.seq };
        }
        let mut log = match self.origins.remove(&origin) {
            Some(log) => log,
            None => OriginLog { base: 0, frames: Vec::new() },
        };
        let ghost before = log@;
        proof {
            assert(before.frames =~= held(old(self)@, origin));
            assert(before.base == base_in(old(self)@, origin));
        }
        log.frames.push(frame);
        assert(log@.frames =~= before.frames.push(frame@));
        self.origins.insert(origin, log);
        proof {
            assert(self@ =~= recorded(old(self)@, frame@));
            assert forall|o: PeerId| #[trigger] self@.contains_key(o) implies origin_ok(
                o,
                self@[o],
            ) by {
                if o != origin {
                    assert(old(self)@.contains_key(o));
                } else if old(self)@.contains_key(o) {
                    assert(origin_ok(o, old(self)@[o]));
                }
            }
        }
        RecordOutcome::Appended
    }

    /// The cursor of every known origin.
    #[must_use]
    pub fn cursors(&self) -> (cursors: Cursors)
        requires
            self.wf(),
        ensures
            forall|origin: PeerId| #[trigger]
                cursors@.contains_key(origin) <==> self@.contains_key(origin),
            forall|origin: PeerId| #[trigger]
                cursors@.contains_key(origin) ==> cursors@[origin] == cursor(self@, origin),
    {
        let mut out: Cursors = Assoc::new();
        let count = self.origins.len();
        proof {
            crate::assoc::lemma_map_of(self.origins.listing());
        }
        let ghost listing = self.origins.listing();
        let mut i: usize = 0;
        while i < count
            invariant
                i <= count,
                count == listing.len(),
                listing == self.origins.listing(),
                self.wf(),
                self.origins@ == crate::assoc::map_of(listing),
                forall|j: int|
                    0 <= j < listing.len() ==> {
                        &&& self.origins@.contains_key((#[trigger] listing[j]).0)
                        &&& self.origins@[listing[j].0] == listing[j].1
                    },
                forall|origin: PeerId| #[trigger]
                    out@.contains_key(origin) <==> exists|j: int|
                        0 <= j < i && (#[trigger] listing[j]).0 == origin,
                forall|origin: PeerId| #[trigger]
                    out@.contains_key(origin) ==> self@.contains_key(origin) && out@[origin]
                        == cursor(self@, origin),
            decreases count - i,
        {
            let ghost before = out@;
            let (origin, log) = self.origins.at(i);
            proof {
                assert(self.origins@.contains_key(listing[i as int].0));
                assert(self@.contains_key(*origin));
                assert(self@[*origin] == log@);
                assert(origin_ok(*origin, self@[*origin]));
            }
            out.insert(*origin, log.base + log.frames.len() as u64);
            proof {
                assert forall|o: PeerId| #[trigger] out@.contains_key(o) implies exists|j: int|
                    0 <= j < i + 1 && (#[trigger] listing[j]).0 == o by {
                    if o == *origin {
                        assert(listing[i as int].0 == o);
                    } else {
                        assert(before.contains_key(o));
                        let j = choose|j: int| 0 <= j < i && (#[trigger] listing[j]).0 == o;
                        assert(0 <= j < i + 1 && listing[j].0 == o);
                    }
                }
                assert forall|o: PeerId|
                    (exists|j: int| 0 <= j < i + 1 && (#[trigger] listing[j]).0
                        == o) implies #[trigger] out@.contains_key(o) by {
                    let j = choose|j: int| 0 <= j < i + 1 && (#[trigger] listing[j]).0 == o;
                    if j < i {
                        assert(before.contains_key(o));
                    }
                }
            }
            i = i + 1;
        }
        proof {
            assert forall|origin: PeerId| #[trigger]
                out@.contains_key(origin) == self@.contains_key(origin) by {
                if self@.contains_key(origin) {
                    assert(crate::assoc::map_of(listing).contains_key(origin));
                    let j = choose|j: int|
                        0 <= j < listing.len() && (#[trigger] listing[j]).0 == origin;
                    assert(0 <= j < i && listing[j].0 == origin);
                }
            }
        }
        out
    }

    /// Every held frame above the given cursors: for each origin exactly the
    /// frames the other side has not seen, in order.
    #[must_use]
    pub fn delta_since(&self, their: &Cursors) -> (delta: Vec<WriteFrame>)
        requires
            self.wf(),
        ensures
            forall|origin: PeerId| #[trigger]
                of_origin(frame_models(delta@), origin) == unseen(
                    self@,
                    origin,
                    reported(their@, origin),
                ),
    {
        let mut out: Vec<WriteFrame> = Vec::new();
        let count = self.origins.len();
        let ghost listing = self.origins.listing();
        proof {
            crate::assoc::lemma_map_of(listing);
            assert(frame_models(out@) =~= Seq::empty());
        }
        let mut i: usize = 0;
        while i < count
            invariant
                i <= count,
                count == listing.len(),
                listing == self.origins.listing(),
                self.wf(),
                self.origins@ == crate::assoc::map_of(listing),
                crate::assoc::distinct_keys(listing),
                forall|j: int|
                    0 <= j < listing.len() ==> {
                        &&& self.origins@.contains_key((#[trigger] listing[j]).0)
                        &&& self.origins@[listing[j].0] == listing[j].1
                    },
                forall|j: int|
                    0 <= j < i ==> of_origin(
                        frame_models(out@),
                        (#[trigger] listing[j]).0,
                    ) == unseen(self@, listing[j].0, reported(their@, listing[j].0)),
                forall|origin: PeerId|
                    (forall|j: int| 0 <= j < i ==> (#[trigger] listing[j]).0 != origin)
                        ==> #[trigger] of_origin(frame_models(out@), origin) == Seq::<
                        crate::wire::FrameModel,
                    >::empty(),
            decreases count - i,
        {
            let (origin, log) = self.origins.at(i);
            let ghost this = *origin;
            let ghost before = frame_models(out@);
            let ghost part = unseen(self@, this, reported(their@, this));
            proof {
                assert(self.origins@.contains_key(listing[i as int].0));
                assert(self@.contains_key(this));
                assert(self@[this] == log@);
                assert(origin_ok(this, self@[this]));
            }
            let from: u64 = match their.get(origin) {
                Some(cursor) => *cursor,
                None => 0,
            };
            let len = log.frames.len();
            let start: usize = if from <= log.base {
                0
            } else if from - log.base >= len as u64 {
                len
            } else {
                (from - log.base) as usize
            };
            assert(part =~= log@.frames.skip(start as int));
            let mut j: usize = start;
            while j < len
                invariant
                    start <= j <= len,
                    len == log.frames@.len(),
                    part == log@.frames.skip(start as int),
                    frame_models(out@) == before + part.take(j - start),
                decreases len - j,
            {
                let ghost mid = frame_models(out@);
                out.push(log.frames[j].clone());
                proof {
                    assert(frame_models(out@) =~= mid.push(log.frames@[j as int]@));
                    assert(part.take(j + 1 - start) =~= part.take(j - start).push(
                        log@.frames[j as int],
                    ));
                    assert(frame_models(out@) =~= before + part.take(j + 1 - start));
                }
                j = j + 1;
            }
            proof {
                assert(part.take(len - start) =~= part);
                assert(frame_models(out@) == before + part);
                assert forall|k: int| 0 <= k < part.len() implies (#[trigger] part[k]).stamp.peer
                    == this by {
                    assert(part[k] == log@.frames[k + start]);
                }
                assert forall|o: PeerId| #[trigger]
                    of_origin(frame_models(out@), o) == of_origin(before, o) + (if o == this {
                        part
                    } else {
                        Seq::empty()
                    }) by {
                    lemma_of_origin_append(before, part, o);
                    lemma_of_origin_all(part, this, o);
                }
                assert(of_origin(before, this) == Seq::<crate::wire::FrameModel>::empty()) by {
                    assert forall|j: int| 0 <= j < i implies (#[trigger] listing[j]).0 != this by {
                        assert(listing[j].0 != listing[i as int].0);
                    }
                }
                assert forall|j: int| 0 <= j < i + 1 implies of_origin(
                    frame_models(out@),
                    (#[trigger] listing[j]).0,
                ) == unseen(self@, listing[j].0, reported(their@, listing[j].0)) by {
                    if j == i {
                        assert(Seq::<crate::wire::FrameModel>::empty() + part =~= part);
                    } else {
                        assert(listing[j].0 != listing[i as int].0);
                        let o = listing[j].0;
                        assert(of_origin(before, o) + Seq::<crate::wire::FrameModel>::empty()
                            =~= of_origin(before, o));
                    }
                }
                assert forall|o: PeerId|
                    (forall|j: int| 0 <= j < i + 1 ==> (#[trigger] listing[j]).0
                        != o) implies #[trigger] of_origin(frame_models(out@), o) == Seq::<
                    crate::wire::FrameModel,
                >::empty() by {
                    assert(listing[i as int].0 != o);
                    assert(forall|j: int| 0 <= j < i ==> (#[trigger] listing[j]).0 != o);
                    assert(of_origin(before, o) == Seq::<crate::wire::FrameModel>::empty());
                    assert(Seq::<crate::wire::FrameModel>::empty() + Seq::<
                        crate::wire::FrameModel,
                    >::empty() =~= Seq::empty());
                }
            }
            i = i + 1;
        }
        proof {
            assert forall|origin: PeerId| #[trigger]
                of_origin(frame_models(out@), origin) == unseen(
                    self@,
                    origin,
                    reported(their@, origin),
                ) by {
                if self@.contains_key(origin) {
                    assert(crate::assoc::map_of(listing).contains_key(origin));
                    let j = choose|j: int|
                        0 <= j < listing.len() && (#[trigger] listing[j]).0 == origin;
                    assert(listing[j].0 == origin);
                } else {
                    assert forall|j: int| 0 <= j < i implies (#[trigger] listing[j]).0
                        != origin by {
                        assert(self.origins@.contains_key(listing[j].0));
                    }
                    assert(unseen(self@, origin, reported(their@, origin)) =~= Seq::empty());
                }
            }
        }
        out
    }

    /// Drop the prefix of `origin`'s log with seq `<= up_to`, advancing the
    /// base. Safe only when every member has already delivered through `up_to`
    /// (the cursor low-water-mark). Returns the number of frames dropped.
    pub fn truncate(&mut self, origin: &PeerId, up_to: u64) -> (dropped: usize)
        requires
            old(self).wf(),
        ensures
            final(self).wf(),
            final(self).owner() == old(self).owner(),
            dropped == truncated_count(old(self)@, *origin, up_to),
            final(self)@ == truncated(old(self)@, *origin, up_to),
    {
        let base = self.base_of(origin);
        if up_to <= base {
            proof {
                if self@.contains_key(*origin) {
                    assert(self@[*origin].frames.skip(0) =~= self@[*origin].frames);
                    assert(self@ =~= truncated(self@, *origin, up_to));
                }
            }
            return 0;
        }
        let mut log = match self.origins.remove(origin) {
            Some(log) => log,
            None => {
                proof {
                    assert(self.origins@ =~= old(self).origins@);
                    assert(self@ =~= old(self)@);
                }
                return 0;
            },
        };
        let ghost before = log@;
        proof {
            assert(old(self)@[*origin] == before);
            assert(origin_ok(*origin, old(self)@[*origin]));
        }
        let len = log.frames.len();
        let drop: usize = if up_to - base >= len as u64 {
            len
        } else {
            (up_to - base) as usize
        };
        let rest = log.frames.split_off(drop);
        log.frames = rest;
        log.base = base + drop as u64;
        assert(log@.frames =~= before.frames.skip(drop as int));
        self.origins.insert(*origin, log);
        proof {
            assert(self@ =~= truncated(old(self)@, *origin, up_to));
            assert forall|o: PeerId| #[trigger] self@.contains_key(o) implies origin_ok(
                o,
                self@[o],
            ) by {
                if o != *origin {
                    assert(old(self)@.contains_key(o));
                } else {
                    assert forall|i: int| 0 <= i < self@[o].frames.len() implies (
                    #[trigger] self@[o].frames[i]).seq == self@[o].base + 1 + i
                        && self@[o].frames[i].stamp.peer == o by {
                        assert(self@[o].frames[i] == before.frames[i + drop]);
                    }
                }
            }
        }
        drop
    }
}

/// The log after recording frames one after another.
pub open spec fn recorded_all(log: LogModel, frames: Seq<crate::wire::FrameModel>) -> LogModel
    decreases frames.len(),
{
    if frames.len() == 0 {
        log
    } else {
        recorded(recorded_all(log, frames.drop_last()), frames.last())
    }
}

/// Recording frames one after another appends every one of them.
pub open spec fn all_appended(log: LogModel, frames: Seq<crate::wire::FrameModel>) -> bool
    decreases frames.len(),
{
    frames.len() == 0 || (all_appended(log, frames.drop_last()) && record_outcome(
        recorded_all(log, frames.drop_last()),
        frames.last(),
    ) is Appended)
}

/// Recording keeps the log in order.
pub proof fn recording_keeps_order(log: LogModel, frame: crate::wire::FrameModel)
    requires
        log_ok(log),
    ensures
        log_ok(recorded(log, frame)),
{
    let after = recorded(log, frame);
    assert forall|o: PeerId| #[trigger] after.contains_key(o) implies origin_ok(o, after[o]) by {
        if o != frame.stamp.peer {
            assert(log.contains_key(o));
        } else if log.contains_key(o) {
            assert(origin_ok(o, log[o]));
        }
    }
}

/// A frame that was recorded is a duplicate ever after: recording it again
/// changes nothing.
pub proof fn recording_is_idempotent(log: LogModel, frame: crate::wire::FrameModel)
    requires
        record_outcome(log, frame) is Appended,
    ensures
        record_outcome(recorded(log, frame), frame) is Duplicate,
        recorded(recorded(log, frame), frame) == recorded(log, frame),
{
}

/// Reclaiming a prefix moves no cursor.
pub proof fn truncating_keeps_cursors(log: LogModel, origin: PeerId, up_to: u64, other: PeerId)
    requires
        log_ok(log),
    ensures
        cursor(truncated(log, origin, up_to), other) == cursor(log, other),
{
    if log.contains_key(origin) {
        assert(origin_ok(origin, log[origin]));
    }
}

/// Reclaiming a prefix that a peer has delivered takes nothing from what that
/// peer can still be sent.
pub proof fn truncating_serves_delivered_peers(
    log: LogModel,
    origin: PeerId,
    up_to: u64,
    other: PeerId,
    from: u64,
)
    requires
        log_ok(log),
        other == origin ==> up_to <= from,
    ensures
        unseen(truncated(log, origin, up_to), other, from) == unseen(log, other, from),
{
    if log.contains_key(origin) && other == origin {
        assert(origin_ok(origin, log[origin]));
        let after = truncated(log, origin, up_to);
        assert(unseen(after, other, from) =~= unseen(log, other, from));
    }
}

proof fn lemma_runs_are_appended(log: LogModel, frames: Seq<crate::wire::FrameModel>)
    requires
        forall|o: PeerId, i: int|
            0 <= i < of_origin(frames, o).len() ==> (#[trigger] of_origin(frames, o)[i]).seq
                == cursor(log, o) + 1 + i,
    ensures
        all_appended(log, frames),
        forall|o: PeerId| #[trigger]
            cursor(recorded_all(log, frames), o) == cursor(log, o) + of_origin(frames, o).len(),
    decreases frames.len(),
{
    if frames.len() > 0 {
        let front = frames.drop_last();
        let last = frames.last();
        assert forall|o: PeerId, i: int| 0 <= i < of_origin(front, o).len() implies (
        #[trigger] of_origin(front, o)[i]).seq == cursor(log, o) + 1 + i by {
            assert(of_origin(frames, o)[i] == of_origin(front, o)[i]);
        }
        lemma_runs_are_appended(log, front);
        let mid = recorded_all(log, front);
        let o = last.stamp.peer;
        let n = of_origin(front, o).len();
        assert(of_origin(frames, o) == of_origin(front, o).push(last));
        assert(of_origin(frames, o)[n as int] == last);
        assert(last.seq == cursor(mid, o) + 1);
        assert(record_outcome(mid, last) is Appended);
        assert forall|p: PeerId| #[trigger]
            cursor(recorded_all(log, frames), p) == cursor(log, p) + of_origin(frames, p).len() by {
            assert(cursor(mid, p) == cursor(log, p) + of_origin(front, p).len());
        }
    }
}

/// Anti-entropy: a peer that records, in order, the frames another peer holds
/// above its cursors appends every one of them and has then caught up with
/// that peer on every origin, as long as the other peer has not reclaimed
/// frames that it was missing.
pub proof fn delta_catches_up(
    server: LogModel,
    client: LogModel,
    cursors: Map<PeerId, u64>,
    delta: Seq<crate::wire::FrameModel>,
)
    requires
        log_ok(server),
        log_ok(client),
        forall|o: PeerId| reported(cursors, o) == #[trigger] cursor(client, o),
        forall|o: PeerId| base_in(server, o) <= #[trigger] cursor(client, o),
        forall|o: PeerId| #[trigger]
            of_origin(delta, o) == unseen(server, o, reported(cursors, o)),
    ensures
        all_appended(client, delta),
        forall|o: PeerId| #[trigger]
            cursor(recorded_all(client, delta), o) == (if cursor(client, o) < cursor(server, o) {
                cursor(server, o)
            } else {
                cursor(client, o)
            }),
{
    assert forall|o: PeerId, i: int| 0 <= i < of_origin(delta, o).len() implies (
    #[trigger] of_origin(delta, o)[i]).seq == cursor(client, o) + 1 + i by {
        assert(cursor(client, o) >= base_in(server, o));
        assert(server.contains_key(o));
        assert(origin_ok(o, server[o]));
        let skip = reported(cursors, o) - base_in(server, o);
        assert(of_origin(delta, o)[i] == held(server, o)[skip + i]);
    }
    lemma_runs_are_appended(client, delta);
    assert forall|o: PeerId| #[trigger]
        cursor(recorded_all(client, delta), o) == (if cursor(client, o) < cursor(server, o) {
            cursor(server, o)
        } else {
            cursor(client, o)
        }) by {
        assert(cursor(client, o) >= base_in(server, o));
        assert(of_origin(delta, o) == unseen(server, o, reported(cursors, o)));
    }
}

/// A frame that is appended is held as it was given: the frames of its origin are
/// those from before, then exactly this one. Nothing else in the log changes.
pub proof fn appended_frame_is_held_as_given(
    log: LogModel,
    frame: crate::wire::FrameModel,
    other: PeerId,
)
    requires
        log_ok(log),
        frame.seq == cursor(log, frame.stamp.peer) + 1,
    ensures
        ({
            let after = recorded(log, frame);
            let origin = frame.stamp.peer;
            &&& record_outcome(log, frame) is Appended
            &&& after.contains_key(origin)
            &&& after[origin].frames.len() == held(log, origin).len() + 1
            &&& after[origin].frames[held(log, origin).len() as int] == frame
            &&& forall|i: int|
                0 <= i < held(log, origin).len() ==> #[trigger] after[origin].frames[i]
                    == log[origin].frames[i]
            &&& after[origin].base == base_in(log, origin)
            &&& cursor(after, origin) == frame.seq
            &&& other != origin ==> after.contains_key(other) == log.contains_key(other)
                && after[other] == log[other]
        }),
{
}

/// A frame that is not the next of its origin leaves the log as it was. One that
/// was recorded before is a duplicate; of one that comes too early it is said
/// which was expected and which came.
pub proof fn other_frames_are_not_held(log: LogModel, frame: crate::wire::FrameModel)
    requires
        log_ok(log),
        frame.seq != cursor(log, frame.stamp.peer) + 1,
    ensures
        recorded(log, frame) == log,
        frame.seq <= cursor(log, frame.stamp.peer) ==> record_outcome(log, frame)
            == RecordOutcome::Duplicate,
        frame.seq > cursor(log, frame.stamp.peer) ==> (record_outcome(log, frame) matches
            RecordOutcome::Gap { expected, got } && expected == cursor(log, frame.stamp.peer) + 1
            && got == frame.seq),
{
    if log.contains_key(frame.stamp.peer) {
        assert(origin_ok(frame.stamp.peer, log[frame.stamp.peer]));
    }
}

/// A cursor counts what was recorded of an origin: what was reclaimed and what is
/// held. Nothing was recorded of an origin that the log does not know.
pub proof fn cursors_count_the_frames(log: LogModel, origin: PeerId)
    requires
        log_ok(log),
    ensures
        log.contains_key(origin) ==> cursor(log, origin) == log[origin].base
            + log[origin].frames.len() && held(log, origin) == log[origin].frames && base_in(
            log,
            origin,
        ) == log[origin].base,
        !log.contains_key(origin) ==> cursor(log, origin) == 0 && held(log, origin).len() == 0
            && base_in(log, origin) == 0,
        held(log, origin).len() > 0 ==> held(log, origin).last().seq == cursor(log, origin),
{
    if log.contains_key(origin) {
        assert(origin_ok(origin, log[origin]));
    }
}

/// What a peer is served of an origin are the held frames above its cursor, each
/// of them, in order and as held.
pub proof fn served_frames_are_those_above_the_cursor(log: LogModel, origin: PeerId, from: u64)
    requires
        log.contains_key(origin),
        origin_ok(origin, log[origin]),
    ensures
        ({
            let frames = log[origin].frames;
            let served = unseen(log, origin, from);
            let dropped = frames.len() - served.len();
            &&& 0 <= dropped
            &&& forall|i: int| 0 <= i < served.len() ==> #[trigger] served[i] == frames[dropped + i]
            &&& forall|i: int| 0 <= i < dropped ==> (#[trigger] frames[i]).seq <= from
            &&& forall|i: int| 0 <= i < served.len() ==> (#[trigger] served[i]).seq > from
        }),
{
    let frames = log[origin].frames;
    let served = unseen(log, origin, from);
    let dropped = frames.len() - served.len();
    assert forall|i: int| 0 <= i < served.len() implies (#[trigger] served[i]).seq > from by {
        assert(served[i] == frames[dropped + i]);
    }
}

/// Reclaiming drops a prefix: the held frames with a seq up to the mark, and no
/// others. The base moves on by as many, and no other origin is touched.
pub proof fn truncating_drops_the_prefix(
    log: LogModel,
    origin: PeerId,
    up_to: u64,
    other: PeerId,
)
    requires
        log.contains_key(origin),
        origin_ok(origin, log[origin]),
    ensures
        ({
            let frames = log[origin].frames;
            let after = truncated(log, origin, up_to);
            let dropped = truncated_count(log, origin, up_to);
            &&& after.contains_key(origin)
            &&& frames.len() == dropped + after[origin].frames.len()
            &&& after[origin].base == log[origin].base + dropped
            &&& forall|i: int|
                0 <= i < after[origin].frames.len() ==> #[trigger] after[origin].frames[i]
                    == frames[dropped + i]
            &&& forall|i: int| 0 <= i < dropped ==> (#[trigger] frames[i]).seq <= up_to
            &&& forall|i: int| dropped <= i < frames.len() ==> (#[trigger] frames[i]).seq > up_to
            &&& other != origin ==> after.contains_key(other) == log.contains_key(other)
                && after[other] == log[other]
        }),
{
}

/// The frames of an origin in a list are those that carry its id, in the order of
/// the list: appending a list appends them.
pub proof fn frames_of_an_origin_keep_their_order(
    a: Seq<crate::wire::FrameModel>,
    frame: crate::wire::FrameModel,
    b: Seq<crate::wire::FrameModel>,
    origin: PeerId,
)
    ensures
        of_origin(a + b, origin) == of_origin(a, origin) + of_origin(b, origin),
        frame.stamp.peer == origin ==> of_origin(seq![frame], origin) == seq![frame],
        frame.stamp.peer != origin ==> of_origin(seq![frame], origin).len() == 0,
        of_origin(Seq::empty(), origin).len() == 0,
{
    lemma_of_origin_append(a, b, origin);
    let one = seq![frame];
    assert(one.drop_last() =~= Seq::empty());
    assert(of_origin(one.drop_last(), origin).len() == 0);
    if frame.stamp.peer == origin {
        assert(of_origin(one, origin) =~= one);
    }
}

/// A log takes the next frame of each origin: that one is recorded, one that it has is
/// a duplicate, and one further ahead leaves a gap; a recorded frame is handed out as it
/// was given to everyone who has not come as far.
pub proof fn recorded_frames_are_handed_out(
    recording: &mut ReplLog,
    frame: WriteFrame,
    have: u64,
    outcome: RecordOutcome,
    serving: &ReplLog,
    now: u64,
    their: &Cursors,
    delta: Vec<WriteFrame>,
)
    requires
        old(recording).wf(),
        call_ensures(ReplLog::cursor_for, (&*old(recording), &frame.stamp.peer), have),
        call_ensures(ReplLog::record, (recording, frame), outcome),
        *serving == *final(recording),
        call_ensures(ReplLog::cursor_for, (serving, &frame.stamp.peer), now),
        call_ensures(ReplLog::delta_since, (serving, their), delta),
    ensures
        frame.seq == have + 1 <==> outcome is Appended,
        frame.seq <= have <==> outcome is Duplicate,
        frame.seq > have + 1 ==> (outcome matches RecordOutcome::Gap { expected, got } && expected
            == have + 1 && got == frame.seq),
        outcome is Appended ==> now == frame.seq,
        !(outcome is Appended) ==> now == have && final(recording)@ == old(recording)@,
        outcome is Appended && (their@.contains_key(frame.stamp.peer) ==> their@[frame.stamp.peer]
            < frame.seq) ==> exists|i: int|
            0 <= i < delta@.len() && (#[trigger] delta@[i])@ == frame@,
{
    let origin = frame.stamp.peer;
    if old(recording)@.contains_key(origin) {
        assert(origin_ok(origin, old(recording)@[origin]));
    }
    let from = reported(their@, origin);
    if outcome is Appended && from < frame.seq {
        let after = serving@;
        assert(origin_ok(origin, after[origin]));
        served_frames_are_those_above_the_cursor(after, origin, from);
        let frames = after[origin].frames;
        let served = unseen(after, origin, from);
        let models = frame_models(delta@);
        assert(of_origin(models, origin) == served);
        assert(frames[frames.len() - 1] == frame@);
        assert(served.len() > 0);
        assert(served[served.len() - 1] == frame@);
        crate::convergence::frames_of_an_origin_stand_in_the_list(models, origin);
        assert(models.contains(of_origin(models, origin)[served.len() - 1]));
        let i = choose|i: int| 0 <= i < models.len() && models[i] == frame@;
        assert(delta@[i]@ == frame@);
    }
}

/// Nobody is sent what they have: each frame that is handed out is above the cursor
/// that was reported for its origin.
pub proof fn known_frames_are_not_handed_out(
    serving: &ReplLog,
    their: &Cursors,
    delta: Vec<WriteFrame>,
    i: int,
)
    requires
        serving.wf(),
        call_ensures(ReplLog::delta_since, (serving, their), delta),
        0 <= i < delta@.len(),
    ensures
        their@.contains_key(delta@[i].stamp.peer) ==> their@[delta@[i].stamp.peer] < delta@[i].seq,
{
    let origin = delta@[i].stamp.peer;
    let models = frame_models(delta@);
    let served = unseen(serving@, origin, reported(their@, origin));
    crate::convergence::frames_of_an_origin_stand_in_the_list(models, origin);
    assert(of_origin(models, origin) == served);
    assert(models[i] == delta@[i]@);
    assert(served.contains(models[i]));
    let k = choose|k: int| 0 <= k < served.len() && served[k] == models[i];
    if serving@.contains_key(origin) {
        assert(origin_ok(origin, serving@[origin]));
        served_frames_are_those_above_the_cursor(
            serving@,
            origin,
            reported(their@, origin),
        );
        assert(served[k].seq > reported(their@, origin));
    }
}

/// Truncating drops the oldest frames of an origin, up to the mark and no further than
/// the log goes: the cursor stays, and who has come as far is served as before.
pub proof fn truncating_keeps_what_is_still_needed(
    truncating: &mut ReplLog,
    origin: PeerId,
    up_to: u64,
    dropped: usize,
    base: u64,
    have: u64,
    left: &ReplLog,
    new_base: u64,
    now: u64,
    from: u64,
)
    requires
        old(truncating).wf(),
        call_ensures(ReplLog::base_of, (&*old(truncating), &origin), base),
        call_ensures(ReplLog::cursor_for, (&*old(truncating), &origin), have),
        call_ensures(ReplLog::truncate, (truncating, &origin, up_to), dropped),
        *left == *final(truncating),
        call_ensures(ReplLog::base_of, (left, &origin), new_base),
        call_ensures(ReplLog::cursor_for, (left, &origin), now),
        from >= up_to,
    ensures
        now == have,
        new_base == base + dropped,
        new_base == (if up_to <= base {
            base
        } else if up_to <= have {
            up_to
        } else {
            have
        }),
        unseen(left@, origin, from) == unseen(old(truncating)@, origin, from),
{
    if old(truncating)@.contains_key(origin) {
        assert(origin_ok(origin, old(truncating)@[origin]));
    }
    truncating_serves_delivered_peers(old(truncating)@, origin, up_to, origin, from);
}

} // verus!
