//! What holds of peers as a whole: local writes win, peers that have merged the
//! same frames agree, reclaiming loses nothing and a reopened peer is where it
//! was.
use vstd::prelude::*;
use crate::hlc::PeerId;
use crate::lww::Op;

verus! {

/// A local write takes effect at once: it is the next frame of its origin, it
/// outranks whatever this peer has seen of the record, and reading the record
/// gives back what was written.
pub proof fn local_write_is_visible(
    before: crate::sync_state::SyncModel,
    wall_ms: u64,
    op: Op,
    entity: Seq<char>,
    id: Seq<char>,
    data: Seq<u8>,
    signature: Option<[u8; 64]>,
)
    requires
        before.ok(),
        before.clock.can_tick(wall_ms),
        crate::replog::cursor(before.log, before.self_id) < u64::MAX,
    ensures
        ({
            let frame = before.local_frame(wall_ms, op, entity, id, data, signature);
            let after = before.written(frame);
            &&& after.ok()
            &&& crate::replog::record_outcome(before.log, frame) is Appended
            &&& crate::lww::wins(before.state, frame.stamped())
            &&& crate::lww::visible_slot(after.state, entity, id) == (if op is Delete {
                None
            } else {
                Some((data, before.self_id))
            })
        }),
{
    let frame = before.local_frame(wall_ms, op, entity, id, data, signature);
    let after = before.written(frame);
    crate::hlc::tick_moves_forward(before.clock, wall_ms);
    crate::replog::recording_keeps_order(before.log, frame);
    assert(frame.stamped().key() == (entity, id));
    assert forall|key: (Seq<char>, Seq<char>)| #[trigger]
        after.state.contains_key(key) implies after.state[key].stamp.hlc.not_after(after.clock) by {
        if key != (entity, id) {
            assert(before.state.contains_key(key));
        }
    }
}

/// A local write changes no other record.
pub proof fn local_write_leaves_other_records(
    before: crate::sync_state::SyncModel,
    frame: crate::wire::FrameModel,
    entity: Seq<char>,
    id: Seq<char>,
)
    requires
        (entity, id) != frame.stamped().key(),
    ensures
        crate::lww::visible_slot(before.written(frame).state, entity, id)
            == crate::lww::visible_slot(before.state, entity, id),
{
}

/// A frame that fails verification leaves no trace.
pub proof fn rejected_frame_leaves_no_trace(
    before: crate::sync_state::SyncModel,
    frame: crate::wire::FrameModel,
    wall_ms: u64,
)
    ensures
        before.receive_outcome(frame, false) is Rejected,
        before.received(frame, wall_ms, false) == before,
{
}

/// Receiving a frame moves the clock past its stamp, so that every later local
/// write outranks it; the state stays in order.
pub proof fn receiving_moves_clock_past_remote(
    before: crate::sync_state::SyncModel,
    frame: crate::wire::FrameModel,
    wall_ms: u64,
)
    requires
        before.ok(),
        before.clock.can_observe(frame.stamp.hlc, wall_ms),
    ensures
        before.received(frame, wall_ms, true).ok(),
        frame.stamp.hlc.before(before.received(frame, wall_ms, true).clock),
        before.clock.before(before.received(frame, wall_ms, true).clock),
{
    let after = before.received(frame, wall_ms, true);
    crate::hlc::observe_moves_past_both(before.clock, frame.stamp.hlc, wall_ms);
    crate::replog::recording_keeps_order(before.log, frame);
    assert forall|key: (Seq<char>, Seq<char>)| #[trigger]
        after.state.contains_key(key) implies after.state[key].stamp.hlc.not_after(after.clock) by {
        if before.state.contains_key(key) {
            assert(before.state[key].stamp.hlc.not_after(before.clock));
        }
    }
}

/// Receiving a frame again changes nothing but the clock, and announces
/// nothing.
pub proof fn receiving_twice_is_receiving_once(
    before: crate::sync_state::SyncModel,
    frame: crate::wire::FrameModel,
    first_ms: u64,
    second_ms: u64,
)
    requires
        before.receive_outcome(frame, true) is Appended,
    ensures
        ({
            let once = before.received(frame, first_ms, true);
            &&& once.receive_outcome(frame, true) is Duplicate
            &&& once.received(frame, second_ms, true) == (crate::sync_state::SyncModel {
                clock: once.clock.observed(frame.stamp.hlc, second_ms),
                ..once
            })
        }),
{
    crate::replog::recording_is_idempotent(before.log, frame);
}

proof fn lemma_low_water_bound(
    model: crate::sync_state::SyncModel,
    members: Seq<PeerId>,
    origin: PeerId,
)
    requires
        crate::replog::log_ok(model.log),
    ensures
        model.low_water(members, origin) <= crate::replog::cursor(model.log, origin),
        forall|i: int|
            0 <= i < members.len() && #[trigger] members[i] != model.self_id ==> model.low_water(
                members,
                origin,
            ) <= model.reported_by(members[i], origin),
    decreases members.len(),
{
    if model.log.contains_key(origin) {
        assert(crate::replog::origin_ok(origin, model.log[origin]));
    }
    if members.len() > 0 {
        let front = members.drop_last();
        lemma_low_water_bound(model, front, origin);
        assert forall|i: int|
            0 <= i < members.len() && #[trigger] members[i] != model.self_id implies model.low_water(
            members,
            origin,
        ) <= model.reported_by(members[i], origin) by {
            if i < front.len() {
                assert(front[i] == members[i]);
            }
        }
    }
}

/// Reclaiming moves no cursor.
pub proof fn reclaiming_keeps_cursors(
    model: crate::sync_state::SyncModel,
    members: Seq<PeerId>,
    origin: PeerId,
)
    requires
        model.ok(),
    ensures
        crate::replog::cursor(model.reclaimed_log(members), origin) == crate::replog::cursor(
            model.log,
            origin,
        ),
{
    crate::replog::truncating_keeps_cursors(
        model.log,
        origin,
        model.low_water(members, origin),
        origin,
    );
}

/// Reclaiming drops nothing that a listed member still needs: what can be sent
/// to a member from the cursors it reported is what it was before.
pub proof fn reclaiming_serves_every_member(
    model: crate::sync_state::SyncModel,
    members: Seq<PeerId>,
    member: PeerId,
    origin: PeerId,
)
    requires
        model.ok(),
        members.contains(member),
        member != model.self_id,
    ensures
        crate::replog::unseen(
            model.reclaimed_log(members),
            origin,
            model.reported_by(member, origin),
        ) == crate::replog::unseen(model.log, origin, model.reported_by(member, origin)),
{
    lemma_low_water_bound(model, members, origin);
    let i = choose|i: int| 0 <= i < members.len() && members[i] == member;
    assert(members[i] == member);
    crate::replog::truncating_serves_delivered_peers(
        model.log,
        origin,
        model.low_water(members, origin),
        origin,
        model.reported_by(member, origin),
    );
}

/// A member that was never heard from blocks all reclaiming.
pub proof fn unheard_member_blocks_reclaiming(
    model: crate::sync_state::SyncModel,
    members: Seq<PeerId>,
    member: PeerId,
)
    requires
        model.ok(),
        members.contains(member),
        member != model.self_id,
        !model.peer_cursors.contains_key(member),
    ensures
        model.reclaimed_log(members) == model.log,
{
    let i = choose|i: int| 0 <= i < members.len() && members[i] == member;
    assert(members[i] == member);
    assert forall|origin: PeerId| #[trigger] model.log.contains_key(origin) implies model.reclaimed_log(
        members,
    )[origin] == model.log[origin] by {
        lemma_low_water_bound(model, members, origin);
        assert(model.low_water(members, origin) == 0);
        assert(model.log[origin].frames.skip(0) =~= model.log[origin].frames);
        assert(model.reclaimed_log(members)[origin] =~= model.log[origin]);
    }
    assert(model.reclaimed_log(members) =~= model.log);
}

/// One thing that can happen to a peer.
pub enum Happening {
    /// A local write made this frame.
    Wrote(crate::wire::FrameModel),
    /// A frame came in and verification said this of it.
    Received(crate::wire::FrameModel, u64, bool),
    /// A tombstone was collected.
    Collected(Seq<char>, Seq<char>),
    /// Log prefixes were reclaimed.
    Reclaimed(Seq<PeerId>),
}

/// The peer after one thing happened to it.
pub open spec fn after_one(
    model: crate::sync_state::SyncModel,
    happening: Happening,
) -> crate::sync_state::SyncModel {
    match happening {
        Happening::Wrote(frame) => model.written(frame),
        Happening::Received(frame, wall_ms, verified) => model.received(frame, wall_ms, verified),
        Happening::Collected(entity, id) => crate::sync_state::SyncModel {
            state: crate::lww::collected(model.state, entity, id),
            ..model
        },
        Happening::Reclaimed(members) => crate::sync_state::SyncModel {
            log: model.reclaimed_log(members),
            ..model
        },
    }
}

/// The peer after some things happened to it.
pub open spec fn after_all(
    model: crate::sync_state::SyncModel,
    history: Seq<Happening>,
) -> crate::sync_state::SyncModel
    decreases history.len(),
{
    if history.len() == 0 {
        model
    } else {
        after_one(after_all(model, history.drop_last()), history.last())
    }
}

/// The happening merges a write into the peer's state.
pub open spec fn merges_frame(
    model: crate::sync_state::SyncModel,
    happening: Happening,
) -> Option<crate::wire::FrameModel> {
    match happening {
        Happening::Wrote(frame) => Some(frame),
        Happening::Received(frame, _, verified) => if model.receive_outcome(frame, verified)
            is Appended {
            Some(frame)
        } else {
            None
        },
        _ => None,
    }
}

/// What the history does to the peer's records.
pub open spec fn record_steps(
    model: crate::sync_state::SyncModel,
    history: Seq<Happening>,
) -> Seq<crate::lww::Step>
    decreases history.len(),
{
    if history.len() == 0 {
        Seq::empty()
    } else {
        let before = after_all(model, history.drop_last());
        let steps = record_steps(model, history.drop_last());
        match (merges_frame(before, history.last()), history.last()) {
            (Some(frame), _) => steps.push(crate::lww::Step::Merge(frame.stamped())),
            (None, Happening::Collected(entity, id)) => steps.push(
                crate::lww::Step::Collect(entity, id),
            ),
            _ => steps,
        }
    }
}

proof fn lemma_records_follow_steps(self_id: PeerId, history: Seq<Happening>)
    ensures
        after_all(crate::sync_state::SyncModel::fresh(self_id), history).state
            == crate::lww::after_steps(
            Map::empty(),
            record_steps(crate::sync_state::SyncModel::fresh(self_id), history),
        ),
    decreases history.len(),
{
    let fresh = crate::sync_state::SyncModel::fresh(self_id);
    if history.len() > 0 {
        let front = history.drop_last();
        let before = after_all(fresh, front);
        lemma_records_follow_steps(self_id, front);
        let steps = record_steps(fresh, front);
        match (merges_frame(before, history.last()), history.last()) {
            (Some(frame), _) => {
                assert(steps.push(crate::lww::Step::Merge(frame.stamped())).drop_last() =~= steps);
            },
            (None, Happening::Collected(entity, id)) => {
                assert(steps.push(crate::lww::Step::Collect(entity, id)).drop_last() =~= steps);
            },
            _ => {},
        }
    }
}

/// Convergence by writes: two peers that have merged the same writes show the
/// same of a record, with the same author, whatever the order in which the
/// writes arrived, however often, from whom, and whatever was collected or
/// reclaimed in between, unless the record's latest writes disagree under one
/// stamp.
pub proof fn peers_converge(
    left_id: PeerId,
    left: Seq<Happening>,
    right_id: PeerId,
    right: Seq<Happening>,
    entity: Seq<char>,
    id: Seq<char>,
)
    requires
        ({
            let a = record_steps(crate::sync_state::SyncModel::fresh(left_id), left);
            let b = record_steps(crate::sync_state::SyncModel::fresh(right_id), right);
            &&& forall|w: crate::lww::WriteModel|
                #![trigger crate::lww::merges(a, w)]
                #![trigger crate::lww::merges(b, w)]
                crate::lww::merges(a, w) <==> crate::lww::merges(b, w)
            &&& crate::lww::latest_agree(a, entity, id)
        }),
    ensures
        crate::lww::visible_slot(
            after_all(crate::sync_state::SyncModel::fresh(left_id), left).state,
            entity,
            id,
        ) == crate::lww::visible_slot(
            after_all(crate::sync_state::SyncModel::fresh(right_id), right).state,
            entity,
            id,
        ),
{
    lemma_records_follow_steps(left_id, left);
    lemma_records_follow_steps(right_id, right);
    crate::lww::same_writes_converge(
        record_steps(crate::sync_state::SyncModel::fresh(left_id), left),
        record_steps(crate::sync_state::SyncModel::fresh(right_id), right),
        entity,
        id,
    );
}

/// The frames that the history merges into the peer's records, in order.
pub open spec fn frames_merged(
    model: crate::sync_state::SyncModel,
    history: Seq<Happening>,
) -> Seq<crate::wire::FrameModel>
    decreases history.len(),
{
    if history.len() == 0 {
        Seq::empty()
    } else {
        let before = after_all(model, history.drop_last());
        let frames = frames_merged(model, history.drop_last());
        match merges_frame(before, history.last()) {
            Some(frame) => frames.push(frame),
            None => frames,
        }
    }
}

/// The first of the frames that writes a record under a stamp.
spec fn first_write(
    frames: Seq<crate::wire::FrameModel>,
    key: (Seq<char>, Seq<char>),
    stamp: crate::hlc::Stamp,
) -> Option<crate::wire::FrameModel>
    decreases frames.len(),
{
    if frames.len() == 0 {
        None
    } else {
        let earlier = first_write(frames.drop_last(), key, stamp);
        if earlier is None && frames.last().stamped().key() == key && frames.last().stamp == stamp {
            Some(frames.last())
        } else {
            earlier
        }
    }
}

/// A stamp names its origin, so that the frames of the origin alone tell which
/// came first.
proof fn lemma_first_write_of_origin(
    frames: Seq<crate::wire::FrameModel>,
    key: (Seq<char>, Seq<char>),
    stamp: crate::hlc::Stamp,
)
    ensures
        first_write(frames, key, stamp) == first_write(
            crate::replog::of_origin(frames, stamp.peer),
            key,
            stamp,
        ),
    decreases frames.len(),
{
    if frames.len() > 0 {
        let front = frames.drop_last();
        lemma_first_write_of_origin(front, key, stamp);
        if frames.last().stamp.peer == stamp.peer {
            let mine = crate::replog::of_origin(frames, stamp.peer);
            assert(mine.drop_last() =~= crate::replog::of_origin(front, stamp.peer));
        }
    }
}

/// What the state holds of a record was left by the first of the merged frames
/// with the latest stamp.
proof fn lemma_state_is_first_latest(
    self_id: PeerId,
    history: Seq<Happening>,
    key: (Seq<char>, Seq<char>),
)
    ensures
        ({
            let fresh = crate::sync_state::SyncModel::fresh(self_id);
            let state = after_all(fresh, history).state;
            let frames = frames_merged(fresh, history);
            &&& state.contains_key(key) ==> match first_write(frames, key, state[key].stamp) {
                Some(frame) => state[key].content == crate::lww::slot_of(frame.stamped()).content
                    || (frame.op is Delete && state[key].content is Collected),
                None => false,
            }
            &&& forall|stamp: crate::hlc::Stamp| #[trigger]
                first_write(frames, key, stamp) is Some ==> state.contains_key(key)
                    && !state[key].stamp.before(stamp)
        }),
    decreases history.len(),
{
    let fresh = crate::sync_state::SyncModel::fresh(self_id);
    let frames = frames_merged(fresh, history);
    if history.len() > 0 {
        let front = history.drop_last();
        lemma_state_is_first_latest(self_id, front, key);
        let before = after_all(fresh, front);
        let state = after_all(fresh, history).state;
        let earlier = frames_merged(fresh, front);
        if let Some(frame) = merges_frame(before, history.last()) {
            assert(frames.drop_last() =~= earlier);
            assert(frames.last() == frame);
            if frame.stamped().key() == key {
                crate::hlc::stamps_totally_ordered(frame.stamp, frame.stamp);
                if crate::lww::wins(before.state, frame.stamped()) {
                    assert(first_write(earlier, key, frame.stamp) is None);
                    assert forall|stamp: crate::hlc::Stamp| #[trigger]
                        first_write(frames, key, stamp) is Some implies !frame.stamp.before(
                        stamp,
                    ) by {
                        if stamp != frame.stamp {
                            assert(first_write(earlier, key, stamp) is Some);
                            if frame.stamp.before(stamp) {
                                crate::hlc::stamp_order_transitive(
                                    before.state[key].stamp,
                                    frame.stamp,
                                    stamp,
                                );
                            }
                        }
                    }
                } else {
                    assert(first_write(earlier, key, before.state[key].stamp) is Some);
                    assert forall|stamp: crate::hlc::Stamp| #[trigger]
                        first_write(frames, key, stamp) is Some implies !state[key].stamp.before(
                        stamp,
                    ) by {
                        if stamp != frame.stamp {
                            assert(first_write(earlier, key, stamp) is Some);
                        }
                    }
                }
            } else {
                assert forall|stamp: crate::hlc::Stamp| #[trigger]
                    first_write(frames, key, stamp) is Some implies state.contains_key(key)
                    && !state[key].stamp.before(stamp) by {
                    assert(first_write(earlier, key, stamp) is Some);
                }
            }
        } else {
            assert(frames == earlier);
        }
    }
}

/// Convergence by frames: two peers that have merged the same frames of every
/// origin show the same records with the same authors, however the origins were
/// interleaved at each of them, and whatever was written, received, refused,
/// collected or reclaimed on the way. That two writes share a stamp does no
/// harm: they are of one origin, and its frames come in one order.
pub proof fn same_frames_converge(
    left_id: PeerId,
    left: Seq<Happening>,
    right_id: PeerId,
    right: Seq<Happening>,
    entity: Seq<char>,
    id: Seq<char>,
)
    requires
        forall|o: PeerId|
            #![trigger crate::replog::of_origin(
                frames_merged(crate::sync_state::SyncModel::fresh(left_id), left), o)]
            #![trigger crate::replog::of_origin(
                frames_merged(crate::sync_state::SyncModel::fresh(right_id), right), o)]
            crate::replog::of_origin(
                frames_merged(crate::sync_state::SyncModel::fresh(left_id), left),
                o,
            ) == crate::replog::of_origin(
                frames_merged(crate::sync_state::SyncModel::fresh(right_id), right),
                o,
            ),
    ensures
        crate::lww::visible_slot(
            after_all(crate::sync_state::SyncModel::fresh(left_id), left).state,
            entity,
            id,
        ) == crate::lww::visible_slot(
            after_all(crate::sync_state::SyncModel::fresh(right_id), right).state,
            entity,
            id,
        ),
{
    let key = (entity, id);
    let a = after_all(crate::sync_state::SyncModel::fresh(left_id), left).state;
    let b = after_all(crate::sync_state::SyncModel::fresh(right_id), right).state;
    let of_a = frames_merged(crate::sync_state::SyncModel::fresh(left_id), left);
    let of_b = frames_merged(crate::sync_state::SyncModel::fresh(right_id), right);
    lemma_state_is_first_latest(left_id, left, key);
    lemma_state_is_first_latest(right_id, right, key);
    assert forall|stamp: crate::hlc::Stamp|
        #![trigger first_write(of_a, key, stamp)]
        #![trigger first_write(of_b, key, stamp)]
        first_write(of_a, key, stamp) == first_write(of_b, key, stamp) by {
        lemma_first_write_of_origin(of_a, key, stamp);
        lemma_first_write_of_origin(of_b, key, stamp);
    }
    if a.contains_key(key) || b.contains_key(key) {
        if a.contains_key(key) {
            assert(first_write(of_b, key, a[key].stamp) is Some);
        } else {
            assert(first_write(of_a, key, b[key].stamp) is Some);
        }
        assert(first_write(of_a, key, b[key].stamp) is Some);
        crate::hlc::stamps_totally_ordered(a[key].stamp, b[key].stamp);
    }
}

/// Frames that come in one after another and pass verification, each at its
/// own wall time.
pub open spec fn deliveries(
    frames: Seq<crate::wire::FrameModel>,
    walls: Seq<u64>,
) -> Seq<Happening> {
    Seq::new(frames.len(), |i: int| Happening::Received(frames[i], walls[i], true))
}

/// The frames of every origin are numbered from one without holes, in the
/// order in which they stand.
pub open spec fn from_the_start(frames: Seq<crate::wire::FrameModel>) -> bool {
    forall|o: PeerId, i: int|
        0 <= i < crate::replog::of_origin(frames, o).len() ==> (
        #[trigger] crate::replog::of_origin(frames, o)[i]).seq == i + 1
}

/// The frame at `i` has the latest stamp of its record, and is the first that
/// has it.
pub open spec fn leads(frames: Seq<crate::wire::FrameModel>, i: int) -> bool {
    forall|j: int|
        0 <= j < frames.len() && (#[trigger] frames[j]).stamped().key()
            == frames[i].stamped().key() ==> !frames[i].stamp.before(frames[j].stamp) && (j < i
            ==> frames[j].stamp != frames[i].stamp)
}

/// Of the frames of one origin, those that a new peer appends: each that is the
/// next when it comes.
spec fn appended(frames: Seq<crate::wire::FrameModel>) -> Seq<crate::wire::FrameModel>
    decreases frames.len(),
{
    if frames.len() == 0 {
        Seq::empty()
    } else {
        let before = appended(frames.drop_last());
        if frames.last().seq == before.len() + 1 {
            before.push(frames.last())
        } else {
            before
        }
    }
}

proof fn lemma_each_origin_is_appended(
    self_id: PeerId,
    frames: Seq<crate::wire::FrameModel>,
    walls: Seq<u64>,
)
    ensures
        ({
            let fresh = crate::sync_state::SyncModel::fresh(self_id);
            let history = deliveries(frames, walls);
            forall|o: PeerId|
                #![trigger crate::replog::of_origin(frames_merged(fresh, history), o)]
                #![trigger crate::replog::cursor(after_all(fresh, history).log, o)]
                {
                    let mine = appended(crate::replog::of_origin(frames, o));
                    &&& crate::replog::of_origin(frames_merged(fresh, history), o) == mine
                    &&& crate::replog::cursor(after_all(fresh, history).log, o) == mine.len()
                }
        }),
    decreases frames.len(),
{
    let fresh = crate::sync_state::SyncModel::fresh(self_id);
    let history = deliveries(frames, walls);
    let merged = frames_merged(fresh, history);
    let after = after_all(fresh, history);
    if frames.len() > 0 {
        let front = frames.drop_last();
        let last = frames.last();
        lemma_each_origin_is_appended(self_id, front, walls);
        assert(history.drop_last() =~= deliveries(front, walls));
        let before = after_all(fresh, history.drop_last());
        let earlier = frames_merged(fresh, history.drop_last());
        assert(history.last() == Happening::Received(last, walls[frames.len() - 1], true));
        assert forall|o: PeerId|
            #![trigger crate::replog::of_origin(merged, o)]
            #![trigger crate::replog::cursor(after.log, o)]
            {
                let mine = appended(crate::replog::of_origin(frames, o));
                &&& crate::replog::of_origin(merged, o) == mine
                &&& crate::replog::cursor(after.log, o) == mine.len()
            } by {
            let had = crate::replog::of_origin(front, o);
            assert(crate::replog::of_origin(earlier, o) == appended(had));
            assert(crate::replog::cursor(before.log, o) == appended(had).len());
            if last.stamp.peer == o {
                assert(crate::replog::of_origin(frames, o).drop_last() =~= had);
            }
            if merges_frame(before, history.last()) is Some {
                assert(merged.drop_last() =~= earlier);
                assert(merged.last() == last);
            }
        }
    }
}

proof fn lemma_all_are_merged(
    self_id: PeerId,
    frames: Seq<crate::wire::FrameModel>,
    walls: Seq<u64>,
)
    requires
        from_the_start(frames),
    ensures
        ({
            let fresh = crate::sync_state::SyncModel::fresh(self_id);
            let history = deliveries(frames, walls);
            &&& forall|o: PeerId| #[trigger]
                crate::replog::cursor(after_all(fresh, history).log, o)
                    == crate::replog::of_origin(frames, o).len()
            &&& frames_merged(fresh, history) == frames
        }),
    decreases frames.len(),
{
    let fresh = crate::sync_state::SyncModel::fresh(self_id);
    let history = deliveries(frames, walls);
    if frames.len() > 0 {
        let front = frames.drop_last();
        let last = frames.last();
        assert forall|o: PeerId, i: int|
            0 <= i < crate::replog::of_origin(front, o).len() implies (
        #[trigger] crate::replog::of_origin(front, o)[i]).seq == i + 1 by {
            assert(crate::replog::of_origin(frames, o)[i] == crate::replog::of_origin(front, o)[i]);
        }
        lemma_all_are_merged(self_id, front, walls);
        assert(history.drop_last() =~= deliveries(front, walls));
        let before = after_all(fresh, history.drop_last());
        let origin = last.stamp.peer;
        let have = crate::replog::of_origin(front, origin).len();
        assert(crate::replog::cursor(before.log, origin) == have);
        assert(crate::replog::of_origin(frames, origin)[have as int] == last);
        assert(history.last() == Happening::Received(last, walls[frames.len() - 1], true));
        assert(merges_frame(before, history.last()) == Some(last));
        let after = after_all(fresh, history);
        assert forall|o: PeerId| #[trigger] crate::replog::cursor(after.log, o)
            == crate::replog::of_origin(frames, o).len() by {
            assert(crate::replog::cursor(before.log, o) == crate::replog::of_origin(
                front,
                o,
            ).len());
        }
        assert(front.push(last) =~= frames);
    } else {
        assert(frames =~= Seq::empty());
    }
}

proof fn lemma_first_write_stands(
    frames: Seq<crate::wire::FrameModel>,
    key: (Seq<char>, Seq<char>),
    stamp: crate::hlc::Stamp,
) -> (at: int)
    ensures
        match first_write(frames, key, stamp) {
            Some(frame) => {
                &&& 0 <= at < frames.len()
                &&& frames[at] == frame
                &&& frame.stamped().key() == key
                &&& frame.stamp == stamp
                &&& forall|j: int|
                    0 <= j < at && (#[trigger] frames[j]).stamped().key() == key
                        ==> frames[j].stamp != stamp
            },
            None => forall|j: int|
                0 <= j < frames.len() && (#[trigger] frames[j]).stamped().key() == key
                    ==> frames[j].stamp != stamp,
        },
    decreases frames.len(),
{
    if frames.len() == 0 {
        0
    } else {
        let front = frames.drop_last();
        let at = lemma_first_write_stands(front, key, stamp);
        if first_write(front, key, stamp) is Some {
            assert forall|j: int|
                0 <= j < at && (#[trigger] frames[j]).stamped().key() == key implies frames[j].stamp
                != stamp by {
                assert(front[j] == frames[j]);
            }
            at
        } else {
            assert forall|j: int|
                0 <= j < front.len() && (#[trigger] frames[j]).stamped().key()
                    == key implies frames[j].stamp != stamp by {
                assert(front[j] == frames[j]);
            }
            frames.len() - 1
        }
    }
}

/// A new peer that gets frames, those of each origin from the first one on and
/// in order, shows of a record the data of the latest write of it, and nothing
/// if that was a delete or there is none. Of several writes with the latest
/// stamp it is the first to come.
pub proof fn delivered_frames_show_the_latest(
    self_id: PeerId,
    frames: Seq<crate::wire::FrameModel>,
    walls: Seq<u64>,
    entity: Seq<char>,
    id: Seq<char>,
)
    requires
        from_the_start(frames),
    ensures
        ({
            let state = after_all(
                crate::sync_state::SyncModel::fresh(self_id),
                deliveries(frames, walls),
            ).state;
            &&& forall|i: int|
                0 <= i < frames.len() && leads(frames, i) && (
                #[trigger] frames[i]).stamped().key() == (entity, id) ==> crate::lww::visible_slot(
                    state,
                    entity,
                    id,
                ) == crate::lww::left_by(frames[i].stamped())
            &&& (forall|i: int|
                0 <= i < frames.len() ==> (#[trigger] frames[i]).stamped().key() != (entity, id))
                ==> crate::lww::visible_slot(state, entity, id) is None
        }),
{
    let key = (entity, id);
    let history = deliveries(frames, walls);
    let state = after_all(crate::sync_state::SyncModel::fresh(self_id), history).state;
    lemma_all_are_merged(self_id, frames, walls);
    lemma_state_is_first_latest(self_id, history, key);
    assert forall|i: int|
        0 <= i < frames.len() && leads(frames, i) && (#[trigger] frames[i]).stamped().key()
            == key implies crate::lww::visible_slot(state, entity, id) == crate::lww::left_by(
        frames[i].stamped(),
    ) by {
        let stamp = frames[i].stamp;
        let at = lemma_first_write_stands(frames, key, stamp);
        assert(first_write(frames, key, stamp) is Some);
        assert(at == i);
        let held = lemma_first_write_stands(frames, key, state[key].stamp);
        assert(!stamp.before(frames[held].stamp));
        crate::hlc::stamps_totally_ordered(stamp, state[key].stamp);
    }
    if forall|i: int| 0 <= i < frames.len() ==> (#[trigger] frames[i]).stamped().key() != key {
        if state.contains_key(key) {
            let held = lemma_first_write_stands(frames, key, state[key].stamp);
            assert(frames[held].stamped().key() == key);
        }
    }
}

/// Convergence of new peers: two peers that get the same frames of each origin,
/// in one order, show the same records with the same authors, however the
/// origins are interleaved at each of them. Frames that come twice or leave a
/// hole do no harm.
pub proof fn interleavings_converge(
    left_id: PeerId,
    left: Seq<crate::wire::FrameModel>,
    left_walls: Seq<u64>,
    right_id: PeerId,
    right: Seq<crate::wire::FrameModel>,
    right_walls: Seq<u64>,
    entity: Seq<char>,
    id: Seq<char>,
)
    requires
        forall|o: PeerId| #[trigger]
            crate::replog::of_origin(left, o) == crate::replog::of_origin(right, o),
    ensures
        crate::lww::visible_slot(
            after_all(
                crate::sync_state::SyncModel::fresh(left_id),
                deliveries(left, left_walls),
            ).state,
            entity,
            id,
        ) == crate::lww::visible_slot(
            after_all(
                crate::sync_state::SyncModel::fresh(right_id),
                deliveries(right, right_walls),
            ).state,
            entity,
            id,
        ),
{
    lemma_each_origin_is_appended(left_id, left, left_walls);
    lemma_each_origin_is_appended(right_id, right, right_walls);
    let of_left = frames_merged(
        crate::sync_state::SyncModel::fresh(left_id),
        deliveries(left, left_walls),
    );
    let of_right = frames_merged(
        crate::sync_state::SyncModel::fresh(right_id),
        deliveries(right, right_walls),
    );
    assert forall|o: PeerId|
        #![trigger crate::replog::of_origin(of_left, o)]
        #![trigger crate::replog::of_origin(of_right, o)]
        crate::replog::of_origin(of_left, o) == crate::replog::of_origin(of_right, o) by {
        assert(crate::replog::of_origin(of_left, o) == appended(crate::replog::of_origin(left, o)));
        assert(crate::replog::of_origin(of_right, o) == appended(
            crate::replog::of_origin(right, o),
        ));
    }
    same_frames_converge(
        left_id,
        deliveries(left, left_walls),
        right_id,
        deliveries(right, right_walls),
        entity,
        id,
    );
}

/// A peer that persists its frames and has no history yet.
pub open spec fn fresh_durable(self_id: PeerId) -> crate::sync_state::SyncModel {
    crate::sync_state::SyncModel { durable: true, ..crate::sync_state::SyncModel::fresh(self_id) }
}

/// Every local write in the history was the next frame of its origin.
pub open spec fn writes_in_order(
    model: crate::sync_state::SyncModel,
    history: Seq<Happening>,
) -> bool
    decreases history.len(),
{
    history.len() == 0 || (writes_in_order(model, history.drop_last()) && match history.last() {
        Happening::Wrote(frame) => crate::replog::record_outcome(
            after_all(model, history.drop_last()).log,
            frame,
        ) is Appended,
        _ => true,
    })
}

/// Both hold the same winner of a record; a collected tombstone counts as a
/// tombstone.
spec fn same_winner(
    a: crate::lww::StateModel,
    b: crate::lww::StateModel,
    key: (Seq<char>, Seq<char>),
) -> bool {
    &&& a.contains_key(key) <==> b.contains_key(key)
    &&& a.contains_key(key) ==> a[key].stamp == b[key].stamp && (a[key].content == b[key].content
        || (a[key].content is Collected && b[key].content is Tombstone))
}

/// Both hold the same winner of every record.
spec fn same_winners(a: crate::lww::StateModel, b: crate::lww::StateModel) -> bool {
    forall|key: (Seq<char>, Seq<char>)| #[trigger] same_winner(a, b, key)
}

proof fn lemma_replay_follows(self_id: PeerId, history: Seq<Happening>)
    requires
        writes_in_order(fresh_durable(self_id), history),
    ensures
        ({
            let model = after_all(fresh_durable(self_id), history);
            let reopened = crate::sync_state::SyncModel::fresh(self_id).replayed_all(model.unsaved);
            &&& model.durable
            &&& crate::replog::log_ok(model.log)
            &&& forall|o: PeerId| #[trigger]
                crate::replog::cursor(reopened.log, o) == crate::replog::cursor(model.log, o)
            &&& same_winners(model.state, reopened.state)
        }),
    decreases history.len(),
{
    let fresh = crate::sync_state::SyncModel::fresh(self_id);
    let model = after_all(fresh_durable(self_id), history);
    let reopened = fresh.replayed_all(model.unsaved);
    if history.len() > 0 {
        let front = history.drop_last();
        lemma_replay_follows(self_id, front);
        let before = after_all(fresh_durable(self_id), front);
        let reopened_before = fresh.replayed_all(before.unsaved);
        match (merges_frame(before, history.last()), history.last()) {
            (Some(frame), _) => {
                assert(model.unsaved == before.unsaved.push(frame));
                assert(model.unsaved.drop_last() =~= before.unsaved);
                assert(reopened == reopened_before.replayed(frame));
                let o = frame.stamp.peer;
                assert(crate::replog::cursor(reopened_before.log, o) == crate::replog::cursor(
                    before.log,
                    o,
                ));
                assert(crate::replog::record_outcome(reopened_before.log, frame) is Appended);
                crate::replog::recording_keeps_order(before.log, frame);
                assert forall|p: PeerId| #[trigger]
                    crate::replog::cursor(reopened.log, p) == crate::replog::cursor(
                        model.log,
                        p,
                    ) by {
                    assert(crate::replog::cursor(reopened_before.log, p) == crate::replog::cursor(
                        before.log,
                        p,
                    ));
                }
                let key = frame.stamped().key();
                assert(same_winner(before.state, reopened_before.state, key));
                assert(crate::lww::wins(before.state, frame.stamped()) == crate::lww::wins(
                    reopened_before.state,
                    frame.stamped(),
                ));
                assert forall|k: (Seq<char>, Seq<char>)| #[trigger]
                    same_winner(model.state, reopened.state, k) by {
                    assert(same_winner(before.state, reopened_before.state, k));
                }
            },
            (None, Happening::Collected(entity, id)) => {
                assert(model.unsaved == before.unsaved);
                assert forall|k: (Seq<char>, Seq<char>)| #[trigger]
                    same_winner(model.state, reopened.state, k) by {
                    assert(same_winner(before.state, reopened_before.state, k));
                }
            },
            (None, Happening::Reclaimed(members)) => {
                assert(model.unsaved == before.unsaved);
                assert forall|p: PeerId| #[trigger]
                    crate::replog::cursor(reopened.log, p) == crate::replog::cursor(
                        model.log,
                        p,
                    ) by {
                    crate::replog::truncating_keeps_cursors(
                        before.log,
                        p,
                        before.low_water(members, p),
                        p,
                    );
                    assert(crate::replog::cursor(reopened_before.log, p) == crate::replog::cursor(
                        before.log,
                        p,
                    ));
                }
                assert forall|p: PeerId| #[trigger]
                    model.log.contains_key(p) implies crate::replog::origin_ok(p, model.log[p]) by {
                    assert(crate::replog::origin_ok(p, before.log[p]));
                    let n = crate::replog::truncated_count(
                        before.log,
                        p,
                        before.low_water(members, p),
                    );
                    assert forall|i: int| 0 <= i < model.log[p].frames.len() implies (
                    #[trigger] model.log[p].frames[i]).seq == model.log[p].base + 1 + i
                        && model.log[p].frames[i].stamp.peer == p by {
                        assert(model.log[p].frames[i] == before.log[p].frames[i + n]);
                    }
                }
            },
            _ => {
                assert(model.unsaved == before.unsaved);
                assert(model.log == before.log);
                assert(model.state == before.state);
            },
        }
    }
    assert(model.durable);
    assert(crate::replog::log_ok(model.log));
    assert(same_winners(model.state, reopened.state));
}

/// Durability: a peer that is rebuilt by replaying every frame that was queued
/// for persistence has the cursors and shows the records of the peer that
/// queued them, whatever was collected or reclaimed in memory.
pub proof fn replay_restores_the_peer(
    self_id: PeerId,
    history: Seq<Happening>,
    origin: PeerId,
    entity: Seq<char>,
    id: Seq<char>,
)
    requires
        writes_in_order(fresh_durable(self_id), history),
    ensures
        ({
            let model = after_all(fresh_durable(self_id), history);
            let reopened = crate::sync_state::SyncModel::fresh(self_id).replayed_all(model.unsaved);
            &&& crate::replog::cursor(reopened.log, origin) == crate::replog::cursor(
                model.log,
                origin,
            )
            &&& crate::lww::visible_slot(reopened.state, entity, id) == crate::lww::visible_slot(
                model.state,
                entity,
                id,
            )
            &&& reopened.events.len() == 0
            &&& reopened.unsaved.len() == 0
        }),
{
    lemma_replay_follows(self_id, history);
    let model = after_all(fresh_durable(self_id), history);
    let reopened = crate::sync_state::SyncModel::fresh(self_id).replayed_all(model.unsaved);
    assert(same_winner(model.state, reopened.state, (entity, id)));
    lemma_replay_is_quiet(crate::sync_state::SyncModel::fresh(self_id), model.unsaved);
}

proof fn lemma_replay_is_quiet(
    model: crate::sync_state::SyncModel,
    frames: Seq<crate::wire::FrameModel>,
)
    ensures
        model.replayed_all(frames).events == model.events,
        model.replayed_all(frames).unsaved == model.unsaved,
        model.replayed_all(frames).self_id == model.self_id,
    decreases frames.len(),
{
    if frames.len() > 0 {
        lemma_replay_is_quiet(model, frames.drop_last());
    }
}

/// A write made after reopening outranks every replayed write of its record:
/// replaying keeps the clock at or past every stamp.
pub proof fn replaying_moves_clock_past_frame(
    before: crate::sync_state::SyncModel,
    frame: crate::wire::FrameModel,
)
    requires
        before.ok(),
        before.can_replay(frame),
    ensures
        before.replayed(frame).ok(),
        frame.stamp.hlc.before(before.replayed(frame).clock),
{
    let after = before.replayed(frame);
    crate::hlc::observe_moves_past_both(before.clock, frame.stamp.hlc, frame.stamp.hlc.physical);
    crate::replog::recording_keeps_order(before.log, frame);
    assert forall|key: (Seq<char>, Seq<char>)| #[trigger]
        after.state.contains_key(key) implies after.state[key].stamp.hlc.not_after(after.clock) by {
        if before.state.contains_key(key) {
            assert(before.state[key].stamp.hlc.not_after(before.clock));
        }
    }
}

/// The log of a peer holds, of every origin, what was merged of it and not
/// reclaimed, and the cursors count what was merged.
proof fn lemma_log_holds_what_was_merged(self_id: PeerId, history: Seq<Happening>)
    requires
        writes_in_order(crate::sync_state::SyncModel::fresh(self_id), history),
    ensures
        ({
            let fresh = crate::sync_state::SyncModel::fresh(self_id);
            let log = after_all(fresh, history).log;
            let merged = frames_merged(fresh, history);
            &&& crate::replog::log_ok(log)
            &&& forall|o: PeerId|
                #![trigger crate::replog::of_origin(merged, o)]
                #![trigger crate::replog::held(log, o)]
                {
                    let mine = crate::replog::of_origin(merged, o);
                    let base = crate::replog::base_in(log, o);
                    &&& base <= mine.len()
                    &&& crate::replog::held(log, o) == mine.skip(base as int)
                    &&& forall|i: int| 0 <= i < mine.len() ==> (#[trigger] mine[i]).seq == i + 1
                }
        }),
    decreases history.len(),
{
    let fresh = crate::sync_state::SyncModel::fresh(self_id);
    let after = after_all(fresh, history);
    let merged = frames_merged(fresh, history);
    if history.len() == 0 {
        assert forall|o: PeerId|
            #![trigger crate::replog::of_origin(merged, o)]
            #![trigger crate::replog::held(after.log, o)]
            crate::replog::held(after.log, o) == crate::replog::of_origin(merged, o).skip(0) by {
            assert(crate::replog::of_origin(merged, o).skip(0) =~= crate::replog::of_origin(
                merged,
                o,
            ));
        }
    } else {
        let front = history.drop_last();
        lemma_log_holds_what_was_merged(self_id, front);
        let before = after_all(fresh, front);
        let earlier = frames_merged(fresh, front);
        match (merges_frame(before, history.last()), history.last()) {
            (Some(frame), _) => {
                let origin = frame.stamp.peer;
                assert(merged.drop_last() =~= earlier);
                assert(merged.last() == frame);
                assert(crate::replog::record_outcome(before.log, frame) is Appended);
                assert(after.log == crate::replog::recorded(before.log, frame));
                crate::replog::recording_keeps_order(before.log, frame);
                assert forall|o: PeerId|
                    #![trigger crate::replog::of_origin(merged, o)]
                    #![trigger crate::replog::held(after.log, o)]
                    {
                        let mine = crate::replog::of_origin(merged, o);
                        let base = crate::replog::base_in(after.log, o);
                        &&& base <= mine.len()
                        &&& crate::replog::held(after.log, o) == mine.skip(base as int)
                        &&& forall|i: int| 0 <= i < mine.len() ==> (#[trigger] mine[i]).seq == i + 1
                    } by {
                    let mine = crate::replog::of_origin(merged, o);
                    let had = crate::replog::of_origin(earlier, o);
                    let base = crate::replog::base_in(before.log, o);
                    assert(crate::replog::held(before.log, o) == had.skip(base as int));
                    if o == origin {
                        assert(mine == had.push(frame));
                        assert(mine.skip(base as int) =~= had.skip(base as int).push(frame));
                        assert(frame.seq == had.len() + 1);
                    }
                }
            },
            (None, Happening::Reclaimed(members)) => {
                assert(merged == earlier);
                crate::sync_state::reclaiming_drops_up_to_the_mark(
                    before,
                    members,
                    Seq::empty(),
                    self_id,
                );
                assert forall|o: PeerId|
                    #![trigger crate::replog::of_origin(merged, o)]
                    #![trigger crate::replog::held(after.log, o)]
                    {
                        let mine = crate::replog::of_origin(merged, o);
                        let base = crate::replog::base_in(after.log, o);
                        &&& base <= mine.len()
                        &&& crate::replog::held(after.log, o) == mine.skip(base as int)
                        &&& forall|i: int| 0 <= i < mine.len() ==> (#[trigger] mine[i]).seq == i + 1
                    } by {
                    let mine = crate::replog::of_origin(merged, o);
                    let base = crate::replog::base_in(before.log, o);
                    assert(crate::replog::held(before.log, o) == mine.skip(base as int));
                    if before.log.contains_key(o) {
                        crate::sync_state::reclaiming_drops_up_to_the_mark(
                            before,
                            members,
                            Seq::empty(),
                            o,
                        );
                        assert(crate::replog::held(after.log, o) =~= mine.skip(
                            crate::replog::base_in(after.log, o) as int,
                        ));
                    }
                }
                assert forall|o: PeerId| #[trigger]
                    after.log.contains_key(o) implies crate::replog::origin_ok(
                    o,
                    after.log[o],
                ) by {
                    assert(crate::replog::origin_ok(o, before.log[o]));
                    crate::sync_state::reclaiming_drops_up_to_the_mark(
                        before,
                        members,
                        Seq::empty(),
                        o,
                    );
                    let dropped = before.log[o].frames.len() - after.log[o].frames.len();
                    assert forall|i: int| 0 <= i < after.log[o].frames.len() implies (
                    #[trigger] after.log[o].frames[i]).seq == after.log[o].base + 1 + i
                        && after.log[o].frames[i].stamp.peer == o by {
                        assert(after.log[o].frames[i] == before.log[o].frames[dropped + i]);
                    }
                }
            },
            _ => {
                assert(merged == earlier);
                assert(after.log == before.log);
            },
        }
    }
}

/// Deliveries that go on where the cursors stand are merged, all of them.
proof fn lemma_deliveries_go_on(
    self_id: PeerId,
    history: Seq<Happening>,
    delta: Seq<crate::wire::FrameModel>,
    walls: Seq<u64>,
)
    requires
        forall|o: PeerId, i: int|
            0 <= i < crate::replog::of_origin(delta, o).len() ==> (
            #[trigger] crate::replog::of_origin(delta, o)[i]).seq == crate::replog::cursor(
                after_all(crate::sync_state::SyncModel::fresh(self_id), history).log,
                o,
            ) + 1 + i,
    ensures
        ({
            let fresh = crate::sync_state::SyncModel::fresh(self_id);
            let longer = history + deliveries(delta, walls);
            &&& frames_merged(fresh, longer) == frames_merged(fresh, history) + delta
            &&& forall|o: PeerId| #[trigger]
                crate::replog::cursor(after_all(fresh, longer).log, o) == crate::replog::cursor(
                    after_all(fresh, history).log,
                    o,
                ) + crate::replog::of_origin(delta, o).len()
        }),
    decreases delta.len(),
{
    let fresh = crate::sync_state::SyncModel::fresh(self_id);
    let longer = history + deliveries(delta, walls);
    if delta.len() == 0 {
        assert(longer =~= history);
        assert(frames_merged(fresh, history) + delta =~= frames_merged(fresh, history));
    } else {
        let front = delta.drop_last();
        let last = delta.last();
        assert forall|o: PeerId, i: int|
            0 <= i < crate::replog::of_origin(front, o).len() implies (
        #[trigger] crate::replog::of_origin(front, o)[i]).seq == crate::replog::cursor(
            after_all(fresh, history).log,
            o,
        ) + 1 + i by {
            assert(crate::replog::of_origin(delta, o)[i] == crate::replog::of_origin(front, o)[i]);
        }
        lemma_deliveries_go_on(self_id, history, front, walls);
        assert(longer.drop_last() =~= history + deliveries(front, walls));
        let before = after_all(fresh, longer.drop_last());
        assert(longer.last() == Happening::Received(last, walls[delta.len() - 1], true));
        let origin = last.stamp.peer;
        let n = crate::replog::of_origin(front, origin).len();
        assert(crate::replog::of_origin(delta, origin)[n as int] == last);
        assert(crate::replog::cursor(before.log, origin) == crate::replog::cursor(
            after_all(fresh, history).log,
            origin,
        ) + n);
        assert(merges_frame(before, longer.last()) == Some(last));
        assert(frames_merged(fresh, longer) =~= frames_merged(fresh, history) + delta);
        let after = after_all(fresh, longer);
        assert forall|o: PeerId| #[trigger]
            crate::replog::cursor(after.log, o) == crate::replog::cursor(
                after_all(fresh, history).log,
                o,
            ) + crate::replog::of_origin(delta, o).len() by {
            assert(crate::replog::cursor(before.log, o) == crate::replog::cursor(
                after_all(fresh, history).log,
                o,
            ) + crate::replog::of_origin(front, o).len());
        }
    }
}

/// Anti-entropy restores agreement: a peer that greets another, and applies the
/// answer, then shows of every record what the answering peer shows, with the same
/// author, and has come as far with every origin. It must not have come further
/// than the other before, nor miss what the other has reclaimed.
pub proof fn one_pull_shows_the_same(
    server_id: PeerId,
    server: Seq<Happening>,
    client_id: PeerId,
    client: Seq<Happening>,
    hello: crate::session::SyncMessage,
    answer: crate::session::SyncMessage,
    walls: Seq<u64>,
    entity: Seq<char>,
    id: Seq<char>,
    origin: PeerId,
)
    requires
        writes_in_order(crate::sync_state::SyncModel::fresh(server_id), server),
        writes_in_order(crate::sync_state::SyncModel::fresh(client_id), client),
        crate::session::greets(
            hello,
            after_all(crate::sync_state::SyncModel::fresh(client_id), client),
        ),
        crate::session::catches_up(
            answer,
            after_all(crate::sync_state::SyncModel::fresh(server_id), server),
            hello->cursors@,
        ),
        forall|o: PeerId|
            crate::replog::base_in(
                after_all(crate::sync_state::SyncModel::fresh(server_id), server).log,
                o,
            ) <= #[trigger] crate::replog::cursor(
                after_all(crate::sync_state::SyncModel::fresh(client_id), client).log,
                o,
            ),
        forall|o: PeerId| #[trigger]
            crate::replog::of_origin(
                frames_merged(crate::sync_state::SyncModel::fresh(client_id), client),
                o,
            ).is_prefix_of(
                crate::replog::of_origin(
                    frames_merged(crate::sync_state::SyncModel::fresh(server_id), server),
                    o,
                ),
            ),
    ensures
        ({
            let after = after_all(
                crate::sync_state::SyncModel::fresh(client_id),
                client + deliveries(crate::replog::frame_models(answer->Delta_0@), walls),
            );
            let other = after_all(crate::sync_state::SyncModel::fresh(server_id), server);
            &&& crate::lww::visible_slot(after.state, entity, id) == crate::lww::visible_slot(
                other.state,
                entity,
                id,
            )
            &&& crate::replog::cursor(after.log, origin) == crate::replog::cursor(
                other.log,
                origin,
            )
        }),
{
    let new_client = crate::sync_state::SyncModel::fresh(client_id);
    let new_server = crate::sync_state::SyncModel::fresh(server_id);
    let delta = crate::replog::frame_models(answer->Delta_0@);
    let at_client = after_all(new_client, client);
    let at_server = after_all(new_server, server);
    let of_client = frames_merged(new_client, client);
    let of_server = frames_merged(new_server, server);
    lemma_log_holds_what_was_merged(client_id, client);
    lemma_log_holds_what_was_merged(server_id, server);
    assert forall|o: PeerId| #[trigger]
        crate::replog::of_origin(delta, o) == crate::replog::of_origin(of_server, o).skip(
            crate::replog::of_origin(of_client, o).len() as int,
        ) && crate::replog::cursor(at_client.log, o) == crate::replog::of_origin(
            of_client,
            o,
        ).len() && crate::replog::cursor(at_server.log, o) == crate::replog::of_origin(
            of_server,
            o,
        ).len() by {
        let mine = crate::replog::of_origin(of_client, o);
        let theirs = crate::replog::of_origin(of_server, o);
        let base = crate::replog::base_in(at_server.log, o);
        assert(crate::replog::held(at_client.log, o) == mine.skip(
            crate::replog::base_in(at_client.log, o) as int,
        ));
        assert(crate::replog::held(at_server.log, o) == theirs.skip(base as int));
        assert(crate::replog::cursor(at_client.log, o) == mine.len());
        assert(mine.is_prefix_of(theirs));
        let cursors = hello->cursors@;
        assert(cursors.contains_key(o) == at_client.log.contains_key(o));
        if at_client.log.contains_key(o) {
            assert(crate::replog::origin_ok(o, at_client.log[o]));
        }
        let from = crate::replog::reported(cursors, o);
        assert(from == mine.len());
        assert(theirs.skip(base as int).skip(from - base) =~= theirs.skip(from as int));
        assert(crate::replog::unseen(at_server.log, o, from) =~= theirs.skip(from as int));
    }
    assert forall|o: PeerId, i: int| 0 <= i < crate::replog::of_origin(delta, o).len() implies (
    #[trigger] crate::replog::of_origin(delta, o)[i]).seq == crate::replog::cursor(
        at_client.log,
        o,
    ) + 1 + i by {
        let theirs = crate::replog::of_origin(of_server, o);
        let n = crate::replog::of_origin(of_client, o).len() as int;
        assert(crate::replog::held(at_server.log, o) == theirs.skip(
            crate::replog::base_in(at_server.log, o) as int,
        ));
        assert(crate::replog::of_origin(delta, o)[i] == theirs[n + i]);
    }
    lemma_deliveries_go_on(client_id, client, delta, walls);
    let longer = client + deliveries(delta, walls);
    assert forall|o: PeerId|
        #![trigger crate::replog::of_origin(frames_merged(new_client, longer), o)]
        #![trigger crate::replog::of_origin(of_server, o)]
        crate::replog::of_origin(frames_merged(new_client, longer), o) == crate::replog::of_origin(
            of_server,
            o,
        ) by {
        let mine = crate::replog::of_origin(of_client, o);
        let theirs = crate::replog::of_origin(of_server, o);
        crate::replog::frames_of_an_origin_keep_their_order(
            of_client,
            arbitrary(),
            delta,
            o,
        );
        assert(crate::replog::of_origin(delta, o) == theirs.skip(mine.len() as int));
        assert(mine.is_prefix_of(theirs));
        assert(mine + theirs.skip(mine.len() as int) =~= theirs);
    }
    same_frames_converge(client_id, longer, server_id, server, entity, id);
    assert(crate::replog::of_origin(delta, origin) == crate::replog::of_origin(
        of_server,
        origin,
    ).skip(crate::replog::of_origin(of_client, origin).len() as int));
    assert(crate::replog::of_origin(of_client, origin).is_prefix_of(
        crate::replog::of_origin(of_server, origin),
    ));
}

proof fn lemma_replay_is_delivery(
    self_id: PeerId,
    frames: Seq<crate::wire::FrameModel>,
    walls: Seq<u64>,
)
    ensures
        ({
            let fresh = crate::sync_state::SyncModel::fresh(self_id);
            let delivered = after_all(fresh, deliveries(frames, walls));
            &&& fresh.replayed_all(frames).state == delivered.state
            &&& fresh.replayed_all(frames).log == delivered.log
        }),
    decreases frames.len(),
{
    if frames.len() > 0 {
        let front = frames.drop_last();
        lemma_replay_is_delivery(self_id, front, walls);
        assert(deliveries(frames, walls).drop_last() =~= deliveries(front, walls));
        assert(deliveries(frames, walls).last() == Happening::Received(
            frames.last(),
            walls[frames.len() - 1],
            true,
        ));
    }
}

/// Durability on disk: if every frame that a durable peer queued was stored, and
/// the stored values are loaded and replayed with the frames of each origin in
/// order, as they are in key order, the reopened peer has come as far with every
/// origin and shows the same records with the same authors.
pub proof fn stored_frames_restore_the_peer(
    self_id: PeerId,
    history: Seq<Happening>,
    frames: Seq<crate::wire::FrameModel>,
    values: Seq<Vec<u8>>,
    origin: PeerId,
    entity: Seq<char>,
    id: Seq<char>,
)
    requires
        writes_in_order(fresh_durable(self_id), history),
        forall|o: PeerId| #[trigger]
            crate::replog::of_origin(frames, o) == crate::replog::of_origin(
                after_all(fresh_durable(self_id), history).unsaved,
                o,
            ),
        values.len() == frames.len(),
        forall|i: int| 0 <= i < frames.len() ==> (#[trigger] frames[i]).names_fit(),
        forall|i: int| 0 <= i < frames.len() ==> (#[trigger] frames[i]).data.len() <= u32::MAX,
        forall|i: int| 0 <= i < frames.len() ==> (#[trigger] values[i])@ == frames[i].encoded(),
    ensures
        ({
            let model = after_all(fresh_durable(self_id), history);
            let reopened = crate::sync_state::SyncModel::fresh(self_id).replayed_all(
                crate::persistence::loaded(values),
            );
            &&& crate::replog::cursor(reopened.log, origin) == crate::replog::cursor(
                model.log,
                origin,
            )
            &&& crate::lww::visible_slot(reopened.state, entity, id) == crate::lww::visible_slot(
                model.state,
                entity,
                id,
            )
        }),
{
    let fresh = crate::sync_state::SyncModel::fresh(self_id);
    let model = after_all(fresh_durable(self_id), history);
    let walls = Seq::<u64>::empty();
    crate::persistence::stored_frames_load_back(frames, values);
    assert(crate::persistence::loaded(values) =~= frames);
    replay_restores_the_peer(self_id, history, origin, entity, id);
    lemma_replay_is_delivery(self_id, frames, walls);
    lemma_replay_is_delivery(self_id, model.unsaved, walls);
    interleavings_converge(self_id, frames, walls, self_id, model.unsaved, walls, entity, id);
    lemma_each_origin_is_appended(self_id, frames, walls);
    lemma_each_origin_is_appended(self_id, model.unsaved, walls);
    let one = after_all(fresh, deliveries(frames, walls));
    let two = after_all(fresh, deliveries(model.unsaved, walls));
    assert(crate::replog::cursor(one.log, origin) == appended(
        crate::replog::of_origin(frames, origin),
    ).len());
    assert(crate::replog::cursor(two.log, origin) == appended(
        crate::replog::of_origin(model.unsaved, origin),
    ).len());
}

/// What a delivered write leaves is its data under its author's name, and nothing
/// if it is a delete.
pub proof fn first_delivery_is_shown(
    self_id: PeerId,
    frame: crate::wire::FrameModel,
    wall_ms: u64,
)
    requires
        frame.seq == 1,
    ensures
        ({
            let after = crate::sync_state::SyncModel::fresh(self_id).received(
                frame,
                wall_ms,
                true,
            );
            &&& !(frame.op is Delete) ==> crate::lww::visible_slot(
                after.state,
                frame.entity,
                frame.id,
            ) == Some((frame.data, frame.stamp.peer))
            &&& frame.op is Delete ==> crate::lww::visible_slot(
                after.state,
                frame.entity,
                frame.id,
            ) is None
        }),
{
}

/// The frames of an origin in a list stand in the list, and each frame of the list is
/// among those of its origin.
pub proof fn frames_of_an_origin_stand_in_the_list(
    frames: Seq<crate::wire::FrameModel>,
    origin: PeerId,
)
    ensures
        forall|i: int|
            0 <= i < crate::replog::of_origin(frames, origin).len() ==> frames.contains(
                #[trigger] crate::replog::of_origin(frames, origin)[i],
            ) && crate::replog::of_origin(frames, origin)[i].stamp.peer == origin,
        forall|i: int|
            0 <= i < frames.len() && (#[trigger] frames[i]).stamp.peer == origin
                ==> crate::replog::of_origin(frames, origin).contains(frames[i]),
    decreases frames.len(),
{
    let all = crate::replog::of_origin(frames, origin);
    if frames.len() > 0 {
        let front = frames.drop_last();
        let some = crate::replog::of_origin(front, origin);
        frames_of_an_origin_stand_in_the_list(front, origin);
        assert forall|i: int| 0 <= i < all.len() implies frames.contains(#[trigger] all[i])
            && all[i].stamp.peer == origin by {
            if i < some.len() {
                assert(all[i] == some[i]);
                assert(front.contains(some[i]));
                let k = choose|k: int| 0 <= k < front.len() && front[k] == some[i];
                assert(frames[k] == some[i]);
            } else {
                assert(frames[frames.len() - 1] == all[i]);
            }
        }
        assert forall|i: int|
            0 <= i < frames.len() && (#[trigger] frames[i]).stamp.peer == origin implies all.contains(
            frames[i],
        ) by {
            if i < front.len() {
                assert(front[i] == frames[i]);
                let k = choose|k: int| 0 <= k < some.len() && some[k] == frames[i];
                assert(all[k] == frames[i]);
            } else {
                assert(all[some.len() as int] == frames[i]);
            }
        }
    }
}

} // verus!
