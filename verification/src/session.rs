//! The sync protocol over one connection, as a step function.
//!
//! The protocol is periodic pull-based anti-entropy:
//! - send a `Hello` carrying our cursors immediately, then at every tick
//! - on an inbound `Hello`, reply with the `Delta` of writes that peer is missing
//! - on an inbound `Delta`, apply each frame (LWW + GC)
//! - on a local write, push it immediately as a one-frame `Delta` — a latency
//!   optimization; correctness rests on the periodic pull
//!
//! Transitive forwarding is not handled here: a node shares one sync state
//! across all its sessions, so writes pulled in from one peer are served to
//! others on their next pull. Gaps and lost frames self-heal on the next pull.
use vstd::prelude::*;
use crate::hlc::PeerId;
use crate::replog::Cursors;
use crate::sync_state::{FrameAuth, SyncState};
use crate::wire::WriteFrame;

verus! {

/// What peers say to each other.
pub enum SyncMessage {
    /// Who is speaking, and how far it has come with each origin.
    Hello { from: PeerId, cursors: Cursors },
    /// Frames the other side may be missing.
    Delta(Vec<WriteFrame>),
}

/// Why no message could be read.
#[derive(Debug, Clone, Copy, PartialEq, Eq, Structural)]
pub enum ReadFailure {
    /// The stream ended.
    UnexpectedEof,
    /// Anything else.
    Other,
}

/// Whether the other side has simply gone away.
pub fn is_eof(failure: &ReadFailure) -> (eof: bool)
    ensures
        eof == (*failure is UnexpectedEof),
{
    match failure {
        ReadFailure::UnexpectedEof => true,
        ReadFailure::Other => false,
    }
}

/// Milliseconds since the epoch as a clock reading: zero before the epoch, and
/// at most the largest reading.
pub fn now_millis(since_epoch: Option<u128>) -> (millis: u64)
    ensures
        millis == (match since_epoch {
            Some(ms) => if ms <= u64::MAX {
                ms as u64
            } else {
                u64::MAX
            },
            None => 0,
        }),
{
    match since_epoch {
        Some(ms) => if ms <= u64::MAX as u128 {
            ms as u64
        } else {
            u64::MAX
        },
        None => 0,
    }
}

/// What can happen to a session.
pub enum SessionEvent {
    /// The connection was made, or the pull interval has passed.
    Tick,
    /// A message came in.
    Inbound(SyncMessage),
    /// No message could be read.
    ReadFailed(ReadFailure),
    /// A local write is to be pushed.
    Local(WriteFrame),
    /// There will be no more local writes.
    OutboundClosed,
}

/// What the session is to do next.
pub enum SessionAction {
    /// Send a message and go on.
    Send(SyncMessage),
    /// Go on.
    Continue,
    /// End without an error.
    Finish,
    /// End with the error that reading gave.
    Fail,
    /// The clock has no room for a received frame.
    ClockExhausted,
}

/// `message` greets with the id and the cursors of `model`.
pub open spec fn greets(message: SyncMessage, model: crate::sync_state::SyncModel) -> bool {
    match message {
        SyncMessage::Hello { from, cursors } => {
            &&& from == model.self_id
            &&& forall|o: PeerId| #[trigger]
                cursors@.contains_key(o) <==> model.log.contains_key(o)
            &&& forall|o: PeerId| #[trigger]
                cursors@.contains_key(o) ==> cursors@[o] == crate::replog::cursor(model.log, o)
        },
        SyncMessage::Delta(_) => false,
    }
}

/// `message` carries exactly the frames of `model` above `cursors`.
pub open spec fn catches_up(
    message: SyncMessage,
    model: crate::sync_state::SyncModel,
    cursors: Map<PeerId, u64>,
) -> bool {
    match message {
        SyncMessage::Hello { .. } => false,
        SyncMessage::Delta(frames) => forall|o: PeerId| #[trigger]
            crate::replog::of_origin(crate::replog::frame_models(frames@), o)
                == crate::replog::unseen(model.log, o, crate::replog::reported(cursors, o)),
    }
}

/// The greeting of a peer.
pub fn hello<A>(state: &SyncState<A>) -> (message: SyncMessage)
    requires
        state.wf(),
    ensures
        greets(message, state@),
{
    SyncMessage::Hello { from: state.self_id(), cursors: state.cursors() }
}

/// One step of a session. `now` is the wall clock in milliseconds.
pub fn step<A: FrameAuth>(state: &mut SyncState<A>, event: SessionEvent, now: u64) -> (action:
    SessionAction)
    requires
        old(state).wf(),
    ensures
        final(state).wf(),
        final(state).auth() == old(state).auth(),
        match event {
            SessionEvent::Tick => {
                &&& action matches SessionAction::Send(message)
                &&& greets(message, old(state)@)
                &&& final(state)@ == old(state)@
            },
            SessionEvent::Inbound(SyncMessage::Hello { from, cursors }) => {
                &&& action matches SessionAction::Send(message)
                &&& catches_up(message, old(state)@, cursors@)
                &&& final(state)@ == (crate::sync_state::SyncModel {
                    peer_cursors: old(state)@.peer_cursors.insert(from, cursors@),
                    ..old(state)@
                })
            },
            SessionEvent::Inbound(SyncMessage::Delta(frames)) => exists|
                n: nat,
                verdicts: Seq<bool>,
            |
                {
                    &&& n <= frames@.len()
                    &&& verdicts.len() == n
                    &&& forall|i: int|
                        0 <= i < n ==> crate::sync_state::judged(
                            old(state).auth(),
                            frames@[i],
                            #[trigger] verdicts[i],
                        )
                    &&& final(state)@ == #[trigger] old(state)@.received_all(
                        crate::replog::frame_models(frames@).take(n as int),
                        now,
                        verdicts,
                    )
                    &&& if n == frames@.len() {
                        action is Continue
                    } else {
                        &&& action is ClockExhausted
                        &&& !final(state)@.clock.can_observe(frames@[n as int]@.stamp.hlc, now)
                    }
                },
            SessionEvent::ReadFailed(failure) => {
                &&& final(state)@ == old(state)@
                &&& if failure is UnexpectedEof {
                    action is Finish
                } else {
                    action is Fail
                }
            },
            SessionEvent::Local(frame) => {
                &&& action matches SessionAction::Send(message)
                &&& message matches SyncMessage::Delta(frames)
                &&& frames@ == seq![frame]
                &&& final(state)@ == old(state)@
            },
            SessionEvent::OutboundClosed => action is Finish && final(state)@ == old(state)@,
        },
{
    match event {
        SessionEvent::Tick => SessionAction::Send(hello(state)),
        SessionEvent::Inbound(SyncMessage::Hello { from, cursors }) => {
            let catch_up = state.delta_since(&cursors);
            state.note_peer_cursors(from, cursors);
            SessionAction::Send(SyncMessage::Delta(catch_up))
        },
        SessionEvent::Inbound(SyncMessage::Delta(frames)) => {
            let total = frames.len();
            let applied = state.receive_all(frames, now);
            if applied == total {
                SessionAction::Continue
            } else {
                SessionAction::ClockExhausted
            }
        },
        SessionEvent::ReadFailed(failure) => {
            if is_eof(&failure) {
                SessionAction::Finish
            } else {
                SessionAction::Fail
            }
        },
        SessionEvent::Local(frame) => {
            let mut frames: Vec<WriteFrame> = Vec::new();
            frames.push(frame);
            assert(frames@ =~= seq![frame]);
            SessionAction::Send(SyncMessage::Delta(frames))
        },
        SessionEvent::OutboundClosed => SessionAction::Finish,
    }
}

/// One pull: a peer that applies, in order and accepting each, the answer to
/// its own greeting has then caught up with the answering peer on every origin
/// whose missing frames that peer still held.
pub proof fn one_pull_catches_up(
    server: crate::sync_state::SyncModel,
    client: crate::sync_state::SyncModel,
    hello: SyncMessage,
    answer: SyncMessage,
    wall_ms: u64,
    verdicts: Seq<bool>,
)
    requires
        crate::replog::log_ok(server.log),
        crate::replog::log_ok(client.log),
        greets(hello, client),
        catches_up(answer, server, hello->cursors@),
        forall|o: PeerId|
            crate::replog::base_in(server.log, o) <= #[trigger] crate::replog::cursor(
                client.log,
                o,
            ),
        verdicts.len() == answer->Delta_0@.len(),
        forall|i: int| 0 <= i < verdicts.len() ==> verdicts[i],
    ensures
        forall|o: PeerId| #[trigger]
            crate::replog::cursor(
                client.received_all(
                    crate::replog::frame_models(answer->Delta_0@),
                    wall_ms,
                    verdicts,
                ).log,
                o,
            ) == (if crate::replog::cursor(client.log, o) < crate::replog::cursor(
                server.log,
                o,
            ) {
                crate::replog::cursor(server.log, o)
            } else {
                crate::replog::cursor(client.log, o)
            }),
{
    let delta = crate::replog::frame_models(answer->Delta_0@);
    let cursors = hello->cursors@;
    assert forall|o: PeerId| crate::replog::reported(cursors, o) == #[trigger] crate::replog::cursor(
        client.log,
        o,
    ) by {
        assert(cursors.contains_key(o) == client.log.contains_key(o));
    }
    crate::replog::delta_catches_up(server.log, client.log, cursors, delta);
    lemma_log_after_receiving(client, delta, wall_ms, verdicts);
}

proof fn lemma_log_after_receiving(
    model: crate::sync_state::SyncModel,
    frames: Seq<crate::wire::FrameModel>,
    wall_ms: u64,
    verdicts: Seq<bool>,
)
    requires
        verdicts.len() >= frames.len(),
        forall|i: int| 0 <= i < verdicts.len() ==> verdicts[i],
    ensures
        model.received_all(frames, wall_ms, verdicts).log == crate::replog::recorded_all(
            model.log,
            frames,
        ),
    decreases frames.len(),
{
    if frames.len() > 0 {
        lemma_log_after_receiving(model, frames.drop_last(), wall_ms, verdicts);
        assert(verdicts[frames.len() - 1]);
    }
}

/// What a session sends: its own greeting at each tick, and each local write as it is,
/// alone.
pub proof fn sessions_greet_and_push(
    ticking: &mut SyncState<crate::membership::Identity>,
    now: u64,
    greeting: SessionAction,
    pushing: &mut SyncState<crate::membership::Identity>,
    frame: WriteFrame,
    push: SessionAction,
    origin: PeerId,
)
    requires
        old(ticking).wf(),
        call_ensures(
            step::<crate::membership::Identity>,
            (ticking, SessionEvent::Tick, now),
            greeting,
        ),
        call_ensures(
            step::<crate::membership::Identity>,
            (pushing, SessionEvent::Local(frame), now),
            push,
        ),
    ensures
        greeting matches SessionAction::Send(SyncMessage::Hello { from, cursors }) && from == old(ticking)@.self_id && (if old(ticking)@.log.contains_key(origin) {
            cursors@.contains_key(origin) && cursors@[origin] == crate::replog::cursor(
                old(ticking)@.log,
                origin,
            )
        } else {
            !cursors@.contains_key(origin)
        }),
        push matches SessionAction::Send(SyncMessage::Delta(frames)) && frames@.len() == 1
            && frames@[0] == frame,
        final(ticking)@ == old(ticking)@,
        final(pushing)@ == old(pushing)@,
{
}

/// One exchange: a peer greets, the other answers with what is missing and remembers
/// how far the greeting peer has come, and after the answer the greeting peer has come
/// as far as the other with every origin whose missing frames the other still held.
pub proof fn one_exchange_catches_up(
    client: &SyncState<crate::membership::Identity>,
    from: PeerId,
    cursors: Cursors,
    answering: &mut SyncState<crate::membership::Identity>,
    frames: Vec<WriteFrame>,
    taking: &mut SyncState<crate::membership::Identity>,
    now: u64,
    action: SessionAction,
    origin: PeerId,
)
    requires
        client.wf(),
        client.auth() is None,
        old(answering).wf(),
        call_ensures(
            hello::<crate::membership::Identity>,
            (client,),
            SyncMessage::Hello { from, cursors },
        ),
        call_ensures(
            step::<crate::membership::Identity>,
            (
                answering,
                SessionEvent::Inbound(SyncMessage::Hello { from, cursors }),
                now,
            ),
            SessionAction::Send(SyncMessage::Delta(frames)),
        ),
        *old(taking) == *client,
        call_ensures(
            step::<crate::membership::Identity>,
            (taking, SessionEvent::Inbound(SyncMessage::Delta(frames)), now),
            action,
        ),
        action is Continue,
        forall|o: PeerId|
            crate::replog::base_in(old(answering)@.log, o) <= #[trigger] crate::replog::cursor(
                client@.log,
                o,
            ),
    ensures
        from == client@.self_id,
        final(answering)@.peer_cursors.contains_key(from),
        final(answering)@.peer_cursors[from] == cursors@,
        crate::replog::cursor(final(taking)@.log, origin) >= crate::replog::cursor(
            old(answering)@.log,
            origin,
        ),
        crate::replog::cursor(final(taking)@.log, origin) >= crate::replog::cursor(
            client@.log,
            origin,
        ),
        crate::replog::cursor(final(taking)@.log, origin) == crate::replog::cursor(
            old(answering)@.log,
            origin,
        ) || crate::replog::cursor(final(taking)@.log, origin) == crate::replog::cursor(
            client@.log,
            origin,
        ),
{
    let models = crate::replog::frame_models(frames@);
    let (n, verdicts) = choose|n: nat, verdicts: Seq<bool>|
        {
            &&& n <= frames@.len()
            &&& verdicts.len() == n
            &&& forall|i: int|
                0 <= i < n ==> crate::sync_state::judged(
                    old(taking).auth(),
                    frames@[i],
                    #[trigger] verdicts[i],
                )
            &&& final(taking)@ == #[trigger] old(taking)@.received_all(
                models.take(n as int),
                now,
                verdicts,
            )
            &&& if n == frames@.len() {
                action is Continue
            } else {
                &&& action is ClockExhausted
                &&& !final(taking)@.clock.can_observe(frames@[n as int]@.stamp.hlc, now)
            }
        };
    assert(n == frames@.len());
    assert(models.take(n as int) == models);
    one_pull_catches_up(
        old(answering)@,
        client@,
        SyncMessage::Hello { from, cursors },
        SyncMessage::Delta(frames),
        now,
        verdicts,
    );
}

/// When a session ends: in good order at the end of the stream or of the local writes,
/// with an error at any other failure to read.
pub proof fn sessions_end_in_good_order(
    reading: &mut SyncState<crate::membership::Identity>,
    failure: ReadFailure,
    now: u64,
    action: SessionAction,
    closing: &mut SyncState<crate::membership::Identity>,
    closed: SessionAction,
    eof: bool,
)
    requires
        call_ensures(
            step::<crate::membership::Identity>,
            (reading, SessionEvent::ReadFailed(failure), now),
            action,
        ),
        call_ensures(
            step::<crate::membership::Identity>,
            (closing, SessionEvent::OutboundClosed, now),
            closed,
        ),
        call_ensures(is_eof, (&failure,), eof),
    ensures
        eof <==> failure is UnexpectedEof,
        eof ==> action is Finish,
        !eof ==> action is Fail,
        closed is Finish,
        final(reading)@ == old(reading)@,
        final(closing)@ == old(closing)@,
{
}

/// The wall clock in milliseconds, as far as it can be told.
pub proof fn milliseconds_are_told_as_far_as_they_go(since_epoch: Option<u128>, millis: u64)
    requires
        call_ensures(now_millis, (since_epoch,), millis),
    ensures
        since_epoch is None ==> millis == 0,
        since_epoch matches Some(ms) ==> millis <= ms && (ms <= u64::MAX ==> millis == ms) && (ms
            > u64::MAX ==> millis == u64::MAX),
{
}

} // verus!
