//! Hybrid logical clocks and the stamps that order writes.
use core::cmp::Ordering;
use vstd::prelude::*;
use crate::bytes::bytes_less;
use crate::bytes::bytes_equal;

verus! {

pub const PEER_ID_LEN: usize = 32;

pub type PeerId = [u8; 32];

/// A hybrid clock reading: wall milliseconds, then a counter within them.
#[derive(Debug, Clone, Copy, PartialEq, Eq, Structural, Ord, Hash)]
pub struct Hlc {
    pub physical: u64,
    pub logical: u32,
}

impl Default for Hlc {
    fn default() -> (hlc: Self)
        ensures
            hlc == (Hlc { physical: 0, logical: 0 }),
    {
        Hlc { physical: 0, logical: 0 }
    }
}

impl PartialOrd for Hlc {
    fn partial_cmp(&self, other: &Self) -> (order: Option<Ordering>) {
        if self.physical < other.physical {
            Some(Ordering::Less)
        } else if self.physical > other.physical {
            Some(Ordering::Greater)
        } else if self.logical < other.logical {
            Some(Ordering::Less)
        } else if self.logical > other.logical {
            Some(Ordering::Greater)
        } else {
            Some(Ordering::Equal)
        }
    }
}

impl vstd::std_specs::cmp::PartialOrdSpecImpl for Hlc {
    open spec fn obeys_partial_cmp_spec() -> bool {
        true
    }

    open spec fn partial_cmp_spec(&self, other: &Self) -> Option<Ordering> {
        if self.before(*other) {
            Some(Ordering::Less)
        } else if other.before(*self) {
            Some(Ordering::Greater)
        } else {
            Some(Ordering::Equal)
        }
    }
}

impl Hlc {
    /// `self` is strictly earlier than `other`.
    pub open spec fn before(self, other: Hlc) -> bool {
        self.physical < other.physical || (self.physical == other.physical && self.logical
            < other.logical)
    }

    /// `self` is `other` or earlier.
    pub open spec fn not_after(self, other: Hlc) -> bool {
        self == other || self.before(other)
    }

    /// The counter has room for one more event at `wall_ms`.
    pub open spec fn can_tick(self, wall_ms: u64) -> bool {
        wall_ms <= self.physical ==> self.logical < u32::MAX
    }

    /// The reading after one local event at `wall_ms`.
    pub open spec fn ticked(self, wall_ms: u64) -> Hlc {
        if wall_ms <= self.physical {
            Hlc { physical: self.physical, logical: (self.logical + 1) as u32 }
        } else {
            Hlc { physical: wall_ms, logical: 0 }
        }
    }

    /// The later of two readings.
    pub open spec fn later(self, other: Hlc) -> Hlc {
        if self.before(other) {
            other
        } else {
            self
        }
    }

    /// The counter has room for receiving `remote` at `wall_ms`.
    pub open spec fn can_observe(self, remote: Hlc, wall_ms: u64) -> bool {
        self.later(remote).can_tick(wall_ms)
    }

    /// The reading after receiving `remote` at `wall_ms`: one event after the
    /// later of both clocks.
    pub open spec fn observed(self, remote: Hlc, wall_ms: u64) -> Hlc {
        self.later(remote).ticked(wall_ms)
    }

    #[must_use]
    pub fn new(physical: u64, logical: u32) -> (hlc: Self)
        ensures
            hlc == (Hlc { physical, logical }),
    {
        Self { physical, logical }
    }

    /// Whether [`Hlc::tick`] may be called.
    pub fn check_tick(&self, wall_ms: u64) -> (fits: bool)
        ensures
            fits == self.can_tick(wall_ms),
    {
        wall_ms > self.physical || self.logical < u32::MAX
    }

    /// Whether [`Hlc::observe`] may be called.
    pub fn check_observe(&self, remote: Hlc, wall_ms: u64) -> (fits: bool)
        ensures
            fits == self.can_observe(remote, wall_ms),
    {
        if *self < remote {
            remote.check_tick(wall_ms)
        } else {
            self.check_tick(wall_ms)
        }
    }

    /// Advances the clock for a local event.
    pub fn tick(&mut self, wall_ms: u64) -> (now: Self)
        requires
            old(self).can_tick(wall_ms),
        ensures
            *final(self) == old(self).ticked(wall_ms),
            now == *final(self),
    {
        let prev = *self;
        self.physical = if prev.physical < wall_ms {
            wall_ms
        } else {
            prev.physical
        };
        self.logical = if self.physical == prev.physical {
            prev.logical + 1
        } else {
            0
        };
        *self
    }

    /// Advances the clock past a stamp received from another peer.
    pub fn observe(&mut self, remote: Hlc, wall_ms: u64) -> (now: Self)
        requires
            old(self).can_observe(remote, wall_ms),
        ensures
            *final(self) == old(self).observed(remote, wall_ms),
            now == *final(self),
    {
        let prev = *self;
        let mut physical: u64 = prev.physical;
        if physical < remote.physical {
            physical = remote.physical;
        }
        if physical < wall_ms {
            physical = wall_ms;
        }
        self.physical = physical;
        self.logical = if physical == prev.physical && physical == remote.physical {
            (if prev.logical < remote.logical {
                remote.logical
            } else {
                prev.logical
            }) + 1
        } else if physical == prev.physical {
            prev.logical + 1
        } else if physical == remote.physical {
            remote.logical + 1
        } else {
            0
        };
        *self
    }
}

/// When and by whom a write was made.
#[derive(Debug, Clone, Copy, PartialEq, Eq, Ord, Hash)]
pub struct Stamp {
    pub hlc: Hlc,
    pub peer: PeerId,
}

impl PartialOrd for Stamp {
    fn partial_cmp(&self, other: &Self) -> (order: Option<Ordering>) {
        if self.hlc < other.hlc {
            Some(Ordering::Less)
        } else if other.hlc < self.hlc {
            Some(Ordering::Greater)
        } else if bytes_less(self.peer.as_slice(), other.peer.as_slice()) {
            Some(Ordering::Less)
        } else if bytes_less(other.peer.as_slice(), self.peer.as_slice()) {
            Some(Ordering::Greater)
        } else {
            Some(Ordering::Equal)
        }
    }
}

impl vstd::std_specs::cmp::PartialOrdSpecImpl for Stamp {
    open spec fn obeys_partial_cmp_spec() -> bool {
        true
    }

    open spec fn partial_cmp_spec(&self, other: &Self) -> Option<Ordering> {
        if self.before(*other) {
            Some(Ordering::Less)
        } else if other.before(*self) {
            Some(Ordering::Greater)
        } else {
            Some(Ordering::Equal)
        }
    }
}

impl Stamp {
    /// Stamps order by clock reading, ties by peer id.
    pub open spec fn before(self, other: Stamp) -> bool {
        self.hlc.before(other.hlc) || (self.hlc == other.hlc && crate::bytes::bytes_before(
            self.peer@,
            other.peer@,
        ))
    }

    #[must_use]
    pub fn new(hlc: Hlc, peer: PeerId) -> (stamp: Self)
        ensures
            stamp == (Stamp { hlc, peer }),
    {
        Self { hlc, peer }
    }
}

/// Whether two peer ids are the same.
pub fn same_peer(a: &PeerId, b: &PeerId) -> (same: bool)
    ensures
        same == (*a == *b),
{
    let same = bytes_equal(a.as_slice(), b.as_slice());
    assert(a@ == b@ ==> *a =~= *b);
    same
}

/// A local event reads strictly later than everything before it.
pub proof fn tick_moves_forward(clock: Hlc, wall_ms: u64)
    requires
        clock.can_tick(wall_ms),
    ensures
        clock.before(clock.ticked(wall_ms)),
        wall_ms <= clock.ticked(wall_ms).physical,
{
}

/// Receiving a stamp moves the clock strictly past both the stamp and itself.
pub proof fn observe_moves_past_both(clock: Hlc, remote: Hlc, wall_ms: u64)
    requires
        clock.can_observe(remote, wall_ms),
    ensures
        clock.before(clock.observed(remote, wall_ms)),
        remote.before(clock.observed(remote, wall_ms)),
        wall_ms <= clock.observed(remote, wall_ms).physical,
{
}

/// Stamps are strictly and totally ordered: exactly one of "earlier", "the
/// same" and "later" holds of two stamps.
pub proof fn stamps_totally_ordered(a: Stamp, b: Stamp)
    ensures
        a == b <==> !a.before(b) && !b.before(a),
        a.before(b) ==> !b.before(a),
{
    crate::bytes::lemma_before_total(a.peer@, b.peer@);
    crate::bytes::lemma_before_irreflexive(a.peer@);
    if a.peer@ == b.peer@ {
        assert(a.peer =~= b.peer);
    }
    if crate::bytes::bytes_before(a.peer@, b.peer@) && crate::bytes::bytes_before(b.peer@, a.peer@) {
        crate::bytes::lemma_before_transitive(a.peer@, b.peer@, a.peer@);
    }
}

/// Being earlier carries over: what is before an earlier stamp is before the
/// later one.
pub proof fn stamp_order_transitive(a: Stamp, b: Stamp, c: Stamp)
    requires
        a.before(b),
        b.before(c),
    ensures
        a.before(c),
{
    if a.hlc == b.hlc && b.hlc == c.hlc {
        crate::bytes::lemma_before_transitive(a.peer@, b.peer@, c.peer@);
    }
}

/// A reading orders by its physical part and then by its logical part: as the
/// number that both make up does.
pub proof fn readings_order_as_numbers(a: Hlc, b: Hlc)
    ensures
        a.before(b) <==> a.physical * 0x1_0000_0000 + a.logical < b.physical * 0x1_0000_0000
            + b.logical,
        a.not_after(b) <==> a.physical * 0x1_0000_0000 + a.logical <= b.physical * 0x1_0000_0000
            + b.logical,
        a == b <==> a.physical * 0x1_0000_0000 + a.logical == b.physical * 0x1_0000_0000
            + b.logical,
{
}

/// A local event reads the least time that is later than the clock and not behind
/// the wall. The clock has no room exactly if no later reading has the same
/// physical part, and the wall is not ahead.
pub proof fn ticking_reads_the_least_later_time(clock: Hlc, wall_ms: u64, other: Hlc)
    ensures
        clock.can_tick(wall_ms) ==> clock.before(clock.ticked(wall_ms)) && wall_ms
            <= clock.ticked(wall_ms).physical,
        clock.can_tick(wall_ms) && clock.before(other) && wall_ms <= other.physical
            ==> clock.ticked(wall_ms).not_after(other),
        clock.can_tick(wall_ms) ==> clock.ticked(wall_ms).physical == (if wall_ms
            > clock.physical {
            wall_ms
        } else {
            clock.physical
        }),
        !clock.can_tick(wall_ms) ==> wall_ms <= clock.physical && !(clock.before(other)
            && other.physical == clock.physical),
        wall_ms > clock.physical ==> clock.can_tick(wall_ms),
        clock.before(other) && other.physical == clock.physical ==> clock.can_tick(wall_ms),
{
}

/// Receiving a stamp is a local event of a clock that reads the later of both.
pub proof fn observing_starts_from_the_later(clock: Hlc, remote: Hlc, wall_ms: u64)
    ensures
        clock.before(remote) ==> clock.observed(remote, wall_ms) == remote.ticked(wall_ms)
            && clock.can_observe(remote, wall_ms) == remote.can_tick(wall_ms),
        !clock.before(remote) ==> clock.observed(remote, wall_ms) == clock.ticked(wall_ms)
            && clock.can_observe(remote, wall_ms) == clock.can_tick(wall_ms),
        clock.observed(remote, wall_ms) == remote.observed(clock, wall_ms),
{
}

/// Of two stamps the earlier reading comes first; at one reading the lesser peer
/// id comes first, so that the greater one wins.
pub proof fn peer_ids_break_ties(a: Stamp, b: Stamp)
    ensures
        a.hlc.before(b.hlc) ==> a.before(b) && !b.before(a),
        a.hlc == b.hlc ==> (a.before(b) <==> crate::bytes::bytes_before(a.peer@, b.peer@)),
{
    crate::bytes::lemma_before_irreflexive(a.peer@);
}

/// A clock moves forward: each reading is later than the one before and not earlier
/// than the wall clock, which it takes over where that is ahead.
pub proof fn clocks_move_forward(
    ticking: &mut Hlc,
    wall_ms: u64,
    now: Hlc,
    fits: bool,
    observing: &mut Hlc,
    remote: Hlc,
    seen: Hlc,
)
    requires
        call_ensures(Hlc::check_tick, (&*old(ticking), wall_ms), fits),
        fits,
        call_ensures(Hlc::tick, (ticking, wall_ms), now),
        old(observing).can_observe(remote, wall_ms),
        call_ensures(Hlc::observe, (observing, remote, wall_ms), seen),
    ensures
        *final(ticking) == now,
        old(ticking).before(now),
        now.physical >= wall_ms,
        wall_ms > old(ticking).physical ==> now.physical == wall_ms && now.logical == 0,
        wall_ms <= old(ticking).physical ==> now.physical == old(ticking).physical && now.logical
            == old(ticking).logical + 1,
        *final(observing) == seen,
        old(observing).before(seen),
        remote.before(seen),
        seen.physical >= wall_ms,
        wall_ms > old(observing).physical && wall_ms > remote.physical ==> seen.physical == wall_ms
            && seen.logical == 0,
        old(observing).physical >= wall_ms && old(observing).physical > remote.physical
            ==> seen.physical == old(observing).physical && seen.logical == old(observing).logical
            + 1,
        remote.physical >= wall_ms && remote.physical > old(observing).physical ==> seen.physical
            == remote.physical && seen.logical == remote.logical + 1,
{
    tick_moves_forward(*old(ticking), wall_ms);
    observe_moves_past_both(*old(observing), remote, wall_ms);
}

/// A clock has room unless its counter is used up at a time that the wall clock has not
/// passed.
pub proof fn clocks_run_out_only_of_counters(
    clock: &Hlc,
    wall_ms: u64,
    fits: bool,
    remote: Hlc,
    sees: bool,
)
    requires
        call_ensures(Hlc::check_tick, (clock, wall_ms), fits),
        call_ensures(Hlc::check_observe, (clock, remote, wall_ms), sees),
    ensures
        !fits <==> wall_ms <= clock.physical && clock.logical == 0xFFFF_FFFF,
        !sees ==> clock.logical == 0xFFFF_FFFF || remote.logical == 0xFFFF_FFFF,
        wall_ms > clock.physical && wall_ms > remote.physical ==> sees,
        !sees <==> {
            let latest = if clock.physical < remote.physical || clock.physical == remote.physical
                && clock.logical < remote.logical {
                remote
            } else {
                *clock
            };
            wall_ms <= latest.physical && latest.logical == 0xFFFF_FFFF
        },
{
}

} // verus!
