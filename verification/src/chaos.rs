//! A randomized workload that churns partitions and membership.
use vstd::prelude::*;
use crate::text::put_decimal;

verus! {

/// A seeded random number generator.
#[verifier::external_type_specification]
#[verifier::external_body]
pub struct ExStdRng(rand::rngs::StdRng);

/// The generator is one that `rand::SeedableRng::seed_from_u64` makes of the
/// seed.
pub uninterp spec fn made_from(rng: rand::rngs::StdRng, seed: u64) -> bool;

/// `rand::RngExt::random_range` over `low..high` of `usize` gives `drawn` on the
/// generator `before` and leaves it as `after`.
pub uninterp spec fn index_drawn(
    before: rand::rngs::StdRng,
    low: usize,
    high: usize,
    drawn: usize,
    after: rand::rngs::StdRng,
) -> bool;

/// `rand::RngExt::random_range` over `0..high` of `u8` gives `drawn` on the
/// generator `before` and leaves it as `after`.
pub uninterp spec fn byte_drawn(
    before: rand::rngs::StdRng,
    high: u8,
    drawn: u8,
    after: rand::rngs::StdRng,
) -> bool;

/// `rand::RngExt::random` for `u16` gives `drawn` on the generator `before` and
/// leaves it as `after`.
pub uninterp spec fn number_drawn(
    before: rand::rngs::StdRng,
    drawn: u16,
    after: rand::rngs::StdRng,
) -> bool;

/// `rand::RngExt::random` for `bool` gives `drawn` on the generator `before` and
/// leaves it as `after`.
pub uninterp spec fn flag_drawn(
    before: rand::rngs::StdRng,
    drawn: bool,
    after: rand::rngs::StdRng,
) -> bool;

/// `rand::SeedableRng::seed_from_u64` for `rand::rngs::StdRng`. Which numbers
/// follow from a seed may differ between platforms and is left unsaid.
#[verifier::external_body]
fn seeded(seed: u64) -> (rng: rand::rngs::StdRng)
    ensures
        made_from(rng, seed),
{
    rand::SeedableRng::seed_from_u64(seed)
}

/// `rand::RngExt::random_range` over `usize`: a number in a range that is not
/// empty.
#[verifier::external_body]
fn draw_between(rng: &mut rand::rngs::StdRng, low: usize, high: usize) -> (drawn: usize)
    requires
        low < high,
    ensures
        low <= drawn < high,
        index_drawn(*old(rng), low, high, drawn, *final(rng)),
{
    rand::RngExt::random_range(rng, low..high)
}

/// `rand::RngExt::random_range` over `u8`: a number below a bound that is not
/// zero.
#[verifier::external_body]
fn draw_below(rng: &mut rand::rngs::StdRng, high: u8) -> (drawn: u8)
    requires
        high > 0,
    ensures
        drawn < high,
        byte_drawn(*old(rng), high, drawn, *final(rng)),
{
    rand::RngExt::random_range(rng, 0..high)
}

/// `rand::RngExt::random` for `u16`: any number.
#[verifier::external_body]
fn draw_number(rng: &mut rand::rngs::StdRng) -> (drawn: u16)
    ensures
        number_drawn(*old(rng), drawn, *final(rng)),
{
    rand::RngExt::random(rng)
}

/// `rand::RngExt::random` for `bool`: either value.
#[verifier::external_body]
fn draw_bool(rng: &mut rand::rngs::StdRng) -> (drawn: bool)
    ensures
        flag_drawn(*old(rng), drawn, *final(rng)),
{
    rand::RngExt::random(rng)
}

/// Knobs for a chaos run.
#[derive(Debug, Clone, Copy, PartialEq, Eq, Structural)]
pub struct Chaos {
    pub peers: usize,
    pub rounds: usize,
    pub id_pool: usize,
    pub seed: u64,
    /// The time between two pulls of a session, in milliseconds.
    pub pull_ms: u64,
}

impl Default for Chaos {
    fn default() -> (cfg: Self)
        ensures
            cfg == (Chaos { peers: 4, rounds: 240, id_pool: 6, seed: 0, pull_ms: 15 }),
    {
        Chaos { peers: 4, rounds: 240, id_pool: 6, seed: 0, pull_ms: 15 }
    }
}

/// What a chaos run did, for reporting.
#[derive(Debug, Clone, Copy, PartialEq, Eq, Structural)]
pub struct ChaosReport {
    pub adds: u64,
    pub renames: u64,
    pub toggles: u64,
    pub removes: u64,
    pub partitions: u64,
    pub heals: u64,
    pub revokes: u64,
    pub converged: bool,
    pub final_tasks: usize,
}

impl ChaosReport {
    /// Nothing was done yet.
    pub open spec fn blank() -> ChaosReport {
        ChaosReport {
            adds: 0,
            renames: 0,
            toggles: 0,
            removes: 0,
            partitions: 0,
            heals: 0,
            revokes: 0,
            converged: false,
            final_tasks: 0,
        }
    }

    /// How many task operations were done.
    pub open spec fn operations(self) -> int {
        self.adds + self.renames + self.toggles + self.removes
    }
}

impl Default for ChaosReport {
    fn default() -> (report: Self)
        ensures
            report == ChaosReport::blank(),
    {
        ChaosReport {
            adds: 0,
            renames: 0,
            toggles: 0,
            removes: 0,
            partitions: 0,
            heals: 0,
            revokes: 0,
            converged: false,
            final_tasks: 0,
        }
    }
}

/// What a peer does to a task.
#[derive(Debug)]
pub enum TaskChange {
    Add(String),
    Rename(String),
    SetDone(bool),
    Remove,
}

/// What happens to a link.
#[derive(Debug, Clone, Copy, PartialEq, Eq, Structural)]
pub enum LinkChange {
    Partition(usize, usize),
    Connect(usize, usize),
}

/// One round of a chaos run.
#[derive(Debug)]
pub struct Round {
    /// The peer that acts.
    pub peer: usize,
    /// The task it acts on.
    pub task: String,
    pub change: TaskChange,
    pub link: Option<LinkChange>,
    /// The peer that is revoked, if one is.
    pub revoked: Option<usize>,
}

/// The numbers that decide a round.
#[derive(Debug, Clone, Copy)]
pub struct Draws {
    pub peer: usize,
    pub task: usize,
    /// Which of the four kinds of task operations.
    pub operation: u8,
    /// The number in a new title.
    pub title: u16,
    /// The new state of a task.
    pub done: bool,
    /// The two ends of the link that changes, and whether it is cut.
    pub link: Option<(usize, usize, bool)>,
    pub revoked: Option<usize>,
}

impl Draws {
    /// The numbers are such as are drawn for a run.
    pub open spec fn fit(self, cfg: Chaos) -> bool {
        &&& self.peer < cfg.peers
        &&& self.task < cfg.id_pool
        &&& self.operation < 4
        &&& self.link matches Some((a, b, _)) ==> a < cfg.peers && b < cfg.peers && a != b
        &&& self.revoked matches Some(i) ==> 1 <= i && i < cfg.peers
    }
}

/// The title or the state of a task is drawn if the operation has use for it.
pub open spec fn detail_drawn(
    before: rand::rngs::StdRng,
    draws: Draws,
    after: rand::rngs::StdRng,
) -> bool {
    if draws.operation == 0 || draws.operation == 1 {
        number_drawn(before, draws.title, after) && !draws.done
    } else if draws.operation == 2 {
        flag_drawn(before, draws.done, after) && draws.title == 0
    } else {
        after == before && draws.title == 0 && !draws.done
    }
}

/// The ends of a link are drawn and, if they differ, whether it is cut.
pub open spec fn ends_drawn(
    peers: usize,
    before: rand::rngs::StdRng,
    link: Option<(usize, usize, bool)>,
    after: rand::rngs::StdRng,
) -> bool {
    exists|a: usize, one: rand::rngs::StdRng, b: usize, two: rand::rngs::StdRng|
        {
            &&& #[trigger] index_drawn(before, 0, peers, a, one)
            &&& #[trigger] index_drawn(one, 0, peers, b, two)
            &&& match link {
                Some((x, y, cut)) => a != b && x == a && y == b && flag_drawn(two, cut, after),
                None => a == b && after == two,
            }
        }
}

/// One time in six, as a die says, a link is drawn.
pub open spec fn link_drawn(
    peers: usize,
    before: rand::rngs::StdRng,
    link: Option<(usize, usize, bool)>,
    after: rand::rngs::StdRng,
) -> bool {
    exists|die: u8, rolled: rand::rngs::StdRng|
        {
            &&& #[trigger] byte_drawn(before, 6, die, rolled)
            &&& if die == 0 {
                ends_drawn(peers, rolled, link, after)
            } else {
                link is None && after == rolled
            }
        }
}

/// One time in forty, as a die says, a peer other than the owner is drawn, if
/// there is one.
pub open spec fn revoked_drawn(
    peers: usize,
    before: rand::rngs::StdRng,
    revoked: Option<usize>,
    after: rand::rngs::StdRng,
) -> bool {
    if peers > 1 {
        exists|die: u8, rolled: rand::rngs::StdRng|
            {
                &&& #[trigger] byte_drawn(before, 40, die, rolled)
                &&& match revoked {
                    Some(i) => die == 0 && index_drawn(rolled, 1, peers, i, after),
                    None => die != 0 && after == rolled,
                }
            }
    } else {
        revoked is None && after == before
    }
}

/// The numbers of a round are what the generator gives, one after another: the
/// peer, the task, the operation, its detail, the link and the revocation.
pub open spec fn drawn(
    cfg: Chaos,
    before: rand::rngs::StdRng,
    draws: Draws,
    after: rand::rngs::StdRng,
) -> bool {
    exists|
        one: rand::rngs::StdRng,
        two: rand::rngs::StdRng,
        three: rand::rngs::StdRng,
        four: rand::rngs::StdRng,
        five: rand::rngs::StdRng,
    |
        {
            &&& #[trigger] index_drawn(before, 0, cfg.peers, draws.peer, one)
            &&& #[trigger] index_drawn(one, 0, cfg.id_pool, draws.task, two)
            &&& #[trigger] byte_drawn(two, 4, draws.operation, three)
            &&& #[trigger] detail_drawn(three, draws, four)
            &&& #[trigger] link_drawn(cfg.peers, four, draws.link, five)
            &&& revoked_drawn(cfg.peers, five, draws.revoked, after)
        }
}

/// The id of a task in the pool.
pub open spec fn task_id(i: nat) -> Seq<char> {
    "t"@ + crate::text::decimal(i)
}

/// The round is what the numbers say.
pub open spec fn decided(draws: Draws, round: Round) -> bool {
    &&& round.peer == draws.peer
    &&& round.task@ == task_id(draws.task as nat)
    &&& match round.change {
        TaskChange::Add(title) => draws.operation == 0 && title@ == "t-"@ + crate::text::decimal(
            draws.title as nat,
        ),
        TaskChange::Rename(title) => draws.operation == 1 && title@ == "r-"@
            + crate::text::decimal(draws.title as nat),
        TaskChange::SetDone(done) => draws.operation == 2 && done == draws.done,
        TaskChange::Remove => draws.operation > 2,
    }
    &&& round.link == (match draws.link {
        Some((a, b, true)) => Some(LinkChange::Partition(a, b)),
        Some((a, b, false)) => Some(LinkChange::Connect(a, b)),
        None => None,
    })
    &&& round.revoked == draws.revoked
}

/// The report after one more round.
pub open spec fn counted(report: ChaosReport, round: Round) -> ChaosReport {
    ChaosReport {
        adds: (report.adds + if round.change is Add {
            1int
        } else {
            0
        }) as u64,
        renames: (report.renames + if round.change is Rename {
            1int
        } else {
            0
        }) as u64,
        toggles: (report.toggles + if round.change is SetDone {
            1int
        } else {
            0
        }) as u64,
        removes: (report.removes + if round.change is Remove {
            1int
        } else {
            0
        }) as u64,
        partitions: (report.partitions + match round.link {
            Some(LinkChange::Partition(_, _)) => 1int,
            _ => 0,
        }) as u64,
        heals: (report.heals + match round.link {
            Some(LinkChange::Connect(_, _)) => 1int,
            _ => 0,
        }) as u64,
        revokes: (report.revokes + if round.revoked is Some {
            1int
        } else {
            0
        }) as u64,
        ..report
    }
}

/// A generator made of the seed gives, after `rounds` rounds, `rng`, and the
/// rounds so decided are counted in `report`.
pub open spec fn ran(
    cfg: Chaos,
    rounds: nat,
    rng: rand::rngs::StdRng,
    report: ChaosReport,
) -> bool
    decreases rounds,
{
    if rounds == 0 {
        made_from(rng, cfg.seed) && report == ChaosReport::blank()
    } else {
        exists|before: rand::rngs::StdRng, earlier: ChaosReport, draws: Draws, round: Round|
            {
                &&& ran(cfg, (rounds - 1) as nat, before, earlier)
                &&& #[trigger] drawn(cfg, before, draws, rng)
                &&& #[trigger] decided(draws, round)
                &&& report == #[trigger] counted(earlier, round)
            }
    }
}

fn numbered(head: &str, n: u64) -> (text: String)
    ensures
        text@ == head@ + crate::text::decimal(n as nat),
{
    let mut out = head.to_string();
    put_decimal(&mut out, n);
    out
}

/// The round that the drawn numbers decide.
pub fn plan_round(draws: Draws) -> (round: Round)
    ensures
        decided(draws, round),
{
    let change = match draws.operation {
        0 => TaskChange::Add(numbered("t-", draws.title as u64)),
        1 => TaskChange::Rename(numbered("r-", draws.title as u64)),
        2 => TaskChange::SetDone(draws.done),
        _ => TaskChange::Remove,
    };
    let link = match draws.link {
        Some((a, b, cut)) => Some(
            if cut {
                LinkChange::Partition(a, b)
            } else {
                LinkChange::Connect(a, b)
            },
        ),
        None => None,
    };
    Round {
        peer: draws.peer,
        task: numbered("t", draws.task as u64),
        change,
        link,
        revoked: draws.revoked,
    }
}

/// A chaos run: it decides the rounds and keeps the report.
pub struct ChaosRun {
    cfg: Chaos,
    rng: rand::rngs::StdRng,
    done: usize,
    report: ChaosReport,
}

impl ChaosRun {
    /// The knobs of the run.
    pub closed spec fn knobs(&self) -> Chaos {
        self.cfg
    }

    /// How many rounds were decided.
    pub closed spec fn rounds_done(&self) -> nat {
        self.done as nat
    }

    /// The report so far.
    pub closed spec fn reported(&self) -> ChaosReport {
        self.report
    }

    /// Where the numbers come from.
    pub closed spec fn generator(&self) -> rand::rngs::StdRng {
        self.rng
    }

    /// The run has done what the numbers from its seed say: no more rounds than
    /// asked for, and in each exactly one task operation and at most one change
    /// of links and of membership. Without a peer besides the owner none is
    /// revoked.
    pub open spec fn wf(&self) -> bool {
        &&& self.knobs().rounds > 0 ==> self.knobs().peers > 0 && self.knobs().id_pool > 0
        &&& ran(self.knobs(), self.rounds_done(), self.generator(), self.reported())
        &&& self.rounds_done() <= self.knobs().rounds
        &&& self.reported().operations() == self.rounds_done()
        &&& self.reported().partitions + self.reported().heals <= self.rounds_done()
        &&& self.reported().revokes <= self.rounds_done()
        &&& self.knobs().peers <= 1 ==> self.reported().revokes == 0
    }

    /// A run with these knobs.
    pub fn new(cfg: Chaos) -> (run: Self)
        requires
            cfg.rounds > 0 ==> cfg.peers > 0 && cfg.id_pool > 0,
        ensures
            run.wf(),
            run.knobs() == cfg,
            run.rounds_done() == 0,
            run.reported() == ChaosReport::blank(),
            made_from(run.generator(), cfg.seed),
    {
        ChaosRun { cfg, rng: seeded(cfg.seed), done: 0, report: ChaosReport::default() }
    }

    /// Draws the link of a round, if one changes.
    fn draw_link(&mut self) -> (link: Option<(usize, usize, bool)>)
        requires
            old(self).knobs().peers > 0,
        ensures
            link_drawn(old(self).knobs().peers, old(self).generator(), link, final(self).generator()),
            link matches Some((a, b, _)) ==> a < old(self).knobs().peers && b
                < old(self).knobs().peers && a != b,
            final(self).knobs() == old(self).knobs(),
            final(self).rounds_done() == old(self).rounds_done(),
            final(self).reported() == old(self).reported(),
    {
        let peers = self.cfg.peers;
        let ghost start = self.rng;
        let die = draw_below(&mut self.rng, 6);
        let ghost rolled = self.rng;
        assert(byte_drawn(start, 6, die, rolled));
        if die != 0 {
            return None;
        }
        let a = draw_between(&mut self.rng, 0, peers);
        let ghost one = self.rng;
        let b = draw_between(&mut self.rng, 0, peers);
        let ghost two = self.rng;
        assert(index_drawn(rolled, 0, peers, a, one));
        assert(index_drawn(one, 0, peers, b, two));
        if a == b {
            assert(ends_drawn(peers, rolled, None, self.rng));
            return None;
        }
        let cut = draw_bool(&mut self.rng);
        assert(ends_drawn(peers, rolled, Some((a, b, cut)), self.rng));
        Some((a, b, cut))
    }

    /// Draws the peer that is revoked, if one is.
    fn draw_revoked(&mut self) -> (revoked: Option<usize>)
        ensures
            revoked_drawn(
                old(self).knobs().peers,
                old(self).generator(),
                revoked,
                final(self).generator(),
            ),
            revoked matches Some(i) ==> 1 <= i && i < old(self).knobs().peers,
            final(self).knobs() == old(self).knobs(),
            final(self).rounds_done() == old(self).rounds_done(),
            final(self).reported() == old(self).reported(),
    {
        let peers = self.cfg.peers;
        if peers <= 1 {
            return None;
        }
        let ghost start = self.rng;
        let die = draw_below(&mut self.rng, 40);
        let ghost rolled = self.rng;
        assert(byte_drawn(start, 40, die, rolled));
        if die == 0 {
            Some(draw_between(&mut self.rng, 1, peers))
        } else {
            None
        }
    }

    /// Draws the numbers of a round.
    fn draw(&mut self) -> (draws: Draws)
        requires
            old(self).knobs().peers > 0,
            old(self).knobs().id_pool > 0,
        ensures
            drawn(old(self).knobs(), old(self).generator(), draws, final(self).generator()),
            draws.fit(old(self).knobs()),
            final(self).knobs() == old(self).knobs(),
            final(self).rounds_done() == old(self).rounds_done(),
            final(self).reported() == old(self).reported(),
    {
        let cfg = self.cfg;
        let ghost start = self.rng;
        let peer = draw_between(&mut self.rng, 0, cfg.peers);
        let ghost one = self.rng;
        let task = draw_between(&mut self.rng, 0, cfg.id_pool);
        let ghost two = self.rng;
        let operation = draw_below(&mut self.rng, 4);
        let ghost three = self.rng;
        let title: u16 = if operation == 0 || operation == 1 {
            draw_number(&mut self.rng)
        } else {
            0
        };
        let done = if operation == 2 {
            draw_bool(&mut self.rng)
        } else {
            false
        };
        let ghost four = self.rng;
        let link = self.draw_link();
        let ghost five = self.rng;
        let revoked = self.draw_revoked();
        let draws = Draws { peer, task, operation, title, done, link, revoked };
        proof {
            assert(index_drawn(start, 0, cfg.peers, draws.peer, one));
            assert(index_drawn(one, 0, cfg.id_pool, draws.task, two));
            assert(byte_drawn(two, 4, draws.operation, three));
            assert(detail_drawn(three, draws, four));
            assert(link_drawn(cfg.peers, four, draws.link, five));
        }
        draws
    }

    /// The next round, unless all were decided. Which one it is, chance decides.
    pub fn next_round(&mut self) -> (round: Option<Round>)
        requires
            old(self).wf(),
        ensures
            final(self).wf(),
            final(self).knobs() == old(self).knobs(),
            round is Some <==> old(self).rounds_done() < old(self).knobs().rounds,
            match round {
                Some(r) => {
                    &&& final(self).rounds_done() == old(self).rounds_done() + 1
                    &&& final(self).reported() == counted(old(self).reported(), r)
                    &&& exists|draws: Draws|
                        {
                            &&& #[trigger] drawn(
                                old(self).knobs(),
                                old(self).generator(),
                                draws,
                                final(self).generator(),
                            )
                            &&& draws.fit(old(self).knobs())
                            &&& decided(draws, r)
                        }
                },
                None => {
                    &&& final(self).generator() == old(self).generator()
                    &&& final(self).rounds_done() == old(self).rounds_done()
                    &&& final(self).reported() == old(self).reported()
                },
            },
    {
        if self.done >= self.cfg.rounds {
            return None;
        }
        let draws = self.draw();
        let round = plan_round(draws);
        match &round.change {
            TaskChange::Add(_) => {
                self.report.adds = self.report.adds + 1;
            },
            TaskChange::Rename(_) => {
                self.report.renames = self.report.renames + 1;
            },
            TaskChange::SetDone(_) => {
                self.report.toggles = self.report.toggles + 1;
            },
            TaskChange::Remove => {
                self.report.removes = self.report.removes + 1;
            },
        }
        match &round.link {
            Some(LinkChange::Partition(_, _)) => {
                self.report.partitions = self.report.partitions + 1;
            },
            Some(LinkChange::Connect(_, _)) => {
                self.report.heals = self.report.heals + 1;
            },
            None => {},
        }
        if round.revoked.is_some() {
            self.report.revokes = self.report.revokes + 1;
        }
        self.done = self.done + 1;
        proof {
            let cfg = old(self).knobs();
            assert(drawn(cfg, old(self).generator(), draws, self.generator()));
            assert(decided(draws, round));
            assert(self.reported() == counted(old(self).reported(), round));
            assert(ran(
                cfg,
                (self.rounds_done() - 1) as nat,
                old(self).generator(),
                old(self).reported(),
            ));
            assert(ran(cfg, self.rounds_done(), self.generator(), self.reported()));
        }
        Some(round)
    }

    /// The final report.
    pub fn finish(self, converged: bool, final_tasks: usize) -> (report: ChaosReport)
        ensures
            report == (ChaosReport { converged, final_tasks, ..self.reported() }),
    {
        ChaosReport { converged, final_tasks, ..self.report }
    }
}

/// Generators that are alike answer alike: a seed makes one generator, and a
/// draw gives one number and leaves one generator.
pub open spec fn generators_repeat() -> bool {
    &&& forall|a: rand::rngs::StdRng, b: rand::rngs::StdRng, seed: u64| #[trigger]
        made_from(a, seed) && #[trigger] made_from(b, seed) ==> a == b
    &&& forall|
        rng: rand::rngs::StdRng,
        low: usize,
        high: usize,
        x: usize,
        a: rand::rngs::StdRng,
        y: usize,
        b: rand::rngs::StdRng,
    | #[trigger]
        index_drawn(rng, low, high, x, a) && #[trigger] index_drawn(rng, low, high, y, b) ==> x == y
            && a == b
    &&& forall|
        rng: rand::rngs::StdRng,
        high: u8,
        x: u8,
        a: rand::rngs::StdRng,
        y: u8,
        b: rand::rngs::StdRng,
    | #[trigger]
        byte_drawn(rng, high, x, a) && #[trigger] byte_drawn(rng, high, y, b) ==> x == y && a == b
    &&& forall|
        rng: rand::rngs::StdRng,
        x: u16,
        a: rand::rngs::StdRng,
        y: u16,
        b: rand::rngs::StdRng,
    | #[trigger]
        number_drawn(rng, x, a) && #[trigger] number_drawn(rng, y, b) ==> x == y && a == b
    &&& forall|
        rng: rand::rngs::StdRng,
        x: bool,
        a: rand::rngs::StdRng,
        y: bool,
        b: rand::rngs::StdRng,
    | #[trigger]
        flag_drawn(rng, x, a) && #[trigger] flag_drawn(rng, y, b) ==> x == y && a == b
}

proof fn lemma_link_repeats(
    peers: usize,
    before: rand::rngs::StdRng,
    x: Option<(usize, usize, bool)>,
    a: rand::rngs::StdRng,
    y: Option<(usize, usize, bool)>,
    b: rand::rngs::StdRng,
)
    requires
        generators_repeat(),
        link_drawn(peers, before, x, a),
        link_drawn(peers, before, y, b),
    ensures
        x == y,
        a == b,
{
}

proof fn lemma_revoked_repeats(
    peers: usize,
    before: rand::rngs::StdRng,
    x: Option<usize>,
    a: rand::rngs::StdRng,
    y: Option<usize>,
    b: rand::rngs::StdRng,
)
    requires
        generators_repeat(),
        revoked_drawn(peers, before, x, a),
        revoked_drawn(peers, before, y, b),
    ensures
        x == y,
        a == b,
{
}

proof fn lemma_draws_repeat(
    cfg: Chaos,
    before: rand::rngs::StdRng,
    x: Draws,
    a: rand::rngs::StdRng,
    y: Draws,
    b: rand::rngs::StdRng,
)
    requires
        generators_repeat(),
        drawn(cfg, before, x, a),
        drawn(cfg, before, y, b),
    ensures
        x == y,
        a == b,
{
    let (x1, x2, x3, x4, x5) = choose|
        one: rand::rngs::StdRng,
        two: rand::rngs::StdRng,
        three: rand::rngs::StdRng,
        four: rand::rngs::StdRng,
        five: rand::rngs::StdRng,
    |
        {
            &&& #[trigger] index_drawn(before, 0, cfg.peers, x.peer, one)
            &&& #[trigger] index_drawn(one, 0, cfg.id_pool, x.task, two)
            &&& #[trigger] byte_drawn(two, 4, x.operation, three)
            &&& #[trigger] detail_drawn(three, x, four)
            &&& #[trigger] link_drawn(cfg.peers, four, x.link, five)
            &&& revoked_drawn(cfg.peers, five, x.revoked, a)
        };
    let (y1, y2, y3, y4, y5) = choose|
        one: rand::rngs::StdRng,
        two: rand::rngs::StdRng,
        three: rand::rngs::StdRng,
        four: rand::rngs::StdRng,
        five: rand::rngs::StdRng,
    |
        {
            &&& #[trigger] index_drawn(before, 0, cfg.peers, y.peer, one)
            &&& #[trigger] index_drawn(one, 0, cfg.id_pool, y.task, two)
            &&& #[trigger] byte_drawn(two, 4, y.operation, three)
            &&& #[trigger] detail_drawn(three, y, four)
            &&& #[trigger] link_drawn(cfg.peers, four, y.link, five)
            &&& revoked_drawn(cfg.peers, five, y.revoked, b)
        };
    assert(x1 == y1 && x2 == y2 && x3 == y3);
    assert(x4 == y4);
    lemma_link_repeats(cfg.peers, x4, x.link, x5, y.link, y5);
    lemma_revoked_repeats(cfg.peers, x5, x.revoked, a, y.revoked, b);
}

proof fn lemma_runs_repeat(
    cfg: Chaos,
    rounds: nat,
    a: rand::rngs::StdRng,
    x: ChaosReport,
    b: rand::rngs::StdRng,
    y: ChaosReport,
)
    requires
        generators_repeat(),
        ran(cfg, rounds, a, x),
        ran(cfg, rounds, b, y),
    ensures
        a == b,
        x == y,
    decreases rounds,
{
    if rounds > 0 {
        let (a0, x0, p, r) = choose|
            before: rand::rngs::StdRng,
            earlier: ChaosReport,
            draws: Draws,
            round: Round,
        |
            {
                &&& ran(cfg, (rounds - 1) as nat, before, earlier)
                &&& #[trigger] drawn(cfg, before, draws, a)
                &&& #[trigger] decided(draws, round)
                &&& x == #[trigger] counted(earlier, round)
            };
        let (b0, y0, q, s) = choose|
            before: rand::rngs::StdRng,
            earlier: ChaosReport,
            draws: Draws,
            round: Round,
        |
            {
                &&& ran(cfg, (rounds - 1) as nat, before, earlier)
                &&& #[trigger] drawn(cfg, before, draws, b)
                &&& #[trigger] decided(draws, round)
                &&& y == #[trigger] counted(earlier, round)
            };
        lemma_runs_repeat(cfg, (rounds - 1) as nat, a0, x0, b0, y0);
        lemma_draws_repeat(cfg, a0, p, a, q, b);
    }
}

/// The workload is deterministic as far as the generator is: where generators
/// answer alike, two runs with the same knobs have the same counts after as many
/// rounds, and draw the same numbers from there on.
pub proof fn equal_runs_repeat(a: ChaosRun, b: ChaosRun)
    requires
        generators_repeat(),
        a.wf(),
        b.wf(),
        a.knobs() == b.knobs(),
        a.rounds_done() == b.rounds_done(),
    ensures
        a.reported() == b.reported(),
        a.generator() == b.generator(),
{
    lemma_runs_repeat(
        a.knobs(),
        a.rounds_done(),
        a.generator(),
        a.reported(),
        b.generator(),
        b.reported(),
    );
}

/// A run that has decided all its rounds did one task operation in each, at most
/// one change of links and at most one revocation, and none with a single peer.
pub proof fn finished_runs_add_up(run: ChaosRun)
    requires
        run.wf(),
        run.rounds_done() == run.knobs().rounds,
    ensures
        run.reported().operations() == run.knobs().rounds,
        run.reported().partitions + run.reported().heals <= run.knobs().rounds,
        run.reported().revokes <= run.knobs().rounds,
        run.knobs().peers <= 1 ==> run.reported().revokes == 0,
{
}

/// What a round does follows from what was drawn: who acts, on which task, the kind of
/// change, the title or the state, the link and the revocation.
pub proof fn rounds_follow_the_draws(draws: Draws, round: Round)
    requires
        call_ensures(plan_round, (draws,), round),
    ensures
        round.peer == draws.peer,
        round.task@ == "t"@ + crate::text::decimal(draws.task as nat),
        draws.operation == 0 ==> (round.change matches TaskChange::Add(title) && title@ == "t-"@
            + crate::text::decimal(draws.title as nat)),
        draws.operation == 1 ==> (round.change matches TaskChange::Rename(title) && title@ == "r-"@
            + crate::text::decimal(draws.title as nat)),
        draws.operation == 2 ==> (round.change matches TaskChange::SetDone(done) && done
            == draws.done),
        draws.operation == 3 ==> round.change is Remove,
        draws.link is None <==> round.link is None,
        draws.link matches Some((a, b, true)) ==> (
        round.link matches Some(LinkChange::Partition(x, y)) && x == a && y == b),
        draws.link matches Some((a, b, false)) ==> (
        round.link matches Some(LinkChange::Connect(x, y)) && x == a && y == b),
        round.revoked == draws.revoked,
{
}

/// Each round is counted once, as what it was.
pub proof fn rounds_are_counted_as_what_they_were(
    run: &mut ChaosRun,
    round: Round,
    converged: bool,
    final_tasks: usize,
    before: ChaosReport,
    after: ChaosReport,
)
    requires
        old(run).wf(),
        call_ensures(ChaosRun::next_round, (run,), Some(round)),
        call_ensures(ChaosRun::finish, (*old(run), converged, final_tasks), before),
        call_ensures(ChaosRun::finish, (*final(run), converged, final_tasks), after),
        old(run).rounds_done() < u64::MAX,
    ensures
        after.adds == before.adds + (if round.change is Add {
            1int
        } else {
            0
        }),
        after.renames == before.renames + (if round.change is Rename {
            1int
        } else {
            0
        }),
        after.toggles == before.toggles + (if round.change is SetDone {
            1int
        } else {
            0
        }),
        after.removes == before.removes + (if round.change is Remove {
            1int
        } else {
            0
        }),
        after.partitions == before.partitions + (if round.link matches Some(
            LinkChange::Partition(_, _),
        ) {
            1int
        } else {
            0
        }),
        after.heals == before.heals + (if round.link matches Some(LinkChange::Connect(_, _)) {
            1int
        } else {
            0
        }),
        after.revokes == before.revokes + (if round.revoked is Some {
            1int
        } else {
            0
        }),
        after.converged == converged,
        after.final_tasks == final_tasks,
{
}

/// What may happen in a round: the peers and the task are among those that there are, a
/// link changes only after a six-sided die showed its first side, and a peer other than
/// the first is revoked only after a forty-sided one did.
pub proof fn rounds_stay_within_the_knobs(run: &mut ChaosRun, round: Round)
    requires
        old(run).wf(),
        call_ensures(ChaosRun::next_round, (run,), Some(round)),
    ensures
        ({
            let cfg = old(run).knobs();
            &&& round.peer < cfg.peers
            &&& exists|after: rand::rngs::StdRng|
                index_drawn(old(run).generator(), 0, cfg.peers, round.peer, after)
            &&& exists|i: usize|
                i < cfg.id_pool && round.task@ == "t"@ + #[trigger] crate::text::decimal(i as nat)
            &&& round.link matches Some(LinkChange::Partition(a, b)) ==> a < cfg.peers && b
                < cfg.peers && a != b
            &&& round.link matches Some(LinkChange::Connect(a, b)) ==> a < cfg.peers && b
                < cfg.peers && a != b
            &&& round.link is Some ==> exists|x: rand::rngs::StdRng, y: rand::rngs::StdRng|
                byte_drawn(x, 6, 0, y)
            &&& round.revoked matches Some(i) ==> 1 <= i < cfg.peers
            &&& round.revoked is Some ==> exists|x: rand::rngs::StdRng, y: rand::rngs::StdRng|
                byte_drawn(x, 40, 0, y)
            &&& round.revoked is None && cfg.peers > 1 ==> exists|
                die: u8,
                x: rand::rngs::StdRng,
                y: rand::rngs::StdRng,
            |
                die != 0 && #[trigger] byte_drawn(x, 40, die, y)
        }),
{
    let cfg = old(run).knobs();
    let draws = choose|draws: Draws|
        {
            &&& #[trigger] drawn(cfg, old(run).generator(), draws, final(run).generator())
            &&& draws.fit(cfg)
            &&& decided(draws, round)
        };
    let (one, two, three, four, five) = choose|
        one: rand::rngs::StdRng,
        two: rand::rngs::StdRng,
        three: rand::rngs::StdRng,
        four: rand::rngs::StdRng,
        five: rand::rngs::StdRng,
    |
        {
            &&& #[trigger] index_drawn(old(run).generator(), 0, cfg.peers, draws.peer, one)
            &&& #[trigger] index_drawn(one, 0, cfg.id_pool, draws.task, two)
            &&& #[trigger] byte_drawn(two, 4, draws.operation, three)
            &&& #[trigger] detail_drawn(three, draws, four)
            &&& #[trigger] link_drawn(cfg.peers, four, draws.link, five)
            &&& revoked_drawn(cfg.peers, five, draws.revoked, final(run).generator())
        };
    assert(crate::text::decimal(draws.task as nat) == crate::text::decimal(draws.task as nat));
    let (die, rolled) = choose|die: u8, rolled: rand::rngs::StdRng|
        {
            &&& #[trigger] byte_drawn(four, 6, die, rolled)
            &&& if die == 0 {
                ends_drawn(cfg.peers, rolled, draws.link, five)
            } else {
                draws.link is None && five == rolled
            }
        };
    if draws.link is Some {
        assert(byte_drawn(four, 6, 0, rolled));
    }
}

/// What a run does unless it is told otherwise.
pub proof fn runs_have_default_knobs(cfg: Chaos, report: ChaosReport)
    requires
        call_ensures(Chaos::default, (), cfg),
        call_ensures(ChaosReport::default, (), report),
    ensures
        cfg.peers == 4,
        cfg.rounds == 240,
        cfg.id_pool == 6,
        cfg.seed == 0,
        cfg.pull_ms == 15,
        report.adds == 0 && report.renames == 0 && report.toggles == 0 && report.removes == 0,
        report.partitions == 0 && report.heals == 0 && report.revokes == 0,
        !report.converged,
        report.final_tasks == 0,
{
}

/// The titles and states of a round are drawn: a new title ends in a number that was
/// drawn, and a new state is one that was.
pub proof fn titles_and_states_are_drawn(run: &mut ChaosRun, round: Round)
    requires
        old(run).wf(),
        call_ensures(ChaosRun::next_round, (run,), Some(round)),
    ensures
        round.change matches TaskChange::Add(title) ==> exists|
            n: u16,
            x: rand::rngs::StdRng,
            y: rand::rngs::StdRng,
        | #[trigger]
            number_drawn(x, n, y) && title@ == "t-"@ + crate::text::decimal(n as nat),
        round.change matches TaskChange::Rename(title) ==> exists|
            n: u16,
            x: rand::rngs::StdRng,
            y: rand::rngs::StdRng,
        | #[trigger]
            number_drawn(x, n, y) && title@ == "r-"@ + crate::text::decimal(n as nat),
        round.change matches TaskChange::SetDone(done) ==> exists|
            x: rand::rngs::StdRng,
            y: rand::rngs::StdRng,
        |
            flag_drawn(x, done, y),
{
    let cfg = old(run).knobs();
    let draws = choose|draws: Draws|
        {
            &&& #[trigger] drawn(cfg, old(run).generator(), draws, final(run).generator())
            &&& draws.fit(cfg)
            &&& decided(draws, round)
        };
    let (one, two, three, four, five) = choose|
        one: rand::rngs::StdRng,
        two: rand::rngs::StdRng,
        three: rand::rngs::StdRng,
        four: rand::rngs::StdRng,
        five: rand::rngs::StdRng,
    |
        {
            &&& #[trigger] index_drawn(old(run).generator(), 0, cfg.peers, draws.peer, one)
            &&& #[trigger] index_drawn(one, 0, cfg.id_pool, draws.task, two)
            &&& #[trigger] byte_drawn(two, 4, draws.operation, three)
            &&& #[trigger] detail_drawn(three, draws, four)
            &&& #[trigger] link_drawn(cfg.peers, four, draws.link, five)
            &&& revoked_drawn(cfg.peers, five, draws.revoked, final(run).generator())
        };
    if round.change is Add || round.change is Rename {
        assert(number_drawn(three, draws.title, four));
    } else if round.change is SetDone {
        assert(flag_drawn(three, draws.done, four));
    }
}

} // verus!
