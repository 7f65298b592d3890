//! The scripted demo: peer identities, the commands that a peer takes and the
//! lines that it prints.
use vstd::prelude::*;
use crate::assoc::Assoc;
use crate::lww::Op;
use crate::sync_state::WriteOrigin;
use crate::text::{after_prefix, parse_number, same_text, split_once};

verus! {

/// The peer that owns the project.
pub const OWNER: &'static str = "A";

/// The peers of the demo, the owner first.
pub fn peer_names() -> (names: Vec<&'static str>)
    ensures
        names@.len() == 3,
        names@[0]@ == OWNER@,
        names@[1]@ == "B"@,
        names@[2]@ == "C"@,
{
    let mut names: Vec<&'static str> = Vec::new();
    names.push(OWNER);
    names.push("B");
    names.push("C");
    names
}

/// A name, cut or filled up with zeros to the length of a seed.
pub open spec fn name_seed(name: Seq<char>) -> Seq<u8> {
    let bytes = vstd::utf8::encode_utf8(name);
    Seq::new(
        32,
        |k: int|
            if k < bytes.len() {
                bytes[k]
            } else {
                0
            },
    )
}

/// The seed of a named peer.
pub fn seed_from_name(name: &str) -> (seed: [u8; 32])
    ensures
        seed@ == name_seed(name@),
{
    let mut seed = [0u8; 32];
    let bytes = name.as_bytes();
    let n: usize = if bytes.len() < 32 {
        bytes.len()
    } else {
        32
    };
    let mut i: usize = 0;
    while i < n
        invariant
            i <= n <= 32,
            n <= bytes@.len(),
            seed@.len() == 32,
            forall|k: int| 0 <= k < i ==> #[trigger] seed@[k] == bytes@[k],
            forall|k: int| i <= k < 32 ==> #[trigger] seed@[k] == 0,
        decreases n - i,
    {
        seed[i] = bytes[i];
        i = i + 1;
    }
    assert(seed@ =~= name_seed(name@));
    seed
}

/// Where a text first occurs in a list.
pub open spec fn first_at(args: Seq<String>, key: Seq<char>, i: int) -> bool {
    &&& 0 <= i < args.len()
    &&& args[i]@ == key
    &&& forall|j: int| 0 <= j < i ==> (#[trigger] args[j])@ != key
}

/// Something follows the first occurrence of the flag.
pub open spec fn has_value(args: Seq<String>, key: Seq<char>) -> bool {
    exists|i: int| #[trigger] first_at(args, key, i) && i + 1 < args.len()
}

/// The argument that follows the first occurrence of a flag.
pub fn flag<'a>(args: &'a Vec<String>, key: &str) -> (value: Option<&'a str>)
    ensures
        match value {
            Some(v) => exists|i: int| #[trigger]
                first_at(args@, key@, i) && i + 1 < args@.len() && v@ == args@[i + 1]@,
            None => forall|i: int| #[trigger]
                first_at(args@, key@, i) ==> i + 1 == args@.len(),
        },
        value is Some <==> has_value(args@, key@),
{
    let mut i: usize = 0;
    while i < args.len()
        invariant
            i <= args@.len(),
            forall|j: int| 0 <= j < i ==> (#[trigger] args@[j])@ != key@,
        decreases args@.len() - i,
    {
        if same_text(args[i].as_str(), key) {
            assert(first_at(args@, key@, i as int));
            if i + 1 < args.len() {
                return Some(args[i + 1].as_str());
            }
            return None;
        }
        i = i + 1;
    }
    None
}

/// The sign of an operation in the timeline.
pub open spec fn symbol(op: Op) -> Seq<char> {
    match op {
        Op::Insert => "+"@,
        Op::Update => "~"@,
        Op::Delete => "x"@,
    }
}

/// The sign of an operation in the timeline.
pub fn op_symbol(op: Op) -> (sign: &'static str)
    ensures
        sign@ == symbol(op),
{
    match op {
        Op::Insert => "+",
        Op::Update => "~",
        Op::Delete => "x",
    }
}

/// The line that reports a change of a task.
pub open spec fn event_text(
    name: Seq<char>,
    origin: WriteOrigin,
    op: Op,
    id: Seq<char>,
    detail: Seq<char>,
) -> Seq<char> {
    match origin {
        WriteOrigin::Local => "EVT "@ + name + "  "@ + symbol(op) + " "@ + id + "  "@ + detail,
        WriteOrigin::Remote => "EVT "@ + name + "  <- "@ + id + "  "@ + detail
            + "  (synced from peer)"@,
    }
}

/// The line that reports a change of a task.
pub fn event_line(name: &str, origin: WriteOrigin, op: Op, id: &str, detail: &str) -> (line: String)
    ensures
        line@ == event_text(name@, origin, op, id@, detail@),
{
    let mut line = "EVT ".to_string();
    line.append(name);
    match origin {
        WriteOrigin::Local => {
            line.append("  ");
            line.append(op_symbol(op));
            line.append(" ");
            line.append(id);
            line.append("  ");
            line.append(detail);
        },
        WriteOrigin::Remote => {
            line.append("  <- ");
            line.append(id);
            line.append("  ");
            line.append(detail);
            line.append("  (synced from peer)");
        },
    }
    line
}

/// A command to a peer.
#[derive(Debug)]
pub enum Command {
    Add { id: String, title: String },
    Rename { id: String, title: String },
    Done { id: String, done: bool },
    Remove { id: String },
    Offline,
    Online,
    Snapshot,
    Quit,
    /// Something else, which is ignored.
    Unknown,
}

/// The mathematical content of a [`Command`].
#[verifier::ext_equal]
pub enum CommandModel {
    Add(Seq<char>, Seq<char>),
    Rename(Seq<char>, Seq<char>),
    Done(Seq<char>, bool),
    Remove(Seq<char>),
    Offline,
    Online,
    Snapshot,
    Quit,
    Unknown,
}

impl View for Command {
    type V = CommandModel;

    open spec fn view(&self) -> CommandModel {
        match self {
            Command::Add { id, title } => CommandModel::Add(id@, title@),
            Command::Rename { id, title } => CommandModel::Rename(id@, title@),
            Command::Done { id, done } => CommandModel::Done(id@, *done),
            Command::Remove { id } => CommandModel::Remove(id@),
            Command::Offline => CommandModel::Offline,
            Command::Online => CommandModel::Online,
            Command::Snapshot => CommandModel::Snapshot,
            Command::Quit => CommandModel::Quit,
            Command::Unknown => CommandModel::Unknown,
        }
    }
}

/// What stands before the first space, and what after it: nothing if there is
/// none.
pub open spec fn first_word(line: Seq<char>) -> (Seq<char>, Seq<char>) {
    if line.contains(' ') {
        let i = line.index_of_first(' ')->0;
        (line.take(i), line.skip(i + 1))
    } else {
        (line, Seq::empty())
    }
}

proof fn lemma_first_word(line: Seq<char>, before: Seq<char>, after: Seq<char>)
    requires
        line == before + seq![' '] + after,
        !before.contains(' '),
    ensures
        first_word(line) == (before, after),
{
    let at = before.len() as int;
    assert(line[at] == ' ');
    assert(line.contains(' '));
    assert forall|j: int| 0 <= j < at implies line[j] != ' ' by {
        assert(line[j] == before[j]);
    }
    line.index_of_first_ensures(' ');
    assert(line.index_of_first(' ') == Some(at));
    assert(line.take(at) =~= before);
    assert(line.skip(at + 1) =~= after);
}

fn take_word<'a>(line: &'a str, nothing: &'a str) -> (words: (&'a str, &'a str))
    requires
        nothing@.len() == 0,
    ensures
        (words.0@, words.1@) == first_word(line@),
{
    match split_once(line, ' ') {
        Some((before, after)) => {
            proof {
                lemma_first_word(line@, before@, after@);
            }
            (before, after)
        },
        None => {
            assert(nothing@ =~= Seq::empty());
            (line, nothing)
        },
    }
}

/// The command that a line gives: a word, then an id, then the rest of the line.
pub open spec fn command_of(line: Seq<char>) -> CommandModel {
    let (word, tail) = first_word(line);
    let (id, rest) = first_word(tail);
    if word == "add"@ {
        CommandModel::Add(id, rest)
    } else if word == "rename"@ {
        CommandModel::Rename(id, rest)
    } else if word == "done"@ {
        CommandModel::Done(id, rest == "true"@)
    } else if word == "remove"@ {
        CommandModel::Remove(id)
    } else if word == "offline"@ {
        CommandModel::Offline
    } else if word == "online"@ {
        CommandModel::Online
    } else if word == "snapshot"@ {
        CommandModel::Snapshot
    } else if word == "quit"@ {
        CommandModel::Quit
    } else {
        CommandModel::Unknown
    }
}

/// Reads a command.
pub fn parse_command(line: &str) -> (command: Command)
    ensures
        command@ == command_of(line@),
{
    let empty = String::new();
    let (word, tail) = take_word(line, empty.as_str());
    let (id, rest) = take_word(tail, empty.as_str());
    if same_text(word, "add") {
        Command::Add { id: id.to_string(), title: rest.to_string() }
    } else if same_text(word, "rename") {
        Command::Rename { id: id.to_string(), title: rest.to_string() }
    } else if same_text(word, "done") {
        Command::Done { id: id.to_string(), done: same_text(rest, "true") }
    } else if same_text(word, "remove") {
        Command::Remove { id: id.to_string() }
    } else if same_text(word, "offline") {
        Command::Offline
    } else if same_text(word, "online") {
        Command::Online
    } else if same_text(word, "snapshot") {
        Command::Snapshot
    } else if same_text(word, "quit") {
        Command::Quit
    } else {
        Command::Unknown
    }
}

/// What a peer prints.
#[derive(Debug)]
pub enum Report {
    /// The named peer is up.
    Ready(String),
    /// The named peer's board.
    Snap(String, String),
    /// An event for the timeline.
    Event(String),
    /// Something else, which is ignored.
    Other,
}

/// The line says just what the report says.
pub open spec fn reports(line: Seq<char>, report: Report) -> bool {
    match report {
        Report::Ready(name) => line == "READY "@ + name@,
        Report::Snap(name, board) => line == "SNAP "@ + name@ + " "@ + board@ && !name@.contains(
            ' ',
        ),
        Report::Event(text) => line == "EVT "@ + text@,
        Report::Other => !"READY "@.is_prefix_of(line) && !"EVT "@.is_prefix_of(line) && (
        "SNAP "@.is_prefix_of(line) ==> !line.skip(5).contains(' ')),
    }
}

/// Reads a line that a peer printed.
pub fn parse_report(line: &str) -> (report: Report)
    ensures
        reports(line@, report),
{
    proof {
        reveal_strlit("READY ");
        reveal_strlit("SNAP ");
        reveal_strlit("EVT ");
        reveal_strlit(" ");
    }
    if let Some(rest) = after_prefix(line, "READY ") {
        return Report::Ready(rest.to_string());
    }
    if let Some(rest) = after_prefix(line, "SNAP ") {
        return match split_once(rest, ' ') {
            Some((name, board)) => {
                assert(" "@ =~= seq![' ']);
                assert(line@ =~= "SNAP "@ + name@ + " "@ + board@);
                Report::Snap(name.to_string(), board.to_string())
            },
            None => {
                assert(line@.skip(5) =~= rest@);
                assert(line@[0] == "SNAP "@[0]);
                assert(!"EVT "@.is_prefix_of(line@)) by {
                    if "EVT "@.is_prefix_of(line@) {
                        assert(line@.subrange(0, 4)[0] == "EVT "@[0]);
                    }
                }
                Report::Other
            },
        };
    }
    if let Some(rest) = after_prefix(line, "EVT ") {
        return Report::Event(rest.to_string());
    }
    Report::Other
}

/// The boards of the peers, as they come in.
#[derive(Debug)]
pub struct Snapshots {
    wanted: usize,
    boards: Assoc<String, String>,
}

impl Snapshots {
    /// How many boards are waited for.
    pub closed spec fn expected(&self) -> usize {
        self.wanted
    }

    /// The boards by peer.
    pub closed spec fn held(&self) -> Map<Seq<char>, String> {
        self.boards@
    }

    /// Waits for `wanted` boards.
    pub fn new(wanted: usize) -> (snapshots: Self)
        ensures
            snapshots.expected() == wanted,
            snapshots.held() == Map::<Seq<char>, String>::empty(),
    {
        Snapshots { wanted, boards: Assoc::new() }
    }

    /// Notes a board; a later board of the same peer replaces it.
    pub fn note(&mut self, name: String, board: String)
        ensures
            final(self).expected() == old(self).expected(),
            final(self).held() == old(self).held().insert(name@, board),
    {
        self.boards.insert(name, board);
    }

    /// Whether all boards are in.
    pub fn complete(&self) -> (done: bool)
        ensures
            done == (self.held().dom().len() >= self.expected()),
    {
        let count = self.boards.len();
        proof {
            crate::assoc::lemma_map_count(self.boards.listing());
        }
        count >= self.wanted
    }

    /// The board that all peers agree on, if they do.
    pub fn agreed(&self) -> (board: Option<String>)
        ensures
            match board {
                Some(text) => {
                    &&& exists|name: Seq<char>| #[trigger] self.held().contains_key(name)
                    &&& forall|name: Seq<char>| #[trigger]
                        self.held().contains_key(name) ==> self.held()[name]@ == text@
                },
                None => self.held() == Map::<Seq<char>, String>::empty() || exists|
                    a: Seq<char>,
                    b: Seq<char>,
                | #[trigger]
                    self.held().contains_key(a) && #[trigger] self.held().contains_key(b)
                        && self.held()[a]@ != self.held()[b]@,
            },
    {
        let count = self.boards.len();
        let ghost listing = self.boards.listing();
        proof {
            crate::assoc::lemma_map_of(listing);
        }
        if count == 0 {
            assert(self.held() =~= Map::<Seq<char>, String>::empty());
            return None;
        }
        let (first_name, first) = self.boards.at(0);
        assert(self.held().contains_key(first_name@));
        let mut i: usize = 1;
        while i < count
            invariant
                1 <= i <= count,
                count == listing.len(),
                listing == self.boards.listing(),
                *first == listing[0].1,
                self.held().contains_key(listing[0].0@),
                self.held()[listing[0].0@] == listing[0].1,
                forall|k: int|
                    0 <= k < listing.len() ==> self.held().contains_key(
                        (#[trigger] listing[k]).0@,
                    ) && self.held()[listing[k].0@] == listing[k].1,
                forall|k: int| 0 <= k < i ==> (#[trigger] listing[k]).1@ == first@,
            decreases count - i,
        {
            let (name, board) = self.boards.at(i);
            if !same_text(board.as_str(), first.as_str()) {
                assert(self.held().contains_key(listing[i as int].0@));
                assert(self.held()[listing[i as int].0@]@ != self.held()[listing[0].0@]@);
                return None;
            }
            i = i + 1;
        }
        assert forall|name: Seq<char>| #[trigger]
            self.held().contains_key(name) implies self.held()[name]@ == first@ by {
            let k = choose|k: int| 0 <= k < listing.len() && (#[trigger] listing[k]).0@ == name;
            assert(listing[k].1@ == first@);
        }
        Some(first.clone())
    }
}

/// One step of the demo's story.
#[derive(Debug)]
pub enum Step {
    /// A line for the timeline.
    Say(&'static str),
    /// A command to a peer.
    Send(&'static str, &'static str),
    /// A pause of so many milliseconds.
    Pause(u64),
    /// Poll until the peers converge, for so many milliseconds.
    AwaitConvergence(u64),
    /// All peers quit.
    Quit,
}

/// The mathematical content of a [`Step`].
#[verifier::ext_equal]
pub enum StepModel {
    Say(Seq<char>),
    Send(Seq<char>, Seq<char>),
    Pause(u64),
    AwaitConvergence(u64),
    Quit,
}

impl View for Step {
    type V = StepModel;

    open spec fn view(&self) -> StepModel {
        match self {
            Step::Say(line) => StepModel::Say(line@),
            Step::Send(peer, command) => StepModel::Send(peer@, command@),
            Step::Pause(ms) => StepModel::Pause(*ms),
            Step::AwaitConvergence(ms) => StepModel::AwaitConvergence(*ms),
            Step::Quit => StepModel::Quit,
        }
    }
}

/// The story: a write propagates; B drops offline and edits while C edits the
/// same task concurrently; B rejoins.
pub open spec fn story(i: nat) -> StepModel {
    if i == 0 {
        StepModel::Say("== peers up; discovering over broker, connecting via QUIC =="@)
    } else if i == 1 {
        StepModel::Pause(1500)
    } else if i == 2 {
        StepModel::Say("-- A creates t1 --"@)
    } else if i == 3 {
        StepModel::Send("A"@, "add t1 ship release"@)
    } else if i == 4 {
        StepModel::Pause(2000)
    } else if i == 5 {
        StepModel::Say("-- partition: B drops offline --"@)
    } else if i == 6 {
        StepModel::Send("B"@, "offline"@)
    } else if i == 7 {
        StepModel::Pause(800)
    } else if i == 8 {
        StepModel::Say("-- B edits t1 offline; meanwhile C edits t1 and adds t2 --"@)
    } else if i == 9 {
        StepModel::Send("B"@, "done t1 true"@)
    } else if i == 10 {
        StepModel::Send("C"@, "rename t1 ship v2"@)
    } else if i == 11 {
        StepModel::Send("C"@, "add t2 write changelog"@)
    } else if i == 12 {
        StepModel::Pause(2000)
    } else if i == 13 {
        StepModel::Say("-- heal: B comes back online and re-syncs --"@)
    } else if i == 14 {
        StepModel::Send("B"@, "online"@)
    } else if i == 15 {
        StepModel::AwaitConvergence(25000)
    } else {
        StepModel::Quit
    }
}

/// A step of the story.
pub fn story_step(i: usize) -> (step: Step)
    ensures
        step@ == story(i as nat),
{
    match i {
        0 => Step::Say("== peers up; discovering over broker, connecting via QUIC =="),
        1 => Step::Pause(1500),
        2 => Step::Say("-- A creates t1 --"),
        3 => Step::Send("A", "add t1 ship release"),
        4 => Step::Pause(2000),
        5 => Step::Say("-- partition: B drops offline --"),
        6 => Step::Send("B", "offline"),
        7 => Step::Pause(800),
        8 => Step::Say("-- B edits t1 offline; meanwhile C edits t1 and adds t2 --"),
        9 => Step::Send("B", "done t1 true"),
        10 => Step::Send("C", "rename t1 ship v2"),
        11 => Step::Send("C", "add t2 write changelog"),
        12 => Step::Pause(2000),
        13 => Step::Say("-- heal: B comes back online and re-syncs --"),
        14 => Step::Send("B", "online"),
        15 => Step::AwaitConvergence(25000),
        _ => Step::Quit,
    }
}

/// The line for a peer that came up.
pub fn ready_line(name: &str) -> (line: String)
    ensures
        line@ == "\u{b7} "@ + name@ + " ready"@,
{
    let mut line = "\u{b7} ".to_string();
    line.append(name);
    line.append(" ready");
    line
}

/// The last line of the timeline: what all peers agree on, if they do.
pub fn outcome_line(agreed: Option<&str>) -> (line: String)
    ensures
        line@ == (match agreed {
            Some(state) => "== converged: all peers agree on "@ + state@ + " =="@,
            None => "== DID NOT CONVERGE =="@,
        }),
{
    match agreed {
        Some(state) => {
            let mut line = "== converged: all peers agree on ".to_string();
            line.append(state);
            line.append(" ==");
            line
        },
        None => "== DID NOT CONVERGE ==".to_string(),
    }
}

/// What a command does to a peer's link.
#[derive(Debug, Clone, Copy, PartialEq, Eq, Structural)]
pub enum LinkAction {
    Up,
    Down,
    Keep,
}

/// What a command does to a peer's link: it goes down if it is up, and up if it
/// is down.
pub fn link_action(command: &Command, linked: bool) -> (action: LinkAction)
    ensures
        action == (if command@ is Offline && linked {
            LinkAction::Down
        } else if command@ is Online && !linked {
            LinkAction::Up
        } else {
            LinkAction::Keep
        }),
{
    match command {
        Command::Offline => if linked {
            LinkAction::Down
        } else {
            LinkAction::Keep
        },
        Command::Online => if linked {
            LinkAction::Keep
        } else {
            LinkAction::Up
        },
        _ => LinkAction::Keep,
    }
}

/// In the story every peer that goes offline comes back before the peers are
/// expected to converge.
pub proof fn story_heals_its_partitions(i: nat, peer: Seq<char>)
    requires
        story(i) == StepModel::Send(peer, "offline"@),
    ensures
        exists|j: nat, k: nat|
            i < j && j < k && #[trigger] story(j) == StepModel::Send(peer, "online"@) && (
            #[trigger] story(k)) is AwaitConvergence,
{
    reveal_strlit("offline");
    reveal_strlit("online");
    reveal_strlit("add t1 ship release");
    reveal_strlit("done t1 true");
    reveal_strlit("rename t1 ship v2");
    reveal_strlit("add t2 write changelog");
    assert("offline"@.len() == 7 && "online"@.len() == 6);
    assert(story(14) == StepModel::Send("B"@, "online"@));
    assert(story(15) is AwaitConvergence);
    assert(i == 6);
}

/// The number that an argument gives, or a default.
pub fn arg(args: &Vec<String>, i: usize, default: usize) -> (number: usize)
    ensures
        number == (if i < args@.len() {
            match crate::text::spelled_number(args@[i as int]@) {
                Some(n) => if n <= usize::MAX {
                    n as usize
                } else {
                    default
                },
                None => default,
            }
        } else {
            default
        }),
{
    if i < args.len() {
        match parse_number(args[i].as_str()) {
            Some(n) => n,
            None => default,
        }
    } else {
        default
    }
}

/// The seed of a name is its bytes, then zeros, thirty-two in all.
pub proof fn seeds_are_the_bytes_of_the_name(name: &str, seed: [u8; 32], k: int)
    requires
        call_ensures(seed_from_name, (name,), seed),
        0 <= k < 32,
    ensures
        k < vstd::utf8::encode_utf8(name@).len() ==> seed@[k] == vstd::utf8::encode_utf8(name@)[k],
        k >= vstd::utf8::encode_utf8(name@).len() ==> seed@[k] == 0,
{
}

/// A flag is followed by its value: the argument after the first that is the flag.
pub proof fn flags_are_followed_by_their_value(
    args: &Vec<String>,
    key: &str,
    value: Option<&str>,
    i: int,
)
    requires
        call_ensures(flag, (args, key), value),
        0 <= i < args@.len(),
        args@[i]@ == key@,
        forall|j: int| 0 <= j < i ==> (#[trigger] args@[j])@ != key@,
    ensures
        i + 1 < args@.len() ==> (value matches Some(v) && v@ == args@[i + 1]@),
        i + 1 == args@.len() ==> value is None,
{
    assert(first_at(args@, key@, i));
    if let Some(v) = value {
        let k = choose|k: int| #[trigger]
            first_at(args@, key@, k) && k + 1 < args@.len() && v@ == args@[k + 1]@;
        if k < i {
            assert(args@[k]@ != key@);
        }
        if i < k {
            assert(args@[i]@ != key@);
        }
    }
}

proof fn lemma_two_words(word: Seq<char>, id: Seq<char>, rest: Seq<char>)
    requires
        !word.contains(' '),
        !id.contains(' '),
    ensures
        first_word(word + seq![' '] + id + seq![' '] + rest) == (word, id + seq![' '] + rest),
        first_word(id + seq![' '] + rest) == (id, rest),
        first_word(word + seq![' '] + id) == (word, id),
        first_word(id) == (id, Seq::<char>::empty()),
{
    let tail = id + seq![' '] + rest;
    assert(word + seq![' '] + id + seq![' '] + rest == word + seq![' '] + tail);
    lemma_first_word(word + seq![' '] + tail, word, tail);
    lemma_first_word(tail, id, rest);
    lemma_first_word(word + seq![' '] + id, word, id);
}

/// Commands read as they are written: the word, the id and the rest of the line.
pub proof fn commands_read_as_written(
    id: Seq<char>,
    rest: Seq<char>,
    adding: &str,
    add: Command,
    renaming: &str,
    rename: Command,
    marking: &str,
    done: Command,
    removing: &str,
    remove: Command,
)
    requires
        !id.contains(' '),
        adding@ == "add"@ + seq![' '] + id + seq![' '] + rest,
        call_ensures(parse_command, (adding,), add),
        renaming@ == "rename"@ + seq![' '] + id + seq![' '] + rest,
        call_ensures(parse_command, (renaming,), rename),
        marking@ == "done"@ + seq![' '] + id + seq![' '] + rest,
        call_ensures(parse_command, (marking,), done),
        removing@ == "remove"@ + seq![' '] + id,
        call_ensures(parse_command, (removing,), remove),
    ensures
        add matches Command::Add { id: named, title } && named@ == id && title@ == rest,
        rename matches Command::Rename { id: named, title } && named@ == id && title@ == rest,
        done matches Command::Done { id: named, done: set } && named@ == id && (set <==> rest
            == "true"@),
        remove matches Command::Remove { id: named } && named@ == id,
{
    reveal_strlit("add");
    reveal_strlit("rename");
    reveal_strlit("done");
    reveal_strlit("remove");
    assert("add"@[0] == 'a' && "rename"@[0] == 'r' && "done"@[0] == 'd' && "remove"@[0] == 'r');
    assert("rename"@[2] == 'n' && "remove"@[2] == 'm');
    assert(!"add"@.contains(' ') && !"rename"@.contains(' ') && !"done"@.contains(' ')
        && !"remove"@.contains(' '));
    lemma_two_words("add"@, id, rest);
    lemma_two_words("rename"@, id, rest);
    lemma_two_words("done"@, id, rest);
    lemma_two_words("remove"@, id, rest);
}

/// The commands of one word, whatever follows it.
pub proof fn plain_commands_read_as_written(line: &str, command: Command)
    requires
        call_ensures(parse_command, (line,), command),
    ensures
        line@ == "offline"@ ==> command is Offline,
        line@ == "online"@ ==> command is Online,
        line@ == "snapshot"@ ==> command is Snapshot,
        line@ == "quit"@ ==> command is Quit,
        line@.len() == 0 ==> command is Unknown,
{
    reveal_strlit("add");
    reveal_strlit("rename");
    reveal_strlit("done");
    reveal_strlit("remove");
    reveal_strlit("offline");
    reveal_strlit("online");
    reveal_strlit("snapshot");
    reveal_strlit("quit");
    assert("add"@[0] == 'a' && "rename"@[0] == 'r' && "done"@[0] == 'd' && "remove"@[0] == 'r'
        && "offline"@[1] == 'f' && "online"@[1] == 'n' && "snapshot"@[0] == 's' && "quit"@[0]
        == 'q');
    assert("offline"@[0] == 'o' && "online"@[0] == 'o');
    assert(!"offline"@.contains(' ') && !"online"@.contains(' ') && !"snapshot"@.contains(' ')
        && !"quit"@.contains(' '));
    assert(!Seq::<char>::empty().contains(' '));
}

/// Reports read as they are written.
pub proof fn reports_read_as_written(
    name: Seq<char>,
    board: Seq<char>,
    up: &str,
    ready: Report,
    shown: &str,
    snap: Report,
    told: &str,
    event: Report,
)
    requires
        !name.contains(' '),
        up@ == "READY "@ + name,
        call_ensures(parse_report, (up,), ready),
        shown@ == "SNAP "@ + name + " "@ + board,
        call_ensures(parse_report, (shown,), snap),
        told@ == "EVT "@ + board,
        call_ensures(parse_report, (told,), event),
    ensures
        ready matches Report::Ready(named) && named@ == name,
        snap matches Report::Snap(named, state) && named@ == name && state@ == board,
        event matches Report::Event(text) && text@ == board,
{
    reveal_strlit("READY ");
    reveal_strlit("SNAP ");
    reveal_strlit("EVT ");
    reveal_strlit(" ");
    assert(up@[0] == 'R' && shown@[0] == 'S' && told@[0] == 'E');
    assert("READY "@[0] == 'R' && "SNAP "@[0] == 'S' && "EVT "@[0] == 'E');
    match ready {
        Report::Ready(named) => {
            assert(up@.skip(6) == name);
            assert(up@.skip(6) == named@);
        },
        Report::Snap(named, state) => {
            assert(("SNAP "@ + named@ + " "@ + state@)[0] == 'S');
        },
        Report::Event(text) => {
            assert(("EVT "@ + text@)[0] == 'E');
        },
        Report::Other => {
            assert("READY "@.is_prefix_of(up@));
        },
    }
    match event {
        Report::Event(text) => {
            assert(told@.skip(4) == board);
            assert(told@.skip(4) == text@);
        },
        Report::Snap(named, state) => {
            assert(("SNAP "@ + named@ + " "@ + state@)[0] == 'S');
        },
        Report::Ready(named) => {
            assert(("READY "@ + named@)[0] == 'R');
        },
        Report::Other => {
            assert("EVT "@.is_prefix_of(told@));
        },
    }
    let tail = name + seq![' '] + board;
    assert(" "@ == seq![' ']);
    assert(shown@.skip(5) == tail);
    lemma_first_word(tail, name, board);
    match snap {
        Report::Snap(named, state) => {
            assert(shown@.skip(5) == named@ + seq![' '] + state@);
            lemma_first_word(shown@.skip(5), named@, state@);
        },
        Report::Event(text) => {
            assert(("EVT "@ + text@)[0] == 'E');
        },
        Report::Ready(named) => {
            assert(("READY "@ + named@)[0] == 'R');
        },
        Report::Other => {
            assert("SNAP "@.is_prefix_of(shown@));
            assert(tail[name.len() as int] == ' ');
        },
    }
}

/// An event is reported with the peer, the record and the detail, and is read as an
/// event; a local one also with the sign of what was done.
pub proof fn events_are_reported(
    name: &str,
    op: Op,
    id: &str,
    detail: &str,
    sign: &'static str,
    local: String,
    remote: String,
)
    requires
        call_ensures(event_line, (name, WriteOrigin::Local, op, id, detail), local),
        call_ensures(event_line, (name, WriteOrigin::Remote, op, id, detail), remote),
        call_ensures(op_symbol, (op,), sign),
    ensures
        op is Insert ==> sign@ == "+"@,
        op is Update ==> sign@ == "~"@,
        op is Delete ==> sign@ == "x"@,
        local@ == "EVT "@ + name@ + "  "@ + sign@ + " "@ + id@ + "  "@ + detail@,
        remote@ == "EVT "@ + name@ + "  <- "@ + id@ + "  "@ + detail@ + "  (synced from peer)"@,
{
}

/// Peers agree when all their boards are the same: with one board each, the boards are
/// complete, and agreed on exactly if they are equal; a later board replaces an earlier
/// one.
pub proof fn equal_boards_agree(
    fresh: Snapshots,
    first: &mut Snapshots,
    one: String,
    board: String,
    second: &mut Snapshots,
    other: String,
    other_board: String,
    asked: &Snapshots,
    done: bool,
    agreed: Option<String>,
)
    requires
        call_ensures(Snapshots::new, (2usize,), fresh),
        *old(first) == fresh,
        call_ensures(Snapshots::note, (first, one, board), ()),
        *old(second) == *final(first),
        call_ensures(Snapshots::note, (second, other, other_board), ()),
        *asked == *final(second),
        call_ensures(Snapshots::complete, (asked,), done),
        call_ensures(Snapshots::agreed, (asked,), agreed),
    ensures
        done <==> one@ != other@,
        one@ != other@ ==> (agreed is Some <==> board@ == other_board@),
        one@ == other@ ==> agreed is Some,
        agreed matches Some(text) ==> text@ == other_board@,
{
    let held = asked.held();
    assert(held.contains_key(other@) && held[other@] == other_board);
    assert(first_held(one@, board) == final(first).held());
    if one@ != other@ {
        assert(held.contains_key(one@) && held[one@] == board);
        assert(held.dom() == Set::empty().insert(one@).insert(other@));
        assert(held.dom().len() == 2);
    } else {
        assert(held.dom() == Set::empty().insert(other@));
        assert(held.dom().len() == 1);
    }
}

/// What is held after the first board.
pub open spec fn first_held(name: Seq<char>, board: String) -> Map<Seq<char>, String> {
    Map::empty().insert(name, board)
}

/// The story only sends commands that the peers know, to peers that take part, and ends.
pub proof fn the_story_sends_known_commands(
    i: usize,
    step: Step,
    peer: &'static str,
    line: &'static str,
    command: Command,
)
    requires
        call_ensures(story_step, (i,), step),
        step == Step::Send(peer, line),
        call_ensures(parse_command, (line,), command),
    ensures
        peer@ == "A"@ || peer@ == "B"@ || peer@ == "C"@,
        i < 16,
        line@ == "offline"@ ==> command is Offline,
        line@ == "online"@ ==> command is Online,
{
    plain_commands_read_as_written(line, command);
}

/// The numbers among the arguments: one that spells a number gives it, anything else
/// the default.
pub proof fn arguments_give_numbers(
    args: &Vec<String>,
    i: usize,
    default: usize,
    number: usize,
    n: usize,
)
    requires
        call_ensures(arg, (args, i, default), number),
    ensures
        i >= args@.len() ==> number == default,
        i < args@.len() && args@[i as int]@ == crate::text::decimal(n as nat) ==> number == n,
        i < args@.len() && args@[i as int]@.len() == 0 ==> number == default,
{
    crate::text::lemma_decimal_spells(n as nat);
}

/// A link goes down when an online peer is told to go offline, up when an offline one is
/// told to come online, and stays otherwise.
pub proof fn links_follow_the_commands(command: &Command, linked: bool, action: LinkAction)
    requires
        call_ensures(link_action, (command, linked), action),
    ensures
        action is Down <==> command is Offline && linked,
        action is Up <==> command is Online && !linked,
{
}

/// What is told of the peers and of the end.
pub proof fn the_outcome_is_told(
    name: &str,
    up: String,
    state: &str,
    good: String,
    bad: String,
)
    requires
        call_ensures(ready_line, (name,), up),
        call_ensures(outcome_line, (Some(state),), good),
        call_ensures(outcome_line, (None,), bad),
    ensures
        up@ == "\u{b7} "@ + name@ + " ready"@,
        good@ == "== converged: all peers agree on "@ + state@ + " =="@,
        bad@ == "== DID NOT CONVERGE =="@,
{
}

/// Who takes part: three peers, the first of which owns the board.
pub proof fn three_peers_take_part(names: Vec<&'static str>)
    requires
        call_ensures(peer_names, (), names),
    ensures
        names@.len() == 3,
        names@[0]@ == "A"@,
        names@[1]@ == "B"@,
        names@[2]@ == "C"@,
{
}

} // verus!
