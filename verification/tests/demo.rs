use stitch::demo::{
    arg, event_line, flag, link_action, op_symbol, outcome_line, parse_command, parse_report,
    peer_names, ready_line, seed_from_name, story_step, Command, LinkAction, Report, Snapshots,
    Step,
};
use stitch::lww::Op;
use stitch::sync_state::WriteOrigin;
use stitch::text::parse_number;

fn args(list: &[&str]) -> Vec<String> {
    list.iter().map(|s| s.to_string()).collect()
}

#[test]
fn seeds_hold_the_name() {
    let mut expected = [0u8; 32];
    expected[0] = b'A';
    assert_eq!(seed_from_name("A"), expected);
    assert_eq!(seed_from_name(&"x".repeat(40)), [b'x'; 32]);
    assert_eq!(peer_names(), vec!["A", "B", "C"]);
}

#[test]
fn flags_give_the_next_argument() {
    let list = args(&["demo", "peer", "--name", "B", "--broker", "h:1", "--name", "C"]);
    assert_eq!(flag(&list, "--name"), Some("B"));
    assert_eq!(flag(&list, "--broker"), Some("h:1"));
    assert_eq!(flag(&list, "--other"), None);
    assert_eq!(flag(&args(&["--name"]), "--name"), None);
}

#[test]
fn numbers_or_defaults() {
    let list = args(&["soak", "8", "+12", "x", "99999999999999999999999"]);
    assert_eq!(arg(&list, 1, 4), 8);
    assert_eq!(arg(&list, 2, 4), 12);
    assert_eq!(arg(&list, 3, 4), 4);
    assert_eq!(arg(&list, 4, 4), 4);
    assert_eq!(arg(&list, 5, 4), 4);
    for text in ["", "+", "-1", "1 ", "0", "007", "18446744073709551615", "18446744073709551616"] {
        assert_eq!(parse_number(text), text.parse::<usize>().ok(), "{text}");
    }
}

#[test]
fn events_are_printed() {
    assert_eq!(op_symbol(Op::Delete), "x");
    assert_eq!(
        event_line("A", WriteOrigin::Local, Op::Insert, "t1", "\"x\" done=false"),
        "EVT A  + t1  \"x\" done=false"
    );
    assert_eq!(
        event_line("C", WriteOrigin::Remote, Op::Update, "t1", "d"),
        "EVT C  <- t1  d  (synced from peer)"
    );
    assert_eq!(ready_line("B"), "· B ready");
    assert_eq!(outcome_line(Some("{}")), "== converged: all peers agree on {} ==");
    assert_eq!(outcome_line(None), "== DID NOT CONVERGE ==");
}

#[test]
fn commands_are_read() {
    match parse_command("add t1 ship release") {
        Command::Add { id, title } => assert_eq!((id.as_str(), title.as_str()), ("t1", "ship release")),
        other => panic!("{other:?}"),
    }
    match parse_command("rename t1") {
        Command::Rename { id, title } => assert_eq!((id.as_str(), title.as_str()), ("t1", "")),
        other => panic!("{other:?}"),
    }
    assert!(matches!(parse_command("done t1 true"), Command::Done { done: true, .. }));
    assert!(matches!(parse_command("done t1 truer"), Command::Done { done: false, .. }));
    assert!(matches!(parse_command("remove t9"), Command::Remove { id } if id == "t9"));
    assert!(matches!(parse_command("offline"), Command::Offline));
    assert!(matches!(parse_command("online"), Command::Online));
    assert!(matches!(parse_command("snapshot"), Command::Snapshot));
    assert!(matches!(parse_command("quit"), Command::Quit));
    assert!(matches!(parse_command(""), Command::Unknown));
    assert!(matches!(parse_command(" add t1"), Command::Unknown));
}

#[test]
fn links_toggle() {
    assert_eq!(link_action(&Command::Offline, true), LinkAction::Down);
    assert_eq!(link_action(&Command::Offline, false), LinkAction::Keep);
    assert_eq!(link_action(&Command::Online, false), LinkAction::Up);
    assert_eq!(link_action(&Command::Online, true), LinkAction::Keep);
    assert_eq!(link_action(&Command::Quit, true), LinkAction::Keep);
}

#[test]
fn reports_are_read() {
    assert!(matches!(parse_report("READY A"), Report::Ready(name) if name == "A"));
    assert!(matches!(
        parse_report("SNAP B {\"t1\": 1}"),
        Report::Snap(name, board) if name == "B" && board == "{\"t1\": 1}"
    ));
    assert!(matches!(parse_report("SNAP B"), Report::Other));
    assert!(matches!(parse_report("EVT A  + t1"), Report::Event(text) if text == "A  + t1"));
    assert!(matches!(parse_report("something"), Report::Other));
}

#[test]
fn boards_are_compared() {
    let mut snaps = Snapshots::new(2);
    assert!(!snaps.complete());
    assert_eq!(snaps.agreed(), None);
    snaps.note("A".to_string(), "{}".to_string());
    snaps.note("A".to_string(), "{1}".to_string());
    assert!(!snaps.complete());
    assert_eq!(snaps.agreed(), Some("{1}".to_string()));
    snaps.note("B".to_string(), "{2}".to_string());
    assert!(snaps.complete());
    assert_eq!(snaps.agreed(), None);
    snaps.note("B".to_string(), "{1}".to_string());
    assert_eq!(snaps.agreed(), Some("{1}".to_string()));
}

#[test]
fn the_story_ends_healed() {
    let mut offline: Vec<String> = Vec::new();
    let mut i = 0;
    loop {
        match story_step(i) {
            Step::Send(peer, command) => match parse_command(command) {
                Command::Offline => offline.push(peer.to_string()),
                Command::Online => offline.retain(|p| p != peer),
                _ => {}
            },
            Step::AwaitConvergence(ms) => {
                assert_eq!(ms, 25_000);
                assert!(offline.is_empty());
            }
            Step::Quit => break,
            Step::Say(_) | Step::Pause(_) => {}
        }
        i += 1;
    }
    assert_eq!(i, 16);
}
