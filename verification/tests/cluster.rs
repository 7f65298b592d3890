use rand::rngs::StdRng;
use rand::{RngExt, SeedableRng};
use stitch::chaos::{
    plan_round, Chaos, ChaosReport, ChaosRun, Draws, LinkChange, TaskChange,
};
use stitch::cluster::{agree, link_key, seed, snapshot, Cluster};
use stitch::membership::Identity;
use stitch::session::{hello, step, SessionAction, SessionEvent};
use stitch::sync_state::FrameAuth;

fn pull(cluster: &mut Cluster, to: usize, from: usize) {
    let greeting = hello(cluster.board(to).node());
    let answer = match step(
        cluster.board_mut(from).node_mut(),
        SessionEvent::Inbound(greeting),
        5000,
    ) {
        SessionAction::Send(message) => message,
        _ => panic!("a greeting is answered"),
    };
    assert!(matches!(
        step(cluster.board_mut(to).node_mut(), SessionEvent::Inbound(answer), 5000),
        SessionAction::Continue
    ));
}

#[test]
fn seeds_number_the_peers() {
    let mut expected = [0u8; 32];
    expected[0] = 1;
    assert_eq!(seed(0), expected);
    expected[0] = 255;
    assert_eq!(seed(254), expected);
}

#[test]
fn peer_zero_owns_the_cluster() {
    let mut cluster = Cluster::new(3);
    assert_eq!(cluster.len(), 3);
    assert!(!cluster.is_empty());
    for i in 0..3 {
        assert_eq!(cluster.peer_id(i), Identity::from_seed(seed(i)).peer_id());
        assert_eq!(cluster.board(i).node().self_id(), cluster.peer_id(i));
    }
    let frames = cluster.invite_all(1);
    assert_eq!(frames.len(), 2);
    for i in 0..3 {
        let id = cluster.peer_id(i);
        assert!(cluster.board(0).author_authorized(&id));
    }
    let revoked = cluster.peer_id(2);
    cluster.revoke(2, 2);
    assert!(!cluster.board(0).author_authorized(&revoked));
}

#[test]
fn a_cluster_has_as_many_peers_as_asked_for() {
    let mut empty = Cluster::new(0);
    assert_eq!(empty.len(), 0);
    assert!(empty.is_empty());
    assert_eq!(empty.active_links(), 0);
    assert!(empty.invite_all(1).is_empty());
    assert!(empty.full_mesh().is_empty());
    assert!(empty.converged("task"));
    assert!(empty.snapshots("task").is_empty());

    let mut alone = Cluster::new(1);
    assert_eq!(alone.len(), 1);
    assert!(!alone.is_empty());
    assert!(alone.invite_all(1).is_empty());
    assert!(alone.converged("task"));

    let four = Cluster::new(4);
    assert_eq!(four.len(), 4);
    assert_eq!(four.active_links(), 0);
}

#[test]
fn boards_agree_on_values_not_on_bytes() {
    let mut cluster = Cluster::new(2);
    cluster.invite_all(1);
    pull(&mut cluster, 1, 0);
    cluster.board_mut(0).create(5, "task", "a", br#"{"title":"x","done":false}"#.to_vec());
    cluster.board_mut(1).create(6, "task", "a", br#"{ "done": false, "title": "x" }"#.to_vec());
    assert_ne!(cluster.board(0).read("task", "a"), cluster.board(1).read("task", "a"));
    assert!(agree(cluster.board(0), cluster.board(1), "task"));
    assert!(cluster.converged("task"));

    // A record that is not JSON is not on the board.
    cluster.board_mut(1).create(7, "task", "b", b"not json".to_vec());
    assert_eq!(cluster.board(1).entries("task").len(), 2);
    assert_eq!(snapshot(cluster.board(1), "task").len(), 1);
    assert!(cluster.converged("task"));

    cluster.board_mut(1).create(8, "task", "a", br#"{"title":"x","done":true}"#.to_vec());
    assert!(!agree(cluster.board(0), cluster.board(1), "task"));
    assert!(!cluster.converged("task"));
    let boards = cluster.snapshots("task");
    assert_eq!(boards.len(), 2);
    assert_eq!(
        boards[0],
        vec![("a".to_string(), br#"{"title":"x","done":false}"#.to_vec())]
    );
    assert_eq!(
        boards[1],
        vec![("a".to_string(), br#"{"title":"x","done":true}"#.to_vec())]
    );
}

#[test]
fn a_run_without_rounds_asks_for_no_peers() {
    let cfg = Chaos { peers: 0, rounds: 0, id_pool: 0, seed: 3, pull_ms: 15 };
    let mut run = ChaosRun::new(cfg);
    assert!(run.next_round().is_none());
    assert_eq!(run.finish(true, 0), ChaosReport { converged: true, ..ChaosReport::default() });
}

#[test]
fn a_lone_peer_revokes_nobody() {
    let cfg = Chaos { peers: 1, rounds: 400, id_pool: 2, seed: 5, pull_ms: 15 };
    let mut run = ChaosRun::new(cfg);
    while let Some(round) = run.next_round() {
        assert_eq!(round.revoked, None);
        assert_eq!(round.link, None);
    }
    let report = run.finish(true, 0);
    assert_eq!((report.revokes, report.partitions, report.heals), (0, 0, 0));
    assert_eq!(report.adds + report.renames + report.toggles + report.removes, 400);
}

#[test]
fn invitations_count_at_every_peer() {
    let mut cluster = Cluster::new(3);
    let frames = cluster.invite_all(1);
    assert_eq!(frames.len(), 2);
    for frame in &frames {
        assert_eq!(frame.stamp.peer, cluster.peer_id(0));
        for i in 0..3 {
            assert!(Identity::from_seed(seed(i)).verify(frame));
        }
    }
    for i in 1..3 {
        pull(&mut cluster, i, 0);
        for j in 0..3 {
            let id = cluster.peer_id(j);
            assert!(cluster.board(i).author_authorized(&id));
        }
    }
    let later = cluster.board_mut(0).create(9, "task", "a", b"{}".to_vec());
    assert!(Identity::from_seed(seed(1)).verify(&later), "the owner still signs as itself");
}

#[test]
fn links_come_and_go() {
    let mut cluster = Cluster::new(3);
    assert_eq!(link_key(2, 1), (1, 2));
    assert!(cluster.connect(2, 1));
    assert!(!cluster.connect(1, 2), "a link is up only once");
    assert!(!cluster.connect(1, 1), "nobody links to itself");
    assert_eq!(cluster.full_mesh(), vec![(0, 1), (0, 2)]);
    assert_eq!(cluster.active_links(), 3);
    assert!(cluster.partition(0, 2));
    assert!(!cluster.partition(2, 0));
    assert_eq!(cluster.active_links(), 2);
    cluster.shutdown();
    assert_eq!(cluster.active_links(), 0);
}

#[test]
fn a_cluster_converges_once_everyone_pulled() {
    let mut cluster = Cluster::new(3);
    cluster.invite_all(1);
    for i in 0..3 {
        let id = format!("t{i}");
        let data = format!("{{\"title\":\"by {i}\"}}").into_bytes();
        cluster.board_mut(i).create(10 + i as u64, "task", &id, data.clone());
        cluster.board_mut(i).create(10 + i as u64, "task", "shared", data);
    }
    assert!(!cluster.converged("task"));
    for _ in 0..2 {
        for (a, b) in [(0, 1), (1, 0), (0, 2), (2, 0)] {
            pull(&mut cluster, a, b);
        }
    }
    assert!(cluster.converged("task"));
    assert!(agree(cluster.board(1), cluster.board(2), "task"));
    assert_eq!(
        cluster.board(1).read("task", "shared"),
        Some(br#"{"title":"by 2"}"#.to_vec())
    );
    assert_eq!(cluster.board(0).entries("task").len(), 4);
    assert_eq!(snapshot(cluster.board(0), "task").len(), 4);
}

#[test]
fn drawn_numbers_decide_a_round() {
    let draws = Draws {
        peer: 1,
        task: 5,
        operation: 0,
        title: 300,
        done: false,
        link: Some((0, 2, true)),
        revoked: Some(3),
    };
    let round = plan_round(draws);
    assert_eq!(round.peer, 1);
    assert_eq!(round.task, "t5");
    assert!(matches!(round.change, TaskChange::Add(title) if title == "t-300"));
    assert_eq!(round.link, Some(LinkChange::Partition(0, 2)));
    assert_eq!(round.revoked, Some(3));

    let round = plan_round(Draws { operation: 1, link: Some((2, 0, false)), ..draws });
    assert!(matches!(round.change, TaskChange::Rename(title) if title == "r-300"));
    assert_eq!(round.link, Some(LinkChange::Connect(2, 0)));
    let round = plan_round(Draws { operation: 2, done: true, link: None, ..draws });
    assert!(matches!(round.change, TaskChange::SetDone(true)));
    assert_eq!(round.link, None);
    let round = plan_round(Draws { operation: 3, ..draws });
    assert!(matches!(round.change, TaskChange::Remove));
}

#[test]
fn a_chaos_run_reports_what_it_did() {
    let cfg = Chaos { rounds: 500, ..Chaos::default() };
    let mut run = ChaosRun::new(cfg);
    let mut counts = ChaosReport::default();
    let mut peers_seen = [false; 4];
    while let Some(round) = run.next_round() {
        assert!(round.peer < 4);
        peers_seen[round.peer] = true;
        match round.change {
            TaskChange::Add(_) => counts.adds += 1,
            TaskChange::Rename(_) => counts.renames += 1,
            TaskChange::SetDone(_) => counts.toggles += 1,
            TaskChange::Remove => counts.removes += 1,
        }
        match round.link {
            Some(LinkChange::Partition(a, b)) => {
                assert!(a != b && a < 4 && b < 4);
                counts.partitions += 1;
            }
            Some(LinkChange::Connect(_, _)) => counts.heals += 1,
            None => {}
        }
        if let Some(i) = round.revoked {
            assert!((1..4).contains(&i));
            counts.revokes += 1;
        }
    }
    counts.converged = true;
    counts.final_tasks = 6;
    let report = run.finish(true, 6);
    assert_eq!(report, counts);
    assert_eq!(report.adds + report.renames + report.toggles + report.removes, 500);
    assert_eq!(peers_seen, [true; 4]);
}

#[test]
fn the_same_seed_gives_the_same_run() {
    let cfg = Chaos { rounds: 50, seed: 7, ..Chaos::default() };
    let mut a = ChaosRun::new(cfg);
    let mut b = ChaosRun::new(cfg);
    let mut c = ChaosRun::new(Chaos { seed: 8, ..cfg });
    let mut differs = false;
    while let Some(round) = a.next_round() {
        assert_eq!(format!("{round:?}"), format!("{:?}", b.next_round().unwrap()));
        differs |= format!("{round:?}") != format!("{:?}", c.next_round().unwrap());
    }
    assert!(b.next_round().is_none());
    assert!(differs);
    assert_eq!(a.finish(true, 1), b.finish(true, 1));
}

#[test]
fn chaos_defaults() {
    let cfg = Chaos::default();
    assert_eq!((cfg.peers, cfg.rounds, cfg.id_pool, cfg.seed, cfg.pull_ms), (4, 240, 6, 0, 15));
}

#[test]
fn rounds_follow_the_generator_of_the_seed() {
    let cfg = Chaos { peers: 5, rounds: 300, id_pool: 6, seed: 11, pull_ms: 15 };
    let mut rng = StdRng::seed_from_u64(11);
    let mut run = ChaosRun::new(cfg);
    while let Some(round) = run.next_round() {
        assert_eq!(round.peer, rng.random_range(0..5usize));
        assert_eq!(round.task, format!("t{}", rng.random_range(0..6usize)));
        match rng.random_range(0..4u8) {
            0 => {
                let title = format!("t-{}", rng.random::<u16>());
                assert!(matches!(&round.change, TaskChange::Add(t) if *t == title));
            }
            1 => {
                let title = format!("r-{}", rng.random::<u16>());
                assert!(matches!(&round.change, TaskChange::Rename(t) if *t == title));
            }
            2 => {
                let done = rng.random::<bool>();
                assert!(matches!(&round.change, TaskChange::SetDone(d) if *d == done));
            }
            _ => assert!(matches!(&round.change, TaskChange::Remove)),
        }
        let mut link = None;
        if rng.random_range(0..6u8) == 0 {
            let (a, b) = (rng.random_range(0..5usize), rng.random_range(0..5usize));
            if a != b {
                link = if rng.random::<bool>() {
                    Some(LinkChange::Partition(a, b))
                } else {
                    Some(LinkChange::Connect(a, b))
                };
            }
        }
        assert_eq!(round.link, link);
        let mut revoked = None;
        if rng.random_range(0..40u8) == 0 {
            revoked = Some(rng.random_range(1..5usize));
        }
        assert_eq!(round.revoked, revoked);
    }
}
