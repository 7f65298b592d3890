use stitch::hlc::{Hlc, PeerId, Stamp, PEER_ID_LEN};


fn peer(n: u8) -> PeerId {
    let mut id = [0u8; PEER_ID_LEN];
    id[0] = n;
    id
}

#[test]
fn tick_advances_physical_to_wall_clock() {
    let mut c = Hlc::default();
    let stamped = c.tick(100);
    assert_eq!(stamped, Hlc::new(100, 0));
}

#[test]
fn tick_bumps_logical_when_wall_clock_stalls() {
    let mut c = Hlc::new(100, 0);
    let a = c.tick(100);
    let b = c.tick(100);
    assert_eq!(a, Hlc::new(100, 1));
    assert_eq!(b, Hlc::new(100, 2));
}

#[test]
fn tick_never_goes_backward() {
    let mut c = Hlc::new(500, 3);
    let stamped = c.tick(100);
    assert_eq!(stamped, Hlc::new(500, 4));
}

#[test]
fn observe_takes_max_physical_and_bumps_logical() {
    let mut c = Hlc::new(100, 5);
    let stamped = c.observe(Hlc::new(100, 9), 100);
    assert_eq!(stamped, Hlc::new(100, 10));
}

#[test]
fn observe_jumps_to_remote_future() {
    let mut c = Hlc::new(100, 0);
    let stamped = c.observe(Hlc::new(900, 2), 50);
    assert_eq!(stamped, Hlc::new(900, 3));
}

#[test]
fn observe_then_tick_is_strictly_greater_than_remote() {
    let remote = Hlc::new(900, 2);
    let mut c = Hlc::new(100, 0);
    c.observe(remote, 50);
    let next = c.tick(50);
    assert!(next > remote);
}

#[test]
fn stamp_orders_by_hlc_then_peer() {
    let lo = Stamp::new(Hlc::new(1, 0), peer(2));
    let hi = Stamp::new(Hlc::new(1, 0), peer(9));
    assert!(hi > lo);

    let earlier = Stamp::new(Hlc::new(1, 0), peer(9));
    let later = Stamp::new(Hlc::new(2, 0), peer(1));
    assert!(later > earlier);
}
