use stitch::hlc::PeerId;
use stitch::lww::Op;
use stitch::membership::{
    authorized_members, member_record_id, peer_from_record_id, Grant, Identity, Role,
};
use stitch::sync_state::{FrameAuth, SyncState};

fn peer(n: u8) -> PeerId {
    [n; 32]
}

#[test]
fn peer_ids_are_ed25519_public_keys() {
    // The first test vector of RFC 8032.
    let seed = [
        0x9d, 0x61, 0xb1, 0x9d, 0xef, 0xfd, 0x5a, 0x60, 0xba, 0x84, 0x4a, 0xf4, 0x92, 0xec, 0x2c,
        0xc4, 0x44, 0x49, 0xc5, 0x69, 0x7b, 0x32, 0x69, 0x19, 0x70, 0x3b, 0xac, 0x03, 0x1c, 0xae,
        0x7f, 0x60,
    ];
    let id = Identity::from_seed(seed).peer_id();
    assert_eq!(
        member_record_id(&id),
        "d75a980182b10ab7d54bfed3c964073a0ee172f3daa62325af021a68f707511a"
    );
    let signature = Identity::from_seed(seed).sign(b"");
    assert_eq!(&signature[..4], &[0xe5, 0x56, 0x43, 0x00]);
}

#[test]
fn signed_frames_verify_and_others_do_not() {
    let identity = Identity::from_seed([5u8; 32]);
    let mut state = SyncState::new(identity.peer_id());
    state.set_auth(Identity::from_seed([5u8; 32]));
    let frame = state.local_write(1, Op::Insert, "task", "t1", b"x".to_vec());
    assert!(identity.verify(&frame));
    assert!(Identity::from_seed([6u8; 32]).verify(&frame), "anyone can check");

    let mut forged = frame.clone();
    forged.stamp.peer = Identity::from_seed([6u8; 32]).peer_id();
    assert!(!identity.verify(&forged));
    let mut unsigned = frame.clone();
    unsigned.signature = None;
    assert!(!identity.verify(&unsigned));
}

#[test]
fn record_ids_read_back() {
    let id = member_record_id(&peer(0xAB));
    assert_eq!(id, "ab".repeat(32));
    assert_eq!(peer_from_record_id(&id), Some(peer(0xAB)));
    assert_eq!(peer_from_record_id(&id[1..]), None);
    assert_eq!(peer_from_record_id(&"zz".repeat(32)), None);
}

#[test]
fn roles_have_bytes() {
    for role in [Role::Member, Role::Admin] {
        assert_eq!(Role::from_byte(role.as_byte()), Some(role));
    }
    assert_eq!(Role::from_byte(0), None);
    assert_eq!(Role::from_byte(3), None);
}

#[test]
fn authority_flows_from_the_owner() {
    let owner = peer(1);
    let grants = [
        Grant { target: peer(3), granter: peer(2), role: Role::Admin },
        Grant { target: peer(2), granter: owner, role: Role::Admin },
        Grant { target: peer(4), granter: peer(3), role: Role::Member },
        Grant { target: peer(5), granter: peer(4), role: Role::Admin },
        Grant { target: peer(6), granter: peer(7), role: Role::Admin },
        Grant { target: peer(7), granter: peer(6), role: Role::Admin },
    ];
    let members = authorized_members(owner, &grants);
    assert_eq!(members.get(&owner), Some(&Role::Admin));
    assert_eq!(members.get(&peer(2)), Some(&Role::Admin));
    assert_eq!(members.get(&peer(3)), Some(&Role::Admin));
    assert_eq!(members.get(&peer(4)), Some(&Role::Member));
    assert_eq!(members.get(&peer(5)), None, "members cannot grant");
    assert_eq!(members.get(&peer(6)), None, "a ring of strangers stays outside");
    assert_eq!(members.len(), 4);
}

#[test]
fn nobody_can_demote_the_owner() {
    let owner = peer(1);
    let grants = [
        Grant { target: peer(2), granter: owner, role: Role::Admin },
        Grant { target: owner, granter: peer(2), role: Role::Member },
    ];
    let members = authorized_members(owner, &grants);
    assert_eq!(members.get(&owner), Some(&Role::Admin));
}
