use stitch::discovery::peer_id_from_fingerprint;


#[test]
fn fingerprint_parses_to_peer_id() {
    let hex: Vec<String> = (0..32).map(|i| format!("{i:02x}")).collect();
    let fp = format!("sha256:{}", hex.join(":"));
    let id = peer_id_from_fingerprint(&fp).expect("valid fingerprint");
    assert_eq!(id[0], 0);
    assert_eq!(id[31], 31);
}

#[test]
fn fingerprint_without_prefix_is_rejected() {
    assert!(peer_id_from_fingerprint("00:01:02").is_none());
}

#[test]
fn fingerprint_wrong_length_is_rejected() {
    assert!(peer_id_from_fingerprint("sha256:00:01:02").is_none());
}

#[test]
fn fingerprint_non_hex_is_rejected() {
    let parts: Vec<&str> = std::iter::repeat_n("zz", 32).collect();
    let fp = format!("sha256:{}", parts.join(":"));
    assert!(peer_id_from_fingerprint(&fp).is_none());
}
