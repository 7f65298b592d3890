use stitch::addr::{IpAddr, SocketAddr};
use stitch::stun::{
    build_binding_request, new_request, parse_binding_response, parse_mapped_address, request_with,
    parse_xor_mapped_address, probe, StunError, ATTR_MAPPED_ADDRESS, ATTR_XOR_MAPPED_ADDRESS,
    STUN_BINDING_REQUEST, STUN_BINDING_RESPONSE, STUN_MAGIC,
};

#[test]
fn build_request_has_correct_magic() {
    let txn = [1u8; 12];
    let req = build_binding_request(&txn);
    assert_eq!(req[0..2], STUN_BINDING_REQUEST.to_be_bytes());
    assert_eq!(req[2..4], [0, 0]);
    assert_eq!(
        u32::from_be_bytes([req[4], req[5], req[6], req[7]]),
        STUN_MAGIC
    );
    assert_eq!(&req[8..20], &txn);
}

#[test]
fn parse_xor_mapped_ipv4() {
    let txn = [0u8; 12];
    let port: u16 = 12345;
    let ip: u32 = u32::from_be_bytes([203, 0, 113, 5]);
    let xor_port = port ^ (STUN_MAGIC >> 16) as u16;
    let xor_ip = ip ^ STUN_MAGIC;

    let mut attr = [0u8; 8];
    attr[1] = 0x01;
    attr[2..4].copy_from_slice(&xor_port.to_be_bytes());
    attr[4..8].copy_from_slice(&xor_ip.to_be_bytes());

    let result = parse_xor_mapped_address(&attr, &txn).unwrap();
    assert_eq!(result.port(), port);
    match result.ip() {
        IpAddr::V4(v4) => assert_eq!(v4, [203, 0, 113, 5]),
        _ => panic!("expected IPv4"),
    }
}

#[test]
fn parse_rejects_short_attr() {
    let txn = [0u8; 12];
    assert!(parse_xor_mapped_address(&[0u8; 4], &txn).is_err());
}

fn response(txn: &[u8; 12], attrs: &[u8]) -> Vec<u8> {
    let mut response = Vec::new();
    response.extend_from_slice(&STUN_BINDING_RESPONSE.to_be_bytes());
    response.extend_from_slice(&(attrs.len() as u16).to_be_bytes());
    response.extend_from_slice(&STUN_MAGIC.to_be_bytes());
    response.extend_from_slice(txn);
    response.extend_from_slice(attrs);
    response
}

fn attribute(kind: u16, value: &[u8]) -> Vec<u8> {
    let mut out = Vec::new();
    out.extend_from_slice(&kind.to_be_bytes());
    out.extend_from_slice(&(value.len() as u16).to_be_bytes());
    out.extend_from_slice(value);
    while out.len() % 4 != 0 {
        out.push(0);
    }
    out
}

#[test]
fn parse_full_binding_response() {
    let txn = [0xAA; 12];
    let port: u16 = 8080;
    let ip = [192, 168, 1, 100];
    let ip_u32 = u32::from_be_bytes(ip);
    let xor_port = port ^ (STUN_MAGIC >> 16) as u16;
    let xor_ip = ip_u32 ^ STUN_MAGIC;

    let mut response = Vec::new();
    response.extend_from_slice(&STUN_BINDING_RESPONSE.to_be_bytes());

    let mut attr_buf = Vec::new();
    attr_buf.extend_from_slice(&ATTR_XOR_MAPPED_ADDRESS.to_be_bytes());
    attr_buf.extend_from_slice(&8u16.to_be_bytes());
    attr_buf.push(0);
    attr_buf.push(0x01);
    attr_buf.extend_from_slice(&xor_port.to_be_bytes());
    attr_buf.extend_from_slice(&xor_ip.to_be_bytes());

    let msg_len = attr_buf.len() as u16;
    response.extend_from_slice(&msg_len.to_be_bytes());
    response.extend_from_slice(&STUN_MAGIC.to_be_bytes());
    response.extend_from_slice(&txn);
    response.extend_from_slice(&attr_buf);

    let result = parse_binding_response(&response, &txn).unwrap();
    assert_eq!(result.port(), port);
    assert_eq!(result.ip(), IpAddr::V4(ip));
}

#[test]
fn ipv6_addresses_are_unmasked_with_the_transaction_id() {
    let txn = [7u8; 12];
    let mut attr = vec![0u8, 0x02];
    attr.extend_from_slice(&(443u16 ^ (STUN_MAGIC >> 16) as u16).to_be_bytes());
    let mut key = STUN_MAGIC.to_be_bytes().to_vec();
    key.extend_from_slice(&txn);
    let ip = [0x20, 0x01, 0x0d, 0xb8, 0, 0, 0, 0, 0, 0, 0, 0, 0, 0, 0, 1];
    for i in 0..16 {
        attr.push(ip[i] ^ key[i]);
    }
    assert_eq!(
        parse_xor_mapped_address(&attr, &txn),
        Ok(SocketAddr::new(IpAddr::V6(ip), 443))
    );
    assert_eq!(
        parse_xor_mapped_address(&attr[..12], &txn),
        Err(StunError::XorIpv6TooShort)
    );
}

#[test]
fn the_masked_address_wins_over_the_plain_one() {
    let txn = [9u8; 12];
    let plain = [0, 1, 0x1F, 0x90, 10, 0, 0, 1];
    let mut masked = vec![0u8, 1];
    masked.extend_from_slice(&(9000u16 ^ (STUN_MAGIC >> 16) as u16).to_be_bytes());
    masked.extend_from_slice(&(u32::from_be_bytes([1, 2, 3, 4]) ^ STUN_MAGIC).to_be_bytes());

    let mut attrs = attribute(ATTR_XOR_MAPPED_ADDRESS, &masked);
    attrs.extend(attribute(0x8022, b"srv"));
    attrs.extend(attribute(ATTR_MAPPED_ADDRESS, &plain));
    let found = parse_binding_response(&response(&txn, &attrs), &txn).unwrap();
    assert_eq!(found, SocketAddr::new(IpAddr::V4([1, 2, 3, 4]), 9000));

    let only_plain = attribute(ATTR_MAPPED_ADDRESS, &plain);
    let found = parse_binding_response(&response(&txn, &only_plain), &txn).unwrap();
    assert_eq!(found, SocketAddr::new(IpAddr::V4([10, 0, 0, 1]), 8080));
}

#[test]
fn every_stun_error_has_an_input() {
    let txn = [0u8; 12];
    assert_eq!(parse_xor_mapped_address(&[0; 7], &txn), Err(StunError::XorTooShort));
    assert_eq!(
        parse_xor_mapped_address(&[0, 9, 0, 0, 0, 0, 0, 0], &txn),
        Err(StunError::UnknownFamily(9))
    );
    assert_eq!(parse_mapped_address(&[0; 7]), Err(StunError::MappedTooShort));
    assert_eq!(
        parse_mapped_address(&[0, 2, 0, 0, 0, 0, 0, 0]),
        Err(StunError::UnsupportedFamily(2))
    );
    assert_eq!(parse_binding_response(&[0; 19], &txn), Err(StunError::ResponseTooShort));
    assert_eq!(
        parse_binding_response(&[0; 20], &txn),
        Err(StunError::UnexpectedType(0))
    );
    assert_eq!(
        parse_binding_response(&response(&[1; 12], &[]), &txn),
        Err(StunError::TransactionMismatch)
    );
    assert_eq!(
        parse_binding_response(&response(&txn, &[]), &txn),
        Err(StunError::NoMappedAddress)
    );
    assert_eq!(StunError::UnknownFamily(9).message(), "unknown address family: 0x09");
    assert_eq!(
        StunError::UnexpectedType(0x0111).message(),
        "unexpected message type: 0x0111"
    );
}

#[test]
fn new_requests_carry_fresh_transaction_ids() {
    let (first, request) = new_request().unwrap();
    let (second, _) = new_request().unwrap();
    assert_eq!(request, build_binding_request(&first));
    assert_ne!(first, second);
}

#[test]
fn probes_spell_the_hole_punch_magic() {
    assert_eq!(&probe(), b"P2PP");
}

#[test]
fn requests_carry_the_given_transaction_id() {
    let txn = [7u8; 12];
    assert_eq!(request_with(Some(txn)), Some((txn, build_binding_request(&txn))));
    assert_eq!(request_with(None), None);
}
