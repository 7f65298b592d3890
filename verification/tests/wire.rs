use stitch::hlc::{Hlc, PeerId, Stamp, PEER_ID_LEN};
use stitch::lww::Op;
use stitch::wire::{WireError, WriteFrame, HEADER_LEN, SIGNATURE_LEN};


fn peer(n: u8) -> PeerId {
    let mut id = [0u8; PEER_ID_LEN];
    id[0] = n;
    id[31] = n;
    id
}

fn frame() -> WriteFrame {
    WriteFrame {
        stamp: Stamp::new(Hlc::new(1_700_000_000_123, 7), peer(42)),
        seq: 99,
        op: Op::Update,
        entity: "task".into(),
        id: "t-uuid-1".into(),
        data: br#"{"title":"hello"}"#.to_vec(),
        signature: None,
    }
}

#[test]
fn signed_frame_round_trips() {
    let mut f = frame();
    f.signature = Some([7u8; SIGNATURE_LEN]);
    let bytes = f.encode().unwrap();
    assert_eq!(bytes.len(), f.encoded_len());
    let back = WriteFrame::decode(&bytes).unwrap();
    assert_eq!(back, f);
    assert_eq!(back.signature, Some([7u8; SIGNATURE_LEN]));
}

#[test]
fn signing_bytes_independent_of_signature() {
    let unsigned = frame();
    let mut signed = frame();
    signed.signature = Some([9u8; SIGNATURE_LEN]);
    assert_eq!(
        unsigned.signing_bytes().unwrap(),
        signed.signing_bytes().unwrap()
    );
}

#[test]
fn round_trip_preserves_all_fields() {
    let f = frame();
    let bytes = f.encode().unwrap();
    assert_eq!(bytes.len(), f.encoded_len());
    let back = WriteFrame::decode(&bytes).unwrap();
    assert_eq!(back, f);
}

#[test]
fn delete_frame_round_trips_with_empty_data() {
    let mut f = frame();
    f.op = Op::Delete;
    f.data.clear();
    let bytes = f.encode().unwrap();
    let back = WriteFrame::decode(&bytes).unwrap();
    assert_eq!(back, f);
    assert!(back.data.is_empty());
}

#[test]
fn truncated_header_is_rejected() {
    let bytes = frame().encode().unwrap();
    let err = WriteFrame::decode(&bytes[..HEADER_LEN - 1]).unwrap_err();
    assert!(matches!(err, WireError::Truncated { .. }));
}

#[test]
fn truncated_payload_is_rejected() {
    let bytes = frame().encode().unwrap();
    let err = WriteFrame::decode(&bytes[..bytes.len() - 3]).unwrap_err();
    assert!(matches!(err, WireError::Truncated { .. }));
}

#[test]
fn bad_version_is_rejected() {
    let mut bytes = frame().encode().unwrap();
    bytes[0] = 99;
    assert_eq!(WriteFrame::decode(&bytes), Err(WireError::BadVersion(99)));
}

#[test]
fn bad_op_is_rejected() {
    let mut bytes = frame().encode().unwrap();
    bytes[1] = 7;
    assert_eq!(WriteFrame::decode(&bytes), Err(WireError::BadOp(7)));
}

#[test]
fn frame_converts_to_stamped_write() {
    let f = frame();
    let stamp = f.stamp;
    let stamped = f.into_stamped();
    assert_eq!(stamped.stamp, stamp);
    assert_eq!(stamped.entity, "task");
}
