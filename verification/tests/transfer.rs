use stitch::hashing::{sha256_of, Hasher};
use stitch::transfer::{
    acceptance, check_offer_frame, decline, digest_to_hex, read_header, temp_name, write_frame,
    FileOffer, FileRejectReason, Received, Receiver, Sender, TransferError, TransferProgress,
    FRAME_ACK, FRAME_DATA_CHUNK, FRAME_FILE_ACCEPT, FRAME_FILE_OFFER, FRAME_FILE_REJECT,
    FRAME_TRANSFER_COMPLETE,
};

#[test]
fn compute_hash_is_deterministic() {
    let data = b"hello world";
    let d1 = sha256_of(data);
    let d2 = sha256_of(data);
    let h1 = digest_to_hex(&d1);
    let h2 = digest_to_hex(&d2);
    assert_eq!(h1, h2);
    assert_eq!(h1.len(), 64);
}

#[test]
fn compute_hash_differs_for_different_data() {
    let d1 = sha256_of(b"hello");
    let d2 = sha256_of(b"world");
    assert_ne!(digest_to_hex(&d1), digest_to_hex(&d2));
}

#[test]
fn streaming_hash_matches_oneshot() {
    let data = b"the quick brown fox jumps over the lazy dog";
    let oneshot = sha256_of(data);

    let mut ctx = Hasher::new();
    ctx.update(&data[..10]);
    ctx.update(&data[10..]);
    let streaming = ctx.finish();

    assert_eq!(digest_to_hex(&oneshot), digest_to_hex(&streaming));
}

#[test]
fn the_digest_is_sha_256() {
    assert_eq!(
        digest_to_hex(&sha256_of(b"abc")),
        "ba7816bf8f01cfea414140de5dae2223b00361a396177a9cb410ff61f20015ad"
    );
}

#[test]
fn headers_read_back() {
    let frame = write_frame(FRAME_DATA_CHUNK, b"abc");
    assert_eq!(frame, [0x10, 0, 0, 0, 3, b'a', b'b', b'c']);
    let header: [u8; 5] = frame[..5].try_into().unwrap();
    assert_eq!(read_header(&header), Ok((FRAME_DATA_CHUNK, 3)));
    assert_eq!(read_header(&[1, 0x08, 0, 0, 0]), Ok((1, 0x0800_0000)));
    assert_eq!(
        read_header(&[1, 0x08, 0, 0, 1]),
        Err(TransferError::PayloadTooLarge(0x0800_0001))
    );
}

fn parse(frame: &[u8]) -> (u8, Vec<u8>) {
    let header: [u8; 5] = frame[..5].try_into().unwrap();
    let (kind, len) = read_header(&header).unwrap();
    assert_eq!(frame.len(), 5 + len);
    (kind, frame[5..].to_vec())
}

fn deliver(receiver: &mut Receiver, frame: &[u8]) -> Result<Received, TransferError> {
    let (kind, payload) = parse(frame);
    assert!(receiver.has_room(payload.len()));
    receiver.on_frame(kind, &payload)
}

#[test]
fn a_file_arrives_whole() {
    let file = b"some file that goes over in two pieces";
    let digest = sha256_of(file);
    let mut sender = Sender::new("notes.txt".to_string(), file.len() as u64, digest);
    let offer = sender.offer();
    assert_eq!(offer.name, "notes.txt");
    assert_eq!(offer.size, 38);
    assert_eq!(offer.sha256, digest_to_hex(&digest));
    assert!(sender.on_answer(FRAME_FILE_ACCEPT, None).is_ok());

    let mut receiver = Receiver::new(offer);
    let mut written = Vec::new();
    for piece in [&file[..20], &file[20..]] {
        let (frame, sent) = sender.next_chunk(piece);
        match deliver(&mut receiver, &frame).unwrap() {
            Received::Chunk { data, progress } => {
                assert_eq!(progress, sent);
                written.extend(data);
            }
            Received::Verified { .. } => panic!("expected a chunk"),
        }
    }
    assert_eq!(written, file);
    match deliver(&mut receiver, &sender.completion()).unwrap() {
        Received::Verified { sha256 } => assert_eq!(sha256, digest_to_hex(&digest)),
        Received::Chunk { .. } => panic!("expected the end"),
    }
    let (kind, payload) = parse(&receiver.ack());
    assert_eq!(sender.on_ack(kind, &payload), Ok(Some(38)));
    let received = receiver.result(digest_to_hex(&digest));
    assert_eq!(received, sender.result());
}

#[test]
fn chunks_carry_their_offset() {
    let mut sender = Sender::new("f".to_string(), 5, [0; 32]);
    let (_, progress) = sender.next_chunk(b"abc");
    assert_eq!(progress, TransferProgress { bytes_transferred: 3, total_bytes: 5 });
    let (frame, _) = sender.next_chunk(b"de");
    assert_eq!(frame, [0x10, 0, 0, 0, 10, 0, 0, 0, 0, 0, 0, 0, 3, b'd', b'e']);
}

fn offer() -> FileOffer {
    FileOffer { name: "f".to_string(), size: 3, sha256: String::new() }
}

#[test]
fn a_wrong_digest_is_refused_once() {
    let mut receiver = Receiver::new(offer());
    let mut payload = vec![0u8; 8];
    payload.extend_from_slice(b"abc");
    assert!(receiver.on_frame(FRAME_DATA_CHUNK, &payload).is_ok());
    match receiver.on_frame(FRAME_TRANSFER_COMPLETE, &[0; 32]) {
        Err(TransferError::HashMismatch { expected, actual }) => {
            assert_eq!(expected, "0".repeat(64));
            assert_eq!(actual, digest_to_hex(&sha256_of(b"abc")));
        }
        _ => panic!("expected a mismatch"),
    }
    assert!(matches!(
        receiver.on_frame(FRAME_TRANSFER_COMPLETE, &[0; 32]),
        Err(TransferError::HasherConsumed)
    ));
}

#[test]
fn malformed_frames_are_refused() {
    let mut receiver = Receiver::new(offer());
    assert!(matches!(
        receiver.on_frame(FRAME_DATA_CHUNK, &[0; 7]),
        Err(TransferError::ChunkTooShort)
    ));
    assert!(matches!(
        receiver.on_frame(FRAME_TRANSFER_COMPLETE, &[0; 31]),
        Err(TransferError::HashTooShort)
    ));
    assert!(matches!(
        receiver.on_frame(0x99, &[]),
        Err(TransferError::UnexpectedFrame(0x99))
    ));
    assert!(check_offer_frame(FRAME_FILE_OFFER).is_ok());
    assert_eq!(check_offer_frame(FRAME_ACK), Err(TransferError::UnexpectedFrame(FRAME_ACK)));
}

#[test]
fn a_declined_offer_names_the_reason() {
    let sender = Sender::new("f".to_string(), 0, [0; 32]);
    let (reason, error) = decline();
    assert_eq!(error.message(), "transfer rejected: rejected by receiver");
    assert_eq!(sender.on_answer(FRAME_FILE_REJECT, Some(reason)), Err(error));
    assert_eq!(
        sender.on_answer(FRAME_FILE_REJECT, None::<FileRejectReason>),
        Err(TransferError::Rejected("unknown".to_string()))
    );
    assert_eq!(
        sender.on_answer(0x42, None).unwrap_err().message(),
        "unexpected frame type: 0x42"
    );
    assert_eq!(sender.on_ack(FRAME_ACK, &[1, 2]), Ok(None));
    assert_eq!(
        sender.on_ack(FRAME_FILE_OFFER, &[]),
        Err(TransferError::UnexpectedFrame(FRAME_FILE_OFFER))
    );
    assert_eq!(acceptance(), [0x02, 0, 0, 0, 0]);
}

#[test]
fn transfer_errors_read_as_sentences() {
    assert_eq!(
        TransferError::PayloadTooLarge(200_000_000).message(),
        "transfer error: frame payload too large: 200000000 bytes"
    );
    assert_eq!(
        TransferError::HashMismatch { expected: "a".to_string(), actual: "b".to_string() }
            .message(),
        "file hash mismatch: expected a, got b"
    );
    assert_eq!(
        TransferError::ChunkTooShort.message(),
        "transfer error: data chunk too short"
    );
    assert_eq!(temp_name("a.txt"), ".a.txt.tmp");
}
