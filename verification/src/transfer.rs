//! File transfer: framing, and the two sides of a transfer.
use vstd::prelude::*;
use crate::bytes::{get_be, put_be};
use crate::hashing::Hasher;
use crate::text::{put_decimal, put_hex_byte, same_text, to_hex};

verus! {

pub const FRAME_FILE_OFFER: u8 = 0x01;

pub const FRAME_FILE_ACCEPT: u8 = 0x02;

pub const FRAME_FILE_REJECT: u8 = 0x03;

pub const FRAME_DATA_CHUNK: u8 = 0x10;

pub const FRAME_TRANSFER_COMPLETE: u8 = 0x20;

pub const FRAME_ACK: u8 = 0x30;

/// How much of a file goes into one chunk at most.
pub const CHUNK_SIZE: usize = 0x1_0000;

/// The largest payload that is read.
pub const MAX_FRAME_PAYLOAD: usize = 0x800_0000;

/// What a sender offers.
#[derive(Debug, PartialEq, Eq)]
pub struct FileOffer {
    pub name: String,
    pub size: u64,
    pub sha256: String,
}

/// The mathematical content of a [`FileOffer`].
#[verifier::ext_equal]
pub struct OfferModel {
    pub name: Seq<char>,
    pub size: u64,
    pub sha256: Seq<char>,
}

impl View for FileOffer {
    type V = OfferModel;

    open spec fn view(&self) -> OfferModel {
        OfferModel { name: self.name@, size: self.size, sha256: self.sha256@ }
    }
}

/// Why a receiver declined.
#[derive(Debug, PartialEq, Eq)]
pub struct FileRejectReason {
    pub reason: String,
}

/// How far a transfer has come.
#[derive(Debug, Clone, Copy, PartialEq, Eq, Structural)]
pub struct TransferProgress {
    pub bytes_transferred: u64,
    pub total_bytes: u64,
}

/// What was transferred.
#[derive(Debug, PartialEq, Eq)]
pub struct TransferResult {
    pub file_name: String,
    pub file_size: u64,
    pub sha256: String,
}

/// Why a transfer failed.
#[derive(Debug, PartialEq, Eq)]
pub enum TransferError {
    PayloadTooLarge(usize),
    Rejected(String),
    UnexpectedFrame(u8),
    ChunkTooShort,
    HashTooShort,
    HasherConsumed,
    HashMismatch { expected: String, actual: String },
}

/// The sentence that describes a [`TransferError`].
pub open spec fn transfer_error_text(error: TransferError) -> Seq<char> {
    match error {
        TransferError::PayloadTooLarge(len) => "transfer error: frame payload too large: "@
            + crate::text::decimal(len as nat) + " bytes"@,
        TransferError::Rejected(reason) => "transfer rejected: "@ + reason@,
        TransferError::UnexpectedFrame(kind) => "unexpected frame type: 0x"@
            + crate::text::hex_byte(kind),
        TransferError::ChunkTooShort => "transfer error: data chunk too short"@,
        TransferError::HashTooShort => "transfer error: transfer complete hash too short"@,
        TransferError::HasherConsumed => "transfer error: hasher already consumed"@,
        TransferError::HashMismatch { expected, actual } => "file hash mismatch: expected "@ + expected@
            + ", got "@ + actual@,
    }
}

impl TransferError {
    /// The error as a sentence.
    pub fn message(&self) -> (text: String)
        ensures
            text@ == transfer_error_text(*self),
    {
        match self {
            TransferError::PayloadTooLarge(len) => {
                let mut out = "transfer error: frame payload too large: ".to_string();
                put_decimal(&mut out, *len as u64);
                out.append(" bytes");
                out
            },
            TransferError::Rejected(reason) => {
                let mut out = "transfer rejected: ".to_string();
                out.append(reason.as_str());
                out
            },
            TransferError::UnexpectedFrame(kind) => {
                let mut out = "unexpected frame type: 0x".to_string();
                put_hex_byte(&mut out, *kind);
                out
            },
            TransferError::ChunkTooShort => "transfer error: data chunk too short".to_string(),
            TransferError::HashTooShort =>
                "transfer error: transfer complete hash too short".to_string(),
            TransferError::HasherConsumed =>
                "transfer error: hasher already consumed".to_string(),
            TransferError::HashMismatch { expected, actual } => {
                let mut out = "file hash mismatch: expected ".to_string();
                out.append(expected.as_str());
                out.append(", got ");
                out.append(actual.as_str());
                out
            },
        }
    }
}

/// The header of a frame: its type, then the length of its payload.
pub open spec fn header_bytes(frame_type: u8, len: nat) -> Seq<u8> {
    seq![frame_type] + crate::bytes::be_bytes(len, 4)
}

/// A frame: its header, then its payload.
pub open spec fn frame_bytes(frame_type: u8, payload: Seq<u8>) -> Seq<u8> {
    header_bytes(frame_type, payload.len()) + payload
}

/// A frame as bytes. Only the four low bytes of the length are written.
pub fn write_frame(frame_type: u8, payload: &[u8]) -> (frame: Vec<u8>)
    ensures
        frame@ == frame_bytes(frame_type, payload@),
{
    let mut out: Vec<u8> = Vec::new();
    out.push(frame_type);
    put_be(&mut out, payload.len() as u64, 4);
    out.extend_from_slice(payload);
    assert(out@ =~= frame_bytes(frame_type, payload@));
    out
}

/// Reads the header of a frame: its type and the length of the payload that
/// follows.
pub fn read_header(header: &[u8; 5]) -> (out: Result<(u8, usize), TransferError>)
    ensures
        ({
            let len = crate::bytes::be_value(header@.subrange(1, 5));
            match out {
                Ok((frame_type, n)) => len <= MAX_FRAME_PAYLOAD && frame_type == header@[0] && n
                    == len,
                Err(TransferError::PayloadTooLarge(n)) => len > MAX_FRAME_PAYLOAD && (len
                    <= usize::MAX ==> n == len),
                Err(_) => false,
            }
        }),
{
    proof {
        crate::bytes::lemma_pow256_widths();
    }
    let len = get_be(header.as_slice(), 1, 4);
    if len > MAX_FRAME_PAYLOAD as u64 {
        return Err(TransferError::PayloadTooLarge(len as usize));
    }
    Ok((header[0], len as usize))
}

/// Reading a header gives back the type and the length it was written for, up
/// to the largest payload that is read.
pub proof fn header_reads_back(frame_type: u8, len: nat)
    requires
        len <= MAX_FRAME_PAYLOAD,
    ensures
        header_bytes(frame_type, len).len() == 5,
        header_bytes(frame_type, len)[0] == frame_type,
        crate::bytes::be_value(header_bytes(frame_type, len).subrange(1, 5)) == len,
{
    crate::bytes::lemma_pow256_widths();
    crate::bytes::lemma_be_round_trip(len, 4);
    assert(header_bytes(frame_type, len).subrange(1, 5) =~= crate::bytes::be_bytes(len, 4));
}

/// A digest as lower-case hexadecimal.
pub fn digest_to_hex(digest: &[u8]) -> (text: String)
    ensures
        text@ == crate::text::hex(digest@),
{
    to_hex(digest)
}

/// The name under which a file is written until it is complete.
pub fn temp_name(name: &str) -> (temp: String)
    ensures
        temp@ == "."@ + name@ + ".tmp"@,
{
    let mut out = ".".to_string();
    out.append(name);
    out.append(".tmp");
    out
}

/// The sending side of a transfer, once the file was hashed.
pub struct Sender {
    name: String,
    size: u64,
    digest: [u8; 32],
    offset: u64,
}

/// The mathematical content of a [`Sender`].
#[verifier::ext_equal]
pub struct SenderModel {
    pub name: Seq<char>,
    pub size: u64,
    pub digest: Seq<u8>,
    /// How many bytes were sent.
    pub offset: u64,
}

impl View for Sender {
    type V = SenderModel;

    closed spec fn view(&self) -> SenderModel {
        SenderModel {
            name: self.name@,
            size: self.size,
            digest: self.digest@,
            offset: self.offset,
        }
    }
}

/// The payload of a data chunk: where it stands in the file, then the data.
pub open spec fn chunk_payload(offset: u64, data: Seq<u8>) -> Seq<u8> {
    crate::bytes::be_bytes(offset as nat, 8) + data
}

impl Sender {
    /// A transfer of the file of this name, size and SHA-256 digest.
    #[must_use]
    pub fn new(name: String, size: u64, digest: [u8; 32]) -> (sender: Self)
        ensures
            sender@ == (SenderModel { name: name@, size, digest: digest@, offset: 0 }),
    {
        Sender { name, size, digest, offset: 0 }
    }

    /// What to offer first.
    #[must_use]
    pub fn offer(&self) -> (offer: FileOffer)
        ensures
            offer@ == (OfferModel {
                name: self@.name,
                size: self@.size,
                sha256: crate::text::hex(self@.digest),
            }),
    {
        FileOffer {
            name: self.name.clone(),
            size: self.size,
            sha256: digest_to_hex(self.digest.as_slice()),
        }
    }

    /// What the answer to the offer means: go on, or stop with an error.
    /// `reason` is what the payload of a rejection says, if it can be read.
    pub fn on_answer(&self, frame_type: u8, reason: Option<FileRejectReason>) -> (out: Result<
        (),
        TransferError,
    >)
        ensures
            out is Ok <==> frame_type == FRAME_FILE_ACCEPT,
            out matches Err(error) ==> if frame_type == FRAME_FILE_REJECT {
                &&& error matches TransferError::Rejected(text)
                &&& text@ == (match reason {
                    Some(r) => r.reason@,
                    None => "unknown"@,
                })
            } else {
                error == TransferError::UnexpectedFrame(frame_type)
            },
    {
        if frame_type == FRAME_FILE_ACCEPT {
            Ok(())
        } else if frame_type == FRAME_FILE_REJECT {
            match reason {
                Some(r) => Err(TransferError::Rejected(r.reason)),
                None => Err(TransferError::Rejected("unknown".to_string())),
            }
        } else {
            Err(TransferError::UnexpectedFrame(frame_type))
        }
    }

    /// The frame for the next piece of the file, and how far the transfer has
    /// then come.
    pub fn next_chunk(&mut self, data: &[u8]) -> (sent: (Vec<u8>, TransferProgress))
        requires
            old(self)@.offset + data@.len() <= u64::MAX,
        ensures
            sent.0@ == frame_bytes(FRAME_DATA_CHUNK, chunk_payload(old(self)@.offset, data@)),
            sent.1 == (TransferProgress {
                bytes_transferred: (old(self)@.offset + data@.len()) as u64,
                total_bytes: old(self)@.size,
            }),
            final(self)@ == (SenderModel {
                offset: (old(self)@.offset + data@.len()) as u64,
                ..old(self)@
            }),
    {
        let mut payload: Vec<u8> = Vec::new();
        put_be(&mut payload, self.offset, 8);
        payload.extend_from_slice(data);
        assert(payload@ =~= chunk_payload(old(self)@.offset, data@));
        let frame = write_frame(FRAME_DATA_CHUNK, payload.as_slice());
        self.offset = self.offset + data.len() as u64;
        (frame, TransferProgress { bytes_transferred: self.offset, total_bytes: self.size })
    }

    /// The frame that ends the data: the digest of the whole file.
    #[must_use]
    pub fn completion(&self) -> (frame: Vec<u8>)
        ensures
            frame@ == frame_bytes(FRAME_TRANSFER_COMPLETE, self@.digest),
    {
        write_frame(FRAME_TRANSFER_COMPLETE, self.digest.as_slice())
    }

    /// What the answer to the completion means: how many bytes were
    /// acknowledged, if it says so.
    pub fn on_ack(&self, frame_type: u8, payload: &[u8]) -> (out: Result<
        Option<u64>,
        TransferError,
    >)
        ensures
            match out {
                Ok(Some(acked)) => frame_type == FRAME_ACK && payload@.len() >= 8 && acked as nat
                    == crate::bytes::be_value(payload@.take(8)),
                Ok(None) => frame_type == FRAME_ACK && payload@.len() < 8,
                Err(error) => frame_type != FRAME_ACK && error == TransferError::UnexpectedFrame(
                    frame_type,
                ),
            },
    {
        if frame_type != FRAME_ACK {
            return Err(TransferError::UnexpectedFrame(frame_type));
        }
        if payload.len() >= 8 {
            assert(payload@.subrange(0, 8) =~= payload@.take(8));
            Ok(Some(get_be(payload, 0, 8)))
        } else {
            Ok(None)
        }
    }

    /// What was transferred.
    #[must_use]
    pub fn result(self) -> (result: TransferResult)
        ensures
            result.file_name@ == self@.name,
            result.file_size == self@.size,
            result.sha256@ == crate::text::hex(self@.digest),
    {
        let sha256 = digest_to_hex(self.digest.as_slice());
        TransferResult { file_name: self.name, file_size: self.size, sha256 }
    }
}

/// Only a file offer starts a transfer.
pub fn check_offer_frame(frame_type: u8) -> (out: Result<(), TransferError>)
    ensures
        out is Ok <==> frame_type == FRAME_FILE_OFFER,
        out matches Err(error) ==> error == TransferError::UnexpectedFrame(frame_type),
{
    if frame_type == FRAME_FILE_OFFER {
        Ok(())
    } else {
        Err(TransferError::UnexpectedFrame(frame_type))
    }
}

/// What to send and to fail with when an offer is declined.
pub fn decline() -> (declined: (FileRejectReason, TransferError))
    ensures
        declined.0.reason@ == "rejected by receiver"@,
        declined.1 matches TransferError::Rejected(reason) && reason@ == "rejected by receiver"@,
{
    (
        FileRejectReason { reason: "rejected by receiver".to_string() },
        TransferError::Rejected("rejected by receiver".to_string()),
    )
}

/// The frame that accepts an offer.
pub fn acceptance() -> (frame: Vec<u8>)
    ensures
        frame@ == frame_bytes(FRAME_FILE_ACCEPT, Seq::empty()),
{
    let none: Vec<u8> = Vec::new();
    write_frame(FRAME_FILE_ACCEPT, none.as_slice())
}

/// The receiving side of a transfer, once the offer was accepted.
pub struct Receiver {
    offer: FileOffer,
    hasher: Option<Hasher>,
    received: u64,
}

/// The mathematical content of a [`Receiver`].
#[verifier::ext_equal]
pub struct ReceiverModel {
    pub offer: OfferModel,
    /// The bytes received, until their digest was taken.
    pub data: Option<Seq<u8>>,
    /// How many bytes were received.
    pub received: u64,
}

impl View for Receiver {
    type V = ReceiverModel;

    closed spec fn view(&self) -> ReceiverModel {
        ReceiverModel {
            offer: self.offer@,
            data: match self.hasher {
                Some(hasher) => Some(hasher@),
                None => None,
            },
            received: self.received,
        }
    }
}

impl ReceiverModel {
    /// The count is that of the bytes.
    pub open spec fn ok(self) -> bool {
        self.data matches Some(data) ==> data.len() == self.received
    }

    /// A completion with this payload is accepted: it starts with the digest of
    /// the bytes received.
    pub open spec fn completed_by(self, payload: Seq<u8>) -> bool {
        &&& payload.len() >= 32
        &&& self.data matches Some(data) && payload.take(32) == crate::hashing::sha256(data)
    }

    /// The receiver after a chunk with this payload.
    pub open spec fn with_chunk(self, payload: Seq<u8>) -> ReceiverModel {
        ReceiverModel {
            data: match self.data {
                Some(data) => Some(data + payload.skip(8)),
                None => None,
            },
            received: (self.received + payload.len() - 8) as u64,
            ..self
        }
    }
}

/// What a frame means to the receiver.
pub enum Received {
    /// Write this piece of the file.
    Chunk { data: Vec<u8>, progress: TransferProgress },
    /// The file is complete and its digest is right.
    Verified { sha256: String },
}

impl Receiver {
    /// See [`ReceiverModel::ok`].
    pub open spec fn wf(&self) -> bool {
        self@.ok()
    }

    /// Starts to receive the offered file.
    #[must_use]
    pub fn new(offer: FileOffer) -> (receiver: Self)
        ensures
            receiver.wf(),
            receiver@ == (ReceiverModel {
                offer: offer@,
                data: Some(Seq::empty()),
                received: 0,
            }),
    {
        Receiver { offer, hasher: Some(Hasher::new()), received: 0 }
    }

    /// Whether a frame with a payload of this length can be taken.
    pub fn has_room(&self, len: usize) -> (room: bool)
        ensures
            room == (self@.received + len <= crate::hashing::MAX_DIGEST_INPUT),
    {
        self.received <= crate::hashing::MAX_DIGEST_INPUT && len as u64
            <= crate::hashing::MAX_DIGEST_INPUT - self.received
    }

    /// Takes the next frame of the transfer. A chunk is to be written to the
    /// file; the completion is accepted only if its digest is that of all the
    /// bytes received.
    pub fn on_frame(&mut self, frame_type: u8, payload: &[u8]) -> (out: Result<
        Received,
        TransferError,
    >)
        requires
            old(self).wf(),
            old(self)@.received + payload@.len() <= crate::hashing::MAX_DIGEST_INPUT,
        ensures
            final(self).wf(),
            out matches Ok(Received::Verified { .. }) <==> frame_type == FRAME_TRANSFER_COMPLETE
                && old(self)@.completed_by(payload@),
            if frame_type == FRAME_DATA_CHUNK {
                if payload@.len() < 8 {
                    out == Err::<Received, TransferError>(TransferError::ChunkTooShort)
                        && final(self)@ == old(self)@
                } else {
                    &&& final(self)@ == old(self)@.with_chunk(payload@)
                    &&& out matches Ok(Received::Chunk { data, progress })
                    &&& data@ == payload@.skip(8)
                    &&& progress == (TransferProgress {
                        bytes_transferred: final(self)@.received,
                        total_bytes: old(self)@.offer.size,
                    })
                }
            } else if frame_type == FRAME_TRANSFER_COMPLETE {
                if payload@.len() < 32 {
                    out == Err::<Received, TransferError>(TransferError::HashTooShort)
                        && final(self)@ == old(self)@
                } else {
                    match old(self)@.data {
                        None => out == Err::<Received, TransferError>(
                            TransferError::HasherConsumed,
                        ) && final(self)@ == old(self)@,
                        Some(data) => {
                            &&& final(self)@ == (ReceiverModel { data: None, ..old(self)@ })
                            &&& if payload@.take(32) == crate::hashing::sha256(data) {
                                &&& out matches Ok(Received::Verified { sha256 })
                                &&& sha256@ == crate::text::hex(crate::hashing::sha256(data))
                            } else {
                                &&& out matches Err(TransferError::HashMismatch {
                                    expected,
                                    actual,
                                })
                                &&& expected@ == crate::text::hex(payload@.take(32))
                                &&& actual@ == crate::text::hex(crate::hashing::sha256(data))
                            }
                        },
                    }
                }
            } else {
                out == Err::<Received, TransferError>(TransferError::UnexpectedFrame(frame_type))
                    && final(self)@ == old(self)@
            },
    {
        if frame_type == FRAME_DATA_CHUNK {
            if payload.len() < 8 {
                return Err(TransferError::ChunkTooShort);
            }
            let chunk = vstd::slice::slice_subrange(payload, 8, payload.len());
            assert(chunk@ =~= payload@.skip(8));
            let mut hasher: Option<Hasher> = None;
            std::mem::swap(&mut hasher, &mut self.hasher);
            self.hasher = match hasher {
                Some(mut h) => {
                    h.update(chunk);
                    Some(h)
                },
                None => None,
            };
            self.received = self.received + chunk.len() as u64;
            assert(self@ =~= old(self)@.with_chunk(payload@));
            Ok(
                Received::Chunk {
                    data: vstd::slice::slice_to_vec(chunk),
                    progress: TransferProgress {
                        bytes_transferred: self.received,
                        total_bytes: self.offer.size,
                    },
                },
            )
        } else if frame_type == FRAME_TRANSFER_COMPLETE {
            if payload.len() < 32 {
                return Err(TransferError::HashTooShort);
            }
            let stated = vstd::slice::slice_subrange(payload, 0, 32);
            assert(stated@ =~= payload@.take(32));
            let received_hash = to_hex(stated);
            let mut taken: Option<Hasher> = None;
            std::mem::swap(&mut taken, &mut self.hasher);
            let hasher = match taken {
                Some(hasher) => hasher,
                None => return Err(TransferError::HasherConsumed),
            };
            let ghost data = hasher@;
            let computed = hasher.finish();
            let computed_hash = digest_to_hex(computed.as_slice());
            assert(self@ =~= ReceiverModel { data: None, ..old(self)@ });
            if same_text(received_hash.as_str(), computed_hash.as_str()) {
                proof {
                    crate::text::lemma_hex_injective(stated@, computed@);
                }
                Ok(Received::Verified { sha256: computed_hash })
            } else {
                Err(
                    TransferError::HashMismatch { expected: received_hash, actual: computed_hash },
                )
            }
        } else {
            Err(TransferError::UnexpectedFrame(frame_type))
        }
    }

    /// The frame that acknowledges the bytes received.
    #[must_use]
    pub fn ack(&self) -> (frame: Vec<u8>)
        ensures
            frame@ == frame_bytes(
                FRAME_ACK,
                crate::bytes::be_bytes(self@.received as nat, 8),
            ),
    {
        let mut payload: Vec<u8> = Vec::new();
        put_be(&mut payload, self.received, 8);
        assert(payload@ =~= crate::bytes::be_bytes(self@.received as nat, 8));
        write_frame(FRAME_ACK, payload.as_slice())
    }

    /// What was transferred.
    #[must_use]
    pub fn result(self, sha256: String) -> (result: TransferResult)
        ensures
            result.file_name@ == self@.offer.name,
            result.file_size == self@.received,
            result.sha256@ == sha256@,
    {
        TransferResult { file_name: self.offer.name, file_size: self.received, sha256 }
    }
}

/// The pieces of a file, joined.
pub open spec fn joined(pieces: Seq<Seq<u8>>) -> Seq<u8>
    decreases pieces.len(),
{
    if pieces.len() == 0 {
        Seq::empty()
    } else {
        joined(pieces.drop_last()) + pieces.last()
    }
}

/// The receiver after the chunks that a sender makes of these pieces.
pub open spec fn after_chunks(start: ReceiverModel, pieces: Seq<Seq<u8>>) -> ReceiverModel
    decreases pieces.len(),
{
    if pieces.len() == 0 {
        start
    } else {
        after_chunks(start, pieces.drop_last()).with_chunk(
            chunk_payload(joined(pieces.drop_last()).len() as u64, pieces.last()),
        )
    }
}

/// A receiver that takes the chunks that a sender makes of the pieces of a file
/// holds the file, byte for byte, and accepts a completion exactly if it starts
/// with the digest of the file.
pub proof fn transfer_delivers_the_file(offer: OfferModel, pieces: Seq<Seq<u8>>)
    requires
        joined(pieces).len() <= crate::hashing::MAX_DIGEST_INPUT,
    ensures
        ({
            let start = ReceiverModel { offer, data: Some(Seq::empty()), received: 0 };
            let end = after_chunks(start, pieces);
            &&& end.data == Some(joined(pieces))
            &&& end.received == joined(pieces).len()
            &&& end.offer == offer
            &&& forall|payload: Seq<u8>| #[trigger]
                end.completed_by(payload) <==> payload.len() >= 32 && payload.take(32)
                    == crate::hashing::sha256(joined(pieces))
        }),
    decreases pieces.len(),
{
    let start = ReceiverModel { offer, data: Some(Seq::empty()), received: 0 };
    if pieces.len() > 0 {
        let front = pieces.drop_last();
        transfer_delivers_the_file(offer, front);
        let payload = chunk_payload(joined(front).len() as u64, pieces.last());
        crate::bytes::lemma_be_bytes_len(joined(front).len() as nat, 8);
        assert(payload.skip(8) =~= pieces.last());
    }
}

/// A frame is its type, the length of its payload in four bytes and the payload, and
/// its header reads back: the length is refused where it is above 128 MiB.
pub proof fn frames_are_type_length_payload(
    frame_type: u8,
    payload: &[u8],
    frame: Vec<u8>,
    header: &[u8; 5],
    read: Result<(u8, usize), TransferError>,
)
    requires
        payload@.len() <= u32::MAX,
        call_ensures(write_frame, (frame_type, payload), frame),
        header@ == frame@.take(5),
        call_ensures(read_header, (header,), read),
    ensures
        frame@.len() == 5 + payload@.len(),
        frame@[0] == frame_type,
        frame@.skip(5) == payload@,
        payload@.len() <= 128 * 1024 * 1024 ==> (read matches Ok((kind, len)) && kind == frame_type
            && len == payload@.len()),
        payload@.len() > 128 * 1024 * 1024 ==> (read matches Err(TransferError::PayloadTooLarge(len))
            && len == payload@.len()),
{
    let len = payload@.len();
    crate::bytes::lemma_be_bytes_len(len, 4);
    assert(len < crate::bytes::pow256(4)) by {
        reveal_with_fuel(crate::bytes::pow256, 5);
    }
    crate::bytes::lemma_be_round_trip(len, 4);
    assert(frame@.take(5).subrange(1, 5) == crate::bytes::be_bytes(len, 4));
    assert(frame@.skip(5) == payload@);
}

/// The frames of a transfer have their types: acceptance 0x02 and empty, a piece of
/// the file 0x10, completion 0x20 with the digest, acknowledgement 0x30.
pub proof fn frames_have_their_types(
    accepted: Vec<u8>,
    sender: &Sender,
    completed: Vec<u8>,
    sending: &mut Sender,
    data: &[u8],
    sent: (Vec<u8>, TransferProgress),
    receiver: &Receiver,
    acked: Vec<u8>,
)
    requires
        call_ensures(acceptance, (), accepted),
        call_ensures(Sender::completion, (sender,), completed),
        sender@.digest.len() == 32,
        call_ensures(Sender::next_chunk, (sending, data), sent),
        call_ensures(Receiver::ack, (receiver,), acked),
    ensures
        accepted@ == seq![0x02u8, 0u8, 0u8, 0u8, 0u8],
        completed@ == seq![0x20u8, 0u8, 0u8, 0u8, 32u8] + sender@.digest,
        sent.0@[0] == 0x10,
        acked@[0] == 0x30,
        acked@.len() == 13,
{
    crate::bytes::lemma_be_bytes_len(receiver@.received as nat, 8);
    crate::bytes::lemma_be_bytes_len(8, 4);
    reveal_with_fuel(crate::bytes::be_bytes, 6);
    assert(crate::bytes::be_bytes(0, 4) == seq![0u8, 0u8, 0u8, 0u8]);
    assert(crate::bytes::be_bytes(32, 4) == seq![0u8, 0u8, 0u8, 32u8]);
    assert(accepted@ == seq![0x02u8, 0u8, 0u8, 0u8, 0u8]);
    assert(completed@ == seq![0x20u8, 0u8, 0u8, 0u8, 32u8] + sender@.digest);
}

/// A piece of the file arrives as it was sent: the receiver hands out the same bytes
/// and counts them, and the piece says where in the file it stands.
pub proof fn pieces_arrive_as_sent(
    sending: &mut Sender,
    data: &[u8],
    sent: (Vec<u8>, TransferProgress),
    receiving: &mut Receiver,
    frame_type: u8,
    payload: &[u8],
    out: Result<Received, TransferError>,
)
    requires
        old(sending)@.offset + data@.len() <= u64::MAX,
        call_ensures(Sender::next_chunk, (sending, data), sent),
        frame_type == sent.0@[0],
        payload@ == sent.0@.skip(5),
        old(receiving).wf(),
        old(receiving)@.received + payload@.len() <= crate::hashing::MAX_DIGEST_INPUT,
        call_ensures(Receiver::on_frame, (receiving, frame_type, payload), out),
    ensures
        out matches Ok(Received::Chunk { data: piece, progress }) && piece@ == data@
            && progress.bytes_transferred == old(receiving)@.received + data@.len()
            && progress.total_bytes == old(receiving)@.offer.size,
        crate::bytes::be_value(payload@.take(8)) == old(sending)@.offset,
        sent.1.bytes_transferred == old(sending)@.offset + data@.len(),
        sent.1.total_bytes == old(sending)@.size,
        final(sending)@.offset == old(sending)@.offset + data@.len(),
        final(receiving)@.received == old(receiving)@.received + data@.len(),
        old(receiving)@.data matches Some(before) ==> final(receiving)@.data == Some(
            before + data@,
        ),
{
    let offset = old(sending)@.offset as nat;
    let inner = chunk_payload(old(sending)@.offset, data@);
    crate::bytes::lemma_be_bytes_len(offset, 8);
    crate::bytes::lemma_be_bytes_len(inner.len(), 4);
    assert(offset < crate::bytes::pow256(8)) by {
        reveal_with_fuel(crate::bytes::pow256, 9);
    }
    crate::bytes::lemma_be_round_trip(offset, 8);
    assert(sent.0@.skip(5) == inner);
    assert(inner.take(8) == crate::bytes::be_bytes(offset, 8));
    assert(inner.skip(8) == data@);
}

/// A file that is sent whole is verified: the receiver takes the completion exactly
/// if the offered digest is that of the bytes it received, and then reports the name
/// of the offer, the number of bytes and the digest.
pub proof fn whole_files_are_verified(
    name: String,
    size: u64,
    digest: [u8; 32],
    fresh: Sender,
    offer: FileOffer,
    sending: &mut Sender,
    data: &[u8],
    sent: (Vec<u8>, TransferProgress),
    completed: Vec<u8>,
    empty: Receiver,
    receiving: &mut Receiver,
    payload: &[u8],
    out: Result<Received, TransferError>,
    ending: &mut Receiver,
    last_payload: &[u8],
    end: Result<Received, TransferError>,
)
    requires
        call_ensures(Sender::new, (name, size, digest), fresh),
        call_ensures(Sender::offer, (&fresh,), offer),
        *old(sending) == fresh,
        call_ensures(Sender::next_chunk, (sending, data), sent),
        call_ensures(Sender::completion, (&*final(sending),), completed),
        call_ensures(Receiver::new, (offer,), empty),
        *old(receiving) == empty,
        data@.len() + 8 <= crate::hashing::MAX_DIGEST_INPUT,
        payload@ == sent.0@.skip(5),
        call_ensures(Receiver::on_frame, (receiving, 0x10u8, payload), out),
        *old(ending) == *final(receiving),
        last_payload@ == completed@.skip(5),
        call_ensures(Receiver::on_frame, (ending, 0x20u8, last_payload), end),
    ensures
        offer.name@ == name@,
        offer.size == size,
        offer.sha256@ == crate::text::hex(digest@),
        out matches Ok(Received::Chunk { data: piece, .. }) && piece@ == data@,
        end is Ok <==> digest@ == crate::hashing::sha256(data@),
        end matches Ok(received) ==> (received matches Received::Verified { sha256 } && sha256@
            == offer.sha256@),
        digest@ != crate::hashing::sha256(data@) ==> (
        end matches Err(TransferError::HashMismatch { expected, actual }) && expected@
            == offer.sha256@ && actual@ == crate::text::hex(crate::hashing::sha256(data@))),
{
    let inner = chunk_payload(0, data@);
    crate::bytes::lemma_be_bytes_len(0, 8);
    crate::bytes::lemma_be_bytes_len(inner.len(), 4);
    crate::bytes::lemma_be_bytes_len(32, 4);
    assert(sent.0@.skip(5) == inner);
    assert(inner.skip(8) == data@);
    assert(final(receiving)@.data == Some(data@)) by {
        assert(Seq::<u8>::empty() + data@ == data@);
    }
    assert(completed@.skip(5) == digest@);
    assert(digest@.take(32) == digest@);
}

/// An acknowledgement says how many bytes were received.
pub proof fn acknowledgements_count_the_bytes(
    receiver: &Receiver,
    frame: Vec<u8>,
    sender: &Sender,
    frame_type: u8,
    payload: &[u8],
    acked: Result<Option<u64>, TransferError>,
)
    requires
        call_ensures(Receiver::ack, (receiver,), frame),
        frame_type == frame@[0],
        payload@ == frame@.skip(5),
        call_ensures(Sender::on_ack, (sender, frame_type, payload), acked),
    ensures
        acked == Ok::<Option<u64>, TransferError>(Some(receiver@.received)),
{
    let received = receiver@.received as nat;
    crate::bytes::lemma_be_bytes_len(received, 8);
    crate::bytes::lemma_be_bytes_len(8, 4);
    assert(received < crate::bytes::pow256(8)) by {
        reveal_with_fuel(crate::bytes::pow256, 9);
    }
    crate::bytes::lemma_be_round_trip(received, 8);
    assert(frame@.skip(5) == crate::bytes::be_bytes(received, 8));
    assert(frame@.skip(5).take(8) == frame@.skip(5));
}

/// An offer is answered by 0x02 or refused by 0x03, with the reason where one is
/// given; anything else is no answer.
pub proof fn offers_are_accepted_or_refused(
    sender: &Sender,
    frame_type: u8,
    reason: Option<FileRejectReason>,
    out: Result<(), TransferError>,
    declined: (FileRejectReason, TransferError),
)
    requires
        call_ensures(Sender::on_answer, (sender, frame_type, reason), out),
        call_ensures(decline, (), declined),
    ensures
        out is Ok <==> frame_type == 0x02,
        frame_type == 0x03 ==> (out matches Err(TransferError::Rejected(text)) && (
        reason matches Some(given) ==> text@ == given.reason@)),
        frame_type != 0x02 && frame_type != 0x03 ==> (
        out matches Err(TransferError::UnexpectedFrame(kind)) && kind == frame_type),
        declined.1 matches TransferError::Rejected(text) && text@ == declined.0.reason@,
{
}

/// Both sides report the transfer by the name of the file, its size and the digest in
/// hexadecimal.
pub proof fn results_name_the_file(
    sender: Sender,
    sent: TransferResult,
    receiver: Receiver,
    sha256: String,
    received: TransferResult,
)
    requires
        call_ensures(Sender::result, (sender,), sent),
        call_ensures(Receiver::result, (receiver, sha256), received),
    ensures
        sent.file_name@ == sender@.name,
        sent.file_size == sender@.size,
        sent.sha256@ == crate::text::hex(sender@.digest),
        received.file_name@ == receiver@.offer.name,
        received.file_size == receiver@.received,
        received.sha256@ == sha256@,
{
}

/// What the errors of a transfer say.
pub proof fn transfer_errors_say_what_is_wrong(error: TransferError, text: String)
    requires
        call_ensures(TransferError::message, (&error,), text),
    ensures
        match error {
            TransferError::PayloadTooLarge(len) => text@
                == "transfer error: frame payload too large: "@ + crate::text::decimal(len as nat)
                + " bytes"@,
            TransferError::Rejected(reason) => text@ == "transfer rejected: "@ + reason@,
            TransferError::UnexpectedFrame(kind) => text@ == "unexpected frame type: 0x"@
                + crate::text::hex(seq![kind]),
            TransferError::ChunkTooShort => text@ == "transfer error: data chunk too short"@,
            TransferError::HashTooShort => text@
                == "transfer error: transfer complete hash too short"@,
            TransferError::HasherConsumed => text@ == "transfer error: hasher already consumed"@,
            TransferError::HashMismatch { expected, actual } => text@
                == "file hash mismatch: expected "@ + expected@ + ", got "@ + actual@,
        },
{
    if let TransferError::UnexpectedFrame(kind) = error {
        reveal_with_fuel(crate::text::hex, 2);
        assert(crate::text::hex(seq![kind]) == crate::text::hex_byte(kind));
    }
}

/// A transfer starts with an offer, is kept under a hidden name until it is complete,
/// and goes on while the digest has room; a digest is told in hexadecimal.
pub proof fn transfers_start_with_an_offer(
    frame_type: u8,
    out: Result<(), TransferError>,
    name: &str,
    temp: String,
    digest: &[u8],
    text: String,
    receiver: &Receiver,
    len: usize,
    room: bool,
)
    requires
        call_ensures(check_offer_frame, (frame_type,), out),
        call_ensures(temp_name, (name,), temp),
        call_ensures(digest_to_hex, (digest,), text),
        call_ensures(Receiver::has_room, (receiver, len), room),
    ensures
        out is Ok <==> frame_type == 0x01,
        out matches Err(error) ==> (error matches TransferError::UnexpectedFrame(kind) && kind
            == frame_type),
        temp@ == "."@ + name@ + ".tmp"@,
        text@.len() == 2 * digest@.len(),
        text@ == crate::text::hex(digest@),
        room <==> 8 * (receiver@.received + len) <= 0xFFFF_FFFF_FFFF_FFFFu64,
{
    crate::text::lemma_hex_digits(digest@);
}

} // verus!
