//! The byte format of a replicated write.
//!
//! A frame is a fixed header, the entity name, the record id, the payload and
//! a signature trailer. Every number is big-endian.
use vstd::prelude::*;
use crate::bytes::{get_be, put_be, utf8_text};
use crate::hlc::{Hlc, PeerId, Stamp};
use crate::lww::{Op, StampedWrite};
use crate::text::put_decimal;

verus! {

pub const WIRE_VERSION: u8 = 2;

pub const HEADER_LEN: usize = 60;

pub const SIGNATURE_LEN: usize = 64;

const OP_INSERT: u8 = 0;

const OP_UPDATE: u8 = 1;

const OP_DELETE: u8 = 2;

/// Why a frame could not be read or written.
#[derive(Debug, Clone, Copy, PartialEq, Eq, Structural)]
pub enum WireError {
    Truncated { need: usize, have: usize },
    BadVersion(u8),
    BadOp(u8),
    EntityTooLong,
    IdTooLong,
    Utf8,
    BadSignatureFlag(u8),
}

/// The sentence that describes a [`WireError`].
pub open spec fn wire_error_text(error: WireError) -> Seq<char> {
    match error {
        WireError::Truncated { need, have } => "frame truncated: need "@ + crate::text::decimal(
            need as nat,
        ) + " bytes, have "@ + crate::text::decimal(have as nat),
        WireError::BadVersion(v) => "unsupported wire version "@ + crate::text::decimal(v as nat),
        WireError::BadOp(b) => "unknown op discriminant "@ + crate::text::decimal(b as nat),
        WireError::EntityTooLong => "entity name exceeds 255 bytes"@,
        WireError::IdTooLong => "id exceeds 255 bytes"@,
        WireError::Utf8 => "entity or id is not valid UTF-8"@,
        WireError::BadSignatureFlag(b) => "invalid signature presence flag "@
            + crate::text::decimal(b as nat),
    }
}

impl WireError {
    /// The error as a sentence.
    pub fn message(&self) -> (text: String)
        ensures
            text@ == wire_error_text(*self),
    {
        match self {
            WireError::Truncated { need, have } => {
                let mut out = "frame truncated: need ".to_string();
                put_decimal(&mut out, *need as u64);
                out.append(" bytes, have ");
                put_decimal(&mut out, *have as u64);
                out
            },
            WireError::BadVersion(version) => {
                let mut out = "unsupported wire version ".to_string();
                put_decimal(&mut out, *version as u64);
                out
            },
            WireError::BadOp(byte) => {
                let mut out = "unknown op discriminant ".to_string();
                put_decimal(&mut out, *byte as u64);
                out
            },
            WireError::EntityTooLong => "entity name exceeds 255 bytes".to_string(),
            WireError::IdTooLong => "id exceeds 255 bytes".to_string(),
            WireError::Utf8 => "entity or id is not valid UTF-8".to_string(),
            WireError::BadSignatureFlag(byte) => {
                let mut out = "invalid signature presence flag ".to_string();
                put_decimal(&mut out, *byte as u64);
                out
            },
        }
    }
}

/// A replicated write as it travels between peers.
#[derive(Debug, PartialEq, Eq)]
pub struct WriteFrame {
    pub stamp: Stamp,
    pub seq: u64,
    pub op: Op,
    pub entity: String,
    pub id: String,
    pub data: Vec<u8>,
    /// Ed25519 signature over [`WriteFrame::signing_bytes`] by the author
    /// (`stamp.peer` is the author's public key). `None` for unsigned frames.
    pub signature: Option<[u8; 64]>,
}

/// The mathematical content of a [`WriteFrame`].
#[verifier::ext_equal]
pub struct FrameModel {
    pub stamp: Stamp,
    pub seq: u64,
    pub op: Op,
    pub entity: Seq<char>,
    pub id: Seq<char>,
    pub data: Seq<u8>,
    pub signature: Option<[u8; 64]>,
}

impl View for WriteFrame {
    type V = FrameModel;

    open spec fn view(&self) -> FrameModel {
        FrameModel {
            stamp: self.stamp,
            seq: self.seq,
            op: self.op,
            entity: self.entity@,
            id: self.id@,
            data: self.data@,
            signature: self.signature,
        }
    }
}

impl FrameModel {
    /// The write that the frame carries.
    pub open spec fn stamped(self) -> crate::lww::WriteModel {
        crate::lww::WriteModel {
            stamp: self.stamp,
            op: self.op,
            entity: self.entity,
            id: self.id,
            data: self.data,
        }
    }

    /// UTF-8 bytes of the entity name.
    pub open spec fn entity_bytes(self) -> Seq<u8> {
        vstd::utf8::encode_utf8(self.entity)
    }

    /// UTF-8 bytes of the record id.
    pub open spec fn id_bytes(self) -> Seq<u8> {
        vstd::utf8::encode_utf8(self.id)
    }

    /// The names fit their one-byte lengths.
    pub open spec fn names_fit(self) -> bool {
        self.entity_bytes().len() <= 255 && self.id_bytes().len() <= 255
    }

    /// The fixed header.
    pub open spec fn header(self) -> Seq<u8> {
        seq![WIRE_VERSION, op_byte(self.op)]
            + crate::bytes::be_bytes(self.stamp.hlc.physical as nat, 8)
            + crate::bytes::be_bytes(self.stamp.hlc.logical as nat, 4) + self.stamp.peer@
            + crate::bytes::be_bytes(self.seq as nat, 8)
            + seq![self.entity_bytes().len() as u8, self.id_bytes().len() as u8]
            + crate::bytes::be_bytes(self.data.len(), 4)
    }

    /// What a signature covers: the header, both names and the payload.
    pub open spec fn signed_part(self) -> Seq<u8> {
        self.header() + self.entity_bytes() + self.id_bytes() + self.data
    }

    /// The signature trailer: a presence flag, then the signature if any.
    pub open spec fn trailer(self) -> Seq<u8> {
        match self.signature {
            Some(signature) => seq![1u8] + signature@,
            None => seq![0u8],
        }
    }

    /// The whole frame.
    pub open spec fn encoded(self) -> Seq<u8> {
        self.signed_part() + self.trailer()
    }
}

/// The byte that stands for an op.
pub open spec fn op_byte(op: Op) -> u8 {
    match op {
        Op::Insert => 0,
        Op::Update => 1,
        Op::Delete => 2,
    }
}

/// A length as reported in [`WireError::Truncated`], capped at the largest
/// number a `usize` holds.
pub open spec fn reported_len(n: int) -> usize {
    if n <= usize::MAX {
        n as usize
    } else {
        usize::MAX
    }
}

/// Where the entity name of the frame in `buf` ends.
pub open spec fn entity_end(buf: Seq<u8>) -> int {
    60 + buf[54]
}

/// Where the id of the frame in `buf` ends.
pub open spec fn id_end(buf: Seq<u8>) -> int {
    entity_end(buf) + buf[55]
}

/// Where the payload of the frame in `buf` ends.
pub open spec fn data_end(buf: Seq<u8>) -> int {
    id_end(buf) + crate::bytes::be_value(buf.subrange(56, 60))
}

/// Why `buf` does not start with a frame, if it does not.
pub open spec fn decode_error(buf: Seq<u8>) -> Option<WireError> {
    let have = reported_len(buf.len() as int);
    if buf.len() < HEADER_LEN {
        Some(WireError::Truncated { need: HEADER_LEN, have })
    } else if buf[0] != WIRE_VERSION {
        Some(WireError::BadVersion(buf[0]))
    } else if buf[1] > 2 {
        Some(WireError::BadOp(buf[1]))
    } else if buf.len() < data_end(buf) + 1 {
        Some(WireError::Truncated { need: reported_len(data_end(buf) + 1), have })
    } else if !vstd::utf8::valid_utf8(buf.subrange(60, entity_end(buf)))
        || !vstd::utf8::valid_utf8(buf.subrange(entity_end(buf), id_end(buf))) {
        Some(WireError::Utf8)
    } else if buf[data_end(buf)] > 1 {
        Some(WireError::BadSignatureFlag(buf[data_end(buf)]))
    } else if buf[data_end(buf)] == 1 && buf.len() < data_end(buf) + 1 + SIGNATURE_LEN {
        Some(WireError::Truncated { need: reported_len(data_end(buf) + 1 + SIGNATURE_LEN), have })
    } else {
        None
    }
}

/// `frame` is what stands at the start of `buf`, field by field.
pub open spec fn stands_in(frame: FrameModel, buf: Seq<u8>) -> bool {
    &&& op_byte(frame.op) == buf[1]
    &&& frame.stamp.hlc.physical as nat == crate::bytes::be_value(buf.subrange(2, 10))
    &&& frame.stamp.hlc.logical as nat == crate::bytes::be_value(buf.subrange(10, 14))
    &&& frame.stamp.peer@ == buf.subrange(14, 46)
    &&& frame.seq as nat == crate::bytes::be_value(buf.subrange(46, 54))
    &&& frame.entity == vstd::utf8::decode_utf8(buf.subrange(60, entity_end(buf)))
    &&& frame.id == vstd::utf8::decode_utf8(
        buf.subrange(entity_end(buf), id_end(buf)),
    )
    &&& frame.data == buf.subrange(id_end(buf), data_end(buf))
    &&& match frame.signature {
        None => buf[data_end(buf)] == 0,
        Some(signature) => buf[data_end(buf)] == 1 && signature@ == buf.subrange(
            data_end(buf) + 1,
            data_end(buf) + 65,
        ),
    }
}

/// The byte that stands for an op.
pub fn op_to_u8(op: Op) -> (byte: u8)
    ensures
        byte == op_byte(op),
{
    match op {
        Op::Insert => OP_INSERT,
        Op::Update => OP_UPDATE,
        Op::Delete => OP_DELETE,
    }
}

/// The op that a byte stands for.
pub fn u8_to_op(byte: u8) -> (op: Result<Op, WireError>)
    ensures
        op matches Ok(o) ==> byte == op_byte(o),
        op matches Err(e) ==> byte > 2 && e == WireError::BadOp(byte),
{
    match byte {
        OP_INSERT => Ok(Op::Insert),
        OP_UPDATE => Ok(Op::Update),
        OP_DELETE => Ok(Op::Delete),
        other => Err(WireError::BadOp(other)),
    }
}

fn peer_at(buf: &[u8], at: usize) -> (peer: PeerId)
    requires
        at + 32 <= buf@.len(),
    ensures
        peer@ == buf@.subrange(at as int, at + 32),
{
    let len = buf.len();
    let mut peer: PeerId = [0u8; 32];
    let mut i: usize = 0;
    while i < 32
        invariant
            i <= 32,
            at + 32 <= len,
            len == buf@.len(),
            forall|j: int| 0 <= j < i ==> peer@[j] == buf@[at + j],
        decreases 32 - i,
    {
        peer[i] = buf[at + i];
        i = i + 1;
    }
    assert(peer@ =~= buf@.subrange(at as int, at + 32));
    peer
}

fn signature_at(buf: &[u8], at: usize) -> (signature: [u8; 64])
    requires
        at + 64 <= buf@.len(),
    ensures
        signature@ == buf@.subrange(at as int, at + 64),
{
    let len = buf.len();
    let mut signature: [u8; 64] = [0u8; 64];
    let mut i: usize = 0;
    while i < 64
        invariant
            i <= 64,
            at + 64 <= len,
            len == buf@.len(),
            forall|j: int| 0 <= j < i ==> signature@[j] == buf@[at + j],
        decreases 64 - i,
    {
        signature[i] = buf[at + i];
        i = i + 1;
    }
    assert(signature@ =~= buf@.subrange(at as int, at + 64));
    signature
}

impl Clone for WriteFrame {
    fn clone(&self) -> (copy: Self)
        ensures
            copy@ == self@,
    {
        WriteFrame {
            stamp: self.stamp,
            seq: self.seq,
            op: self.op,
            entity: self.entity.clone(),
            id: self.id.clone(),
            data: self.data.clone(),
            signature: self.signature,
        }
    }
}

impl WriteFrame {
    #[must_use]
    pub fn into_stamped(self) -> (write: StampedWrite)
        ensures
            write@ == self@.stamped(),
    {
        StampedWrite {
            stamp: self.stamp,
            op: self.op,
            entity: self.entity,
            id: self.id,
            data: self.data,
        }
    }

    /// The bytes a signature covers: everything but the signature trailer.
    /// Stable across signed/unsigned framing so a signature verifies regardless
    /// of how the frame is later re-encoded.
    pub fn signing_bytes(&self) -> (out: Result<Vec<u8>, WireError>)
        requires
            self@.names_fit() ==> self@.data.len() <= u32::MAX,
        ensures
            match out {
                Ok(bytes) => self@.names_fit() && bytes@ == self@.signed_part(),
                Err(WireError::EntityTooLong) => self@.entity_bytes().len() > 255,
                Err(e) => e == WireError::IdTooLong && self@.entity_bytes().len() <= 255
                    && self@.id_bytes().len() > 255,
            },
    {
        let entity_bytes = self.entity.as_str().as_bytes();
        let id_bytes = self.id.as_str().as_bytes();
        if entity_bytes.len() > 255 {
            return Err(WireError::EntityTooLong);
        }
        if id_bytes.len() > 255 {
            return Err(WireError::IdTooLong);
        }
        let mut out: Vec<u8> = Vec::new();
        out.push(WIRE_VERSION);
        out.push(op_to_u8(self.op));
        put_be(&mut out, self.stamp.hlc.physical, 8);
        put_be(&mut out, self.stamp.hlc.logical as u64, 4);
        out.extend_from_slice(self.stamp.peer.as_slice());
        put_be(&mut out, self.seq, 8);
        out.push(entity_bytes.len() as u8);
        out.push(id_bytes.len() as u8);
        put_be(&mut out, self.data.len() as u64, 4);
        assert(out@ =~= self@.header());
        out.extend_from_slice(entity_bytes);
        out.extend_from_slice(id_bytes);
        out.extend_from_slice(self.data.as_slice());
        assert(out@ =~= self@.signed_part());
        Ok(out)
    }

    /// The whole frame as bytes.
    pub fn encode(&self) -> (out: Result<Vec<u8>, WireError>)
        requires
            self@.names_fit() ==> self@.data.len() <= u32::MAX,
        ensures
            match out {
                Ok(bytes) => self@.names_fit() && bytes@ == self@.encoded(),
                Err(WireError::EntityTooLong) => self@.entity_bytes().len() > 255,
                Err(e) => e == WireError::IdTooLong && self@.entity_bytes().len() <= 255
                    && self@.id_bytes().len() > 255,
            },
    {
        let mut out = match self.signing_bytes() {
            Ok(bytes) => bytes,
            Err(error) => return Err(error),
        };
        match &self.signature {
            Some(signature) => {
                out.push(1);
                out.extend_from_slice(signature.as_slice());
            },
            None => out.push(0),
        }
        assert(out@ =~= self@.encoded());
        Ok(out)
    }

    /// Reads the frame at the start of `buf`. Bytes after it are ignored.
    pub fn decode(buf: &[u8]) -> (out: Result<Self, WireError>)
        ensures
            match out {
                Ok(frame) => decode_error(buf@) is None && stands_in(frame@, buf@),
                Err(error) => decode_error(buf@) == Some(error),
            },
    {
        let have = buf.len();
        if have < HEADER_LEN {
            return Err(WireError::Truncated { need: HEADER_LEN, have });
        }
        let version = buf[0];
        if version != WIRE_VERSION {
            return Err(WireError::BadVersion(version));
        }
        let op = match u8_to_op(buf[1]) {
            Ok(op) => op,
            Err(error) => return Err(error),
        };
        proof {
            crate::bytes::lemma_pow256_widths();
        }
        let physical = get_be(buf, 2, 8);
        let logical = get_be(buf, 10, 4) as u32;
        let peer = peer_at(buf, 14);
        let seq = get_be(buf, 46, 8);
        let entity_end: usize = HEADER_LEN + buf[54] as usize;
        let id_end: usize = entity_end + buf[55] as usize;
        let data_len = get_be(buf, 56, 4);
        let flag_end: u64 = id_end as u64 + data_len + 1;
        if (have as u64) < flag_end {
            let need = if flag_end <= usize::MAX as u64 {
                flag_end as usize
            } else {
                usize::MAX
            };
            return Err(WireError::Truncated { need, have });
        }
        let data_end: usize = id_end + data_len as usize;
        let entity = match utf8_text(vstd::slice::slice_subrange(buf, HEADER_LEN, entity_end)) {
            Some(text) => text.to_string(),
            None => return Err(WireError::Utf8),
        };
        let id = match utf8_text(vstd::slice::slice_subrange(buf, entity_end, id_end)) {
            Some(text) => text.to_string(),
            None => return Err(WireError::Utf8),
        };
        let data = vstd::slice::slice_to_vec(vstd::slice::slice_subrange(buf, id_end, data_end));
        let signature = match buf[data_end] {
            0 => None,
            1 => {
                if have - data_end < 1 + SIGNATURE_LEN {
                    let need = if data_end <= usize::MAX - (1 + SIGNATURE_LEN) {
                        data_end + 1 + SIGNATURE_LEN
                    } else {
                        usize::MAX
                    };
                    return Err(WireError::Truncated { need, have });
                }
                Some(signature_at(buf, data_end + 1))
            },
            other => return Err(WireError::BadSignatureFlag(other)),
        };
        Ok(
            WriteFrame {
                stamp: Stamp::new(Hlc::new(physical, logical), peer),
                seq,
                op,
                entity,
                id,
                data,
                signature,
            },
        )
    }

    /// How many bytes [`WriteFrame::encode`] produces.
    #[must_use]
    pub fn encoded_len(&self) -> (len: usize)
        requires
            self@.encoded().len() <= usize::MAX,
        ensures
            len == self@.encoded().len(),
    {
        proof {
            lemma_encoded_len(self@);
        }
        HEADER_LEN + self.entity.as_str().as_bytes().len() + self.id.as_str().as_bytes().len() + self.data.len() + 1
            + if self.signature.is_some() {
            SIGNATURE_LEN
        } else {
            0
        }
    }
}

proof fn lemma_encoded_len(frame: FrameModel)
    ensures
        frame.header().len() == 60,
        frame.encoded().len() == 61 + frame.entity_bytes().len() + frame.id_bytes().len()
            + frame.data.len() + (if frame.signature is Some {
            64int
        } else {
            0
        }),
{
    crate::bytes::lemma_be_bytes_len(frame.stamp.hlc.physical as nat, 8);
    crate::bytes::lemma_be_bytes_len(frame.stamp.hlc.logical as nat, 4);
    crate::bytes::lemma_be_bytes_len(frame.seq as nat, 8);
    crate::bytes::lemma_be_bytes_len(frame.data.len(), 4);
}

/// Where each part of an encoded frame stands.
proof fn lemma_layout(frame: FrameModel, buf: Seq<u8>)
    requires
        frame.names_fit(),
        frame.data.len() <= u32::MAX,
        buf.len() >= frame.signed_part().len(),
        buf.take(frame.signed_part().len() as int) == frame.signed_part(),
    ensures
        buf.len() >= 60,
        buf[0] == WIRE_VERSION,
        buf[1] == op_byte(frame.op),
        buf.subrange(2, 10) == crate::bytes::be_bytes(frame.stamp.hlc.physical as nat, 8),
        buf.subrange(10, 14) == crate::bytes::be_bytes(frame.stamp.hlc.logical as nat, 4),
        buf.subrange(14, 46) == frame.stamp.peer@,
        buf.subrange(46, 54) == crate::bytes::be_bytes(frame.seq as nat, 8),
        entity_end(buf) == 60 + frame.entity_bytes().len(),
        id_end(buf) == entity_end(buf) + frame.id_bytes().len(),
        data_end(buf) == id_end(buf) + frame.data.len(),
        data_end(buf) == frame.signed_part().len(),
        buf.subrange(60, entity_end(buf)) == frame.entity_bytes(),
        buf.subrange(entity_end(buf), id_end(buf)) == frame.id_bytes(),
        buf.subrange(id_end(buf), data_end(buf)) == frame.data,
{
    lemma_encoded_len(frame);
    crate::bytes::lemma_be_bytes_len(frame.stamp.hlc.physical as nat, 8);
    crate::bytes::lemma_be_bytes_len(frame.stamp.hlc.logical as nat, 4);
    crate::bytes::lemma_be_bytes_len(frame.seq as nat, 8);
    crate::bytes::lemma_pow256_widths();
    crate::bytes::lemma_be_round_trip(frame.data.len(), 4);
    let h = frame.header();
    let part = frame.signed_part();
    assert forall|i: int| 0 <= i < part.len() implies buf[i] == part[i] by {
        assert(buf.take(part.len() as int)[i] == buf[i]);
    }
    assert forall|i: int| 0 <= i < 60 implies part[i] == h[i] by {}
    assert(buf.subrange(2, 10) =~= crate::bytes::be_bytes(frame.stamp.hlc.physical as nat, 8));
    assert(buf.subrange(10, 14) =~= crate::bytes::be_bytes(frame.stamp.hlc.logical as nat, 4));
    assert(buf.subrange(14, 46) =~= frame.stamp.peer@);
    assert(buf.subrange(46, 54) =~= crate::bytes::be_bytes(frame.seq as nat, 8));
    assert(buf.subrange(56, 60) =~= crate::bytes::be_bytes(frame.data.len(), 4));
    assert(buf.subrange(60, entity_end(buf)) =~= frame.entity_bytes());
    assert(buf.subrange(entity_end(buf), id_end(buf)) =~= frame.id_bytes());
    assert(buf.subrange(id_end(buf), data_end(buf)) =~= frame.data);
}

/// Two frames that stand at the start of the same bytes are the same frame.
pub proof fn decoded_frame_is_unique(a: FrameModel, b: FrameModel, buf: Seq<u8>)
    requires
        stands_in(a, buf),
        stands_in(b, buf),
    ensures
        a == b,
{
    assert(a.stamp.peer =~= b.stamp.peer);
    if a.signature is Some && b.signature is Some {
        assert(a.signature->0 =~= b.signature->0);
    }
    assert(a =~= b);
}

/// Decoding gives back what was encoded, whatever bytes follow.
pub proof fn decode_inverts_encode(frame: FrameModel, rest: Seq<u8>)
    requires
        frame.names_fit(),
        frame.data.len() <= u32::MAX,
    ensures
        decode_error(frame.encoded() + rest) is None,
        stands_in(frame, frame.encoded() + rest),
        forall|other: FrameModel|
            #[trigger] stands_in(other, frame.encoded() + rest) ==> other == frame,
{
    let buf = frame.encoded() + rest;
    let part = frame.signed_part();
    assert(buf.take(part.len() as int) =~= part);
    lemma_layout(frame, buf);
    lemma_encoded_len(frame);
    crate::bytes::lemma_pow256_widths();
    crate::bytes::lemma_be_round_trip(frame.stamp.hlc.physical as nat, 8);
    crate::bytes::lemma_be_round_trip(frame.stamp.hlc.logical as nat, 4);
    crate::bytes::lemma_be_round_trip(frame.seq as nat, 8);
    vstd::utf8::encode_utf8_valid_utf8(frame.entity);
    vstd::utf8::encode_utf8_valid_utf8(frame.id);
    vstd::utf8::encode_utf8_decode_utf8(frame.entity);
    vstd::utf8::encode_utf8_decode_utf8(frame.id);
    if let Some(signature) = frame.signature {
        assert(buf.subrange(data_end(buf) + 1, data_end(buf) + 65) =~= signature@);
    }
    assert forall|other: FrameModel| #[trigger] stands_in(other, buf) implies other == frame by {
        decoded_frame_is_unique(other, frame, buf);
    }
}

/// Encoding gives back the bytes that were decoded: no two byte strings stand
/// for the same frame.
pub proof fn encode_inverts_decode(buf: Seq<u8>, frame: FrameModel)
    requires
        decode_error(buf) is None,
        stands_in(frame, buf),
    ensures
        frame.names_fit(),
        frame.data.len() <= u32::MAX,
        frame.encoded().len() <= buf.len(),
        frame.encoded() == buf.take(frame.encoded().len() as int),
{
    let entity_part = buf.subrange(60, entity_end(buf));
    let id_part = buf.subrange(entity_end(buf), id_end(buf));
    vstd::utf8::decode_utf8_encode_utf8(entity_part);
    vstd::utf8::decode_utf8_encode_utf8(id_part);
    crate::bytes::lemma_be_unique(buf.subrange(2, 10));
    crate::bytes::lemma_be_unique(buf.subrange(10, 14));
    crate::bytes::lemma_be_unique(buf.subrange(46, 54));
    crate::bytes::lemma_be_unique(buf.subrange(56, 60));
    crate::bytes::lemma_be_value_bound(buf.subrange(56, 60));
    crate::bytes::lemma_pow256_widths();
    lemma_encoded_len(frame);
    assert(frame.header() =~= buf.take(60));
    assert(frame.signed_part() =~= buf.take(data_end(buf)));
    assert(frame.encoded() =~= buf.take(frame.encoded().len() as int));
}

/// A signature covers the same bytes whether or not the frame carries one.
pub proof fn signed_part_ignores_signature(frame: FrameModel, signature: Option<[u8; 64]>)
    ensures
        (FrameModel { signature, ..frame }).signed_part() == frame.signed_part(),
{
}

/// Every frame that was cut short is refused as truncated. The error says how
/// many bytes there are, and asks for more than that but for no more than the
/// whole frame.
pub proof fn cut_frame_is_truncated(frame: FrameModel, n: nat)
    requires
        frame.names_fit(),
        frame.data.len() <= u32::MAX,
        n < frame.encoded().len(),
    ensures
        decode_error(frame.encoded().take(n as int)) matches Some(
            WireError::Truncated { need, have },
        ) && have == reported_len(n as int) && need <= frame.encoded().len() && (n < usize::MAX
            ==> have == n && n < need),
{
    let whole = frame.encoded();
    let cut = whole.take(n as int);
    let part = frame.signed_part();
    lemma_encoded_len(frame);
    assert(whole.take(part.len() as int) =~= part);
    lemma_layout(frame, whole);
    vstd::utf8::encode_utf8_valid_utf8(frame.entity);
    vstd::utf8::encode_utf8_valid_utf8(frame.id);
    if n >= 60 {
        assert(cut.subrange(56, 60) =~= whole.subrange(56, 60));
        if n > data_end(whole) {
            assert(cut.subrange(60, entity_end(cut)) =~= frame.entity_bytes());
            assert(cut.subrange(entity_end(cut), id_end(cut)) =~= frame.id_bytes());
        }
    }
}

/// The layout of a frame, byte by byte: version 2; the operation; the stamp's
/// physical and logical parts; the peer; the sequence number; the lengths of both
/// names and of the data, all big-endian; then names and data; then zero, or one
/// and the signature.
pub proof fn frames_are_laid_out_as_agreed(frame: FrameModel)
    requires
        frame.names_fit(),
        frame.data.len() <= u32::MAX,
    ensures
        ({
            let bytes = frame.encoded();
            let entity = vstd::utf8::encode_utf8(frame.entity);
            let id = vstd::utf8::encode_utf8(frame.id);
            let names = 60 + entity.len();
            let data = names + id.len();
            let flag = data + frame.data.len();
            &&& bytes[0] == 2
            &&& frame.op is Insert ==> bytes[1] == 0
            &&& frame.op is Update ==> bytes[1] == 1
            &&& frame.op is Delete ==> bytes[1] == 2
            &&& crate::bytes::be_value(bytes.subrange(2, 10)) == frame.stamp.hlc.physical
            &&& crate::bytes::be_value(bytes.subrange(10, 14)) == frame.stamp.hlc.logical
            &&& bytes.subrange(14, 46) == frame.stamp.peer@
            &&& crate::bytes::be_value(bytes.subrange(46, 54)) == frame.seq
            &&& bytes[54] == entity.len()
            &&& bytes[55] == id.len()
            &&& crate::bytes::be_value(bytes.subrange(56, 60)) == frame.data.len()
            &&& bytes.subrange(60, names as int) == entity
            &&& bytes.subrange(names as int, data as int) == id
            &&& bytes.subrange(data as int, flag as int) == frame.data
            &&& frame.signature is None ==> bytes.len() == flag + 1 && bytes[flag as int] == 0
            &&& frame.signature matches Some(signature) ==> bytes.len() == flag + 65
                && bytes[flag as int] == 1 && bytes.skip(flag as int + 1) == signature@
            &&& frame.signed_part() == bytes.take(flag as int)
        }),
{
    let bytes = frame.encoded();
    let part = frame.signed_part();
    lemma_encoded_len(frame);
    assert(bytes.take(part.len() as int) =~= part);
    lemma_layout(frame, bytes);
    crate::bytes::lemma_pow256_widths();
    crate::bytes::lemma_be_round_trip(frame.stamp.hlc.physical as nat, 8);
    crate::bytes::lemma_be_round_trip(frame.stamp.hlc.logical as nat, 4);
    crate::bytes::lemma_be_round_trip(frame.seq as nat, 8);
    crate::bytes::lemma_be_round_trip(frame.data.len(), 4);
    let head = seq![WIRE_VERSION, op_byte(frame.op)]
        + crate::bytes::be_bytes(frame.stamp.hlc.physical as nat, 8)
        + crate::bytes::be_bytes(frame.stamp.hlc.logical as nat, 4) + frame.stamp.peer@
        + crate::bytes::be_bytes(frame.seq as nat, 8);
    assert(head.len() == 54);
    assert(frame.header()[54] == frame.entity_bytes().len() as u8);
    assert(frame.header()[55] == frame.id_bytes().len() as u8);
    assert(bytes[54] == frame.header()[54] && bytes[55] == frame.header()[55]);
    if let Some(signature) = frame.signature {
        assert(bytes.skip(part.len() as int + 1) =~= signature@);
    }
}

/// A buffer too short for a header, of another version, with an unknown operation
/// or with a wrong signature flag is refused with the error that names what is
/// wrong.
pub proof fn malformed_frames_are_refused(frame: FrameModel, buf: Seq<u8>, byte: u8)
    requires
        frame.names_fit(),
        frame.data.len() <= u32::MAX,
    ensures
        buf.len() < 60 ==> (decode_error(buf) matches Some(WireError::Truncated { need, have })
            && need == 60 && have == buf.len()),
        byte != 2 ==> decode_error(frame.encoded().update(0, byte)) == Some(
            WireError::BadVersion(byte),
        ),
        byte > 2 ==> decode_error(frame.encoded().update(1, byte)) == Some(WireError::BadOp(byte)),
        byte > 1 ==> decode_error(
            frame.encoded().update(frame.signed_part().len() as int, byte),
        ) == Some(WireError::BadSignatureFlag(byte)),
        buf.len() >= 60 && buf[0] != 2 ==> decode_error(buf) == Some(WireError::BadVersion(buf[0])),
        buf.len() >= 60 && buf[0] == 2 && buf[1] > 2 ==> decode_error(buf) == Some(
            WireError::BadOp(buf[1]),
        ),
{
    let bytes = frame.encoded();
    let part = frame.signed_part();
    lemma_encoded_len(frame);
    assert(bytes.take(part.len() as int) =~= part);
    lemma_layout(frame, bytes);
    let flagged = bytes.update(part.len() as int, byte);
    assert(flagged.take(part.len() as int) =~= part);
    lemma_layout(frame, flagged);
    vstd::utf8::encode_utf8_valid_utf8(frame.entity);
    vstd::utf8::encode_utf8_valid_utf8(frame.id);
}

/// The write that a frame carries is its own: stamp, operation, record and data.
pub proof fn frames_carry_their_write(frame: FrameModel)
    ensures
        frame.stamped().stamp == frame.stamp,
        frame.stamped().op == frame.op,
        frame.stamped().entity == frame.entity,
        frame.stamped().id == frame.id,
        frame.stamped().data == frame.data,
        frame.names_fit() <==> vstd::utf8::encode_utf8(frame.entity).len() <= 255
            && vstd::utf8::encode_utf8(frame.id).len() <= 255,
{
}

/// What the errors of a frame say.
pub proof fn frame_errors_say_what_is_wrong(error: WireError, text: String)
    requires
        call_ensures(WireError::message, (&error,), text),
    ensures
        match error {
            WireError::Truncated { need, have } => text@ == "frame truncated: need "@
                + crate::text::decimal(need as nat) + " bytes, have "@ + crate::text::decimal(
                have as nat,
            ),
            WireError::BadVersion(v) => text@ == "unsupported wire version "@
                + crate::text::decimal(v as nat),
            WireError::BadOp(b) => text@ == "unknown op discriminant "@ + crate::text::decimal(
                b as nat,
            ),
            WireError::EntityTooLong => text@ == "entity name exceeds 255 bytes"@,
            WireError::IdTooLong => text@ == "id exceeds 255 bytes"@,
            WireError::Utf8 => text@ == "entity or id is not valid UTF-8"@,
            WireError::BadSignatureFlag(b) => text@ == "invalid signature presence flag "@
                + crate::text::decimal(b as nat),
        },
{
}

/// Frames read back: what was encoded is decoded as it was, whatever follows it, and
/// takes as many bytes as it says.
pub proof fn encoded_frames_read_back(
    frame: WriteFrame,
    bytes: Vec<u8>,
    len: usize,
    signed: Result<Vec<u8>, WireError>,
    rest: Seq<u8>,
    buf: &[u8],
    out: Result<WriteFrame, WireError>,
)
    requires
        frame.data@.len() <= u32::MAX,
        call_ensures(WriteFrame::encode, (&frame,), Ok(bytes)),
        call_ensures(WriteFrame::encoded_len, (&frame,), len),
        call_ensures(WriteFrame::signing_bytes, (&frame,), signed),
        buf@ == bytes@ + rest,
        call_ensures(WriteFrame::decode, (buf,), out),
    ensures
        out matches Ok(back) && back.stamp == frame.stamp && back.seq == frame.seq && back.op
            == frame.op && back.entity@ == frame.entity@ && back.id@ == frame.id@ && back.data@
            == frame.data@ && back.signature == frame.signature,
        len == bytes@.len(),
        signed matches Ok(part) && part@.is_prefix_of(bytes@) && bytes@.len() == part@.len() + (
        if frame.signature is Some {
            65int
        } else {
            1
        }),
{
    decode_inverts_encode(frame@, rest);
    if let Ok(back) = out {
        assert(stands_in(back@, frame@.encoded() + rest));
        assert(back@ == frame@);
    }
    assert(frame@.signed_part().is_prefix_of(frame@.encoded()));
}

/// Names of up to 255 bytes fit; of longer ones the entity is named first.
pub proof fn long_names_are_refused(
    frame: WriteFrame,
    out: Result<Vec<u8>, WireError>,
    signed: Result<Vec<u8>, WireError>,
)
    requires
        call_ensures(WriteFrame::encode, (&frame,), out),
        call_ensures(WriteFrame::signing_bytes, (&frame,), signed),
    ensures
        ({
            let entity = vstd::utf8::encode_utf8(frame.entity@).len();
            let id = vstd::utf8::encode_utf8(frame.id@).len();
            &&& out is Ok <==> entity <= 255 && id <= 255
            &&& entity > 255 ==> (out matches Err(e) && e is EntityTooLong)
            &&& entity <= 255 && id > 255 ==> (out matches Err(e) && e is IdTooLong)
            &&& signed is Ok <==> out is Ok
        }),
{
}

/// Operations are one byte and read back; no other byte is one.
pub proof fn operations_read_back(op: Op, byte: u8, back: Result<Op, WireError>, other: u8, read: Result<Op, WireError>)
    requires
        call_ensures(op_to_u8, (op,), byte),
        call_ensures(u8_to_op, (byte,), back),
        call_ensures(u8_to_op, (other,), read),
    ensures
        op is Insert ==> byte == 0,
        op is Update ==> byte == 1,
        op is Delete ==> byte == 2,
        back == Ok::<Op, WireError>(op),
        read is Ok <==> other <= 2,
        other > 2 ==> (read matches Err(WireError::BadOp(b)) && b == other),
{
}

/// The write of a frame is what the frame says.
pub proof fn frames_become_their_write(frame: WriteFrame, write: crate::lww::StampedWrite)
    requires
        call_ensures(WriteFrame::into_stamped, (frame,), write),
    ensures
        write.stamp == frame.stamp,
        write.op == frame.op,
        write.entity@ == frame.entity@,
        write.id@ == frame.id@,
        write.data@ == frame.data@,
{
    assert(write@.data == frame@.data);
}

} // verus!
