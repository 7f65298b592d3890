//! How frames are keyed and read back in an ordered key-value store.
use vstd::prelude::*;
use crate::bytes::put_be;
use crate::wire::WriteFrame;

verus! {

pub const KEY_LEN: usize = 40;

/// The key of a frame: the origin's id, then the sequence number, big-endian.
pub open spec fn key_of(peer: crate::hlc::PeerId, seq: u64) -> Seq<u8> {
    peer@ + crate::bytes::be_bytes(seq as nat, 8)
}

/// Frames are stored keyed by `origin_fingerprint || seq` (big-endian), so
/// iteration yields each origin's log in sequence order.
pub fn frame_key(frame: &WriteFrame) -> (key: [u8; 40])
    ensures
        key@ == key_of(frame@.stamp.peer, frame@.seq),
{
    let mut bytes: Vec<u8> = Vec::new();
    bytes.extend_from_slice(frame.stamp.peer.as_slice());
    put_be(&mut bytes, frame.seq, 8);
    proof {
        crate::bytes::lemma_be_bytes_len(frame.seq as nat, 8);
        assert(bytes@ =~= key_of(frame@.stamp.peer, frame@.seq));
    }
    let mut key: [u8; 40] = [0u8; 40];
    let mut i: usize = 0;
    while i < 40
        invariant
            i <= 40,
            bytes@.len() == 40,
            forall|j: int| 0 <= j < i ==> key@[j] == bytes@[j],
        decreases 40 - i,
    {
        key[i] = bytes[i];
        i = i + 1;
    }
    assert(key@ =~= bytes@);
    key
}

/// The key and value under which a frame is stored; nothing for a frame whose
/// names are too long to be encoded.
pub fn stored_entry(frame: &WriteFrame) -> (entry: Option<([u8; 40], Vec<u8>)>)
    requires
        frame@.names_fit() ==> frame@.data.len() <= u32::MAX,
    ensures
        entry is Some <==> frame@.names_fit(),
        entry matches Some((key, value)) ==> key@ == key_of(frame@.stamp.peer, frame@.seq)
            && value@ == frame@.encoded(),
{
    match frame.encode() {
        Ok(bytes) => Some((frame_key(frame), bytes)),
        Err(_) => None,
    }
}

/// The frame that stands in a stored value, if there is one.
pub open spec fn decoded(value: Seq<u8>) -> Option<crate::wire::FrameModel> {
    if crate::wire::decode_error(value) is None {
        Some(choose|frame: crate::wire::FrameModel| crate::wire::stands_in(frame, value))
    } else {
        None
    }
}

/// The frames that stand in stored values, in order; damaged values are
/// skipped.
pub open spec fn loaded(values: Seq<Vec<u8>>) -> Seq<crate::wire::FrameModel>
    decreases values.len(),
{
    if values.len() == 0 {
        Seq::empty()
    } else {
        match decoded(values.last()@) {
            Some(frame) => loaded(values.drop_last()).push(frame),
            None => loaded(values.drop_last()),
        }
    }
}

/// Reads the frames back from stored values, in the order in which the values
/// come.
pub fn load_frames(values: &Vec<Vec<u8>>) -> (frames: Vec<WriteFrame>)
    ensures
        crate::replog::frame_models(frames@) == loaded(values@),
{
    let mut out: Vec<WriteFrame> = Vec::new();
    let mut i: usize = 0;
    assert(crate::replog::frame_models(out@) =~= loaded(values@.take(0)));
    while i < values.len()
        invariant
            i <= values@.len(),
            crate::replog::frame_models(out@) == loaded(values@.take(i as int)),
        decreases values@.len() - i,
    {
        assert(values@.take(i + 1).drop_last() =~= values@.take(i as int));
        let ghost before = crate::replog::frame_models(out@);
        if let Ok(frame) = WriteFrame::decode(values[i].as_slice()) {
            proof {
                let value = values@[i as int]@;
                let chosen = choose|f: crate::wire::FrameModel| crate::wire::stands_in(f, value);
                assert(crate::wire::stands_in(frame@, value));
                crate::wire::decoded_frame_is_unique(chosen, frame@, value);
            }
            out.push(frame);
            assert(crate::replog::frame_models(out@) =~= before.push(frame@));
        }
        i = i + 1;
    }
    assert(values@.take(i as int) =~= values@);
    out
}

proof fn lemma_before_push(a: Seq<u8>, b: Seq<u8>, x: u8, y: u8)
    requires
        a.len() == b.len(),
    ensures
        crate::bytes::bytes_before(a.push(x), b.push(y)) <==> crate::bytes::bytes_before(a, b) || (
        a == b && x < y),
    decreases a.len(),
{
    reveal_with_fuel(crate::bytes::bytes_before, 2);
    if a.len() == 0 {
        assert(a =~= b);
        assert(a.push(x).skip(1) =~= Seq::empty());
        assert(b.push(y).skip(1) =~= Seq::empty());
    } else {
        assert(a.push(x).skip(1) =~= a.skip(1).push(x));
        assert(b.push(y).skip(1) =~= b.skip(1).push(y));
        lemma_before_push(a.skip(1), b.skip(1), x, y);
        if a[0] == b[0] && a.skip(1) == b.skip(1) {
            assert forall|i: int| 0 <= i < a.len() implies a[i] == b[i] by {
                if i > 0 {
                    assert(a[i] == a.skip(1)[i - 1] && b[i] == b.skip(1)[i - 1]);
                }
            }
            assert(a =~= b);
        }
    }
}

proof fn lemma_be_order(a: nat, b: nat, width: nat)
    requires
        a < crate::bytes::pow256(width),
        b < crate::bytes::pow256(width),
    ensures
        crate::bytes::bytes_before(
            crate::bytes::be_bytes(a, width),
            crate::bytes::be_bytes(b, width),
        ) <==> a < b,
        crate::bytes::be_bytes(a, width) == crate::bytes::be_bytes(b, width) <==> a == b,
    decreases width,
{
    crate::bytes::lemma_be_round_trip(a, width);
    crate::bytes::lemma_be_round_trip(b, width);
    if width > 0 {
        let w = (width - 1) as nat;
        lemma_be_order(a / 256, b / 256, w);
        crate::bytes::lemma_be_bytes_len(a / 256, w);
        crate::bytes::lemma_be_bytes_len(b / 256, w);
        lemma_before_push(
            crate::bytes::be_bytes(a / 256, w),
            crate::bytes::be_bytes(b / 256, w),
            (a % 256) as u8,
            (b % 256) as u8,
        );
    }
}

proof fn lemma_before_common_prefix(p: Seq<u8>, a: Seq<u8>, b: Seq<u8>)
    ensures
        crate::bytes::bytes_before(p + a, p + b) <==> crate::bytes::bytes_before(a, b),
    decreases p.len(),
{
    if p.len() == 0 {
        assert(p + a =~= a);
        assert(p + b =~= b);
    } else {
        assert((p + a).skip(1) =~= p.skip(1) + a);
        assert((p + b).skip(1) =~= p.skip(1) + b);
        lemma_before_common_prefix(p.skip(1), a, b);
    }
}

/// In key order the frames of an origin stand in sequence order, and different
/// frames of an origin have different keys.
pub proof fn keys_follow_sequence(peer: crate::hlc::PeerId, a: u64, b: u64)
    ensures
        crate::bytes::bytes_before(key_of(peer, a), key_of(peer, b)) <==> a < b,
        key_of(peer, a) == key_of(peer, b) <==> a == b,
{
    crate::bytes::lemma_pow256_widths();
    lemma_be_order(a as nat, b as nat, 8);
    lemma_before_common_prefix(
        peer@,
        crate::bytes::be_bytes(a as nat, 8),
        crate::bytes::be_bytes(b as nat, 8),
    );
    if key_of(peer, a) == key_of(peer, b) {
        assert(key_of(peer, a).skip(32) =~= crate::bytes::be_bytes(a as nat, 8));
        assert(key_of(peer, b).skip(32) =~= crate::bytes::be_bytes(b as nat, 8));
    }
}

proof fn lemma_before_by_prefix(p: Seq<u8>, q: Seq<u8>, a: Seq<u8>, b: Seq<u8>)
    requires
        p.len() == q.len(),
        p != q,
    ensures
        crate::bytes::bytes_before(p + a, q + b) <==> crate::bytes::bytes_before(p, q),
    decreases p.len(),
{
    if p.len() == 0 {
        assert(p =~= q);
    } else {
        assert((p + a).skip(1) =~= p.skip(1) + a);
        assert((q + b).skip(1) =~= q.skip(1) + b);
        if p[0] == q[0] {
            assert(p.skip(1) != q.skip(1)) by {
                if p.skip(1) == q.skip(1) {
                    assert forall|i: int| 0 <= i < p.len() implies p[i] == q[i] by {
                        if i > 0 {
                            assert(p[i] == p.skip(1)[i - 1] && q[i] == q.skip(1)[i - 1]);
                        }
                    }
                    assert(p =~= q);
                }
            }
            lemma_before_by_prefix(p.skip(1), q.skip(1), a, b);
        }
    }
}

/// Keys order frames by origin first and by sequence within an origin: the
/// frames of a lesser origin come first whatever their sequence numbers.
pub proof fn keys_follow_origin_then_sequence(
    p: crate::hlc::PeerId,
    a: u64,
    q: crate::hlc::PeerId,
    b: u64,
)
    ensures
        crate::bytes::bytes_before(key_of(p, a), key_of(q, b)) <==> crate::bytes::bytes_before(
            p@,
            q@,
        ) || (p == q && a < b),
        key_of(p, a) == key_of(q, b) <==> p == q && a == b,
{
    keys_follow_sequence(p, a, b);
    if p == q {
        crate::bytes::lemma_before_irreflexive(p@);
    } else {
        assert(p@ != q@) by {
            if p@ == q@ {
                assert(p =~= q);
            }
        }
        lemma_before_by_prefix(
            p@,
            q@,
            crate::bytes::be_bytes(a as nat, 8),
            crate::bytes::be_bytes(b as nat, 8),
        );
        if key_of(p, a) == key_of(q, b) {
            assert(key_of(p, a).take(32) =~= p@);
            assert(key_of(q, b).take(32) =~= q@);
        }
    }
}

/// What was stored of a frame loads as that frame.
pub proof fn stored_frame_loads_back(frame: crate::wire::FrameModel)
    requires
        frame.names_fit(),
        frame.data.len() <= u32::MAX,
    ensures
        decoded(frame.encoded()) == Some(frame),
{
    crate::wire::decode_inverts_encode(frame, Seq::empty());
    assert(frame.encoded() + Seq::<u8>::empty() =~= frame.encoded());
    let chosen = choose|f: crate::wire::FrameModel| crate::wire::stands_in(f, frame.encoded());
    assert(crate::wire::stands_in(frame, frame.encoded()));
    assert(crate::wire::stands_in(chosen, frame.encoded()));
}

/// Loading what stands in some values and then in some more is loading both, one
/// after the other.
proof fn lemma_loaded_append(a: Seq<Vec<u8>>, b: Seq<Vec<u8>>)
    ensures
        loaded(a + b) == loaded(a) + loaded(b),
    decreases b.len(),
{
    if b.len() == 0 {
        assert(a + b =~= a);
        assert(loaded(a) + loaded(b) =~= loaded(a));
    } else {
        assert((a + b).drop_last() =~= a + b.drop_last());
        assert((a + b).last() == b.last());
        lemma_loaded_append(a, b.drop_last());
        assert(loaded(a + b) =~= loaded(a) + loaded(b));
    }
}

/// Loading the values that were stored of some frames, in order, gives back
/// exactly those frames, whatever they write.
pub proof fn stored_frames_load_back(frames: Seq<crate::wire::FrameModel>, values: Seq<Vec<u8>>)
    requires
        values.len() == frames.len(),
        forall|i: int| 0 <= i < frames.len() ==> (#[trigger] frames[i]).names_fit(),
        forall|i: int| 0 <= i < frames.len() ==> (#[trigger] frames[i]).data.len() <= u32::MAX,
        forall|i: int| 0 <= i < frames.len() ==> (#[trigger] values[i])@ == frames[i].encoded(),
    ensures
        loaded(values).len() == frames.len(),
        forall|i: int| 0 <= i < frames.len() ==> #[trigger] loaded(values)[i] == frames[i],
    decreases frames.len(),
{
    if frames.len() > 0 {
        let front = frames.drop_last();
        let stored = values.drop_last();
        assert forall|i: int| 0 <= i < front.len() implies (#[trigger] front[i]).names_fit() by {
            assert(front[i] == frames[i]);
        }
        assert forall|i: int| 0 <= i < front.len() implies (#[trigger] front[i]).data.len()
            <= u32::MAX by {
            assert(front[i] == frames[i]);
        }
        assert forall|i: int| 0 <= i < front.len() implies (#[trigger] stored[i])@
            == front[i].encoded() by {
            assert(stored[i] == values[i] && front[i] == frames[i]);
        }
        stored_frames_load_back(front, stored);
        let last = frames[frames.len() - 1];
        assert(values[frames.len() - 1]@ == last.encoded());
        assert(last.names_fit() && last.data.len() <= u32::MAX);
        stored_frame_loads_back(last);
    }
}

/// A damaged value takes only itself away from what is loaded.
pub proof fn damage_is_local(before: Seq<Vec<u8>>, damaged: Vec<u8>, after: Seq<Vec<u8>>)
    requires
        crate::wire::decode_error(damaged@) is Some,
    ensures
        loaded(before.push(damaged) + after) == loaded(before) + loaded(after),
{
    lemma_loaded_append(before.push(damaged), after);
    assert(before.push(damaged).drop_last() =~= before);
}

/// A value that can be decoded gives the frame that stands in it, after what the
/// values before it gave and before what the values after it give.
pub proof fn every_sound_value_is_loaded(
    before: Seq<Vec<u8>>,
    value: Vec<u8>,
    after: Seq<Vec<u8>>,
    frame: crate::wire::FrameModel,
)
    requires
        crate::wire::decode_error(value@) is None,
        crate::wire::stands_in(frame, value@),
    ensures
        loaded(before.push(value) + after) == loaded(before).push(frame) + loaded(after),
{
    lemma_loaded_append(before.push(value), after);
    assert(before.push(value).drop_last() =~= before);
    let chosen = choose|f: crate::wire::FrameModel| crate::wire::stands_in(f, value@);
    crate::wire::decoded_frame_is_unique(chosen, frame, value@);
}

/// A key is the origin's id and then the sequence number, most significant byte
/// first.
pub proof fn keys_are_origin_and_sequence(peer: crate::hlc::PeerId, seq: u64)
    ensures
        key_of(peer, seq).len() == 40,
        key_of(peer, seq).take(32) == peer@,
        crate::bytes::be_value(key_of(peer, seq).skip(32)) == seq,
{
    crate::bytes::lemma_pow256_widths();
    crate::bytes::lemma_be_bytes_len(seq as nat, 8);
    crate::bytes::lemma_be_round_trip(seq as nat, 8);
    assert(key_of(peer, seq).take(32) =~= peer@);
    assert(key_of(peer, seq).skip(32) =~= crate::bytes::be_bytes(seq as nat, 8));
}

/// Frames that were stored, each by its own entry, are loaded again: all of them, in
/// the order of the values, and as they were.
pub proof fn loading_gives_back_what_was_stored(
    stored: Seq<WriteFrame>,
    keys: Seq<[u8; 40]>,
    values: &Vec<Vec<u8>>,
    frames: Vec<WriteFrame>,
)
    requires
        values@.len() == stored.len(),
        forall|i: int|
            0 <= i < stored.len() ==> (#[trigger] stored[i])@.names_fit() && stored[i].data@.len()
                <= u32::MAX,
        forall|i: int|
            0 <= i < stored.len() ==> call_ensures(
                stored_entry,
                (&(#[trigger] stored[i]),),
                Some((keys[i], values@[i])),
            ),
        call_ensures(load_frames, (values,), frames),
    ensures
        frames@.len() == stored.len(),
        forall|i: int| 0 <= i < stored.len() ==> (#[trigger] frames@[i])@ == stored[i]@,
{
    let models = crate::replog::frame_models(stored);
    assert forall|i: int| 0 <= i < models.len() implies (#[trigger] models[i]).names_fit() by {
        assert(models[i] == stored[i]@);
    }
    assert forall|i: int| 0 <= i < models.len() implies (#[trigger] models[i]).data.len()
        <= u32::MAX by {
        assert(models[i] == stored[i]@);
    }
    assert forall|i: int| 0 <= i < models.len() implies (#[trigger] values@[i])@
        == models[i].encoded() by {
        assert(models[i] == stored[i]@);
    }
    stored_frames_load_back(models, values@);
    let back = crate::replog::frame_models(frames@);
    assert(back.len() == frames@.len());
    assert forall|i: int| 0 <= i < stored.len() implies (#[trigger] frames@[i])@ == stored[i]@ by {
        assert(back[i] == frames@[i]@);
        assert(loaded(values@)[i] == models[i]);
    }
}

/// A frame is stored under its origin and its number, the number in eight bytes, and
/// under no other frame's key; its value decodes to the frame.
pub proof fn frames_are_stored_under_their_number(
    frame: WriteFrame,
    key: [u8; 40],
    entry: ([u8; 40], Vec<u8>),
    bytes: &[u8],
    number: u64,
    other: WriteFrame,
    other_key: [u8; 40],
    value: &[u8],
    back: Result<WriteFrame, crate::wire::WireError>,
)
    requires
        frame.data@.len() <= u32::MAX,
        call_ensures(frame_key, (&frame,), key),
        call_ensures(stored_entry, (&frame,), Some(entry)),
        bytes@ == key@,
        call_ensures(crate::bytes::get_be, (bytes, 32usize, 8usize), number),
        call_ensures(frame_key, (&other,), other_key),
        value@ == entry.1@,
        call_ensures(WriteFrame::decode, (value,), back),
    ensures
        key@.take(32) == frame.stamp.peer@,
        number == frame.seq,
        entry.0@ == key@,
        key@ == other_key@ <==> frame.stamp.peer@ == other.stamp.peer@ && frame.seq == other.seq,
        back matches Ok(read) && read@ == frame@,
{
    let seq = frame.seq as nat;
    crate::bytes::lemma_be_bytes_len(seq, 8);
    crate::bytes::lemma_be_bytes_len(other.seq as nat, 8);
    assert(seq < crate::bytes::pow256(8) && other.seq < crate::bytes::pow256(8)) by {
        reveal_with_fuel(crate::bytes::pow256, 9);
    }
    crate::bytes::lemma_be_round_trip(seq, 8);
    crate::bytes::lemma_be_round_trip(other.seq as nat, 8);
    assert(key@.take(32) == frame.stamp.peer@);
    assert(key@.subrange(32, 40) == crate::bytes::be_bytes(seq, 8));
    assert(other_key@.take(32) == other.stamp.peer@);
    assert(other_key@.subrange(32, 40) == crate::bytes::be_bytes(other.seq as nat, 8));
    crate::wire::decode_inverts_encode(frame@, Seq::empty());
    assert(frame@.encoded() + Seq::<u8>::empty() == frame@.encoded());
    if let Ok(read) = back {
        assert(crate::wire::stands_in(read@, frame@.encoded() + Seq::<u8>::empty()));
    }
}

} // verus!
