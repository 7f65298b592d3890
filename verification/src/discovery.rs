//! Who dials whom, and which peers are connected.
use vstd::prelude::*;
use crate::assoc::Assoc;
use crate::bytes::bytes_less;
use crate::hlc::PeerId;
use crate::text::{after_prefix, parse_hex_byte, put_hex_byte, split};

verus! {

/// What every certificate fingerprint starts with.
pub const FINGERPRINT_PREFIX: &'static str = "sha256:";

/// `peer` is what the fingerprint text stands for: 32 colon-separated
/// hexadecimal bytes after the prefix.
pub open spec fn fingerprint_spells(fingerprint: Seq<char>, peer: PeerId) -> bool {
    let prefix = FINGERPRINT_PREFIX@;
    let parts = crate::text::split_on(fingerprint.skip(prefix.len() as int), ':');
    &&& prefix.is_prefix_of(fingerprint)
    &&& parts.len() == 32
    &&& forall|i: int|
        0 <= i < 32 ==> crate::text::hex_byte_value(#[trigger] parts[i]) == Some(peer@[i])
}

/// The fingerprint spells the id of some peer.
pub open spec fn names_a_peer(fingerprint: Seq<char>) -> bool {
    exists|p: PeerId| fingerprint_spells(fingerprint, p)
}

/// Derive a sync [`PeerId`] (the 32-byte writer identity used in HLC stamps)
/// from a certificate fingerprint of the form `sha256:aa:bb:...`. Ties the sync
/// identity to the cryptographic identity. Returns `None` if the fingerprint
/// isn't 32 colon-separated hex bytes after the `sha256:` prefix.
#[must_use]
pub fn peer_id_from_fingerprint(fingerprint: &str) -> (peer: Option<PeerId>)
    ensures
        match peer {
            Some(p) => fingerprint_spells(fingerprint@, p),
            None => forall|p: PeerId| !fingerprint_spells(fingerprint@, p),
        },
        peer is Some <==> names_a_peer(fingerprint@),
{
    let hex = match after_prefix(fingerprint, FINGERPRINT_PREFIX) {
        Some(rest) => rest,
        None => return None,
    };
    assert(fingerprint@.skip(FINGERPRINT_PREFIX@.len() as int) =~= hex@);
    assert(FINGERPRINT_PREFIX@.is_prefix_of(fingerprint@));
    let parts = split(hex, ':');
    let ghost pieces = crate::text::split_on(hex@, ':');
    if parts.len() != 32 {
        return None;
    }
    let mut out: PeerId = [0u8; 32];
    let mut i: usize = 0;
    while i < 32
        invariant
            i <= 32,
            pieces == crate::text::texts(parts@),
            pieces == crate::text::split_on(
                fingerprint@.skip(FINGERPRINT_PREFIX@.len() as int),
                ':',
            ),
            parts@.len() == 32,
            forall|j: int|
                0 <= j < i ==> crate::text::hex_byte_value(#[trigger] pieces[j]) == Some(out@[j]),
        decreases 32 - i,
    {
        assert(pieces[i as int] == parts@[i as int]@);
        match parse_hex_byte(parts[i].as_str()) {
            Some(byte) => {
                out[i] = byte;
            },
            None => {
                proof {
                    assert forall|p: PeerId| !fingerprint_spells(fingerprint@, p) by {
                        assert(crate::text::hex_byte_value(pieces[i as int]) is None);
                    }
                }
                return None;
            },
        }
        i = i + 1;
    }
    assert(fingerprint_spells(fingerprint@, out));
    Some(out)
}

/// The bytes in hexadecimal, separated by colons.
pub open spec fn colon_hex(bytes: Seq<u8>) -> Seq<char>
    decreases bytes.len(),
{
    if bytes.len() == 0 {
        Seq::empty()
    } else if bytes.len() == 1 {
        crate::text::hex_byte(bytes[0])
    } else {
        colon_hex(bytes.drop_last()).push(':') + crate::text::hex_byte(bytes.last())
    }
}

/// The fingerprint text of a digest.
pub open spec fn fingerprint_text(digest: Seq<u8>) -> Seq<char> {
    FINGERPRINT_PREFIX@ + colon_hex(digest)
}

/// Writes a digest as a fingerprint.
pub fn format_fingerprint(digest: &[u8]) -> (text: String)
    ensures
        text@ == fingerprint_text(digest@),
{
    let mut out = FINGERPRINT_PREFIX.to_string();
    let mut i: usize = 0;
    assert(FINGERPRINT_PREFIX@ + colon_hex(digest@.take(0)) =~= FINGERPRINT_PREFIX@);
    while i < digest.len()
        invariant
            i <= digest@.len(),
            out@ == FINGERPRINT_PREFIX@ + colon_hex(digest@.take(i as int)),
        decreases digest@.len() - i,
    {
        proof {
            reveal_strlit(":");
            assert(digest@.take(i + 1).drop_last() =~= digest@.take(i as int));
        }
        if i > 0 {
            out.append(":");
        }
        put_hex_byte(&mut out, digest[i]);
        assert(out@ =~= FINGERPRINT_PREFIX@ + colon_hex(digest@.take(i + 1)));
        i = i + 1;
    }
    assert(digest@.take(i as int) =~= digest@);
    out
}

proof fn lemma_split_append_hex(s: Seq<char>, b: u8, first: bool)
    requires
        first ==> s.len() == 0,
    ensures
        ({
            let before = crate::text::split_on(s, ':');
            let longer = if first {
                crate::text::hex_byte(b)
            } else {
                s.push(':') + crate::text::hex_byte(b)
            };
            crate::text::split_on(longer, ':') == (if first {
                seq![crate::text::hex_byte(b)]
            } else {
                before.push(crate::text::hex_byte(b))
            })
        }),
{
    let h = crate::text::hex_char(b as nat / 16);
    let l = crate::text::hex_char(b as nat % 16);
    let base = if first {
        Seq::<char>::empty()
    } else {
        s.push(':')
    };
    let one = base.push(h);
    let two = one.push(l);
    assert(h != ':' && l != ':');
    assert(base + crate::text::hex_byte(b) =~= two);
    assert(crate::text::hex_byte(b) =~= Seq::<char>::empty().push(h).push(l));
    assert(one.drop_last() =~= base);
    assert(two.drop_last() =~= one);
    if !first {
        assert(s.push(':').drop_last() =~= s);
    }
    let sb = crate::text::split_on(base, ':');
    let s1 = crate::text::split_on(one, ':');
    let s2 = crate::text::split_on(two, ':');
    assert(sb.last() =~= Seq::<char>::empty());
    assert(s1 == sb.drop_last().push(sb.last().push(h)));
    assert(s2 == s1.drop_last().push(s1.last().push(l)));
    assert(s1.drop_last() =~= sb.drop_last());
    assert(s2.last() =~= crate::text::hex_byte(b));
    if first {
        assert(s2 =~= seq![crate::text::hex_byte(b)]);
    } else {
        assert(sb.drop_last() =~= crate::text::split_on(s, ':'));
        assert(s2 =~= crate::text::split_on(s, ':').push(crate::text::hex_byte(b)));
    }
}

proof fn lemma_split_colon_hex(bytes: Seq<u8>)
    requires
        bytes.len() > 0,
    ensures
        crate::text::split_on(colon_hex(bytes), ':').len() == bytes.len(),
        forall|i: int|
            0 <= i < bytes.len() ==> #[trigger] crate::text::split_on(colon_hex(bytes), ':')[i]
                == crate::text::hex_byte(bytes[i]),
    decreases bytes.len(),
{
    if bytes.len() == 1 {
        lemma_split_append_hex(Seq::empty(), bytes[0], true);
    } else {
        let front = bytes.drop_last();
        lemma_split_colon_hex(front);
        lemma_split_append_hex(colon_hex(front), bytes.last(), false);
    }
}

/// Reading a fingerprint gives back the 32-byte digest it was written for.
pub proof fn fingerprint_reads_back(digest: Seq<u8>, peer: PeerId)
    requires
        digest.len() == 32,
    ensures
        fingerprint_spells(fingerprint_text(digest), peer) <==> peer@ == digest,
{
    let text = fingerprint_text(digest);
    let prefix = FINGERPRINT_PREFIX@;
    assert(text.skip(prefix.len() as int) =~= colon_hex(digest));
    assert(prefix.is_prefix_of(text));
    lemma_split_colon_hex(digest);
    let parts = crate::text::split_on(colon_hex(digest), ':');
    assert forall|i: int| 0 <= i < 32 implies crate::text::hex_byte_value(
        #[trigger] parts[i],
    ) == Some(digest[i]) by {
        crate::text::lemma_hex_byte_round_trip(digest[i]);
    }
    if fingerprint_spells(text, peer) {
        assert forall|i: int| 0 <= i < 32 implies peer@[i] == digest[i] by {
            assert(crate::text::hex_byte_value(parts[i]) == Some(peer@[i]));
        }
        assert(peer@ =~= digest);
    }
}

/// Connection roles are broken by peer-id order: the lexicographically larger
/// id dials, the smaller accepts.
pub open spec fn dials(my_id: Seq<char>, target_id: Seq<char>) -> bool {
    crate::bytes::bytes_before(
        vstd::utf8::encode_utf8(target_id),
        vstd::utf8::encode_utf8(my_id),
    )
}

/// Of two peers with different ids exactly one dials the other; nobody dials
/// itself.
pub proof fn exactly_one_dials(a: Seq<char>, b: Seq<char>)
    ensures
        a != b ==> dials(a, b) != dials(b, a),
        !dials(a, a),
{
    let x = vstd::utf8::encode_utf8(a);
    let y = vstd::utf8::encode_utf8(b);
    crate::bytes::lemma_before_total(x, y);
    crate::bytes::lemma_before_irreflexive(x);
    if crate::bytes::bytes_before(x, y) && crate::bytes::bytes_before(y, x) {
        crate::bytes::lemma_before_transitive(x, y, x);
    }
    vstd::utf8::encode_utf8_decode_utf8(a);
    vstd::utf8::encode_utf8_decode_utf8(b);
}

/// The peers that are connected or being dialled.
pub struct Connected {
    ids: Assoc<String, ()>,
}

impl View for Connected {
    type V = Set<Seq<char>>;

    closed spec fn view(&self) -> Set<Seq<char>> {
        self.ids@.dom()
    }
}

impl Connected {
    /// Nobody is connected.
    #[must_use]
    pub fn new() -> (connected: Self)
        ensures
            connected@ == Set::<Seq<char>>::empty(),
    {
        let connected = Connected { ids: Assoc::new() };
        assert(connected@ =~= Set::<Seq<char>>::empty());
        connected
    }

    /// Decides whether to dial a discovered peer, and if so notes it as
    /// connected. A peer is dialled if it is ours to dial and neither connected
    /// nor being dialled.
    pub fn claim(&mut self, my_id: &str, target_id: &str) -> (dial: bool)
        ensures
            dial == (dials(my_id@, target_id@) && !old(self)@.contains(target_id@)),
            final(self)@ == (if dial {
                old(self)@.insert(target_id@)
            } else {
                old(self)@
            }),
    {
        if !bytes_less(target_id.as_bytes(), my_id.as_bytes()) {
            return false;
        }
        let key = target_id.to_string();
        if self.ids.contains_key(&key) {
            return false;
        }
        self.ids.insert(key, ());
        assert(self@ =~= old(self)@.insert(target_id@));
        true
    }

    /// Notes a peer whose connection was accepted.
    pub fn accepted(&mut self, remote_id: &str)
        ensures
            final(self)@ == old(self)@.insert(remote_id@),
    {
        self.ids.insert(remote_id.to_string(), ());
        assert(self@ =~= old(self)@.insert(remote_id@));
    }

    /// Forgets a peer whose connection ended or could not be made.
    pub fn release(&mut self, remote_id: &str)
        ensures
            final(self)@ == old(self)@.remove(remote_id@),
    {
        let _ = self.ids.remove(&remote_id.to_string());
        assert(self@ =~= old(self)@.remove(remote_id@));
    }
}

/// A fingerprint reads back: it starts with "sha256:", spells the digest, and names the
/// peer whose id the digest is.
pub proof fn fingerprints_name_their_digest(
    own: PeerId,
    digest: &[u8],
    text: String,
    fingerprint: &str,
    peer: Option<PeerId>,
)
    requires
        digest@ == own@,
        call_ensures(format_fingerprint, (digest,), text),
        fingerprint@ == text@,
        call_ensures(peer_id_from_fingerprint, (fingerprint,), peer),
    ensures
        peer matches Some(p) && p@ == own@,
        "sha256:"@.is_prefix_of(text@),
{
    fingerprint_reads_back(digest@, own);
    assert(fingerprint_spells(fingerprint@, own));
    if let Some(p) = peer {
        fingerprint_reads_back(digest@, p);
    }
}

/// Of two peers that find each other exactly one dials: the one whose id is the larger.
pub proof fn the_larger_id_dials(
    fresh: Connected,
    mine: &mut Connected,
    my_id: &str,
    their_id: &str,
    dial: bool,
    theirs: &mut Connected,
    they_dial: bool,
    common: Seq<u8>,
    a: u8,
    b: u8,
    x: Seq<u8>,
    y: Seq<u8>,
)
    requires
        call_ensures(Connected::new, (), fresh),
        *old(mine) == fresh,
        *old(theirs) == fresh,
        call_ensures(Connected::claim, (mine, my_id, their_id), dial),
        call_ensures(Connected::claim, (theirs, their_id, my_id), they_dial),
        vstd::utf8::encode_utf8(my_id@) == common + seq![a] + x,
        vstd::utf8::encode_utf8(their_id@) == common + seq![b] + y,
        a > b,
    ensures
        dial,
        !they_dial,
{
    crate::bytes::first_difference_decides(common, b, a, y, x);
    exactly_one_dials(my_id@, their_id@);
    assert(my_id@ != their_id@) by {
        assert((common + seq![a] + x)[common.len() as int] == a);
        assert((common + seq![b] + y)[common.len() as int] == b);
    }
}

/// A peer is dialed once while it is connected, whether it was dialed or accepted, and
/// can be dialed again once it is released; the others stay as they were.
pub proof fn connected_peers_are_not_dialed(
    claiming: &mut Connected,
    my_id: &str,
    their_id: &str,
    dial: bool,
    again: &mut Connected,
    second: bool,
    releasing: &mut Connected,
    later: &mut Connected,
    third: bool,
    accepting: &mut Connected,
    after: &mut Connected,
    fourth: bool,
)
    requires
        call_ensures(Connected::claim, (claiming, my_id, their_id), dial),
        *old(again) == *final(claiming),
        call_ensures(Connected::claim, (again, my_id, their_id), second),
        *old(releasing) == *final(again),
        call_ensures(Connected::release, (releasing, their_id), ()),
        *old(later) == *final(releasing),
        call_ensures(Connected::claim, (later, my_id, their_id), third),
        *old(accepting) == *final(releasing),
        call_ensures(Connected::accepted, (accepting, their_id), ()),
        *old(after) == *final(accepting),
        call_ensures(Connected::claim, (after, my_id, their_id), fourth),
    ensures
        !second,
        dial ==> third,
        !fourth,
        forall|other: Seq<char>|
            other != their_id@ ==> (#[trigger] final(later)@.contains(other) <==> old(claiming)@.contains(other)),
{
}

} // verus!
