//! Byte-level building blocks: big-endian integers, lexicographic order and
//! the conversions between text and bytes.
use vstd::prelude::*;

verus! {

/// `256^width`, the number of values that `width` bytes can hold.
pub open spec fn pow256(width: nat) -> nat
    decreases width,
{
    if width == 0 {
        1
    } else {
        256 * pow256((width - 1) as nat)
    }
}

/// The `width` low bytes of `value`, most significant first.
pub open spec fn be_bytes(value: nat, width: nat) -> Seq<u8>
    decreases width,
{
    if width == 0 {
        Seq::empty()
    } else {
        be_bytes(value / 256, (width - 1) as nat).push((value % 256) as u8)
    }
}

/// The number that `bytes` spells, most significant byte first.
pub open spec fn be_value(bytes: Seq<u8>) -> nat
    decreases bytes.len(),
{
    if bytes.len() == 0 {
        0
    } else {
        be_value(bytes.drop_last()) * 256 + bytes.last() as nat
    }
}

/// `a` sorts before `b`, byte by byte, a proper prefix before its extensions.
pub open spec fn bytes_before(a: Seq<u8>, b: Seq<u8>) -> bool
    decreases a.len(),
{
    if b.len() == 0 {
        false
    } else if a.len() == 0 {
        true
    } else {
        a[0] < b[0] || (a[0] == b[0] && bytes_before(a.skip(1), b.skip(1)))
    }
}

pub proof fn lemma_be_bytes_len(value: nat, width: nat)
    ensures
        be_bytes(value, width).len() == width,
    decreases width,
{
    if width > 0 {
        lemma_be_bytes_len(value / 256, (width - 1) as nat);
    }
}

pub proof fn lemma_be_value_bound(bytes: Seq<u8>)
    ensures
        be_value(bytes) < pow256(bytes.len()),
    decreases bytes.len(),
{
    if bytes.len() > 0 {
        lemma_be_value_bound(bytes.drop_last());
    }
}

/// The widths in use: one byte, a port, a length, a clock value.
pub proof fn lemma_pow256_widths()
    ensures
        pow256(1) == 0x100,
        pow256(2) == 0x1_0000,
        pow256(4) == 0x1_0000_0000,
        pow256(8) == 0x1_0000_0000_0000_0000,
{
    reveal_with_fuel(pow256, 9);
}

/// Reading back a written number gives the number.
pub proof fn lemma_be_round_trip(value: nat, width: nat)
    requires
        value < pow256(width),
    ensures
        be_value(be_bytes(value, width)) == value,
        be_bytes(value, width).len() == width,
    decreases width,
{
    lemma_be_bytes_len(value, width);
    if width > 0 {
        let head = be_bytes(value / 256, (width - 1) as nat);
        assert(value / 256 < pow256((width - 1) as nat));
        lemma_be_round_trip(value / 256, (width - 1) as nat);
        assert(be_bytes(value, width).drop_last() =~= head);
    }
}

/// Writing back a read number gives the bytes.
pub proof fn lemma_be_unique(bytes: Seq<u8>)
    ensures
        be_bytes(be_value(bytes), bytes.len()) == bytes,
    decreases bytes.len(),
{
    if bytes.len() > 0 {
        lemma_be_unique(bytes.drop_last());
        assert(be_value(bytes) / 256 == be_value(bytes.drop_last()));
        assert(be_value(bytes) % 256 == bytes.last() as nat);
        assert(be_bytes(be_value(bytes), bytes.len()) =~= bytes);
    } else {
        assert(be_bytes(0, 0) =~= bytes);
    }
}

/// Appends the `width` low bytes of `value`, most significant first.
pub fn put_be(out: &mut Vec<u8>, value: u64, width: usize)
    ensures
        final(out)@ == old(out)@ + be_bytes(value as nat, width as nat),
    decreases width,
{
    if width > 0 {
        put_be(out, value / 256, width - 1);
        out.push((value % 256) as u8);
    }
    assert(out@ =~= old(out)@ + be_bytes(value as nat, width as nat));
}

/// Reads `width` bytes at `at`, most significant first.
pub fn get_be(buf: &[u8], at: usize, width: usize) -> (value: u64)
    requires
        width <= 8,
        at + width <= buf@.len(),
    ensures
        value as nat == be_value(buf@.subrange(at as int, at + width)),
        value as nat <= pow256(width as nat) - 1,
{
    let len = buf.len();
    let mut value: u64 = 0;
    let mut i: usize = 0;
    while i < width
        invariant
            i <= width <= 8,
            at + width <= len,
            len == buf@.len(),
            value as nat == be_value(buf@.subrange(at as int, at + i)),
        decreases width - i,
    {
        let byte = buf[at + i];
        proof {
            let next = buf@.subrange(at as int, at + i + 1);
            assert(next.drop_last() =~= buf@.subrange(at as int, at + i));
            lemma_be_value_bound(next);
            assert(pow256((i + 1) as nat) <= pow256(8)) by {
                reveal_with_fuel(pow256, 9);
            }
            lemma_pow256_widths();
        }
        value = value * 256 + byte as u64;
        i = i + 1;
    }
    proof {
        lemma_be_value_bound(buf@.subrange(at as int, at + width));
    }
    value
}

/// Whether two byte strings are the same.
pub fn bytes_equal(a: &[u8], b: &[u8]) -> (same: bool)
    ensures
        same == (a@ == b@),
{
    if a.len() != b.len() {
        return false;
    }
    let mut i: usize = 0;
    while i < a.len()
        invariant
            i <= a@.len(),
            a@.len() == b@.len(),
            forall|j: int| 0 <= j < i ==> a@[j] == b@[j],
        decreases a@.len() - i,
    {
        if a[i] != b[i] {
            return false;
        }
        i = i + 1;
    }
    assert(a@ =~= b@);
    true
}

proof fn lemma_before_skips_common(a: Seq<u8>, b: Seq<u8>, n: int)
    requires
        0 <= n <= a.len(),
        n <= b.len(),
        forall|j: int| 0 <= j < n ==> a[j] == b[j],
    ensures
        bytes_before(a, b) == bytes_before(a.skip(n), b.skip(n)),
    decreases n,
{
    if n == 0 {
        assert(a.skip(0) =~= a);
        assert(b.skip(0) =~= b);
    } else {
        lemma_before_skips_common(a.skip(1), b.skip(1), n - 1);
        assert(a.skip(1).skip(n - 1) =~= a.skip(n));
        assert(b.skip(1).skip(n - 1) =~= b.skip(n));
    }
}

/// Whether `a` sorts before `b`.
pub fn bytes_less(a: &[u8], b: &[u8]) -> (less: bool)
    ensures
        less == bytes_before(a@, b@),
{
    let mut i: usize = 0;
    while i < a.len() && i < b.len()
        invariant
            i <= a@.len(),
            i <= b@.len(),
            forall|j: int| 0 <= j < i ==> a@[j] == b@[j],
        decreases a@.len() - i,
    {
        if a[i] != b[i] {
            proof {
                lemma_before_skips_common(a@, b@, i as int);
            }
            return a[i] < b[i];
        }
        i = i + 1;
    }
    proof {
        lemma_before_skips_common(a@, b@, i as int);
    }
    i < b.len()
}

/// The order is strict: nothing sorts before itself.
pub proof fn lemma_before_irreflexive(a: Seq<u8>)
    ensures
        !bytes_before(a, a),
    decreases a.len(),
{
    if a.len() > 0 {
        lemma_before_irreflexive(a.skip(1));
    }
}

/// The order is transitive.
pub proof fn lemma_before_transitive(a: Seq<u8>, b: Seq<u8>, c: Seq<u8>)
    requires
        bytes_before(a, b),
        bytes_before(b, c),
    ensures
        bytes_before(a, c),
    decreases a.len(),
{
    if a.len() > 0 && a[0] == b[0] && b[0] == c[0] {
        lemma_before_transitive(a.skip(1), b.skip(1), c.skip(1));
    }
}

/// Any two different byte strings are ordered.
pub proof fn lemma_before_total(a: Seq<u8>, b: Seq<u8>)
    ensures
        bytes_before(a, b) || bytes_before(b, a) || a == b,
    decreases a.len(),
{
    if a.len() == 0 || b.len() == 0 {
        assert(a.len() == 0 && b.len() == 0 ==> a =~= b);
    } else if a[0] == b[0] {
        lemma_before_total(a.skip(1), b.skip(1));
        if a.skip(1) == b.skip(1) {
            assert(a.skip(1).len() == b.skip(1).len());
            assert(a.len() == b.len());
            assert forall|i: int| 0 <= i < a.len() implies a[i] == b[i] by {
                if i > 0 {
                    assert(a[i] == a.skip(1)[i - 1]);
                    assert(b[i] == b.skip(1)[i - 1]);
                }
            }
            assert(a =~= b);
        }
    }
}

/// `std::str::from_utf8`: text when the bytes are well-formed UTF-8, and then
/// the text whose UTF-8 encoding they are; nothing otherwise.
#[verifier::external_body]
pub(crate) fn utf8_text(bytes: &[u8]) -> (text: Option<&str>)
    ensures
        text is Some <==> vstd::utf8::valid_utf8(bytes@),
        text matches Some(t) ==> t@ == vstd::utf8::decode_utf8(bytes@),
{
    match std::str::from_utf8(bytes) {
        Ok(text) => Some(text),
        Err(_) => None,
    }
}

/// Big-endian: the first of several bytes weighs most, each of those after it
/// weighs 256 times less, and the last one counts as it is.
pub proof fn first_byte_weighs_most(first: u8, rest: Seq<u8>)
    ensures
        be_value(seq![first] + rest) == first * pow256(rest.len()) + be_value(rest),
        be_value(seq![first]) == first,
        pow256(rest.len() + 1) == 256 * pow256(rest.len()),
        pow256(0) == 1,
    decreases rest.len(),
{
    let all = seq![first] + rest;
    reveal_with_fuel(be_value, 2);
    if rest.len() == 0 {
        assert(all.drop_last() =~= Seq::empty());
        assert(seq![first].drop_last() =~= Seq::empty());
        assert(be_value(rest) == 0);
        assert(pow256(rest.len()) == 1);
    } else {
        first_byte_weighs_most(first, rest.drop_last());
        assert(all.drop_last() =~= seq![first] + rest.drop_last());
        assert(all.last() == rest.last());
        let low = pow256((rest.len() - 1) as nat);
        assert(first * low * 256 == first * (256 * low)) by (nonlinear_arith);
        assert(seq![first].drop_last() =~= Seq::empty());
    }
}

/// Of two byte strings of one length the one with the smaller byte at the first
/// difference sorts first; a proper prefix sorts before what extends it.
pub proof fn first_difference_decides(common: Seq<u8>, a: u8, b: u8, x: Seq<u8>, y: Seq<u8>)
    requires
        a < b,
    ensures
        bytes_before(common + seq![a] + x, common + seq![b] + y),
        !bytes_before(common + seq![b] + y, common + seq![a] + x),
        bytes_before(common, common + seq![a] + x),
        !bytes_before(common + seq![a] + x, common),
        !bytes_before(common, common),
    decreases common.len(),
{
    let low = common + seq![a] + x;
    let high = common + seq![b] + y;
    if common.len() == 0 {
        assert(low[0] == a && high[0] == b);
    } else {
        let rest = common.skip(1);
        first_difference_decides(rest, a, b, x, y);
        assert(low.skip(1) =~= rest + seq![a] + x);
        assert(high.skip(1) =~= rest + seq![b] + y);
        assert(low[0] == common[0] && high[0] == common[0]);
    }
}

/// Numbers written in bytes read back, and are written behind what was there.
pub proof fn written_numbers_read_back(
    out: &mut Vec<u8>,
    value: u64,
    buf: &[u8],
    at: usize,
    read: u64,
)
    requires
        call_ensures(put_be, (out, value, 8usize), ()),
        buf@ == final(out)@,
        at == old(out)@.len(),
        call_ensures(get_be, (buf, at, 8usize), read),
    ensures
        read == value,
        buf@.len() == old(out)@.len() + 8,
        buf@.take(at as int) == old(out)@,
{
    lemma_be_bytes_len(value as nat, 8);
    lemma_pow256_widths();
    assert(value < pow256(8)) by {
        reveal_with_fuel(pow256, 9);
    }
    lemma_be_round_trip(value as nat, 8);
    assert(buf@.subrange(at as int, at + 8) == be_bytes(value as nat, 8));
}

/// Of two byte strings one comes before the other, or they are the same.
pub proof fn byte_strings_are_ordered(a: &[u8], b: &[u8], less: bool, more: bool, same: bool)
    requires
        call_ensures(bytes_less, (a, b), less),
        call_ensures(bytes_less, (b, a), more),
        call_ensures(bytes_equal, (a, b), same),
    ensures
        same <==> a@ == b@,
        less || more || same,
        !(less && more),
        same ==> !less && !more,
{
    lemma_before_total(a@, b@);
    lemma_before_irreflexive(a@);
    if less && more {
        lemma_before_transitive(a@, b@, a@);
    }
}

} // verus!
