//! STUN binding: the request, and reading the mapped address out of the
//! response.
use vstd::prelude::*;
use crate::addr::{IpAddr, SocketAddr};
use crate::bytes::{bytes_equal, get_be};
use crate::text::put_hex_byte;

verus! {

pub const STUN_MAGIC: u32 = 0x2112_A442;

pub const STUN_HEADER_LEN: usize = 20;

pub const STUN_BINDING_REQUEST: u16 = 0x0001;

pub const STUN_BINDING_RESPONSE: u16 = 0x0101;

pub const ATTR_XOR_MAPPED_ADDRESS: u16 = 0x0020;

pub const ATTR_MAPPED_ADDRESS: u16 = 0x0001;

pub const DEFAULT_STUN_SERVER: &'static str = "stun.l.google.com:19302";

/// The datagram that punches a hole for the other side.
pub open spec fn probe_bytes() -> Seq<u8> {
    seq![0x50u8, 0x32, 0x50, 0x50]
}

/// The datagram that punches a hole for the other side.
pub fn probe() -> (datagram: [u8; 4])
    ensures
        datagram@ == probe_bytes(),
{
    let datagram: [u8; 4] = [0x50, 0x32, 0x50, 0x50];
    assert(datagram@ =~= probe_bytes());
    datagram
}

/// The magic cookie as it stands in a message.
pub open spec fn magic_bytes() -> Seq<u8> {
    seq![0x21u8, 0x12, 0xA4, 0x42]
}

/// What address bytes are masked with: the magic cookie, then the transaction
/// id.
pub open spec fn mask(txn_id: Seq<u8>) -> Seq<u8> {
    magic_bytes() + txn_id
}

/// Bytes combined with a mask, byte by byte. Doing so twice undoes it.
pub open spec fn masked(bytes: Seq<u8>, key: Seq<u8>) -> Seq<u8> {
    Seq::new(bytes.len(), |i: int| bytes[i] ^ key[i])
}

/// Why no address could be read.
#[derive(Debug, Clone, Copy, PartialEq, Eq, Structural)]
pub enum StunError {
    XorTooShort,
    XorIpv6TooShort,
    UnknownFamily(u8),
    MappedTooShort,
    UnsupportedFamily(u8),
    ResponseTooShort,
    UnexpectedType(u16),
    TransactionMismatch,
    NoMappedAddress,
}

/// The sentence that describes a [`StunError`].
pub open spec fn stun_error_text(error: StunError) -> Seq<char> {
    match error {
        StunError::XorTooShort => "XOR-MAPPED-ADDRESS too short"@,
        StunError::XorIpv6TooShort => "XOR-MAPPED-ADDRESS IPv6 too short"@,
        StunError::UnknownFamily(family) => "unknown address family: 0x"@ + crate::text::hex_byte(
            family,
        ),
        StunError::MappedTooShort => "MAPPED-ADDRESS too short"@,
        StunError::UnsupportedFamily(family) => "unsupported MAPPED-ADDRESS family: 0x"@
            + crate::text::hex_byte(family),
        StunError::ResponseTooShort => "response too short"@,
        StunError::UnexpectedType(kind) => "unexpected message type: 0x"@ + crate::text::hex_byte(
            (kind / 256) as u8,
        ) + crate::text::hex_byte((kind % 256) as u8),
        StunError::TransactionMismatch => "transaction ID mismatch"@,
        StunError::NoMappedAddress => "no mapped address in response"@,
    }
}

impl StunError {
    /// The error as a sentence.
    pub fn message(&self) -> (text: String)
        ensures
            text@ == stun_error_text(*self),
    {
        match self {
            StunError::XorTooShort => "XOR-MAPPED-ADDRESS too short".to_string(),
            StunError::XorIpv6TooShort => "XOR-MAPPED-ADDRESS IPv6 too short".to_string(),
            StunError::UnknownFamily(family) => {
                let mut out = "unknown address family: 0x".to_string();
                put_hex_byte(&mut out, *family);
                out
            },
            StunError::MappedTooShort => "MAPPED-ADDRESS too short".to_string(),
            StunError::UnsupportedFamily(family) => {
                let mut out = "unsupported MAPPED-ADDRESS family: 0x".to_string();
                put_hex_byte(&mut out, *family);
                out
            },
            StunError::ResponseTooShort => "response too short".to_string(),
            StunError::UnexpectedType(kind) => {
                let mut out = "unexpected message type: 0x".to_string();
                put_hex_byte(&mut out, (*kind / 256) as u8);
                put_hex_byte(&mut out, (*kind % 256) as u8);
                out
            },
            StunError::TransactionMismatch => "transaction ID mismatch".to_string(),
            StunError::NoMappedAddress => "no mapped address in response".to_string(),
        }
    }
}

/// `ring::rand::SystemRandom::fill`: twelve random bytes, or nothing if the
/// system has none to give. Nothing is promised of the bytes.
#[verifier::external_body]
fn random_txn_id() -> (txn_id: Option<[u8; 12]>) {
    let mut txn_id = [0u8; 12];
    match ring::rand::SecureRandom::fill(&ring::rand::SystemRandom::new(), &mut txn_id) {
        Ok(()) => Some(txn_id),
        Err(_) => None,
    }
}

/// A binding request: its type, an empty body, the magic cookie and the
/// transaction id.
pub open spec fn request_bytes(txn_id: Seq<u8>) -> Seq<u8> {
    seq![0x00u8, 0x01, 0x00, 0x00] + magic_bytes() + txn_id
}

/// A binding request with the given transaction id.
pub fn build_binding_request(txn_id: &[u8; 12]) -> (request: [u8; 20])
    ensures
        request@ == request_bytes(txn_id@),
{
    let mut buf: [u8; 20] = [0u8; 20];
    buf[1] = 0x01;
    buf[4] = 0x21;
    buf[5] = 0x12;
    buf[6] = 0xA4;
    buf[7] = 0x42;
    let mut i: usize = 0;
    while i < 12
        invariant
            i <= 12,
            forall|j: int| 0 <= j < 8 ==> buf@[j] == request_bytes(txn_id@)[j],
            forall|j: int| 0 <= j < i ==> buf@[8 + j] == txn_id@[j],
        decreases 12 - i,
    {
        buf[8 + i] = txn_id[i];
        i = i + 1;
    }
    proof {
        assert forall|j: int| 0 <= j < 20 implies buf@[j] == request_bytes(txn_id@)[j] by {
            if j >= 8 {
                assert(buf@[8 + (j - 8)] == txn_id@[j - 8]);
            }
        }
        assert(buf@ =~= request_bytes(txn_id@));
    }
    buf
}

/// A binding request with the transaction id that the system gave, and that id;
/// nothing if it gave none.
pub fn request_with(txn_id: Option<[u8; 12]>) -> (made: Option<([u8; 12], [u8; 20])>)
    ensures
        match txn_id {
            Some(id) => made matches Some((used, request)) && used == id && request@
                == request_bytes(id@),
            None => made is None,
        },
{
    match txn_id {
        Some(id) => Some((id, build_binding_request(&id))),
        None => None,
    }
}

/// A binding request with a fresh transaction id, and that id; nothing if the
/// system has no random bytes to give.
pub fn new_request() -> (made: Option<([u8; 12], [u8; 20])>)
    ensures
        made matches Some((txn_id, request)) ==> request@ == request_bytes(txn_id@),
{
    request_with(random_txn_id())
}

/// Why a XOR-MAPPED-ADDRESS attribute cannot be read, if it cannot.
pub open spec fn xor_error(attr: Seq<u8>) -> Option<StunError> {
    if attr.len() < 8 {
        Some(StunError::XorTooShort)
    } else if attr[1] == 0x01 {
        None
    } else if attr[1] == 0x02 {
        if attr.len() < 20 {
            Some(StunError::XorIpv6TooShort)
        } else {
            None
        }
    } else {
        Some(StunError::UnknownFamily(attr[1]))
    }
}

/// `addr` is what a XOR-MAPPED-ADDRESS attribute holds: port and octets, each
/// masked from the start of the mask.
pub open spec fn xor_holds(attr: Seq<u8>, txn_id: Seq<u8>, addr: SocketAddr) -> bool {
    &&& addr.port as nat == crate::bytes::be_value(masked(attr.subrange(2, 4), mask(txn_id)))
    &&& match addr.ip {
        IpAddr::V4(octets) => attr[1] == 0x01 && octets@ == masked(
            attr.subrange(4, 8),
            mask(txn_id),
        ),
        IpAddr::V6(octets) => attr[1] == 0x02 && octets@ == masked(
            attr.subrange(4, 20),
            mask(txn_id),
        ),
    }
}

fn mask_at(txn_id: &[u8; 12], i: usize) -> (byte: u8)
    requires
        i < 16,
    ensures
        byte == mask(txn_id@)[i as int],
{
    match i {
        0 => 0x21,
        1 => 0x12,
        2 => 0xA4,
        3 => 0x42,
        _ => txn_id[i - 4],
    }
}

proof fn lemma_be_pair(a: u8, b: u8)
    ensures
        crate::bytes::be_value(seq![a, b]) == a * 256 + b,
{
    reveal_with_fuel(crate::bytes::be_value, 3);
    assert(seq![a, b].drop_last() =~= seq![a]);
    assert(seq![a].drop_last() =~= Seq::<u8>::empty());
}

/// Reads a XOR-MAPPED-ADDRESS attribute.
pub fn parse_xor_mapped_address(attr_value: &[u8], txn_id: &[u8; 12]) -> (out: Result<
    SocketAddr,
    StunError,
>)
    ensures
        match out {
            Ok(addr) => xor_error(attr_value@) is None && xor_holds(attr_value@, txn_id@, addr),
            Err(error) => xor_error(attr_value@) == Some(error),
        },
{
    let len = attr_value.len();
    if len < 8 {
        return Err(StunError::XorTooShort);
    }
    let family = attr_value[1];
    let high = attr_value[2] ^ mask_at(txn_id, 0);
    let low = attr_value[3] ^ mask_at(txn_id, 1);
    let port: u16 = high as u16 * 256 + low as u16;
    proof {
        lemma_be_pair(high, low);
        assert(masked(attr_value@.subrange(2, 4), mask(txn_id@)) =~= seq![high, low]);
    }
    if family == 0x01 {
        let mut octets: [u8; 4] = [0u8; 4];
        let mut i: usize = 0;
        while i < 4
            invariant
                i <= 4,
                len == attr_value@.len(),
                len >= 8,
                forall|j: int|
                    0 <= j < i ==> octets@[j] == attr_value@[4 + j] ^ mask(txn_id@)[j],
            decreases 4 - i,
        {
            octets[i] = attr_value[4 + i] ^ mask_at(txn_id, i);
            i = i + 1;
        }
        assert(octets@ =~= masked(attr_value@.subrange(4, 8), mask(txn_id@)));
        Ok(SocketAddr::new(IpAddr::V4(octets), port))
    } else if family == 0x02 {
        if len < 20 {
            return Err(StunError::XorIpv6TooShort);
        }
        let mut octets: [u8; 16] = [0u8; 16];
        let mut i: usize = 0;
        while i < 16
            invariant
                i <= 16,
                len == attr_value@.len(),
                len >= 20,
                forall|j: int|
                    0 <= j < i ==> octets@[j] == attr_value@[4 + j] ^ mask(txn_id@)[j],
            decreases 16 - i,
        {
            octets[i] = attr_value[4 + i] ^ mask_at(txn_id, i);
            i = i + 1;
        }
        assert(octets@ =~= masked(attr_value@.subrange(4, 20), mask(txn_id@)));
        Ok(SocketAddr::new(IpAddr::V6(octets), port))
    } else {
        Err(StunError::UnknownFamily(family))
    }
}

/// Why a MAPPED-ADDRESS attribute cannot be read, if it cannot.
pub open spec fn mapped_error(attr: Seq<u8>) -> Option<StunError> {
    if attr.len() < 8 {
        Some(StunError::MappedTooShort)
    } else if attr[1] == 0x01 {
        None
    } else {
        Some(StunError::UnsupportedFamily(attr[1]))
    }
}

/// `addr` is what a MAPPED-ADDRESS attribute holds.
pub open spec fn mapped_holds(attr: Seq<u8>, addr: SocketAddr) -> bool {
    &&& addr.port as nat == crate::bytes::be_value(attr.subrange(2, 4))
    &&& match addr.ip {
        IpAddr::V4(octets) => octets@ == attr.subrange(4, 8),
        IpAddr::V6(_) => false,
    }
}

/// Reads a MAPPED-ADDRESS attribute. Only IPv4 is supported.
pub fn parse_mapped_address(attr_value: &[u8]) -> (out: Result<SocketAddr, StunError>)
    ensures
        match out {
            Ok(addr) => mapped_error(attr_value@) is None && mapped_holds(attr_value@, addr),
            Err(error) => mapped_error(attr_value@) == Some(error),
        },
{
    if attr_value.len() < 8 {
        return Err(StunError::MappedTooShort);
    }
    let family = attr_value[1];
    proof {
        crate::bytes::lemma_pow256_widths();
    }
    let port = get_be(attr_value, 2, 2) as u16;
    if family == 0x01 {
        let octets: [u8; 4] = [attr_value[4], attr_value[5], attr_value[6], attr_value[7]];
        assert(octets@ =~= attr_value@.subrange(4, 8));
        Ok(SocketAddr::new(IpAddr::V4(octets), port))
    } else {
        Err(StunError::UnsupportedFamily(family))
    }
}

/// The address in a XOR-MAPPED-ADDRESS attribute, if it can be read.
pub open spec fn xor_address(attr: Seq<u8>, txn_id: Seq<u8>) -> Option<SocketAddr> {
    if xor_error(attr) is None {
        Some(choose|addr: SocketAddr| xor_holds(attr, txn_id, addr))
    } else {
        None
    }
}

/// The address in a MAPPED-ADDRESS attribute, if it can be read.
pub open spec fn mapped_address(attr: Seq<u8>) -> Option<SocketAddr> {
    if mapped_error(attr) is None {
        Some(choose|addr: SocketAddr| mapped_holds(attr, addr))
    } else {
        None
    }
}

/// An attribute holds one address at most.
pub proof fn xor_address_is_unique(attr: Seq<u8>, txn_id: Seq<u8>, a: SocketAddr, b: SocketAddr)
    requires
        xor_holds(attr, txn_id, a),
        xor_holds(attr, txn_id, b),
    ensures
        a == b,
{
    match (a.ip, b.ip) {
        (IpAddr::V4(x), IpAddr::V4(y)) => {
            assert(x =~= y);
        },
        (IpAddr::V6(x), IpAddr::V6(y)) => {
            assert(x =~= y);
        },
        _ => {},
    }
}

/// An attribute holds one address at most.
pub proof fn mapped_address_is_unique(attr: Seq<u8>, a: SocketAddr, b: SocketAddr)
    requires
        mapped_holds(attr, a),
        mapped_holds(attr, b),
    ensures
        a == b,
{
    match (a.ip, b.ip) {
        (IpAddr::V4(x), IpAddr::V4(y)) => {
            assert(x =~= y);
        },
        _ => {},
    }
}

/// The number in two bytes.
pub open spec fn pair_at(bytes: Seq<u8>, at: int) -> int {
    bytes[at] * 256 + bytes[at + 1]
}

/// The attributes of a response: what its header says is there, as far as it
/// came in.
pub open spec fn attributes(buf: Seq<u8>) -> Seq<u8> {
    let stated = pair_at(buf, 2);
    let there = buf.len() - 20;
    buf.subrange(20, 20 + (if stated <= there {
        stated
    } else {
        there
    }))
}

/// The last XOR-MAPPED-ADDRESS and the last MAPPED-ADDRESS among the attributes
/// from `offset` on, after those seen so far. Attributes are padded to four
/// bytes; one that is cut short ends the list.
pub open spec fn last_addresses(
    attrs: Seq<u8>,
    offset: int,
    txn_id: Seq<u8>,
    xor_mapped: Option<SocketAddr>,
    mapped: Option<SocketAddr>,
) -> (Option<SocketAddr>, Option<SocketAddr>)
    decreases attrs.len() + 4 - offset,
{
    if offset < 0 || offset + 4 > attrs.len() {
        (xor_mapped, mapped)
    } else {
        let kind = pair_at(attrs, offset);
        let len = pair_at(attrs, offset + 2);
        let start = offset + 4;
        if start + len > attrs.len() {
            (xor_mapped, mapped)
        } else {
            let value = attrs.subrange(start, start + len);
            last_addresses(
                attrs,
                start + len + (4 - len % 4) % 4,
                txn_id,
                if kind == ATTR_XOR_MAPPED_ADDRESS {
                    xor_address(value, txn_id)
                } else {
                    xor_mapped
                },
                if kind == ATTR_MAPPED_ADDRESS {
                    mapped_address(value)
                } else {
                    mapped
                },
            )
        }
    }
}

/// What a binding response says: the XOR-mapped address if it has one, else the
/// mapped address.
pub open spec fn response_outcome(buf: Seq<u8>, txn_id: Seq<u8>) -> Result<SocketAddr, StunError> {
    if buf.len() < STUN_HEADER_LEN {
        Err(StunError::ResponseTooShort)
    } else if pair_at(buf, 0) != STUN_BINDING_RESPONSE {
        Err(StunError::UnexpectedType(pair_at(buf, 0) as u16))
    } else if buf.subrange(8, 20) != txn_id {
        Err(StunError::TransactionMismatch)
    } else {
        match last_addresses(attributes(buf), 0, txn_id, None, None) {
            (Some(addr), _) => Ok(addr),
            (None, Some(addr)) => Ok(addr),
            (None, None) => Err(StunError::NoMappedAddress),
        }
    }
}

fn pair(bytes: &[u8], at: usize) -> (value: usize)
    requires
        at + 1 < bytes@.len(),
        at < usize::MAX,
    ensures
        value == pair_at(bytes@, at as int),
        value < 0x1_0000,
{
    bytes[at] as usize * 256 + bytes[at + 1] as usize
}

/// Reads a binding response to the request with the given transaction id.
pub fn parse_binding_response(buf: &[u8], txn_id: &[u8; 12]) -> (out: Result<
    SocketAddr,
    StunError,
>)
    ensures
        out == response_outcome(buf@, txn_id@),
{
    if buf.len() < STUN_HEADER_LEN {
        return Err(StunError::ResponseTooShort);
    }
    let msg_type = pair(buf, 0);
    if msg_type != STUN_BINDING_RESPONSE as usize {
        return Err(StunError::UnexpectedType(msg_type as u16));
    }
    if !bytes_equal(vstd::slice::slice_subrange(buf, 8, 20), txn_id.as_slice()) {
        return Err(StunError::TransactionMismatch);
    }
    let msg_len = pair(buf, 2);
    let there = buf.len() - STUN_HEADER_LEN;
    let attrs_len = if msg_len < there {
        msg_len
    } else {
        there
    };
    let attrs = vstd::slice::slice_subrange(buf, STUN_HEADER_LEN, STUN_HEADER_LEN + attrs_len);
    assert(attrs@ == attributes(buf@));
    let mut offset: usize = 0;
    let mut xor_mapped: Option<SocketAddr> = None;
    let mut mapped: Option<SocketAddr> = None;
    while offset + 4 <= attrs_len
        invariant
            attrs_len == attrs@.len(),
            attrs_len < 0x1_0000,
            offset <= attrs_len + 3,
            last_addresses(attrs@, offset as int, txn_id@, xor_mapped, mapped) == last_addresses(
                attrs@,
                0,
                txn_id@,
                None,
                None,
            ),
        ensures
            (xor_mapped, mapped) == last_addresses(attrs@, 0, txn_id@, None, None),
        decreases attrs_len + 4 - offset,
    {
        let attr_type = pair(attrs, offset);
        let attr_len = pair(attrs, offset + 2);
        let start = offset + 4;
        if start + attr_len > attrs_len {
            break;
        }
        let attr_value = vstd::slice::slice_subrange(attrs, start, start + attr_len);
        if attr_type == ATTR_XOR_MAPPED_ADDRESS as usize {
            xor_mapped = match parse_xor_mapped_address(attr_value, txn_id) {
                Ok(addr) => {
                    proof {
                        let chosen = choose|a: SocketAddr| xor_holds(attr_value@, txn_id@, a);
                        xor_address_is_unique(attr_value@, txn_id@, addr, chosen);
                    }
                    Some(addr)
                },
                Err(_) => None,
            };
        } else if attr_type == ATTR_MAPPED_ADDRESS as usize {
            mapped = match parse_mapped_address(attr_value) {
                Ok(addr) => {
                    proof {
                        let chosen = choose|a: SocketAddr| mapped_holds(attr_value@, a);
                        mapped_address_is_unique(attr_value@, addr, chosen);
                    }
                    Some(addr)
                },
                Err(_) => None,
            };
        }
        let padding = (4 - (attr_len % 4)) % 4;
        offset = start + attr_len + padding;
    }
    match (xor_mapped, mapped) {
        (Some(addr), _) => Ok(addr),
        (None, Some(addr)) => Ok(addr),
        (None, None) => Err(StunError::NoMappedAddress),
    }
}

/// The XOR-MAPPED-ADDRESS attribute value for an address.
pub open spec fn xor_attribute(addr: SocketAddr, txn_id: Seq<u8>) -> Seq<u8> {
    let port = masked(crate::bytes::be_bytes(addr.port as nat, 2), mask(txn_id));
    match addr.ip {
        IpAddr::V4(octets) => seq![0u8, 0x01] + port + masked(octets@, mask(txn_id)),
        IpAddr::V6(octets) => seq![0u8, 0x02] + port + masked(octets@, mask(txn_id)),
    }
}

proof fn lemma_masked_twice(bytes: Seq<u8>, key: Seq<u8>)
    ensures
        masked(masked(bytes, key), key) == bytes,
{
    assert forall|i: int| 0 <= i < bytes.len() implies masked(masked(bytes, key), key)[i]
        == bytes[i] by {
        let x = bytes[i];
        let k = key[i];
        assert((x ^ k) ^ k == x) by (bit_vector);
    }
    assert(masked(masked(bytes, key), key) =~= bytes);
}

/// Reading a masked address gives back the address, under the transaction id
/// that it was masked with.
pub proof fn masked_address_reads_back(addr: SocketAddr, txn_id: Seq<u8>)
    ensures
        xor_address(xor_attribute(addr, txn_id), txn_id) == Some(addr),
{
    let attr = xor_attribute(addr, txn_id);
    let key = mask(txn_id);
    let port = crate::bytes::be_bytes(addr.port as nat, 2);
    crate::bytes::lemma_pow256_widths();
    crate::bytes::lemma_be_round_trip(addr.port as nat, 2);
    lemma_masked_twice(port, key);
    assert(attr.subrange(2, 4) =~= masked(port, key));
    match addr.ip {
        IpAddr::V4(octets) => {
            assert(attr.subrange(4, 8) =~= masked(octets@, key));
            lemma_masked_twice(octets@, key);
        },
        IpAddr::V6(octets) => {
            assert(attr.subrange(4, 20) =~= masked(octets@, key));
            lemma_masked_twice(octets@, key);
        },
    }
    assert(xor_holds(attr, txn_id, addr));
    let chosen = choose|a: SocketAddr| xor_holds(attr, txn_id, a);
    xor_address_is_unique(attr, txn_id, addr, chosen);
}

/// A binding response that carries one XOR-MAPPED-ADDRESS attribute.
pub open spec fn response_bytes(addr: SocketAddr, txn_id: Seq<u8>) -> Seq<u8> {
    let value = xor_attribute(addr, txn_id);
    seq![0x01u8, 0x01, 0x00, (4 + value.len()) as u8] + magic_bytes() + txn_id + seq![
        0x00u8,
        0x20,
        0x00,
        value.len() as u8,
    ] + value
}

/// A response that carries a masked address says that address to the request
/// that asked for it, and is a mismatch to every other request.
pub proof fn response_reads_back(addr: SocketAddr, txn_id: Seq<u8>, other: Seq<u8>)
    requires
        txn_id.len() == 12,
        other != txn_id,
    ensures
        response_outcome(response_bytes(addr, txn_id), txn_id) == Ok::<SocketAddr, StunError>(addr),
        response_outcome(response_bytes(addr, txn_id), other) == Err::<SocketAddr, StunError>(
            StunError::TransactionMismatch,
        ),
{
    let buf = response_bytes(addr, txn_id);
    let value = xor_attribute(addr, txn_id);
    crate::bytes::lemma_be_bytes_len(addr.port as nat, 2);
    assert(value.len() == 8 || value.len() == 20);
    assert(buf.subrange(8, 20) =~= txn_id);
    let attrs = attributes(buf);
    assert(attrs =~= seq![0x00u8, 0x20, 0x00, value.len() as u8] + value);
    assert(attrs.subrange(4, (4 + value.len()) as int) =~= value);
    masked_address_reads_back(addr, txn_id);
    reveal_with_fuel(last_addresses, 2);
}

/// A request is twenty bytes: the type 0x0001, no attributes, the magic 0x2112A442 and
/// the transaction id.
pub proof fn requests_are_laid_out_as_agreed(
    txn_id: &[u8; 12],
    request: [u8; 20],
    made: Option<([u8; 12], [u8; 20])>,
    datagram: [u8; 4],
)
    requires
        call_ensures(build_binding_request, (txn_id,), request),
        call_ensures(request_with, (Some(*txn_id),), made),
        call_ensures(probe, (), datagram),
    ensures
        request@.take(8) == seq![0x00u8, 0x01, 0x00, 0x00, 0x21, 0x12, 0xA4, 0x42],
        request@.skip(8) == txn_id@,
        made matches Some((used, sent)) && used@ == txn_id@ && sent@ == request@,
        datagram@ == seq![0x50u8, 0x32u8, 0x50u8, 0x50u8],
{
}

/// The byte that masks a byte of an address: the magic first, then the transaction id.
pub open spec fn mask_byte(txn_id: Seq<u8>, i: int) -> u8 {
    if i < 4 {
        seq![0x21u8, 0x12u8, 0xA4u8, 0x42u8][i]
    } else {
        txn_id[i - 4]
    }
}

/// Reading a masked address takes the mask off each byte of the port and of the
/// address; one that is too short or of another family is refused.
pub proof fn masked_addresses_are_unmasked(
    attr_value: &[u8],
    txn_id: &[u8; 12],
    out: Result<SocketAddr, StunError>,
)
    requires
        call_ensures(parse_xor_mapped_address, (attr_value, txn_id), out),
    ensures
        attr_value@.len() < 8 ==> (out matches Err(e) && e is XorTooShort),
        attr_value@.len() >= 8 && attr_value@[1] == 1 ==> (
        out matches Ok(SocketAddr { ip: IpAddr::V4(octets), port }) && port == (attr_value@[2]
            ^ 0x21u8) * 256 + (attr_value@[3] ^ 0x12u8) && forall|i: int|
            0 <= i < 4 ==> #[trigger] octets@[i] == attr_value@[4 + i] ^ mask_byte(txn_id@, i)),
        attr_value@.len() >= 20 && attr_value@[1] == 2 ==> (
        out matches Ok(SocketAddr { ip: IpAddr::V6(octets), port }) && port == (attr_value@[2]
            ^ 0x21u8) * 256 + (attr_value@[3] ^ 0x12u8) && forall|i: int|
            0 <= i < 16 ==> #[trigger] octets@[i] == attr_value@[4 + i] ^ mask_byte(txn_id@, i)),
        8 <= attr_value@.len() < 20 && attr_value@[1] == 2 ==> (out matches Err(e)
            && e is XorIpv6TooShort),
        attr_value@.len() >= 8 && attr_value@[1] != 1 && attr_value@[1] != 2 ==> (out matches Err(
            StunError::UnknownFamily(family),
        ) && family == attr_value@[1]),
{
    let attr = attr_value@;
    let key = mask(txn_id@);
    assert forall|i: int| 0 <= i < 16 implies #[trigger] key[i] == mask_byte(txn_id@, i) by {
    }
    if let Ok(addr) = out {
        let port = masked(attr.subrange(2, 4), key);
        assert(key[0] == 0x21 && key[1] == 0x12);
        assert(port == seq![attr[2] ^ 0x21u8, attr[3] ^ 0x12u8]);
        lemma_be_pair(attr[2] ^ 0x21u8, attr[3] ^ 0x12u8);
    }
}

/// Reading a plain address takes its bytes as they are.
pub proof fn plain_addresses_are_read_as_they_are(
    attr_value: &[u8],
    out: Result<SocketAddr, StunError>,
)
    requires
        call_ensures(parse_mapped_address, (attr_value,), out),
    ensures
        attr_value@.len() < 8 ==> (out matches Err(e) && e is MappedTooShort),
        attr_value@.len() >= 8 && attr_value@[1] == 1 ==> (
        out matches Ok(SocketAddr { ip: IpAddr::V4(octets), port }) && port == attr_value@[2] * 256
            + attr_value@[3] && octets@ == attr_value@.subrange(4, 8)),
        attr_value@.len() >= 8 && attr_value@[1] != 1 ==> (out matches Err(
            StunError::UnsupportedFamily(family),
        ) && family == attr_value@[1]),
{
    if let Ok(addr) = out {
        assert(attr_value@.subrange(2, 4) == seq![attr_value@[2], attr_value@[3]]);
        lemma_be_pair(attr_value@[2], attr_value@[3]);
    }
}

/// One attribute of eight bytes.
pub open spec fn short_attribute(kind: u8, value: Seq<u8>) -> Seq<u8> {
    seq![0x00u8, kind, 0x00u8, 0x08u8] + value
}

/// A response with one attribute of eight bytes says the address that the attribute
/// holds: the masked one is unmasked, the plain one taken as it is; another attribute
/// says none.
pub proof fn responses_say_their_address(
    buf: &[u8],
    txn_id: &[u8; 12],
    out: Result<SocketAddr, StunError>,
    magic: Seq<u8>,
    kind: u8,
    attr_value: &[u8],
    masked_out: Result<SocketAddr, StunError>,
    plain_out: Result<SocketAddr, StunError>,
)
    requires
        magic.len() == 4,
        attr_value@.len() == 8,
        buf@ == seq![0x01u8, 0x01u8, 0x00u8, 0x0Cu8] + magic + txn_id@ + short_attribute(
            kind,
            attr_value@,
        ),
        call_ensures(parse_binding_response, (buf, txn_id), out),
        call_ensures(parse_xor_mapped_address, (attr_value, txn_id), masked_out),
        call_ensures(parse_mapped_address, (attr_value,), plain_out),
    ensures
        kind == 0x20 && masked_out is Ok ==> out == masked_out,
        kind == 0x01 && plain_out is Ok ==> out == plain_out,
        kind == 0x20 && masked_out is Err || kind == 0x01 && plain_out is Err || kind != 0x20 && kind
            != 0x01 ==> (out matches Err(e) && e is NoMappedAddress),
{
    let value = attr_value@;
    let attrs = attributes(buf@);
    assert(buf@.subrange(8, 20) == txn_id@);
    assert(attrs == short_attribute(kind, value));
    assert(attrs.subrange(4, 12) == value);
    if let Ok(addr) = masked_out {
        let chosen = choose|a: SocketAddr| xor_holds(value, txn_id@, a);
        xor_address_is_unique(value, txn_id@, addr, chosen);
    }
    if let Ok(addr) = plain_out {
        let chosen = choose|a: SocketAddr| mapped_holds(value, a);
        mapped_address_is_unique(value, addr, chosen);
    }
    reveal_with_fuel(last_addresses, 2);
}

/// A response with both a masked and a plain address says the masked one, whichever
/// comes first.
pub proof fn masked_addresses_are_preferred(
    buf: &[u8],
    txn_id: &[u8; 12],
    out: Result<SocketAddr, StunError>,
    magic: Seq<u8>,
    masked_value: &[u8],
    plain_value: &[u8],
    masked_first: bool,
    addr: SocketAddr,
)
    requires
        magic.len() == 4,
        masked_value@.len() == 8,
        plain_value@.len() == 8,
        buf@ == seq![0x01u8, 0x01u8, 0x00u8, 0x18u8] + magic + txn_id@ + (if masked_first {
            short_attribute(0x20, masked_value@) + short_attribute(0x01, plain_value@)
        } else {
            short_attribute(0x01, plain_value@) + short_attribute(0x20, masked_value@)
        }),
        call_ensures(parse_binding_response, (buf, txn_id), out),
        call_ensures(parse_xor_mapped_address, (masked_value, txn_id), Ok(addr)),
    ensures
        out == Ok::<SocketAddr, StunError>(addr),
{
    let attrs = attributes(buf@);
    let masked_attr = short_attribute(0x20, masked_value@);
    let plain_attr = short_attribute(0x01, plain_value@);
    assert(buf@.subrange(8, 20) == txn_id@);
    let chosen = choose|a: SocketAddr| xor_holds(masked_value@, txn_id@, a);
    xor_address_is_unique(masked_value@, txn_id@, addr, chosen);
    if masked_first {
        assert(attrs == masked_attr + plain_attr);
        assert(attrs.subrange(4, 12) == masked_value@);
        assert(attrs.subrange(16, 24) == plain_value@);
    } else {
        assert(attrs == plain_attr + masked_attr);
        assert(attrs.subrange(4, 12) == plain_value@);
        assert(attrs.subrange(16, 24) == masked_value@);
    }
    reveal_with_fuel(last_addresses, 3);
}

/// Attributes of other kinds are passed over, whatever their length: the padding to
/// four bytes belongs to them.
pub proof fn other_attributes_are_passed_over(
    attrs: Seq<u8>,
    txn_id: Seq<u8>,
    kind: u8,
    len: u8,
    value: Seq<u8>,
    padding: Seq<u8>,
    rest: Seq<u8>,
)
    requires
        kind != 0x20,
        kind != 0x01,
        value.len() == len,
        (value.len() + padding.len()) % 4 == 0,
        padding.len() < 4,
        attrs == seq![0x00u8, kind, 0x00u8, len] + value + padding + rest,
    ensures
        last_addresses(attrs, 0, txn_id, None, None) == last_addresses(
            attrs,
            attrs.len() - rest.len(),
            txn_id,
            None,
            None,
        ),
{
    reveal_with_fuel(last_addresses, 2);
}

/// A response that is too short, of another type or for another request is refused.
pub proof fn wrong_responses_are_refused(
    buf: &[u8],
    txn_id: &[u8; 12],
    out: Result<SocketAddr, StunError>,
)
    requires
        call_ensures(parse_binding_response, (buf, txn_id), out),
    ensures
        buf@.len() < 20 ==> (out matches Err(e) && e is ResponseTooShort),
        buf@.len() >= 20 && !(buf@[0] == 1 && buf@[1] == 1) ==> (out matches Err(
            StunError::UnexpectedType(kind),
        ) && kind == buf@[0] * 256 + buf@[1]),
        buf@.len() >= 20 && buf@[0] == 1 && buf@[1] == 1 && buf@.subrange(8, 20) != txn_id@ ==> (
        out matches Err(e) && e is TransactionMismatch),
{
}

/// What the errors of a response say.
pub proof fn response_errors_say_what_is_wrong(error: StunError, text: String)
    requires
        call_ensures(StunError::message, (&error,), text),
    ensures
        match error {
            StunError::XorTooShort => text@ == "XOR-MAPPED-ADDRESS too short"@,
            StunError::XorIpv6TooShort => text@ == "XOR-MAPPED-ADDRESS IPv6 too short"@,
            StunError::UnknownFamily(family) => text@ == "unknown address family: 0x"@
                + crate::text::hex(seq![family]),
            StunError::MappedTooShort => text@ == "MAPPED-ADDRESS too short"@,
            StunError::UnsupportedFamily(family) => text@
                == "unsupported MAPPED-ADDRESS family: 0x"@ + crate::text::hex(seq![family]),
            StunError::ResponseTooShort => text@ == "response too short"@,
            StunError::UnexpectedType(kind) => text@ == "unexpected message type: 0x"@
                + crate::text::hex(crate::bytes::be_bytes(kind as nat, 2)),
            StunError::TransactionMismatch => text@ == "transaction ID mismatch"@,
            StunError::NoMappedAddress => text@ == "no mapped address in response"@,
        },
{
    reveal_with_fuel(crate::text::hex, 3);
    reveal_with_fuel(crate::bytes::be_bytes, 3);
    match error {
        StunError::UnknownFamily(family) => {
            assert(crate::text::hex(seq![family]) == crate::text::hex_byte(family));
        },
        StunError::UnsupportedFamily(family) => {
            assert(crate::text::hex(seq![family]) == crate::text::hex_byte(family));
        },
        StunError::UnexpectedType(kind) => {
            let high = (kind / 256) as u8;
            let low = (kind % 256) as u8;
            assert(crate::bytes::be_bytes(kind as nat, 2) == seq![high, low]);
            assert(seq![high, low].drop_last() == seq![high]);
            assert(crate::text::hex(seq![high, low]) == crate::text::hex_byte(high)
                + crate::text::hex_byte(low));
            assert("unexpected message type: 0x"@ + crate::text::hex_byte(high)
                + crate::text::hex_byte(low) == "unexpected message type: 0x"@ + (
            crate::text::hex_byte(high) + crate::text::hex_byte(low)));
        },
        _ => {},
    }
}

/// What stands behind the stated length is ignored.
pub proof fn trailing_bytes_are_ignored(
    buf: &[u8],
    extra: Seq<u8>,
    longer: &[u8],
    txn_id: &[u8; 12],
    out: Result<SocketAddr, StunError>,
    again: Result<SocketAddr, StunError>,
)
    requires
        buf@.len() >= 20,
        buf@.len() == 20 + buf@[2] * 256 + buf@[3],
        longer@ == buf@ + extra,
        call_ensures(parse_binding_response, (buf, txn_id), out),
        call_ensures(parse_binding_response, (longer, txn_id), again),
    ensures
        again == out,
{
    assert(longer@.subrange(8, 20) == buf@.subrange(8, 20));
    assert(attributes(longer@) == attributes(buf@));
}

/// A stated length beyond the end is cut to what is there.
pub proof fn overstated_lengths_are_cut(
    buf: &[u8],
    stated: &[u8],
    txn_id: &[u8; 12],
    out: Result<SocketAddr, StunError>,
    again: Result<SocketAddr, StunError>,
)
    requires
        buf@.len() >= 20,
        buf@.len() == 20 + buf@[2] * 256 + buf@[3],
        stated@.len() == buf@.len(),
        forall|i: int| 0 <= i < buf@.len() && i != 2 && i != 3 ==> stated@[i] == #[trigger] buf@[i],
        stated@[2] * 256 + stated@[3] >= buf@.len() - 20,
        call_ensures(parse_binding_response, (buf, txn_id), out),
        call_ensures(parse_binding_response, (stated, txn_id), again),
    ensures
        again == out,
{
    assert(buf@[0] == stated@[0] && buf@[1] == stated@[1]);
    assert(stated@.subrange(8, 20) == buf@.subrange(8, 20));
    assert(attributes(stated@) == attributes(buf@));
}

/// A new request is the request of its transaction id.
pub proof fn new_requests_carry_their_id(
    txn_id: [u8; 12],
    request: [u8; 20],
    same: [u8; 20],
)
    requires
        call_ensures(new_request, (), Some((txn_id, request))),
        call_ensures(build_binding_request, (&txn_id,), same),
    ensures
        request@ == same@,
        request@.skip(8) == txn_id@,
{
}

} // verus!
