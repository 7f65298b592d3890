//! Certificate identities and their fingerprints.
use vstd::prelude::*;
use crate::hashing::sha256_of;
use crate::discovery::format_fingerprint;
use crate::text::same_text;

verus! {

/// The name that peer certificates carry.
pub const PEER_NAME: &'static str = "mqp2p-peer";

/// A private key pair.
#[verifier::external_type_specification]
#[verifier::external_body]
pub struct ExKeyPair(rcgen::KeyPair);

/// What a certificate is to say.
#[verifier::external_type_specification]
#[verifier::external_body]
pub struct ExCertificateParams(rcgen::CertificateParams);

/// A certificate.
#[verifier::external_type_specification]
#[verifier::external_body]
pub struct ExCertificate(rcgen::Certificate);

/// Why a key or a certificate could not be made.
#[verifier::external_type_specification]
#[verifier::external_body]
pub struct ExRcgenError(rcgen::Error);

/// The private key of a key pair, as `rcgen::KeyPair::serialize_der` gives it.
pub uninterp spec fn private_key(key: rcgen::KeyPair) -> Seq<u8>;

/// `ring::signature::Ed25519KeyPair::from_pkcs8` accepts the bytes as a key pair.
pub uninterp spec fn ed25519_key(key_der: Seq<u8>) -> bool;

/// The alternative names that the parameters ask for.
pub uninterp spec fn alternative_names(params: rcgen::CertificateParams) -> Seq<Seq<char>>;

/// The common name, if it is all that the parameters have for a subject.
pub uninterp spec fn common_name(params: rcgen::CertificateParams) -> Option<Seq<char>>;

/// But for the names the parameters are those of
/// `rcgen::CertificateParams::default`.
pub uninterp spec fn plain_params(params: rcgen::CertificateParams) -> bool;

/// The certificate as bytes, as `rcgen::Certificate::der` gives it.
pub uninterp spec fn certificate_bytes(cert: rcgen::Certificate) -> Seq<u8>;

/// The bytes of the certificate that `rcgen::CertificateParams::self_signed`
/// makes of default parameters with these names and of an Ed25519 key.
pub uninterp spec fn self_signed_bytes(
    names: Seq<Seq<char>>,
    common_name: Option<Seq<char>>,
    key_der: Seq<u8>,
) -> Seq<u8>;

/// The text of an error, as its `Display` gives it.
pub uninterp spec fn rcgen_error_display(error: rcgen::Error) -> Seq<char>;

/// All characters are ASCII.
pub open spec fn ascii(text: Seq<char>) -> bool {
    forall|i: int| 0 <= i < text.len() ==> (#[trigger] text[i] as nat) < 128
}

/// `rcgen::KeyPair::generate_for` with `rcgen::PKCS_ED25519`: a fresh random
/// Ed25519 key pair.
#[verifier::external_body]
fn generate_key() -> (key: Result<rcgen::KeyPair, rcgen::Error>)
    ensures
        key matches Ok(k) ==> ed25519_key(private_key(k)),
{
    rcgen::KeyPair::generate_for(&rcgen::PKCS_ED25519)
}

/// `rcgen::CertificateParams::new` for one alternative name: default parameters
/// for that name, if it is ASCII. A name that is an IP address, which takes dots
/// or colons, may come out in another spelling.
#[verifier::external_body]
fn params_for(name: &str) -> (params: Result<rcgen::CertificateParams, rcgen::Error>)
    ensures
        params is Ok <==> ascii(name@),
        params matches Ok(p) ==> plain_params(p),
        params matches Ok(p) ==> (!name@.contains('.') && !name@.contains(':')
            ==> alternative_names(p) == seq![name@]),
{
    rcgen::CertificateParams::new(vec![name.to_string()])
}

/// `rcgen::DistinguishedName::push` of a common name, on a new distinguished
/// name that replaces that of the parameters: the common name is then all that
/// they have for a subject, and the rest is as before.
#[verifier::external_body]
fn set_common_name(params: &mut rcgen::CertificateParams, name: &str)
    ensures
        common_name(*final(params)) == Some(name@),
        alternative_names(*final(params)) == alternative_names(*old(params)),
        plain_params(*final(params)) == plain_params(*old(params)),
{
    params.distinguished_name = rcgen::DistinguishedName::new();
    params.distinguished_name.push(rcgen::DnType::CommonName, name);
}

/// `rcgen::CertificateParams::self_signed`: the serial number is made of the
/// public key, the dates are fixed and Ed25519 signing is deterministic, so that
/// with an Ed25519 key the certificate depends on the parameters and the key
/// alone.
#[verifier::external_body]
fn self_sign(params: &rcgen::CertificateParams, key: &rcgen::KeyPair) -> (cert: Result<
    rcgen::Certificate,
    rcgen::Error,
>)
    ensures
        cert matches Ok(c) ==> (plain_params(*params) && common_name(*params) is Some
            && ed25519_key(private_key(*key)) ==> certificate_bytes(c) == self_signed_bytes(
            alternative_names(*params),
            common_name(*params),
            private_key(*key),
        )),
{
    params.self_signed(key)
}

/// `rcgen::Certificate::der`: the certificate as bytes.
#[verifier::external_body]
fn certificate_der(cert: &rcgen::Certificate) -> (der: Vec<u8>)
    ensures
        der@ == certificate_bytes(*cert),
{
    cert.der().to_vec()
}

/// `rcgen::KeyPair::serialize_der`: the private key as bytes.
#[verifier::external_body]
fn key_der(key: &rcgen::KeyPair) -> (der: Vec<u8>)
    ensures
        der@ == private_key(*key),
{
    key.serialize_der()
}

/// The text of an `rcgen::Error`, as its `Display` gives it.
#[verifier::external_body]
fn rcgen_error_text(error: &rcgen::Error) -> (text: String)
    ensures
        text@ == rcgen_error_display(*error),
{
    format!("{error}")
}

/// A certificate, its private key and its fingerprint.
#[derive(Debug)]
pub struct CertIdentity {
    pub cert_der: Vec<u8>,
    pub key_der: Vec<u8>,
    pub fingerprint: String,
}

/// Why no certificate identity could be made.
#[derive(Debug, PartialEq, Eq)]
pub enum CertError {
    KeyGeneration(String),
    Params(String),
    SelfSign(String),
    /// The certificate is too large to be fingerprinted.
    TooLarge,
}

/// The sentence that describes a [`CertError`].
pub open spec fn cert_error_text(error: CertError) -> Seq<char> {
    match error {
        CertError::KeyGeneration(e) => "key generation failed: "@ + e@,
        CertError::Params(e) => "cert params failed: "@ + e@,
        CertError::SelfSign(e) => "self-sign failed: "@ + e@,
        CertError::TooLarge => "certificate too large"@,
    }
}

impl CertError {
    /// The error as a sentence.
    pub fn message(&self) -> (text: String)
        ensures
            text@ == cert_error_text(*self),
    {
        match self {
            CertError::KeyGeneration(e) => {
                let mut out = "key generation failed: ".to_string();
                out.append(e.as_str());
                out
            },
            CertError::Params(e) => {
                let mut out = "cert params failed: ".to_string();
                out.append(e.as_str());
                out
            },
            CertError::SelfSign(e) => {
                let mut out = "self-sign failed: ".to_string();
                out.append(e.as_str());
                out
            },
            CertError::TooLarge => "certificate too large".to_string(),
        }
    }
}

/// The text is that of some error of the certificate library.
pub open spec fn reports_rcgen(text: Seq<char>) -> bool {
    exists|error: rcgen::Error| text == #[trigger] rcgen_error_display(error)
}

/// The fingerprint of a certificate.
pub open spec fn fingerprint_of(cert_der: Seq<u8>) -> Seq<char> {
    crate::discovery::fingerprint_text(crate::hashing::sha256(cert_der))
}

/// A fresh Ed25519 key and the certificate for [`PEER_NAME`] that the key itself
/// signed, with the fingerprint of the certificate. Which key it is, and whether
/// there is one, is up to the system's random source. Only a certificate beyond
/// what a digest takes is too large.
pub fn generate_self_signed_cert() -> (identity: Result<CertIdentity, CertError>)
    ensures
        match identity {
            Ok(id) => {
                &&& ed25519_key(id.key_der@)
                &&& id.cert_der@ == self_signed_bytes(
                    seq![PEER_NAME@],
                    Some(PEER_NAME@),
                    id.key_der@,
                )
                &&& id.fingerprint@ == fingerprint_of(id.cert_der@)
            },
            Err(CertError::KeyGeneration(text)) => reports_rcgen(text@),
            Err(CertError::SelfSign(text)) => reports_rcgen(text@),
            Err(CertError::Params(_)) => false,
            Err(CertError::TooLarge) => exists|key: Seq<u8>|
                {
                    &&& #[trigger] ed25519_key(key)
                    &&& self_signed_bytes(seq![PEER_NAME@], Some(PEER_NAME@), key).len()
                        > crate::hashing::MAX_DIGEST_INPUT
                },
        },
{
    proof {
        reveal_strlit("mqp2p-peer");
    }
    let key = match generate_key() {
        Ok(key) => key,
        Err(e) => return Err(CertError::KeyGeneration(rcgen_error_text(&e))),
    };
    let mut params = match params_for(PEER_NAME) {
        Ok(params) => params,
        Err(e) => return Err(CertError::Params(rcgen_error_text(&e))),
    };
    set_common_name(&mut params, PEER_NAME);
    let cert = match self_sign(&params, &key) {
        Ok(cert) => cert,
        Err(e) => return Err(CertError::SelfSign(rcgen_error_text(&e))),
    };
    let key_der = key_der(&key);
    assert(ed25519_key(key_der@));
    identity_of(certificate_der(&cert), key_der)
}

/// The identity of a certificate and its key.
pub fn identity_of(cert_der: Vec<u8>, key_der: Vec<u8>) -> (identity: Result<
    CertIdentity,
    CertError,
>)
    ensures
        match identity {
            Ok(id) => id.cert_der@ == cert_der@ && id.key_der@ == key_der@ && id.fingerprint@
                == fingerprint_of(cert_der@),
            Err(e) => e == CertError::TooLarge && cert_der@.len()
                > crate::hashing::MAX_DIGEST_INPUT,
        },
{
    if cert_der.len() as u64 > crate::hashing::MAX_DIGEST_INPUT {
        return Err(CertError::TooLarge);
    }
    let fingerprint = compute_fingerprint(cert_der.as_slice());
    Ok(CertIdentity { cert_der, key_der, fingerprint })
}

/// The fingerprint of a certificate: its SHA-256 digest as colon-separated
/// hexadecimal bytes.
pub fn compute_fingerprint(cert_der: &[u8]) -> (fingerprint: String)
    requires
        cert_der@.len() <= crate::hashing::MAX_DIGEST_INPUT,
    ensures
        fingerprint@ == fingerprint_of(cert_der@),
        crate::hashing::sha256(cert_der@).len() == 32,
{
    let hash = sha256_of(cert_der);
    format_fingerprint(hash.as_slice())
}

/// Whether a certificate is the expected one; if not, the fingerprint it has
/// instead.
pub fn check_fingerprint(expected: &str, cert_der: &[u8]) -> (out: Result<(), String>)
    requires
        cert_der@.len() <= crate::hashing::MAX_DIGEST_INPUT,
    ensures
        match out {
            Ok(()) => expected@ == fingerprint_of(cert_der@),
            Err(actual) => expected@ != fingerprint_of(cert_der@) && actual@ == fingerprint_of(
                cert_der@,
            ),
        },
{
    let actual = compute_fingerprint(cert_der);
    if same_text(actual.as_str(), expected) {
        Ok(())
    } else {
        Err(actual)
    }
}

/// What a fingerprint mismatch is reported as.
pub fn mismatch_text(expected: &str, actual: &str) -> (text: String)
    ensures
        text@ == "fingerprint mismatch: expected "@ + expected@ + ", got "@ + actual@,
{
    let mut out = "fingerprint mismatch: expected ".to_string();
    out.append(expected);
    out.append(", got ");
    out.append(actual);
    out
}

/// The writer identity that is read out of a certificate's fingerprint is the
/// SHA-256 digest of the certificate.
pub proof fn fingerprint_names_the_digest(cert_der: Seq<u8>, peer: crate::hlc::PeerId)
    requires
        crate::hashing::sha256(cert_der).len() == 32,
    ensures
        crate::discovery::fingerprint_spells(fingerprint_of(cert_der), peer) <==> peer@
            == crate::hashing::sha256(cert_der),
{
    crate::discovery::fingerprint_reads_back(crate::hashing::sha256(cert_der), peer);
}

/// An identity is known by its fingerprint: the one that was computed for its
/// certificate passes the check, names the digest of the certificate, and every other
/// one fails, with the right one named.
pub proof fn fingerprints_are_checked(
    cert_der: &[u8],
    fingerprint: String,
    expected: &str,
    out: Result<(), String>,
    text: &str,
    peer: Option<crate::hlc::PeerId>,
)
    requires
        call_ensures(compute_fingerprint, (cert_der,), fingerprint),
        call_ensures(check_fingerprint, (expected, cert_der), out),
        text@ == fingerprint@,
        call_ensures(crate::discovery::peer_id_from_fingerprint, (text,), peer),
    ensures
        out is Ok <==> expected@ == fingerprint@,
        out matches Err(actual) ==> actual@ == fingerprint@,
        peer matches Some(p) ==> p@ == crate::hashing::sha256(cert_der@),
{
    if let Some(p) = peer {
        fingerprint_names_the_digest(cert_der@, p);
    }
}

/// An identity holds the certificate and the key that it was made of, and the
/// fingerprint of that certificate.
pub proof fn identities_hold_their_certificate(
    cert_der: Vec<u8>,
    key_der: Vec<u8>,
    identity: Result<CertIdentity, CertError>,
    bytes: &[u8],
    fingerprint: String,
)
    requires
        cert_der@.len() <= crate::hashing::MAX_DIGEST_INPUT,
        call_ensures(identity_of, (cert_der, key_der), identity),
        bytes@ == cert_der@,
        call_ensures(compute_fingerprint, (bytes,), fingerprint),
    ensures
        identity matches Ok(id) && id.cert_der@ == cert_der@ && id.key_der@ == key_der@
            && id.fingerprint@ == fingerprint@,
{
}

/// A generated identity certifies the name of a peer, and its fingerprint passes the
/// check of its own certificate.
pub proof fn generated_identities_pass_their_check(
    id: CertIdentity,
    expected: &str,
    bytes: &[u8],
    out: Result<(), String>,
)
    requires
        call_ensures(generate_self_signed_cert, (), Ok(id)),
        expected@ == id.fingerprint@,
        bytes@ == id.cert_der@,
        call_ensures(check_fingerprint, (expected, bytes), out),
    ensures
        out is Ok,
        id.cert_der@ == self_signed_bytes(
            seq!["mqp2p-peer"@],
            Some("mqp2p-peer"@),
            id.key_der@,
        ),
{
}

/// What the errors of making an identity say.
pub proof fn certificate_errors_say_what_failed(error: CertError, text: String, expected: &str, actual: &str, mismatch: String)
    requires
        call_ensures(CertError::message, (&error,), text),
        call_ensures(mismatch_text, (expected, actual), mismatch),
    ensures
        match error {
            CertError::KeyGeneration(e) => text@ == "key generation failed: "@ + e@,
            CertError::Params(e) => text@ == "cert params failed: "@ + e@,
            CertError::SelfSign(e) => text@ == "self-sign failed: "@ + e@,
            CertError::TooLarge => text@ == "certificate too large"@,
        },
        mismatch@ == "fingerprint mismatch: expected "@ + expected@ + ", got "@ + actual@,
{
}

} // verus!
