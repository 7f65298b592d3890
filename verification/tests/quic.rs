use stitch::discovery::{format_fingerprint, peer_id_from_fingerprint};
use stitch::hashing::sha256_of;
use stitch::quic::{
    check_fingerprint, compute_fingerprint, generate_self_signed_cert, identity_of, CertError,
};

#[test]
fn generate_cert_produces_valid_fingerprint() {
    let id = generate_self_signed_cert().unwrap();
    assert!(id.fingerprint.starts_with("sha256:"));
    assert!(!id.cert_der.is_empty());
    assert!(!id.key_der.is_empty());
}

#[test]
fn fingerprint_is_deterministic() {
    let data = b"test certificate data";
    let fp1 = compute_fingerprint(data);
    let fp2 = compute_fingerprint(data);
    assert_eq!(fp1, fp2);
    assert!(fp1.starts_with("sha256:"));
}

#[test]
fn different_certs_have_different_fingerprints() {
    let id1 = generate_self_signed_cert().unwrap();
    let id2 = generate_self_signed_cert().unwrap();
    assert_ne!(id1.fingerprint, id2.fingerprint);
}

#[test]
fn fingerprints_spell_the_digest() {
    let text = compute_fingerprint(b"abc");
    assert!(text.starts_with("sha256:ba:78:16:bf:"));
    assert!(text.ends_with(":00:15:ad"));
    assert_eq!(peer_id_from_fingerprint(&text), Some(sha256_of(b"abc")));
    assert_eq!(format_fingerprint(&sha256_of(b"abc")), text);
}

#[test]
fn generated_identities_carry_their_own_fingerprint() {
    let id = generate_self_signed_cert().unwrap();
    assert_eq!(compute_fingerprint(&id.cert_der), id.fingerprint);
    let again = identity_of(id.cert_der.clone(), id.key_der.clone()).unwrap();
    assert_eq!(again.fingerprint, id.fingerprint);
    assert!(check_fingerprint(&id.fingerprint, &id.cert_der).is_ok());
}

#[test]
fn another_certificate_is_refused() {
    let actual = compute_fingerprint(b"abc");
    assert_eq!(check_fingerprint("sha256:00", b"abc").unwrap_err(), actual);
}

#[test]
fn certificate_errors_read_as_sentences() {
    assert_eq!(
        CertError::KeyGeneration("x".to_string()).message(),
        "key generation failed: x"
    );
    assert_eq!(CertError::Params("x".to_string()).message(), "cert params failed: x");
    assert_eq!(CertError::SelfSign("x".to_string()).message(), "self-sign failed: x");
}

#[test]
fn the_certificate_is_the_one_that_the_key_signs() {
    let id = generate_self_signed_cert().unwrap();
    let key = rcgen::KeyPair::try_from(id.key_der.as_slice()).unwrap();
    let mut params = rcgen::CertificateParams::new(vec!["mqp2p-peer".to_string()]).unwrap();
    params.distinguished_name = rcgen::DistinguishedName::new();
    params
        .distinguished_name
        .push(rcgen::DnType::CommonName, "mqp2p-peer");
    let cert = params.self_signed(&key).unwrap();
    assert_eq!(cert.der().to_vec(), id.cert_der);
    assert!(ring::signature::Ed25519KeyPair::from_pkcs8(&id.key_der).is_ok());
}
