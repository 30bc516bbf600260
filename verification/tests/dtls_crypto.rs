use ring::signature::{Ed25519KeyPair, KeyPair};
use sha2::Digest;
use webrtc::dtls::crypto::{
    select_verify_algorithm, verify_certificate_verify, verify_key_signature, VerifyAlgorithm,
};
use webrtc::dtls::DtlsError;

fn tlv(tag: u8, content: &[u8]) -> Vec<u8> {
    let mut out = vec![tag];
    let n = content.len();
    if n < 128 {
        out.push(n as u8);
    } else if n < 256 {
        out.push(0x81);
        out.push(n as u8);
    } else {
        out.push(0x82);
        out.push((n >> 8) as u8);
        out.push(n as u8);
    }
    out.extend_from_slice(content);
    out
}

fn cat(parts: &[Vec<u8>]) -> Vec<u8> {
    parts.iter().flatten().copied().collect()
}

const ED25519_OID: [u8; 3] = [0x2b, 0x65, 0x70];

fn ed25519_certificate(public_key: &[u8]) -> Vec<u8> {
    let alg = tlv(0x30, &tlv(0x06, &ED25519_OID));
    let name = tlv(0x30, &tlv(0x31, &tlv(0x30, &cat(&[tlv(0x06, &[0x55, 0x04, 0x03]), tlv(0x0c, b"test")]))));
    let validity = tlv(0x30, &cat(&[tlv(0x17, b"200101000000Z"), tlv(0x17, b"400101000000Z")]));
    let mut bits = vec![0u8];
    bits.extend_from_slice(public_key);
    let spki = tlv(0x30, &cat(&[alg.clone(), tlv(0x03, &bits)]));
    let tbs = tlv(
        0x30,
        &cat(&[
            tlv(0xa0, &tlv(0x02, &[2])),
            tlv(0x02, &[1]),
            alg.clone(),
            name.clone(),
            validity,
            name,
            spki,
        ]),
    );
    let mut sig = vec![0u8];
    sig.extend_from_slice(&[0u8; 64]);
    tlv(0x30, &cat(&[tbs, alg, tlv(0x03, &sig)]))
}

#[test]
fn test_select_verify_algorithm() {
    let ecdsa = [0x2a, 0x86, 0x48, 0xce, 0x3d, 0x02, 0x01];
    let ecdsa_sha384 = [0x2a, 0x86, 0x48, 0xce, 0x3d, 0x04, 0x03, 0x03];
    let rsa = [0x2a, 0x86, 0x48, 0x86, 0xf7, 0x0d, 0x01, 0x01, 0x01];
    let rsa_sha256 = [0x2a, 0x86, 0x48, 0x86, 0xf7, 0x0d, 0x01, 0x01, 0x0b];
    assert_eq!(select_verify_algorithm(&ED25519_OID, &[]), Ok(VerifyAlgorithm::Ed25519));
    assert_eq!(select_verify_algorithm(&ecdsa, &ecdsa_sha384), Ok(VerifyAlgorithm::EcdsaP384Sha384));
    assert_eq!(select_verify_algorithm(&rsa, &rsa_sha256), Ok(VerifyAlgorithm::RsaPkcs1Sha256));
    assert_eq!(
        select_verify_algorithm(&rsa, &ecdsa_sha384),
        Err(DtlsError::ErrKeySignatureVerifyUnimplemented)
    );
    assert_eq!(
        select_verify_algorithm(&[1, 2], &rsa_sha256),
        Err(DtlsError::ErrKeySignatureVerifyUnimplemented)
    );
}

#[test]
fn test_verify_key_signature() {
    let kp = Ed25519KeyPair::from_seed_unchecked(&[7u8; 32]).unwrap();
    let cert = ed25519_certificate(kp.public_key().as_ref());
    let message = b"client random, server random, key";
    let sig = kp.sign(message);
    assert_eq!(verify_key_signature(message, sig.as_ref(), &cert), Ok(()));
    assert_eq!(
        verify_key_signature(b"another message", sig.as_ref(), &cert),
        Err(DtlsError::ErrKeySignatureMismatch)
    );
    assert_eq!(verify_key_signature(message, sig.as_ref(), &[]), Err(DtlsError::ErrLengthMismatch));
    assert_eq!(
        verify_key_signature(message, sig.as_ref(), &[0x30, 0x03, 1, 2, 3]),
        Err(DtlsError::ErrInvalidCertificate)
    );
}

#[test]
fn test_verify_certificate_verify() {
    let kp = Ed25519KeyPair::from_seed_unchecked(&[9u8; 32]).unwrap();
    let cert = ed25519_certificate(kp.public_key().as_ref());
    let bodies = b"handshake messages";
    let digest = sha2::Sha256::digest(bodies);
    let sig = kp.sign(&digest);
    assert_eq!(verify_certificate_verify(bodies, sig.as_ref(), &cert), Ok(()));
    // A signature of the bodies themselves, not of their digest, is refused.
    let raw_sig = kp.sign(bodies);
    assert_eq!(
        verify_certificate_verify(bodies, raw_sig.as_ref(), &cert),
        Err(DtlsError::ErrKeySignatureMismatch)
    );
}
