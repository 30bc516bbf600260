//! Checking a signature of the peer against the public key of its
//! certificate: the certificate is parsed with `x509-parser`, the
//! verification algorithm chosen from the certificate's key and signature
//! algorithms, and the signature checked with `ring`.
use vstd::prelude::*;
use super::DtlsError;

verus! {

/// The signature algorithms a key signature can be checked with.
#[derive(Debug, PartialEq, Eq, Structural, Clone, Copy)]
pub enum VerifyAlgorithm {
    Ed25519,
    EcdsaP256Sha256,
    EcdsaP384Sha384,
    RsaPkcs1Sha1,
    RsaPkcs1Sha256,
    RsaPkcs1Sha384,
    RsaPkcs1Sha512,
}

/// The DER content of the object identifier 1.3.101.112 (Ed25519).
pub open spec fn oid_ed25519() -> Seq<u8> {
    seq![0x2bu8, 0x65, 0x70]
}

/// 1.2.840.10045.2.1 (an elliptic-curve public key).
pub open spec fn oid_ecdsa() -> Seq<u8> {
    seq![0x2au8, 0x86, 0x48, 0xce, 0x3d, 0x02, 0x01]
}

/// 1.2.840.10045.4.3.2 (ECDSA with SHA-256).
pub open spec fn oid_ecdsa_sha256() -> Seq<u8> {
    seq![0x2au8, 0x86, 0x48, 0xce, 0x3d, 0x04, 0x03, 0x02]
}

/// 1.2.840.10045.4.3.3 (ECDSA with SHA-384).
pub open spec fn oid_ecdsa_sha384() -> Seq<u8> {
    seq![0x2au8, 0x86, 0x48, 0xce, 0x3d, 0x04, 0x03, 0x03]
}

/// 1.2.840.113549.1.1.`last` (the PKCS #1 family).
pub open spec fn oid_pkcs1(last: u8) -> Seq<u8> {
    seq![0x2au8, 0x86, 0x48, 0x86, 0xf7, 0x0d, 0x01, 0x01, last]
}

/// The algorithm that checks signatures of a key with public-key algorithm
/// `pki` made with signature algorithm `sig`: Ed25519 keys; elliptic-curve
/// keys with ECDSA over SHA-256 or SHA-384; RSA keys with PKCS #1 over
/// SHA-1, SHA-256, SHA-384 or SHA-512. Any other pair is refused.
pub open spec fn spec_select_verify_algorithm(pki: Seq<u8>, sig: Seq<u8>) -> Result<
    VerifyAlgorithm,
    DtlsError,
> {
    if pki == oid_ed25519() {
        Ok(VerifyAlgorithm::Ed25519)
    } else if pki == oid_ecdsa() {
        if sig == oid_ecdsa_sha256() {
            Ok(VerifyAlgorithm::EcdsaP256Sha256)
        } else if sig == oid_ecdsa_sha384() {
            Ok(VerifyAlgorithm::EcdsaP384Sha384)
        } else {
            Err(DtlsError::ErrKeySignatureVerifyUnimplemented)
        }
    } else if pki == oid_pkcs1(1) {
        if sig == oid_pkcs1(5) {
            Ok(VerifyAlgorithm::RsaPkcs1Sha1)
        } else if sig == oid_pkcs1(11) {
            Ok(VerifyAlgorithm::RsaPkcs1Sha256)
        } else if sig == oid_pkcs1(12) {
            Ok(VerifyAlgorithm::RsaPkcs1Sha384)
        } else if sig == oid_pkcs1(13) {
            Ok(VerifyAlgorithm::RsaPkcs1Sha512)
        } else {
            Err(DtlsError::ErrKeySignatureVerifyUnimplemented)
        }
    } else {
        Err(DtlsError::ErrKeySignatureVerifyUnimplemented)
    }
}

fn is_pkcs1(s: &[u8], last: u8) -> (r: bool)
    ensures
        r == (s@ == oid_pkcs1(last)),
{
    let o: [u8; 9] = [0x2a, 0x86, 0x48, 0x86, 0xf7, 0x0d, 0x01, 0x01, last];
    assert(o@ =~= oid_pkcs1(last));
    crate::bytes::bytes_equal(s, o.as_slice())
}

/// Chooses the algorithm for a certificate's public-key algorithm `pki` and
/// signature algorithm `sig` (the DER contents of their identifiers).
pub fn select_verify_algorithm(pki: &[u8], sig: &[u8]) -> (r: Result<VerifyAlgorithm, DtlsError>)
    ensures
        r == spec_select_verify_algorithm(pki@, sig@),
{
    let ed25519: [u8; 3] = [0x2b, 0x65, 0x70];
    let ecdsa: [u8; 7] = [0x2a, 0x86, 0x48, 0xce, 0x3d, 0x02, 0x01];
    let ecdsa_sha256: [u8; 8] = [0x2a, 0x86, 0x48, 0xce, 0x3d, 0x04, 0x03, 0x02];
    let ecdsa_sha384: [u8; 8] = [0x2a, 0x86, 0x48, 0xce, 0x3d, 0x04, 0x03, 0x03];
    assert(ed25519@ =~= oid_ed25519());
    assert(ecdsa@ =~= oid_ecdsa());
    assert(ecdsa_sha256@ =~= oid_ecdsa_sha256());
    assert(ecdsa_sha384@ =~= oid_ecdsa_sha384());
    if crate::bytes::bytes_equal(pki, ed25519.as_slice()) {
        Ok(VerifyAlgorithm::Ed25519)
    } else if crate::bytes::bytes_equal(pki, ecdsa.as_slice()) {
        if crate::bytes::bytes_equal(sig, ecdsa_sha256.as_slice()) {
            Ok(VerifyAlgorithm::EcdsaP256Sha256)
        } else if crate::bytes::bytes_equal(sig, ecdsa_sha384.as_slice()) {
            Ok(VerifyAlgorithm::EcdsaP384Sha384)
        } else {
            Err(DtlsError::ErrKeySignatureVerifyUnimplemented)
        }
    } else if is_pkcs1(pki, 1) {
        if is_pkcs1(sig, 5) {
            Ok(VerifyAlgorithm::RsaPkcs1Sha1)
        } else if is_pkcs1(sig, 11) {
            Ok(VerifyAlgorithm::RsaPkcs1Sha256)
        } else if is_pkcs1(sig, 12) {
            Ok(VerifyAlgorithm::RsaPkcs1Sha384)
        } else if is_pkcs1(sig, 13) {
            Ok(VerifyAlgorithm::RsaPkcs1Sha512)
        } else {
            Err(DtlsError::ErrKeySignatureVerifyUnimplemented)
        }
    } else {
        Err(DtlsError::ErrKeySignatureVerifyUnimplemented)
    }
}

/// What the key check reads of a certificate: the identifiers of its
/// public-key and signature algorithms and the bits of its public key.
pub struct CertificateKey {
    pub public_key_algorithm: Vec<u8>,
    pub signature_algorithm: Vec<u8>,
    pub public_key: Vec<u8>,
}

/// What `x509-parser` reads of the DER certificate `der`: the public-key
/// algorithm, the signature algorithm and the public key, or `None` where
/// it does not parse.
pub uninterp spec fn x509_certificate_key(der: Seq<u8>) -> Option<(Seq<u8>, Seq<u8>, Seq<u8>)>;

/// `x509_parser::parse_x509_certificate`, keeping the DER contents of
/// `tbs_certificate.subject_pki.algorithm.algorithm` and of
/// `tbs_certificate.signature.algorithm`, and the data of
/// `tbs_certificate.subject_pki.subject_public_key`. Claimed: the result
/// is the named reading of the bytes; the X.509 grammar is not stated.
#[verifier::external_body]
fn parse_certificate_key(der: &[u8]) -> (r: Option<CertificateKey>)
    ensures
        match r {
            Some(k) => x509_certificate_key(der@) == Some(
                (k.public_key_algorithm@, k.signature_algorithm@, k.public_key@),
            ),
            None => x509_certificate_key(der@) is None,
        },
{
    match x509_parser::parse_x509_certificate(der) {
        Ok((_, cert)) => Some(
            CertificateKey {
                public_key_algorithm: cert.tbs_certificate.subject_pki.algorithm.algorithm.as_bytes().to_vec(),
                signature_algorithm: cert.tbs_certificate.signature.algorithm.as_bytes().to_vec(),
                public_key: cert.tbs_certificate.subject_pki.subject_public_key.data.to_vec(),
            },
        ),
        Err(_) => None,
    }
}

/// Whether `signature` is a valid signature of `message` under
/// `public_key` with algorithm `alg`, as `ring` checks it.
pub uninterp spec fn signature_verifies(
    alg: VerifyAlgorithm,
    public_key: Seq<u8>,
    message: Seq<u8>,
    signature: Seq<u8>,
) -> bool;

/// `ring::signature::UnparsedPublicKey::verify` with the `ring` algorithm
/// of `alg`. Claimed: the result is the named check of these arguments;
/// the signature schemes are not stated.
#[verifier::external_body]
fn ring_verify(alg: VerifyAlgorithm, public_key: &[u8], message: &[u8], signature: &[u8]) -> (r:
    bool)
    ensures
        r == signature_verifies(alg, public_key@, message@, signature@),
{
    let a: &'static dyn ring::signature::VerificationAlgorithm = match alg {
        VerifyAlgorithm::Ed25519 => &ring::signature::ED25519,
        VerifyAlgorithm::EcdsaP256Sha256 => &ring::signature::ECDSA_P256_SHA256_ASN1,
        VerifyAlgorithm::EcdsaP384Sha384 => &ring::signature::ECDSA_P384_SHA384_ASN1,
        VerifyAlgorithm::RsaPkcs1Sha1 => &ring::signature::RSA_PKCS1_1024_8192_SHA1_FOR_LEGACY_USE_ONLY,
        VerifyAlgorithm::RsaPkcs1Sha256 => &ring::signature::RSA_PKCS1_2048_8192_SHA256,
        VerifyAlgorithm::RsaPkcs1Sha384 => &ring::signature::RSA_PKCS1_2048_8192_SHA384,
        VerifyAlgorithm::RsaPkcs1Sha512 => &ring::signature::RSA_PKCS1_2048_8192_SHA512,
    };
    ring::signature::UnparsedPublicKey::new(a, public_key).verify(message, signature).is_ok()
}

/// The SHA-256 digest of some bytes.
pub uninterp spec fn sha256(data: Seq<u8>) -> Seq<u8>;

/// `sha2::Sha256::digest`. Claimed: the result is the named digest of the
/// bytes; the hash function itself is not stated.
#[verifier::external_body]
fn sha256_digest(data: &[u8]) -> (r: Vec<u8>)
    ensures
        r@ == sha256(data@),
{
    <sha2::Sha256 as sha2::Digest>::digest(data).to_vec()
}

/// The check of a key signature: certificates must be given and parse, the
/// algorithm pair be one that is checked, and the signature be valid under
/// the certificate's public key.
pub open spec fn spec_verify_key_signature(
    message: Seq<u8>,
    signature: Seq<u8>,
    raw_certificates: Seq<u8>,
) -> Result<(), DtlsError> {
    if raw_certificates.len() == 0 {
        Err(DtlsError::ErrLengthMismatch)
    } else {
        match x509_certificate_key(raw_certificates) {
            None => Err(DtlsError::ErrInvalidCertificate),
            Some((pki, sig_alg, public_key)) => match spec_select_verify_algorithm(pki, sig_alg) {
                Err(e) => Err(e),
                Ok(alg) => if signature_verifies(alg, public_key, message, signature) {
                    Ok(())
                } else {
                    Err(DtlsError::ErrKeySignatureMismatch)
                },
            },
        }
    }
}

/// Checks that `remote_key_signature` signs `message` under the key of the
/// first certificate of `raw_certificates`.
pub fn verify_key_signature(
    message: &[u8],
    remote_key_signature: &[u8],
    raw_certificates: &[u8],
) -> (r: Result<(), DtlsError>)
    ensures
        r == spec_verify_key_signature(message@, remote_key_signature@, raw_certificates@),
{
    if raw_certificates.len() == 0 {
        return Err(DtlsError::ErrLengthMismatch);
    }
    let key = match parse_certificate_key(raw_certificates) {
        Some(k) => k,
        None => return Err(DtlsError::ErrInvalidCertificate),
    };
    let alg = match select_verify_algorithm(
        key.public_key_algorithm.as_slice(),
        key.signature_algorithm.as_slice(),
    ) {
        Ok(a) => a,
        Err(e) => return Err(e),
    };
    if ring_verify(alg, key.public_key.as_slice(), message, remote_key_signature) {
        Ok(())
    } else {
        Err(DtlsError::ErrKeySignatureMismatch)
    }
}

/// Checks the CertificateVerify signature: it signs the SHA-256 digest of
/// the handshake messages so far.
pub fn verify_certificate_verify(
    handshake_bodies: &[u8],
    remote_key_signature: &[u8],
    raw_certificates: &[u8],
) -> (r: Result<(), DtlsError>)
    ensures
        r == spec_verify_key_signature(
            sha256(handshake_bodies@),
            remote_key_signature@,
            raw_certificates@,
        ),
{
    let hashed = sha256_digest(handshake_bodies);
    verify_key_signature(hashed.as_slice(), remote_key_signature, raw_certificates)
}

} // verus!
