//! DTLS 1.2: the message formats and handshake decisions of this stack.
pub mod handshake;
pub mod flight;
pub mod crypto;
pub mod conn;

use vstd::prelude::*;

verus! {

/// A (D)TLS protocol version.
#[derive(Debug, PartialEq, Eq, Structural, Clone, Copy)]
pub struct ProtocolVersion {
    pub major: u8,
    pub minor: u8,
}

/// DTLS 1.0.
pub open spec fn spec_protocol_version1_0() -> ProtocolVersion {
    ProtocolVersion { major: 0xfe, minor: 0xff }
}

/// DTLS 1.2.
pub open spec fn spec_protocol_version1_2() -> ProtocolVersion {
    ProtocolVersion { major: 0xfe, minor: 0xfd }
}

/// DTLS 1.0.
pub fn protocol_version1_0() -> (r: ProtocolVersion)
    ensures
        r == spec_protocol_version1_0(),
{
    ProtocolVersion { major: 0xfe, minor: 0xff }
}

/// DTLS 1.2.
pub fn protocol_version1_2() -> (r: ProtocolVersion)
    ensures
        r == spec_protocol_version1_2(),
{
    ProtocolVersion { major: 0xfe, minor: 0xfd }
}

/// Severity of an alert.
#[derive(Debug, PartialEq, Eq, Structural, Clone, Copy)]
pub enum AlertLevel {
    Warning,
    Fatal,
}

/// What an alert reports.
#[derive(Debug, PartialEq, Eq, Structural, Clone, Copy)]
pub enum AlertDescription {
    CloseNotify,
    UnexpectedMessage,
    DecodeError,
    InternalError,
    ProtocolVersion,
    IllegalParameter,
    InsufficientSecurity,
    HandshakeFailure,
}

/// An alert sent to the peer.
#[derive(Debug, PartialEq, Eq, Structural, Clone, Copy)]
pub struct Alert {
    pub alert_level: AlertLevel,
    pub alert_description: AlertDescription,
}

/// Errors of the DTLS layer.
#[derive(Debug, PartialEq, Eq, Structural, Clone, Copy)]
pub enum DtlsError {
    ErrUnsupportedProtocolVersion,
    ErrClientNoMatchingSrtpProfile,
    ErrClientRequiredButNoServerEms,
    ErrRequestedButNoSrtpExtension,
    ErrCipherSuiteNoIntersection,
    ErrNoSupportedEllipticCurves,
    ErrServerNoMatchingSrtpProfile,
    ErrServerRequiredButNoClientEms,
    ErrInvalidClientKeyExchange,
    ErrBufferTooSmall,
    ErrInvalidExtensionType,
    ErrLengthMismatch,
    ErrInvalidCertificate,
    ErrKeySignatureVerifyUnimplemented,
    ErrKeySignatureMismatch,
    ErrSequenceNumberOverflow,
}

/// The SRTP protection profiles of the use_srtp extension (RFC 5764).
#[derive(Debug, PartialEq, Eq, Structural, Clone, Copy)]
pub enum SRTPProtectionProfile {
    Srtp_Aes128_Cm_Hmac_Sha1_80,
    Srtp_Aes128_Cm_Hmac_Sha1_32,
    Srtp_Aead_Aes_128_Gcm,
    Srtp_Aead_Aes_256_Gcm,
    Unsupported,
}

/// The elliptic curves of the key exchange.
#[derive(Debug, PartialEq, Eq, Structural, Clone, Copy)]
pub enum NamedCurve {
    Unsupported,
    P256,
    P384,
    X25519,
}

/// The IANA number of a curve.
pub open spec fn spec_named_curve_id(c: NamedCurve) -> u16 {
    match c {
        NamedCurve::Unsupported => 0,
        NamedCurve::P256 => 0x0017,
        NamedCurve::P384 => 0x0018,
        NamedCurve::X25519 => 0x001d,
    }
}

impl NamedCurve {
    pub fn id(&self) -> (r: u16)
        ensures
            r == spec_named_curve_id(*self),
    {
        match self {
            NamedCurve::Unsupported => 0,
            NamedCurve::P256 => 0x0017,
            NamedCurve::P384 => 0x0018,
            NamedCurve::X25519 => 0x001d,
        }
    }
}

/// Whether the extended master secret is requested, required or disabled.
#[derive(Debug, PartialEq, Eq, Structural, Clone, Copy)]
pub enum ExtendedMasterSecretType {
    Request,
    Require,
    Disable,
}

/// The index of the first element of `a` that also occurs in `b`.
pub open spec fn first_common_index<T>(a: Seq<T>, b: Seq<T>) -> Option<int>
    decreases a.len(),
{
    if a.len() == 0 {
        None
    } else {
        match first_common_index(a.drop_last(), b) {
            Some(i) => Some(i),
            None => if b.contains(a.last()) {
                Some(a.len() - 1)
            } else {
                None
            },
        }
    }
}

/// The first element of `a` that also occurs in `b`.
pub open spec fn first_common<T>(a: Seq<T>, b: Seq<T>) -> Option<T> {
    match first_common_index(a, b) {
        Some(i) => Some(a[i]),
        None => None,
    }
}

proof fn lemma_first_common_index_bounds<T>(a: Seq<T>, b: Seq<T>)
    ensures
        first_common_index(a, b) matches Some(i) ==> 0 <= i < a.len() && b.contains(a[i]) && forall|
            k: int,
        | 0 <= k < i ==> !b.contains(#[trigger] a[k]),
        first_common_index(a, b) is None ==> forall|k: int|
            0 <= k < a.len() ==> !b.contains(#[trigger] a[k]),
    decreases a.len(),
{
    if a.len() > 0 {
        let p = a.drop_last();
        lemma_first_common_index_bounds(p, b);
        assert(forall|k: int| 0 <= k < p.len() ==> p[k] == a[k]);
    }
}

/// The first SRTP profile of `a` that `b` supports too.
pub fn find_matching_srtp_profile(a: &[SRTPProtectionProfile], b: &[SRTPProtectionProfile]) -> (r:
    Option<SRTPProtectionProfile>)
    ensures
        r == first_common(a@, b@),
{
    let mut i: usize = 0;
    while i < a.len()
        invariant
            i <= a@.len(),
            first_common_index(a@.take(i as int), b@) is None,
        decreases a@.len() - i,
    {
        let mut j: usize = 0;
        let mut found = false;
        while j < b.len()
            invariant
                i < a@.len(),
                j <= b@.len(),
                found == exists|k: int| 0 <= k < j && b@[k] == a@[i as int],
            decreases b@.len() - j,
        {
            if a[i] == b[j] {
                found = true;
            }
            j = j + 1;
        }
        assert(a@.take(i + 1).drop_last() =~= a@.take(i as int));
        assert(a@.take(i + 1).last() == a@[i as int]);
        if found {
            proof {
                let k = choose|k: int| 0 <= k < b@.len() && b@[k] == a@[i as int];
                assert(b@.contains(a@[i as int]));
                assert(first_common_index(a@.take(i + 1), b@) == Some(i as int));
                lemma_first_common_prefix(a@, b@, i + 1, i as int);
            }
            return Some(a[i]);
        }
        assert(!b@.contains(a@[i as int]));
        assert(first_common_index(a@.take(i + 1), b@) is None);
        i = i + 1;
    }
    assert(a@.take(a@.len() as int) =~= a@);
    None
}

proof fn lemma_first_common_prefix<T>(a: Seq<T>, b: Seq<T>, n: int, i: int)
    requires
        0 < n <= a.len(),
        first_common_index(a.take(n), b) == Some(i),
    ensures
        first_common_index(a, b) == Some(i),
    decreases a.len() - n,
{
    if n < a.len() {
        assert(a.take(n + 1).drop_last() =~= a.take(n));
        assert(first_common_index(a.take(n + 1), b) == Some(i));
        lemma_first_common_prefix(a, b, n + 1, i);
    } else {
        assert(a.take(n) =~= a);
    }
}

/// The first cipher suite of `a` that `b` supports too.
pub fn find_matching_cipher_suite(a: &[u16], b: &[u16]) -> (r: Option<u16>)
    ensures
        r == first_common(a@, b@),
{
    let mut i: usize = 0;
    while i < a.len()
        invariant
            i <= a@.len(),
            first_common_index(a@.take(i as int), b@) is None,
        decreases a@.len() - i,
    {
        let mut j: usize = 0;
        let mut found = false;
        while j < b.len()
            invariant
                i < a@.len(),
                j <= b@.len(),
                found == exists|k: int| 0 <= k < j && b@[k] == a@[i as int],
            decreases b@.len() - j,
        {
            if a[i] == b[j] {
                found = true;
            }
            j = j + 1;
        }
        assert(a@.take(i + 1).drop_last() =~= a@.take(i as int));
        assert(a@.take(i + 1).last() == a@[i as int]);
        if found {
            proof {
                let k = choose|k: int| 0 <= k < b@.len() && b@[k] == a@[i as int];
                assert(b@.contains(a@[i as int]));
                assert(first_common_index(a@.take(i + 1), b@) == Some(i as int));
                lemma_first_common_prefix(a@, b@, i + 1, i as int);
            }
            return Some(a[i]);
        }
        assert(!b@.contains(a@[i as int]));
        assert(first_common_index(a@.take(i + 1), b@) is None);
        i = i + 1;
    }
    assert(a@.take(a@.len() as int) =~= a@);
    None
}

/// The common element found is in both lists, and nothing before it in the
/// first list is in the second.
pub proof fn lemma_first_common<T>(a: Seq<T>, b: Seq<T>)
    ensures
        first_common(a, b) matches Some(x) ==> a.contains(x) && b.contains(x),
        first_common(a, b) is None <==> forall|k: int| 0 <= k < a.len() ==> !b.contains(#[trigger] a[k]),
{
    lemma_first_common_index_bounds(a, b);
    if let Some(i) = first_common_index(a, b) {
        assert(!(forall|k: int| 0 <= k < a.len() ==> !b.contains(#[trigger] a[k]))) by {
            assert(b.contains(a[i]));
        }
    }
}

} // verus!
