//! The decisions of the DTLS handshake flights: what the server concludes
//! from a ClientHello (flight 0) and what the client concludes from a
//! HelloVerifyRequest or ServerHello (flight 3). The messages come in as plain
//! values; key generation and sending stay with the caller.
use vstd::prelude::*;
use super::{
    first_common, find_matching_cipher_suite, find_matching_srtp_profile, spec_protocol_version1_0,
    spec_protocol_version1_2, protocol_version1_0, protocol_version1_2, Alert, AlertDescription,
    AlertLevel, DtlsError, ExtendedMasterSecretType, NamedCurve, ProtocolVersion,
    SRTPProtectionProfile,
};

use super::handshake::{handle_server_key_exchange, internal_error, spec_psk_pre_master_secret, KeyAgreement};

verus! {

/// The next flight of the handshake.
#[derive(Debug, PartialEq, Eq, Structural, Clone, Copy)]
pub enum Flight {
    Flight0,
    Flight1,
    Flight2,
    Flight3,
    Flight4,
    Flight5,
    Flight6,
}

/// Why a flight failed: an alert for the peer and an error, either optional.
pub type FlightError = (Option<Alert>, Option<DtlsError>);

/// A fatal alert with its error.
pub open spec fn fatal(d: AlertDescription, e: DtlsError) -> FlightError {
    (Some(Alert { alert_level: AlertLevel::Fatal, alert_description: d }), Some(e))
}

fn make_fatal(d: AlertDescription, e: DtlsError) -> (r: FlightError)
    ensures
        r == fatal(d, e),
{
    (Some(Alert { alert_level: AlertLevel::Fatal, alert_description: d }), Some(e))
}

/// The extensions of a hello message that the handshake looks at.
pub enum HelloExtension {
    SupportedEllipticCurves(Vec<NamedCurve>),
    UseSrtp(Vec<SRTPProtectionProfile>),
    UseExtendedMasterSecret,
    ServerName(Vec<u8>),
    Other,
}

/// The settings of the local endpoint that the handshake checks against.
pub struct HandshakeConfig {
    pub local_cipher_suites: Vec<u16>,
    pub local_srtp_protection_profiles: Vec<SRTPProtectionProfile>,
    pub extended_master_secret: ExtendedMasterSecretType,
}

/// What a hello message settles in the handshake state.
#[derive(Debug, PartialEq, Eq, Clone)]
pub struct HelloOutcome {
    pub cipher_suite: u16,
    pub named_curve: NamedCurve,
    pub srtp_protection_profile: SRTPProtectionProfile,
    pub extended_master_secret: bool,
    pub server_name: Vec<u8>,
    /// The random of the peer's hello.
    pub remote_random: Vec<u8>,
}

/// The hello outcome as plain values.
pub struct HelloState {
    pub named_curve: NamedCurve,
    pub srtp_protection_profile: SRTPProtectionProfile,
    pub extended_master_secret: bool,
    pub server_name: Seq<u8>,
}

/// One extension of a ClientHello, taken by the server.
pub open spec fn server_take_extension(
    e: HelloExtension,
    cfg_profiles: Seq<SRTPProtectionProfile>,
    ems: ExtendedMasterSecretType,
    s: HelloState,
) -> Result<HelloState, FlightError> {
    match e {
        HelloExtension::SupportedEllipticCurves(curves) => if curves@.len() == 0 {
            Err(fatal(AlertDescription::InsufficientSecurity, DtlsError::ErrNoSupportedEllipticCurves))
        } else {
            Ok(HelloState { named_curve: curves@[0], ..s })
        },
        HelloExtension::UseSrtp(profiles) => match first_common(profiles@, cfg_profiles) {
            Some(p) => Ok(HelloState { srtp_protection_profile: p, ..s }),
            None => Err(
                fatal(
                    AlertDescription::InsufficientSecurity,
                    DtlsError::ErrServerNoMatchingSrtpProfile,
                ),
            ),
        },
        HelloExtension::UseExtendedMasterSecret => if ems != ExtendedMasterSecretType::Disable {
            Ok(HelloState { extended_master_secret: true, ..s })
        } else {
            Ok(s)
        },
        HelloExtension::ServerName(name) => Ok(HelloState { server_name: name@, ..s }),
        HelloExtension::Other => Ok(s),
    }
}

/// The extensions of a ClientHello, taken in order by the server.
pub open spec fn server_take_extensions(
    exts: Seq<HelloExtension>,
    cfg_profiles: Seq<SRTPProtectionProfile>,
    ems: ExtendedMasterSecretType,
    s: HelloState,
) -> Result<HelloState, FlightError>
    decreases exts.len(),
{
    if exts.len() == 0 {
        Ok(s)
    } else {
        match server_take_extensions(exts.drop_last(), cfg_profiles, ems, s) {
            Err(e) => Err(e),
            Ok(s2) => server_take_extension(exts.last(), cfg_profiles, ems, s2),
        }
    }
}

/// One extension of a ServerHello, taken by the client.
pub open spec fn client_take_extension(
    e: HelloExtension,
    cfg_profiles: Seq<SRTPProtectionProfile>,
    ems: ExtendedMasterSecretType,
    s: HelloState,
) -> Result<HelloState, FlightError> {
    match e {
        HelloExtension::UseSrtp(profiles) => match first_common(profiles@, cfg_profiles) {
            Some(p) => Ok(HelloState { srtp_protection_profile: p, ..s }),
            None => Err(
                fatal(AlertDescription::IllegalParameter, DtlsError::ErrClientNoMatchingSrtpProfile),
            ),
        },
        HelloExtension::UseExtendedMasterSecret => if ems != ExtendedMasterSecretType::Disable {
            Ok(HelloState { extended_master_secret: true, ..s })
        } else {
            Ok(s)
        },
        _ => Ok(s),
    }
}

/// The extensions of a ServerHello, taken in order by the client.
pub open spec fn client_take_extensions(
    exts: Seq<HelloExtension>,
    cfg_profiles: Seq<SRTPProtectionProfile>,
    ems: ExtendedMasterSecretType,
    s: HelloState,
) -> Result<HelloState, FlightError>
    decreases exts.len(),
{
    if exts.len() == 0 {
        Ok(s)
    } else {
        match client_take_extensions(exts.drop_last(), cfg_profiles, ems, s) {
            Err(e) => Err(e),
            Ok(s2) => client_take_extension(exts.last(), cfg_profiles, ems, s2),
        }
    }
}

/// Once the server fails on a prefix of the extensions it fails on all of
/// them with the same error.
proof fn lemma_server_err_extends(
    exts: Seq<HelloExtension>,
    cfg_profiles: Seq<SRTPProtectionProfile>,
    ems: ExtendedMasterSecretType,
    s: HelloState,
    n: int,
)
    requires
        0 <= n <= exts.len(),
        server_take_extensions(exts.take(n), cfg_profiles, ems, s) is Err,
    ensures
        server_take_extensions(exts, cfg_profiles, ems, s) == server_take_extensions(
            exts.take(n),
            cfg_profiles,
            ems,
            s,
        ),
    decreases exts.len() - n,
{
    if n < exts.len() {
        assert(exts.take(n + 1).drop_last() =~= exts.take(n));
        lemma_server_err_extends(exts, cfg_profiles, ems, s, n + 1);
    } else {
        assert(exts.take(n) =~= exts);
    }
}

/// Once the client fails on a prefix of the extensions it fails on all of
/// them with the same error.
proof fn lemma_client_err_extends(
    exts: Seq<HelloExtension>,
    cfg_profiles: Seq<SRTPProtectionProfile>,
    ems: ExtendedMasterSecretType,
    s: HelloState,
    n: int,
)
    requires
        0 <= n <= exts.len(),
        client_take_extensions(exts.take(n), cfg_profiles, ems, s) is Err,
    ensures
        client_take_extensions(exts, cfg_profiles, ems, s) == client_take_extensions(
            exts.take(n),
            cfg_profiles,
            ems,
            s,
        ),
    decreases exts.len() - n,
{
    if n < exts.len() {
        assert(exts.take(n + 1).drop_last() =~= exts.take(n));
        lemma_client_err_extends(exts, cfg_profiles, ems, s, n + 1);
    } else {
        assert(exts.take(n) =~= exts);
    }
}

impl HelloOutcome {
    pub open spec fn state(self) -> HelloState {
        HelloState {
            named_curve: self.named_curve,
            srtp_protection_profile: self.srtp_protection_profile,
            extended_master_secret: self.extended_master_secret,
            server_name: self.server_name@,
        }
    }
}

/// What the server concludes from a ClientHello: the version must be DTLS
/// 1.2 and a cipher suite shared; the extensions set the curve, SRTP profile,
/// extended master secret and server name; a required extended master secret
/// must have been offered.
pub open spec fn spec_flight0_client_hello(
    version: ProtocolVersion,
    cipher_suites: Seq<u16>,
    extensions: Seq<HelloExtension>,
    cfg: HandshakeConfig,
    start: HelloState,
) -> Result<(u16, HelloState), FlightError> {
    if version != spec_protocol_version1_2() {
        Err(fatal(AlertDescription::ProtocolVersion, DtlsError::ErrUnsupportedProtocolVersion))
    } else {
        match first_common(cipher_suites, cfg.local_cipher_suites@) {
            None => Err(
                fatal(AlertDescription::InsufficientSecurity, DtlsError::ErrCipherSuiteNoIntersection),
            ),
            Some(id) => match server_take_extensions(
                extensions,
                cfg.local_srtp_protection_profiles@,
                cfg.extended_master_secret,
                start,
            ) {
                Err(e) => Err(e),
                Ok(s) => if cfg.extended_master_secret == ExtendedMasterSecretType::Require
                    && !s.extended_master_secret {
                    Err(
                        fatal(
                            AlertDescription::InsufficientSecurity,
                            DtlsError::ErrServerRequiredButNoClientEms,
                        ),
                    )
                } else {
                    Ok((id, s))
                },
            },
        }
    }
}

/// What the client concludes from a ServerHello: the version must be DTLS
/// 1.2; the extensions set the SRTP profile and extended master secret; a
/// required extended master secret, requested SRTP and the cipher suite must
/// all be agreed.
pub open spec fn spec_flight3_server_hello(
    version: ProtocolVersion,
    cipher_suite: u16,
    extensions: Seq<HelloExtension>,
    cfg: HandshakeConfig,
    start: HelloState,
) -> Result<HelloState, FlightError> {
    if version != spec_protocol_version1_2() {
        Err(fatal(AlertDescription::ProtocolVersion, DtlsError::ErrUnsupportedProtocolVersion))
    } else {
        match client_take_extensions(
            extensions,
            cfg.local_srtp_protection_profiles@,
            cfg.extended_master_secret,
            start,
        ) {
            Err(e) => Err(e),
            Ok(s) => if cfg.extended_master_secret == ExtendedMasterSecretType::Require
                && !s.extended_master_secret {
                Err(
                    fatal(
                        AlertDescription::InsufficientSecurity,
                        DtlsError::ErrClientRequiredButNoServerEms,
                    ),
                )
            } else if cfg.local_srtp_protection_profiles@.len() != 0 && s.srtp_protection_profile
                == SRTPProtectionProfile::Unsupported {
                Err(
                    fatal(
                        AlertDescription::InsufficientSecurity,
                        DtlsError::ErrRequestedButNoSrtpExtension,
                    ),
                )
            } else if !cfg.local_cipher_suites@.contains(cipher_suite) {
                Err(
                    fatal(
                        AlertDescription::InsufficientSecurity,
                        DtlsError::ErrCipherSuiteNoIntersection,
                    ),
                )
            } else {
                Ok(s)
            },
        }
    }
}

/// The server's handling of a ClientHello in flight 0: on success the
/// handshake goes on with flight 2 and the outcome holds the agreed cipher
/// suite and the settings the extensions made.
pub fn flight0_client_hello(
    version: ProtocolVersion,
    random: &[u8],
    cipher_suites: &[u16],
    extensions: &[HelloExtension],
    cfg: &HandshakeConfig,
    start: HelloOutcome,
) -> (r: Result<(Flight, HelloOutcome), FlightError>)
    ensures
        match spec_flight0_client_hello(version, cipher_suites@, extensions@, *cfg, start.state()) {
            Ok((id, s)) => r matches Ok((f, o)) && f == Flight::Flight2 && o.cipher_suite == id
                && o.state() == s && o.remote_random@ == random@,
            Err(e) => r == Err::<(Flight, HelloOutcome), FlightError>(e),
        },
{
    if version != protocol_version1_2() {
        return Err(
            make_fatal(AlertDescription::ProtocolVersion, DtlsError::ErrUnsupportedProtocolVersion),
        );
    }
    let id = match find_matching_cipher_suite(cipher_suites, cfg.local_cipher_suites.as_slice()) {
        Some(id) => id,
        None => {
            return Err(
                make_fatal(
                    AlertDescription::InsufficientSecurity,
                    DtlsError::ErrCipherSuiteNoIntersection,
                ),
            );
        },
    };
    let mut out = start;
    out.remote_random = crate::bytes::slice_to_vec(random, 0, random.len());
    assert(random@.subrange(0, random@.len() as int) =~= random@);
    let mut i: usize = 0;
    while i < extensions.len()
        invariant
            i <= extensions@.len(),
            version == spec_protocol_version1_2(),
            out.remote_random@ == random@,
            first_common(cipher_suites@, cfg.local_cipher_suites@) == Some(id),
            server_take_extensions(
                extensions@.take(i as int),
                cfg.local_srtp_protection_profiles@,
                cfg.extended_master_secret,
                start.state(),
            ) == Ok::<HelloState, FlightError>(out.state()),
        decreases extensions@.len() - i,
    {
        proof {
            assert(extensions@.take(i + 1).drop_last() =~= extensions@.take(i as int));
            assert(extensions@.take(i + 1).last() == extensions@[i as int]);
        }
        match &extensions[i] {
            HelloExtension::SupportedEllipticCurves(curves) => {
                if curves.len() == 0 {
                    proof {
                        assert(server_take_extensions(
                            extensions@.take(i + 1),
                            cfg.local_srtp_protection_profiles@,
                            cfg.extended_master_secret,
                            start.state(),
                        ) == Err::<HelloState, FlightError>(
                            fatal(
                                AlertDescription::InsufficientSecurity,
                                DtlsError::ErrNoSupportedEllipticCurves,
                            ),
                        ));
                        lemma_server_err_extends(
                            extensions@,
                            cfg.local_srtp_protection_profiles@,
                            cfg.extended_master_secret,
                            start.state(),
                            i + 1,
                        );
                    }
                    return Err(
                        make_fatal(
                            AlertDescription::InsufficientSecurity,
                            DtlsError::ErrNoSupportedEllipticCurves,
                        ),
                    );
                }
                out.named_curve = curves[0];
            },
            HelloExtension::UseSrtp(profiles) => {
                match find_matching_srtp_profile(
                    profiles.as_slice(),
                    cfg.local_srtp_protection_profiles.as_slice(),
                ) {
                    Some(p) => {
                        out.srtp_protection_profile = p;
                    },
                    None => {
                        proof {
                            lemma_server_err_extends(
                                extensions@,
                                cfg.local_srtp_protection_profiles@,
                                cfg.extended_master_secret,
                                start.state(),
                                i + 1,
                            );
                        }
                        return Err(
                            make_fatal(
                                AlertDescription::InsufficientSecurity,
                                DtlsError::ErrServerNoMatchingSrtpProfile,
                            ),
                        );
                    },
                }
            },
            HelloExtension::UseExtendedMasterSecret => {
                if cfg.extended_master_secret != ExtendedMasterSecretType::Disable {
                    out.extended_master_secret = true;
                }
            },
            HelloExtension::ServerName(name) => {
                out.server_name = name.clone();
            },
            HelloExtension::Other => {},
        }
        i = i + 1;
    }
    proof {
        assert(extensions@.take(extensions@.len() as int) =~= extensions@);
    }
    if cfg.extended_master_secret == ExtendedMasterSecretType::Require
        && !out.extended_master_secret {
        return Err(
            make_fatal(
                AlertDescription::InsufficientSecurity,
                DtlsError::ErrServerRequiredButNoClientEms,
            ),
        );
    }
    out.cipher_suite = id;
    Ok((Flight::Flight2, out))
}

/// The client's handling of a HelloVerifyRequest in flight 3: DTLS 1.0 and
/// 1.2 are accepted, the request's cookie replaces the one kept (a repeated
/// request carries a new cookie, RFC 6347 section 4.2.1), and flight 3 is
/// sent again with it. A refused request leaves the cookie as it was.
pub fn flight3_hello_verify_request(
    version: ProtocolVersion,
    cookie: &[u8],
    state_cookie: &mut Vec<u8>,
) -> (r: Result<Flight, FlightError>)
    ensures
        version == spec_protocol_version1_0() || version == spec_protocol_version1_2() ==> r
            == Ok::<Flight, FlightError>(Flight::Flight3) && final(state_cookie)@ == cookie@,
        !(version == spec_protocol_version1_0() || version == spec_protocol_version1_2()) ==> r
            == Err::<Flight, FlightError>(
            fatal(AlertDescription::ProtocolVersion, DtlsError::ErrUnsupportedProtocolVersion),
        ) && final(state_cookie)@ == old(state_cookie)@,
{
    if version != protocol_version1_0() && version != protocol_version1_2() {
        return Err(
            make_fatal(AlertDescription::ProtocolVersion, DtlsError::ErrUnsupportedProtocolVersion),
        );
    }
    state_cookie.clear();
    crate::bytes::extend_from(state_cookie, cookie);
    assert(state_cookie@ =~= cookie@);
    Ok(Flight::Flight3)
}

/// The client's handling of a ServerHello in flight 3: on success the
/// handshake goes on with flight 5 and the outcome holds the settings the
/// extensions made and the server's cipher suite.
pub fn flight3_server_hello(
    version: ProtocolVersion,
    random: &[u8],
    cipher_suite: u16,
    extensions: &[HelloExtension],
    cfg: &HandshakeConfig,
    start: HelloOutcome,
) -> (r: Result<(Flight, HelloOutcome), FlightError>)
    ensures
        match spec_flight3_server_hello(version, cipher_suite, extensions@, *cfg, start.state()) {
            Ok(s) => r matches Ok((f, o)) && f == Flight::Flight5 && o.cipher_suite == cipher_suite
                && o.state() == s && o.remote_random@ == random@,
            Err(e) => r == Err::<(Flight, HelloOutcome), FlightError>(e),
        },
{
    if version != protocol_version1_2() {
        return Err(
            make_fatal(AlertDescription::ProtocolVersion, DtlsError::ErrUnsupportedProtocolVersion),
        );
    }
    let mut out = start;
    let mut i: usize = 0;
    while i < extensions.len()
        invariant
            i <= extensions@.len(),
            version == spec_protocol_version1_2(),
            client_take_extensions(
                extensions@.take(i as int),
                cfg.local_srtp_protection_profiles@,
                cfg.extended_master_secret,
                start.state(),
            ) == Ok::<HelloState, FlightError>(out.state()),
        decreases extensions@.len() - i,
    {
        proof {
            assert(extensions@.take(i + 1).drop_last() =~= extensions@.take(i as int));
            assert(extensions@.take(i + 1).last() == extensions@[i as int]);
        }
        match &extensions[i] {
            HelloExtension::UseSrtp(profiles) => {
                match find_matching_srtp_profile(
                    profiles.as_slice(),
                    cfg.local_srtp_protection_profiles.as_slice(),
                ) {
                    Some(p) => {
                        out.srtp_protection_profile = p;
                    },
                    None => {
                        proof {
                            lemma_client_err_extends(
                                extensions@,
                                cfg.local_srtp_protection_profiles@,
                                cfg.extended_master_secret,
                                start.state(),
                                i + 1,
                            );
                        }
                        return Err(
                            make_fatal(
                                AlertDescription::IllegalParameter,
                                DtlsError::ErrClientNoMatchingSrtpProfile,
                            ),
                        );
                    },
                }
            },
            HelloExtension::UseExtendedMasterSecret => {
                if cfg.extended_master_secret != ExtendedMasterSecretType::Disable {
                    out.extended_master_secret = true;
                }
            },
            _ => {},
        }
        i = i + 1;
    }
    proof {
        assert(extensions@.take(extensions@.len() as int) =~= extensions@);
    }
    if cfg.extended_master_secret == ExtendedMasterSecretType::Require
        && !out.extended_master_secret {
        return Err(
            make_fatal(
                AlertDescription::InsufficientSecurity,
                DtlsError::ErrClientRequiredButNoServerEms,
            ),
        );
    }
    if cfg.local_srtp_protection_profiles.len() != 0 && out.srtp_protection_profile
        == SRTPProtectionProfile::Unsupported {
        return Err(
            make_fatal(
                AlertDescription::InsufficientSecurity,
                DtlsError::ErrRequestedButNoSrtpExtension,
            ),
        );
    }
    let one = [cipher_suite];
    let found = find_matching_cipher_suite(one.as_slice(), cfg.local_cipher_suites.as_slice());
    proof {
        let a = one@;
        assert(a =~= seq![cipher_suite]);
        super::lemma_first_common(a, cfg.local_cipher_suites@);
        assert(a[0] == cipher_suite);
    }
    if found.is_none() {
        return Err(
            make_fatal(
                AlertDescription::InsufficientSecurity,
                DtlsError::ErrCipherSuiteNoIntersection,
            ),
        );
    }
    out.cipher_suite = cipher_suite;
    out.remote_random = crate::bytes::slice_to_vec(random, 0, random.len());
    assert(random@.subrange(0, random@.len() as int) =~= random@);
    Ok((Flight::Flight5, out))
}

/// The uncompressed point format of elliptic-curve points.
pub const ELLIPTIC_CURVE_POINT_FORMAT_UNCOMPRESSED: u8 = 0;

/// An extension that the client offers in its ClientHello.
#[derive(Debug, PartialEq, Eq)]
pub enum OfferedExtension {
    SupportedSignatureAlgorithms(Vec<u16>),
    SupportedEllipticCurves(Vec<NamedCurve>),
    SupportedPointFormats(Vec<u8>),
    UseSrtp(Vec<SRTPProtectionProfile>),
    UseExtendedMasterSecret,
    ServerName(Vec<u8>),
}

/// An offered extension as plain values.
pub enum OfferedView {
    SupportedSignatureAlgorithms(Seq<u16>),
    SupportedEllipticCurves(Seq<NamedCurve>),
    SupportedPointFormats(Seq<u8>),
    UseSrtp(Seq<SRTPProtectionProfile>),
    UseExtendedMasterSecret,
    ServerName(Seq<u8>),
}

/// An offered extension as plain values.
pub open spec fn offered_view(e: OfferedExtension) -> OfferedView {
    match e {
        OfferedExtension::SupportedSignatureAlgorithms(v) => OfferedView::SupportedSignatureAlgorithms(v@),
        OfferedExtension::SupportedEllipticCurves(v) => OfferedView::SupportedEllipticCurves(v@),
        OfferedExtension::SupportedPointFormats(v) => OfferedView::SupportedPointFormats(v@),
        OfferedExtension::UseSrtp(v) => OfferedView::UseSrtp(v@),
        OfferedExtension::UseExtendedMasterSecret => OfferedView::UseExtendedMasterSecret,
        OfferedExtension::ServerName(v) => OfferedView::ServerName(v@),
    }
}

/// The extensions of the client's ClientHello in flight 3, in order: the
/// signature schemes; the curves X25519, P-256, P-384 and the uncompressed
/// point format unless a pre-shared key is used; the SRTP profiles if any
/// are configured; the extended master secret if it is requested or
/// required; the server name if one is set.
pub open spec fn spec_client_hello_extensions(
    signature_schemes: Seq<u16>,
    uses_psk: bool,
    cfg: HandshakeConfig,
    server_name: Seq<u8>,
) -> Seq<OfferedView> {
    let a = seq![OfferedView::SupportedSignatureAlgorithms(signature_schemes)];
    let b = if uses_psk {
        a
    } else {
        a + seq![
            OfferedView::SupportedEllipticCurves(
                seq![NamedCurve::X25519, NamedCurve::P256, NamedCurve::P384],
            ),
            OfferedView::SupportedPointFormats(seq![ELLIPTIC_CURVE_POINT_FORMAT_UNCOMPRESSED]),
        ]
    };
    let c = if cfg.local_srtp_protection_profiles@.len() == 0 {
        b
    } else {
        b.push(OfferedView::UseSrtp(cfg.local_srtp_protection_profiles@))
    };
    let d = if cfg.extended_master_secret == ExtendedMasterSecretType::Request
        || cfg.extended_master_secret == ExtendedMasterSecretType::Require {
        c.push(OfferedView::UseExtendedMasterSecret)
    } else {
        c
    };
    if server_name.len() == 0 {
        d
    } else {
        d.push(OfferedView::ServerName(server_name))
    }
}

fn copy_u16s(v: &[u16]) -> (r: Vec<u16>)
    ensures
        r@ == v@,
{
    let mut out: Vec<u16> = Vec::new();
    let mut i: usize = 0;
    while i < v.len()
        invariant
            i <= v@.len(),
            out@ == v@.take(i as int),
        decreases v@.len() - i,
    {
        out.push(v[i]);
        i = i + 1;
        assert(out@ =~= v@.take(i as int));
    }
    assert(v@.take(v@.len() as int) =~= v@);
    out
}

fn copy_profiles(v: &[SRTPProtectionProfile]) -> (r: Vec<SRTPProtectionProfile>)
    ensures
        r@ == v@,
{
    let mut out: Vec<SRTPProtectionProfile> = Vec::new();
    let mut i: usize = 0;
    while i < v.len()
        invariant
            i <= v@.len(),
            out@ == v@.take(i as int),
        decreases v@.len() - i,
    {
        out.push(v[i]);
        i = i + 1;
        assert(out@ =~= v@.take(i as int));
    }
    assert(v@.take(v@.len() as int) =~= v@);
    out
}

/// The extensions the client offers in its ClientHello in flight 3.
pub fn flight3_client_hello_extensions(
    signature_schemes: &[u16],
    uses_psk: bool,
    cfg: &HandshakeConfig,
    server_name: &[u8],
) -> (r: Vec<OfferedExtension>)
    ensures
        r@.map_values(|e: OfferedExtension| offered_view(e)) == spec_client_hello_extensions(
            signature_schemes@,
            uses_psk,
            *cfg,
            server_name@,
        ),
{
    let mut out: Vec<OfferedExtension> = Vec::new();
    out.push(OfferedExtension::SupportedSignatureAlgorithms(copy_u16s(signature_schemes)));
    let ghost mut g = seq![OfferedView::SupportedSignatureAlgorithms(signature_schemes@)];
    assert(out@.map_values(|e: OfferedExtension| offered_view(e)) =~= g);
    if !uses_psk {
        let mut curves: Vec<NamedCurve> = Vec::new();
        curves.push(NamedCurve::X25519);
        curves.push(NamedCurve::P256);
        curves.push(NamedCurve::P384);
        let mut formats: Vec<u8> = Vec::new();
        formats.push(ELLIPTIC_CURVE_POINT_FORMAT_UNCOMPRESSED);
        assert(curves@ =~= seq![NamedCurve::X25519, NamedCurve::P256, NamedCurve::P384]);
        assert(formats@ =~= seq![ELLIPTIC_CURVE_POINT_FORMAT_UNCOMPRESSED]);
        out.push(OfferedExtension::SupportedEllipticCurves(curves));
        out.push(OfferedExtension::SupportedPointFormats(formats));
        proof {
            g = g + seq![
                OfferedView::SupportedEllipticCurves(
                    seq![NamedCurve::X25519, NamedCurve::P256, NamedCurve::P384],
                ),
                OfferedView::SupportedPointFormats(seq![ELLIPTIC_CURVE_POINT_FORMAT_UNCOMPRESSED]),
            ];
        }
        assert(out@.map_values(|e: OfferedExtension| offered_view(e)) =~= g);
    }
    if cfg.local_srtp_protection_profiles.len() != 0 {
        out.push(
            OfferedExtension::UseSrtp(copy_profiles(cfg.local_srtp_protection_profiles.as_slice())),
        );
        proof {
            g = g.push(OfferedView::UseSrtp(cfg.local_srtp_protection_profiles@));
        }
        assert(out@.map_values(|e: OfferedExtension| offered_view(e)) =~= g);
    }
    if cfg.extended_master_secret == ExtendedMasterSecretType::Request || cfg.extended_master_secret
        == ExtendedMasterSecretType::Require {
        out.push(OfferedExtension::UseExtendedMasterSecret);
        proof {
            g = g.push(OfferedView::UseExtendedMasterSecret);
        }
        assert(out@.map_values(|e: OfferedExtension| offered_view(e)) =~= g);
    }
    if server_name.len() != 0 {
        let name = crate::bytes::slice_to_vec(server_name, 0, server_name.len());
        assert(name@ =~= server_name@);
        out.push(OfferedExtension::ServerName(name));
        proof {
            g = g.push(OfferedView::ServerName(server_name@));
        }
        assert(out@.map_values(|e: OfferedExtension| offered_view(e)) =~= g);
    }
    assert(g == spec_client_hello_extensions(signature_schemes@, uses_psk, *cfg, server_name@));
    out
}

/// The body of a record that a flight sends.
#[derive(Debug, PartialEq, Eq, Clone)]
pub enum FlightContent {
    ChangeCipherSpec,
    /// A Finished handshake message with its verify data.
    Finished(Vec<u8>),
}

/// A record of a flight and how it is sent.
#[derive(Debug, PartialEq, Eq, Clone)]
pub struct FlightPacket {
    pub protocol_version: ProtocolVersion,
    pub epoch: u16,
    pub content: FlightContent,
    pub should_encrypt: bool,
    pub reset_local_sequence_number: bool,
}

/// Whether `p` is the ChangeCipherSpec of flight 6: DTLS 1.2, epoch 0, sent
/// in the clear.
pub open spec fn is_flight6_change_cipher_spec(p: FlightPacket) -> bool {
    &&& p.protocol_version == spec_protocol_version1_2()
    &&& p.epoch == 0
    &&& p.content == FlightContent::ChangeCipherSpec
    &&& !p.should_encrypt
    &&& !p.reset_local_sequence_number
}

/// Whether `p` is the Finished of flight 6 with `verify_data`: DTLS 1.2,
/// epoch 1, encrypted, with the local sequence number starting over.
pub open spec fn is_flight6_finished(p: FlightPacket, verify_data: Seq<u8>) -> bool {
    &&& p.protocol_version == spec_protocol_version1_2()
    &&& p.epoch == 1
    &&& p.content matches FlightContent::Finished(v) && v@ == verify_data
    &&& p.should_encrypt
    &&& p.reset_local_sequence_number
}

/// Whether the verify data could not be computed.
pub open spec fn computation_failed(computed: Option<Result<Vec<u8>, DtlsError>>) -> bool {
    computed matches Some(Err(_))
}

/// The server's last flight: ChangeCipherSpec, then Finished. The verify
/// data is computed once: while `local_verify_data` is empty it is taken
/// from `computed`, the server's PRF verify data over the handshake
/// messages when a cipher suite is set (`None` when none is); a failed
/// computation is a fatal internal_error and changes nothing. Once the
/// verify data is kept, a retransmission sends it again.
pub fn flight6_generate(
    local_verify_data: &mut Vec<u8>,
    computed: Option<Result<Vec<u8>, DtlsError>>,
) -> (r: Result<Vec<FlightPacket>, FlightError>)
    ensures
        old(local_verify_data)@.len() == 0 ==> (computed matches Some(Err(e)) ==> (r
            == Err::<Vec<FlightPacket>, FlightError>(fatal(AlertDescription::InternalError, e))
            && final(local_verify_data)@ == old(local_verify_data)@)),
        old(local_verify_data)@.len() == 0 ==> (computed matches Some(Ok(d)) ==> final(
            local_verify_data)@ == d@),
        old(local_verify_data)@.len() != 0 || computed is None ==> final(local_verify_data)@
            == old(local_verify_data)@,
        !(old(local_verify_data)@.len() == 0 && computation_failed(computed)) ==> (r matches Ok(p)
            && p@.len() == 2 && is_flight6_change_cipher_spec(p@[0])
            && is_flight6_finished(p@[1], final(local_verify_data)@)),
{
    let mut pkts: Vec<FlightPacket> = Vec::new();
    pkts.push(
        FlightPacket {
            protocol_version: protocol_version1_2(),
            epoch: 0,
            content: FlightContent::ChangeCipherSpec,
            should_encrypt: false,
            reset_local_sequence_number: false,
        },
    );
    if local_verify_data.len() == 0 {
        match computed {
            Some(Ok(d)) => {
                *local_verify_data = d;
            },
            Some(Err(e)) => {
                return Err(make_fatal(AlertDescription::InternalError, e));
            },
            None => {},
        }
    }
    pkts.push(
        FlightPacket {
            protocol_version: protocol_version1_2(),
            epoch: 1,
            content: FlightContent::Finished(local_verify_data.clone()),
            should_encrypt: true,
            reset_local_sequence_number: true,
        },
    );
    Ok(pkts)
}

/// What the messages that follow the ServerHello in the server's flight
/// settle for the client.
pub struct ServerFlightState {
    /// The server's certificate chain.
    pub peer_certificates: Vec<Vec<u8>>,
    pub pre_master_secret: Vec<u8>,
    /// Whether the server asked for a client certificate.
    pub remote_requested_certificate: bool,
}

/// The pre-master secret a key exchange gives, or its error.
pub open spec fn spec_key_exchange(a: KeyAgreement) -> Result<Seq<u8>, DtlsError> {
    match a {
        KeyAgreement::Psk(Ok(psk)) => Ok(spec_psk_pre_master_secret(psk@)),
        KeyAgreement::Ecdh(Ok(secret)) => Ok(secret@),
        KeyAgreement::Psk(Err(e)) => Err(e),
        KeyAgreement::Ecdh(Err(e)) => Err(e),
    }
}

/// The client's handling, in flight 3, of the messages after the
/// ServerHello: a Certificate's chain is kept; a ServerKeyExchange gives the
/// pre-master secret, and its failure is a fatal internal_error; a
/// CertificateRequest is noted; then the handshake goes on with flight 5.
pub fn flight3_server_flight(
    certificate: Option<Vec<Vec<u8>>>,
    key_exchange: Option<KeyAgreement>,
    certificate_request: bool,
    state: &mut ServerFlightState,
) -> (r: Result<Flight, FlightError>)
    ensures
        final(state).peer_certificates == (match certificate {
            Some(c) => c,
            None => old(state).peer_certificates,
        }),
        match key_exchange {
            Some(a) => match spec_key_exchange(a) {
                Err(e) => r == Err::<Flight, FlightError>(internal_error(e))
                    && final(state).pre_master_secret@ == old(state).pre_master_secret@
                    && final(state).remote_requested_certificate
                    == old(state).remote_requested_certificate,
                Ok(secret) => r == Ok::<Flight, FlightError>(Flight::Flight5)
                    && final(state).pre_master_secret@ == secret
                    && final(state).remote_requested_certificate == (old(
                    state).remote_requested_certificate || certificate_request),
            },
            None => r == Ok::<Flight, FlightError>(Flight::Flight5) && final(state).pre_master_secret@
                == old(state).pre_master_secret@ && final(state).remote_requested_certificate == (old(
                state).remote_requested_certificate || certificate_request),
        },
{
    if let Some(c) = certificate {
        state.peer_certificates = c;
    }
    if let Some(a) = key_exchange {
        match handle_server_key_exchange(a) {
            Ok(secret) => {
                state.pre_master_secret = secret;
            },
            Err(e) => {
                return Err(e);
            },
        }
    }
    if certificate_request {
        state.remote_requested_certificate = true;
    }
    Ok(Flight::Flight5)
}

} // verus!
