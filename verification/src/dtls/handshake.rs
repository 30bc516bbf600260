//! Handshake message formats and the byte strings the handshake signs or
//! authenticates.
use vstd::prelude::*;
use crate::bytes::{be16, be64, get_be16, push_be16, push_be32, extend_from, read_be16, slice_to_vec};
use super::{
    Alert, AlertDescription, AlertLevel, DtlsError, NamedCurve, ProtocolVersion,
    spec_named_curve_id,
};

verus! {

/// The ClientKeyExchange message: a PSK identity hint or an ECDH public key,
/// exactly one of them nonempty.
#[derive(Clone, Debug, PartialEq)]
pub struct HandshakeMessageClientKeyExchange {
    pub identity_hint: Vec<u8>,
    pub public_key: Vec<u8>,
}

/// The bytes of a ClientKeyExchange: the public key after its one-byte
/// length, or else the identity hint after its two-byte length.
pub open spec fn client_key_exchange_bytes(identity_hint: Seq<u8>, public_key: Seq<u8>) -> Seq<u8> {
    if public_key.len() != 0 {
        seq![(public_key.len() % 256) as u8] + public_key
    } else {
        be16((identity_hint.len() % 65536) as u16) + identity_hint
    }
}

/// The ClientKeyExchange of `data`: a PSK identity hint when the first two
/// bytes give the length of the rest, else a public key when the first byte
/// does.
pub open spec fn parse_client_key_exchange(data: Seq<u8>) -> Result<(Seq<u8>, Seq<u8>), DtlsError> {
    let psk_length = data[0] * 256 + data[1];
    if data.len() == psk_length + 2 {
        Ok((data.subrange(2, data.len() as int), Seq::empty()))
    } else if data.len() != data[0] + 1 {
        Err(DtlsError::ErrBufferTooSmall)
    } else {
        Ok((Seq::empty(), data.subrange(1, data.len() as int)))
    }
}

impl HandshakeMessageClientKeyExchange {
    /// Serializes the message; exactly one of hint and key must be set.
    pub fn marshal(&self) -> (r: Result<Vec<u8>, DtlsError>)
        ensures
            (self.identity_hint@.len() == 0) == (self.public_key@.len() == 0) ==> r == Err::<
                Vec<u8>,
                DtlsError,
            >(DtlsError::ErrInvalidClientKeyExchange),
            (self.identity_hint@.len() == 0) != (self.public_key@.len() == 0) ==> (r matches Ok(v)
                && v@ == client_key_exchange_bytes(self.identity_hint@, self.public_key@)),
    {
        if (self.identity_hint.len() != 0 && self.public_key.len() != 0) || (
        self.identity_hint.len() == 0 && self.public_key.len() == 0) {
            return Err(DtlsError::ErrInvalidClientKeyExchange);
        }
        let mut v: Vec<u8> = Vec::new();
        if self.public_key.len() != 0 {
            v.push((self.public_key.len() % 256) as u8);
            extend_from(&mut v, self.public_key.as_slice());
        } else {
            push_be16(&mut v, (self.identity_hint.len() % 65536) as u16);
            extend_from(&mut v, self.identity_hint.as_slice());
        }
        assert(v@ =~= client_key_exchange_bytes(self.identity_hint@, self.public_key@));
        Ok(v)
    }

    /// Parses a ClientKeyExchange of at least two bytes.
    pub fn unmarshal(data: &[u8]) -> (r: Result<Self, DtlsError>)
        requires
            data@.len() >= 2,
        ensures
            match parse_client_key_exchange(data@) {
                Ok((hint, key)) => r matches Ok(m) && m.identity_hint@ == hint && m.public_key@
                    == key,
                Err(e) => r == Err::<Self, DtlsError>(e),
            },
    {
        let psk_length = (data[0] as usize) * 256 + (data[1] as usize);
        if data.len() == psk_length + 2 {
            return Ok(
                HandshakeMessageClientKeyExchange {
                    identity_hint: slice_to_vec(data, 2, data.len()),
                    public_key: Vec::new(),
                },
            );
        }
        let public_key_length = data[0] as usize;
        if data.len() != public_key_length + 1 {
            return Err(DtlsError::ErrBufferTooSmall);
        }
        Ok(
            HandshakeMessageClientKeyExchange {
                identity_hint: Vec::new(),
                public_key: slice_to_vec(data, 1, data.len()),
            },
        )
    }
}

/// A marshaled ClientKeyExchange parses back to the same message, when its
/// hint or key fits its length field.
pub proof fn lemma_client_key_exchange_roundtrip(identity_hint: Seq<u8>, public_key: Seq<u8>)
    requires
        (identity_hint.len() == 0) != (public_key.len() == 0),
        public_key.len() < 256,
        identity_hint.len() < 65536,
    ensures
        parse_client_key_exchange(client_key_exchange_bytes(identity_hint, public_key)) == Ok::<
            (Seq<u8>, Seq<u8>),
            DtlsError,
        >((identity_hint, public_key)),
{
    let b = client_key_exchange_bytes(identity_hint, public_key);
    if public_key.len() != 0 {
        assert(b[0] == public_key.len());
        assert(b.len() == public_key.len() + 1);
        assert(b.subrange(1, b.len() as int) =~= public_key);
        assert(identity_hint =~= Seq::<u8>::empty());
        assert(b[0] * 256 + b[1] + 2 != b.len()) by (nonlinear_arith)
            requires
                b[0] == public_key.len(),
                b.len() == public_key.len() + 1,
                public_key.len() >= 1,
                0 <= b[1],
        ;
    } else {
        let x = identity_hint.len() as u16;
        assert(b[0] * 256 + b[1] == x);
        assert(b.subrange(2, b.len() as int) =~= identity_hint);
        assert(public_key =~= Seq::<u8>::empty());
    }
}

/// The bytes the server signs in its ServerKeyExchange: both randoms, the
/// ECDH parameters (named curve, curve, key length) and the public key.
pub open spec fn spec_value_key_message(
    client_random: Seq<u8>,
    server_random: Seq<u8>,
    public_key: Seq<u8>,
    named_curve: NamedCurve,
) -> Seq<u8> {
    client_random + server_random + seq![3u8] + be16(spec_named_curve_id(named_curve)) + seq![
        (public_key.len() % 256) as u8,
    ] + public_key
}

/// The message signed in the server's key exchange.
pub fn value_key_message(
    client_random: &[u8],
    server_random: &[u8],
    public_key: &[u8],
    named_curve: NamedCurve,
) -> (r: Vec<u8>)
    ensures
        r@ == spec_value_key_message(client_random@, server_random@, public_key@, named_curve),
{
    let mut plaintext: Vec<u8> = Vec::new();
    extend_from(&mut plaintext, client_random);
    extend_from(&mut plaintext, server_random);
    plaintext.push(3u8);
    push_be16(&mut plaintext, named_curve.id());
    plaintext.push((public_key.len() % 256) as u8);
    extend_from(&mut plaintext, public_key);
    assert(plaintext@ =~= spec_value_key_message(
        client_random@,
        server_random@,
        public_key@,
        named_curve,
    ));
    plaintext
}

/// The content types of DTLS records.
#[derive(Debug, PartialEq, Eq, Structural, Clone, Copy)]
pub enum ContentType {
    ChangeCipherSpec,
    Alert,
    Handshake,
    ApplicationData,
    Invalid,
}

/// The number of a content type.
pub open spec fn spec_content_type_byte(c: ContentType) -> u8 {
    match c {
        ContentType::ChangeCipherSpec => 20,
        ContentType::Alert => 21,
        ContentType::Handshake => 22,
        ContentType::ApplicationData => 23,
        ContentType::Invalid => 0,
    }
}

impl ContentType {
    pub fn to_byte(&self) -> (r: u8)
        ensures
            r == spec_content_type_byte(*self),
    {
        match self {
            ContentType::ChangeCipherSpec => 20,
            ContentType::Alert => 21,
            ContentType::Handshake => 22,
            ContentType::ApplicationData => 23,
            ContentType::Invalid => 0,
        }
    }
}

/// The header of a DTLS record.
#[derive(Debug, PartialEq, Eq, Clone, Copy)]
pub struct RecordLayerHeader {
    pub content_type: ContentType,
    pub protocol_version: ProtocolVersion,
    pub epoch: u16,
    /// 48-bit sequence number.
    pub sequence_number: u64,
    pub content_len: u16,
}

/// The additional data of an AEAD record: epoch and 48-bit sequence number,
/// content type, version and payload length.
pub open spec fn spec_aead_additional_data(h: RecordLayerHeader, payload_len: usize) -> Seq<u8> {
    be16(h.epoch) + be64(h.sequence_number).subrange(2, 8) + seq![
        spec_content_type_byte(h.content_type),
        h.protocol_version.major,
        h.protocol_version.minor,
    ] + be16((payload_len % 65536) as u16)
}

/// The additional data authenticated along with an AEAD record.
pub fn generate_aead_additional_data(h: &RecordLayerHeader, payload_len: usize) -> (r: Vec<u8>)
    ensures
        r@ == spec_aead_additional_data(*h, payload_len),
        r@.len() == 13,
{
    let mut seq_bytes: Vec<u8> = Vec::new();
    push_be32(&mut seq_bytes, (h.sequence_number / 4294967296) as u32);
    push_be32(&mut seq_bytes, (h.sequence_number % 4294967296) as u32);
    assert(seq_bytes@ =~= be64(h.sequence_number));
    let mut additional_data: Vec<u8> = Vec::new();
    push_be16(&mut additional_data, h.epoch);
    let mut i: usize = 2;
    while i < 8
        invariant
            2 <= i <= 8,
            seq_bytes@.len() == 8,
            additional_data@ == be16(h.epoch) + seq_bytes@.subrange(2, i as int),
        decreases 8 - i,
    {
        additional_data.push(seq_bytes[i]);
        i = i + 1;
        assert(additional_data@ =~= be16(h.epoch) + seq_bytes@.subrange(2, i as int));
    }
    additional_data.push(h.content_type.to_byte());
    additional_data.push(h.protocol_version.major);
    additional_data.push(h.protocol_version.minor);
    push_be16(&mut additional_data, (payload_len % 65536) as u16);
    assert(additional_data@ =~= spec_aead_additional_data(*h, payload_len));
    additional_data
}

/// An extension of a hello message: its type and its data, kept as they
/// came.
#[derive(Debug, PartialEq, Eq)]
pub struct RawExtension {
    pub typ: u16,
    pub data: Vec<u8>,
}

/// The extension types the handshake knows: server_name, supported_groups,
/// ec_point_formats, signature_algorithms, use_srtp, extended_master_secret
/// and renegotiation_info.
pub open spec fn known_extension(t: u16) -> bool {
    t == 0 || t == 10 || t == 11 || t == 13 || t == 14 || t == 23 || t == 0xff01
}

fn is_known_extension(t: u16) -> (r: bool)
    ensures
        r == known_extension(t),
{
    t == 0 || t == 10 || t == 11 || t == 13 || t == 14 || t == 23 || t == 0xff01
}

/// An extension on the wire: type, data length (modulo 2^16) and data.
pub open spec fn extension_bytes(e: (u16, Seq<u8>)) -> Seq<u8> {
    be16(e.0) + be16((e.1.len() % 65536) as u16) + e.1
}

/// A list of extensions on the wire, one after the other.
pub open spec fn extensions_bytes(es: Seq<(u16, Seq<u8>)>) -> Seq<u8>
    decreases es.len(),
{
    if es.len() == 0 {
        Seq::empty()
    } else {
        extension_bytes(es[0]) + extensions_bytes(es.drop_first())
    }
}

/// The extensions written in `b`, front to back: each must be of a known
/// type and fit in what is left.
pub open spec fn parse_extensions(b: Seq<u8>) -> Result<Seq<(u16, Seq<u8>)>, DtlsError>
    decreases b.len(),
{
    if b.len() == 0 {
        Ok(Seq::empty())
    } else if b.len() < 2 {
        Err(DtlsError::ErrBufferTooSmall)
    } else if !known_extension(read_be16(b, 0)) {
        Err(DtlsError::ErrInvalidExtensionType)
    } else if b.len() < 4 || 4 + read_be16(b, 2) > b.len() {
        Err(DtlsError::ErrBufferTooSmall)
    } else {
        let l = read_be16(b, 2) as int;
        match parse_extensions(b.subrange(4 + l, b.len() as int)) {
            Ok(rest) => Ok(seq![(read_be16(b, 0), b.subrange(4, 4 + l))] + rest),
            Err(e) => Err(e),
        }
    }
}

/// The extensions of a message as types and data.
pub open spec fn extensions_view(es: Seq<RawExtension>) -> Seq<(u16, Seq<u8>)> {
    es.map_values(|e: RawExtension| (e.typ, e.data@))
}

/// The ServerHello message: version, random, the cipher suite chosen,
/// the compression method and the extensions.
#[derive(Debug, PartialEq, Eq)]
pub struct HandshakeMessageServerHello {
    pub version: ProtocolVersion,
    pub random: Vec<u8>,
    pub cipher_suite: u16,
    pub compression_method: u8,
    pub extensions: Vec<RawExtension>,
}

/// The bytes of a ServerHello: version, the 32 random bytes, an empty
/// session id, cipher suite, compression method, then the extensions after
/// their total length (modulo 2^16).
pub open spec fn server_hello_bytes(
    version: ProtocolVersion,
    random: Seq<u8>,
    cipher_suite: u16,
    compression_method: u8,
    extensions: Seq<(u16, Seq<u8>)>,
) -> Seq<u8> {
    seq![version.major, version.minor] + random + seq![0u8] + be16(cipher_suite) + seq![
        compression_method,
    ] + be16((extensions_bytes(extensions).len() % 65536) as u16) + extensions_bytes(extensions)
}

/// The ServerHello of `data`: version, random, cipher suite, compression
/// method and extensions; the session id length byte is skipped. Bytes after
/// the extensions are ignored.
pub open spec fn parse_server_hello(data: Seq<u8>) -> Result<
    (ProtocolVersion, Seq<u8>, u16, u8, Seq<(u16, Seq<u8>)>),
    DtlsError,
> {
    if data.len() < 40 || 40 + read_be16(data, 38) > data.len() {
        Err(DtlsError::ErrBufferTooSmall)
    } else {
        match parse_extensions(data.subrange(40, 40 + read_be16(data, 38))) {
            Ok(es) => Ok(
                (
                    ProtocolVersion { major: data[0], minor: data[1] },
                    data.subrange(2, 34),
                    read_be16(data, 35),
                    data[37],
                    es,
                ),
            ),
            Err(e) => Err(e),
        }
    }
}

proof fn lemma_extensions_bytes_push(es: Seq<(u16, Seq<u8>)>, e: (u16, Seq<u8>))
    ensures
        extensions_bytes(es.push(e)) == extensions_bytes(es) + extension_bytes(e),
    decreases es.len(),
{
    if es.len() == 0 {
        assert(es.push(e).drop_first() =~= Seq::<(u16, Seq<u8>)>::empty());
        assert(es.push(e)[0] == e);
        assert(extensions_bytes(Seq::<(u16, Seq<u8>)>::empty()) == Seq::<u8>::empty());
        assert(extensions_bytes(es) == Seq::<u8>::empty());
        assert(extensions_bytes(es.push(e)) =~= extension_bytes(e));
    } else {
        assert(es.push(e).drop_first() =~= es.drop_first().push(e));
        lemma_extensions_bytes_push(es.drop_first(), e);
        assert(extensions_bytes(es.push(e)) =~= extensions_bytes(es) + extension_bytes(e));
    }
}

impl HandshakeMessageServerHello {
    /// Serializes the message; the random must be 32 bytes.
    pub fn marshal(&self) -> (r: Vec<u8>)
        requires
            self.random@.len() == 32,
        ensures
            r@ == server_hello_bytes(
                self.version,
                self.random@,
                self.cipher_suite,
                self.compression_method,
                extensions_view(self.extensions@),
            ),
    {
        let ghost es = extensions_view(self.extensions@);
        let mut ext: Vec<u8> = Vec::new();
        let mut i: usize = 0;
        while i < self.extensions.len()
            invariant
                i <= self.extensions@.len(),
                es == extensions_view(self.extensions@),
                ext@ == extensions_bytes(es.take(i as int)),
            decreases self.extensions@.len() - i,
        {
            let e = &self.extensions[i];
            let ghost before = ext@;
            push_be16(&mut ext, e.typ);
            push_be16(&mut ext, (e.data.len() % 65536) as u16);
            extend_from(&mut ext, e.data.as_slice());
            proof {
                assert(es.take(i + 1) =~= es.take(i as int).push(es[i as int]));
                lemma_extensions_bytes_push(es.take(i as int), es[i as int]);
                assert(ext@ =~= before + extension_bytes(es[i as int]));
            }
            i = i + 1;
        }
        assert(es.take(self.extensions@.len() as int) =~= es);
        let mut v: Vec<u8> = Vec::new();
        v.push(self.version.major);
        v.push(self.version.minor);
        extend_from(&mut v, self.random.as_slice());
        v.push(0u8);
        push_be16(&mut v, self.cipher_suite);
        v.push(self.compression_method);
        push_be16(&mut v, (ext.len() % 65536) as u16);
        extend_from(&mut v, ext.as_slice());
        assert(v@ =~= server_hello_bytes(
            self.version,
            self.random@,
            self.cipher_suite,
            self.compression_method,
            es,
        ));
        v
    }

    /// Parses a ServerHello.
    pub fn unmarshal(data: &[u8]) -> (r: Result<Self, DtlsError>)
        ensures
            match parse_server_hello(data@) {
                Ok((version, random, cipher_suite, compression_method, es)) => r matches Ok(m)
                    && m.version == version && m.random@ == random && m.cipher_suite
                    == cipher_suite && m.compression_method == compression_method
                    && extensions_view(m.extensions@) == es,
                Err(e) => r matches Err(x) && x == e,
            },
    {
        if data.len() < 40 {
            return Err(DtlsError::ErrBufferTooSmall);
        }
        let ext_len = get_be16(data, 38) as usize;
        if data.len() - 40 < ext_len {
            return Err(DtlsError::ErrBufferTooSmall);
        }
        let end: usize = 40 + ext_len;
        let ghost b = data@.subrange(40, end as int);
        let mut extensions: Vec<RawExtension> = Vec::new();
        let mut offset: usize = 40;
        assert(data@.subrange(40, end as int) =~= b);
        while offset < end
            invariant
                40 <= offset <= end <= data@.len(),
                end == 40 + read_be16(data@, 38),
                b == data@.subrange(40, end as int),
                parse_extensions(b) == match parse_extensions(
                    data@.subrange(offset as int, end as int),
                ) {
                    Ok(rest) => Ok(extensions_view(extensions@) + rest),
                    Err(e) => Err(e),
                },
            decreases end - offset,
        {
            let ghost c = data@.subrange(offset as int, end as int);
            assert(c.len() == end - offset);
            if end - offset < 2 {
                assert(parse_extensions(c) == Err::<Seq<(u16, Seq<u8>)>, DtlsError>(
                    DtlsError::ErrBufferTooSmall,
                ));
                return Err(DtlsError::ErrBufferTooSmall);
            }
            let typ = get_be16(data, offset);
            assert(read_be16(c, 0) == typ);
            if !is_known_extension(typ) {
                assert(parse_extensions(c) == Err::<Seq<(u16, Seq<u8>)>, DtlsError>(
                    DtlsError::ErrInvalidExtensionType,
                ));
                return Err(DtlsError::ErrInvalidExtensionType);
            }
            if end - offset < 4 {
                assert(parse_extensions(c) == Err::<Seq<(u16, Seq<u8>)>, DtlsError>(
                    DtlsError::ErrBufferTooSmall,
                ));
                return Err(DtlsError::ErrBufferTooSmall);
            }
            let l = get_be16(data, offset + 2) as usize;
            assert(read_be16(c, 2) == l);
            if end - offset - 4 < l {
                assert(parse_extensions(c) == Err::<Seq<(u16, Seq<u8>)>, DtlsError>(
                    DtlsError::ErrBufferTooSmall,
                ));
                return Err(DtlsError::ErrBufferTooSmall);
            }
            let d = slice_to_vec(data, offset + 4, offset + 4 + l);
            let ghost before = extensions_view(extensions@);
            extensions.push(RawExtension { typ, data: d });
            proof {
                assert(c.subrange(4, 4 + l as int) =~= d@);
                assert(c.subrange(4 + l as int, c.len() as int) =~= data@.subrange(
                    offset + 4 + l,
                    end as int,
                ));
                assert(extensions_view(extensions@) =~= before.push((typ, d@)));
                let rest = parse_extensions(data@.subrange(offset + 4 + l, end as int));
                if let Ok(r) = rest {
                    assert(before + (seq![(typ, d@)] + r) =~= before.push((typ, d@)) + r);
                }
            }
            offset = offset + 4 + l;
        }
        proof {
            assert(data@.subrange(offset as int, end as int) =~= Seq::<u8>::empty());
            assert(extensions_view(extensions@) + Seq::<(u16, Seq<u8>)>::empty()
                =~= extensions_view(extensions@));
        }
        let random = slice_to_vec(data, 2, 34);
        Ok(
            HandshakeMessageServerHello {
                version: ProtocolVersion { major: data[0], minor: data[1] },
                random,
                cipher_suite: get_be16(data, 35),
                compression_method: data[37],
                extensions,
            },
        )
    }
}

/// What `marshal` writes, `unmarshal` reads back, when the extensions are
/// of known types and their data and total length fit their length fields.
pub proof fn lemma_server_hello_roundtrip(
    version: ProtocolVersion,
    random: Seq<u8>,
    cipher_suite: u16,
    compression_method: u8,
    es: Seq<(u16, Seq<u8>)>,
)
    requires
        random.len() == 32,
        forall|i: int| 0 <= i < es.len() ==> known_extension(#[trigger] es[i].0),
        forall|i: int| 0 <= i < es.len() ==> #[trigger] es[i].1.len() < 65536,
        extensions_bytes(es).len() < 65536,
    ensures
        parse_server_hello(server_hello_bytes(version, random, cipher_suite, compression_method, es))
            == Ok::<(ProtocolVersion, Seq<u8>, u16, u8, Seq<(u16, Seq<u8>)>), DtlsError>(
            (version, random, cipher_suite, compression_method, es),
        ),
{
    let eb = extensions_bytes(es);
    let data = server_hello_bytes(version, random, cipher_suite, compression_method, es);
    crate::bytes::lemma_be16_roundtrip(cipher_suite);
    crate::bytes::lemma_be16_roundtrip(eb.len() as u16);
    assert(data.len() == 40 + eb.len());
    assert(data[35] == be16(cipher_suite)[0] && data[36] == be16(cipher_suite)[1]);
    assert(data[38] == be16(eb.len() as u16)[0] && data[39] == be16(eb.len() as u16)[1]);
    assert(data.subrange(2, 34) =~= random);
    assert(data.subrange(40, 40 + eb.len() as int) =~= eb);
    lemma_parse_extensions_bytes(es);
}

#[verifier::spinoff_prover]
proof fn lemma_parse_one(e: (u16, Seq<u8>), rest: Seq<u8>)
    requires
        known_extension(e.0),
        e.1.len() < 65536,
    ensures
        parse_extensions(extension_bytes(e) + rest) == match parse_extensions(rest) {
            Ok(r) => Ok(seq![e] + r),
            Err(x) => Err::<Seq<(u16, Seq<u8>)>, DtlsError>(x),
        },
{
    let b = extension_bytes(e) + rest;
    let l = e.1.len() as int;
    let lw = (e.1.len() % 65536) as u16;
    assert(lw == l);
    crate::bytes::lemma_be16_roundtrip(e.0);
    crate::bytes::lemma_be16_roundtrip(lw);
    assert(b[0] == be16(e.0)[0] && b[1] == be16(e.0)[1]);
    assert(b[2] == be16(lw)[0] && b[3] == be16(lw)[1]);
    assert(read_be16(b, 0) == e.0);
    assert(read_be16(b, 2) == l);
    assert(b.subrange(4, 4 + l) =~= e.1);
    assert(b.subrange(4 + l, b.len() as int) =~= rest);
}

#[verifier::spinoff_prover]
#[verifier::rlimit(40)]
proof fn lemma_parse_extensions_bytes(es: Seq<(u16, Seq<u8>)>)
    requires
        forall|i: int| 0 <= i < es.len() ==> known_extension(#[trigger] es[i].0),
        forall|i: int| 0 <= i < es.len() ==> #[trigger] es[i].1.len() < 65536,
    ensures
        parse_extensions(extensions_bytes(es)) == Ok::<Seq<(u16, Seq<u8>)>, DtlsError>(es),
    decreases es.len(),
{
    if es.len() > 0 {
        let tail = es.drop_first();
        assert forall|i: int| 0 <= i < tail.len() implies known_extension(#[trigger] tail[i].0) by {
            assert(tail[i] == es[i + 1]);
        }
        assert forall|i: int| 0 <= i < tail.len() implies #[trigger] tail[i].1.len() < 65536 by {
            assert(tail[i] == es[i + 1]);
        }
        lemma_parse_extensions_bytes(tail);
        assert(extensions_bytes(es) == extension_bytes(es[0]) + extensions_bytes(tail));
        lemma_parse_one(es[0], extensions_bytes(tail));
        assert(seq![es[0]] + tail =~= es);
    } else {
        assert(extensions_bytes(es) == Seq::<u8>::empty());
        assert(es =~= Seq::<(u16, Seq<u8>)>::empty());
    }
}

/// The types of handshake messages.
#[derive(Debug, PartialEq, Eq, Structural, Clone, Copy)]
pub enum HandshakeType {
    HelloRequest,
    ClientHello,
    ServerHello,
    HelloVerifyRequest,
    Certificate,
    ServerKeyExchange,
    CertificateRequest,
    ServerHelloDone,
    CertificateVerify,
    ClientKeyExchange,
    Finished,
}

/// The number of a handshake type on the wire.
pub open spec fn spec_handshake_type_byte(t: HandshakeType) -> u8 {
    match t {
        HandshakeType::HelloRequest => 0,
        HandshakeType::ClientHello => 1,
        HandshakeType::ServerHello => 2,
        HandshakeType::HelloVerifyRequest => 3,
        HandshakeType::Certificate => 11,
        HandshakeType::ServerKeyExchange => 12,
        HandshakeType::CertificateRequest => 13,
        HandshakeType::ServerHelloDone => 14,
        HandshakeType::CertificateVerify => 15,
        HandshakeType::ClientKeyExchange => 16,
        HandshakeType::Finished => 20,
    }
}

impl HandshakeType {
    /// The number of the type on the wire.
    pub fn to_byte(&self) -> (r: u8)
        ensures
            r == spec_handshake_type_byte(*self),
    {
        match self {
            HandshakeType::HelloRequest => 0,
            HandshakeType::ClientHello => 1,
            HandshakeType::ServerHello => 2,
            HandshakeType::HelloVerifyRequest => 3,
            HandshakeType::Certificate => 11,
            HandshakeType::ServerKeyExchange => 12,
            HandshakeType::CertificateRequest => 13,
            HandshakeType::ServerHelloDone => 14,
            HandshakeType::CertificateVerify => 15,
            HandshakeType::ClientKeyExchange => 16,
            HandshakeType::Finished => 20,
        }
    }
}

impl HandshakeMessageClientKeyExchange {
    /// The handshake type of the message.
    pub fn handshake_type() -> (r: HandshakeType)
        ensures
            r == HandshakeType::ClientKeyExchange,
    {
        HandshakeType::ClientKeyExchange
    }
}

impl HandshakeMessageServerHello {
    /// The handshake type of the message.
    pub fn handshake_type() -> (r: HandshakeType)
        ensures
            r == HandshakeType::ServerHello,
    {
        HandshakeType::ServerHello
    }
}

/// The pre-master secret of a pre-shared key (RFC 4279): as many zero bytes
/// as the key is long, then the key, each after its two-byte length
/// (modulo 2^16).
pub open spec fn spec_psk_pre_master_secret(psk: Seq<u8>) -> Seq<u8> {
    let l = be16((psk.len() % 65536) as u16);
    l + Seq::new(psk.len(), |i: int| 0u8) + l + psk
}

/// The pre-master secret of a pre-shared key.
pub fn prf_psk_pre_master_secret(psk: &[u8]) -> (r: Vec<u8>)
    ensures
        r@ == spec_psk_pre_master_secret(psk@),
{
    let l = (psk.len() % 65536) as u16;
    let mut out: Vec<u8> = Vec::new();
    push_be16(&mut out, l);
    let mut i: usize = 0;
    while i < psk.len()
        invariant
            i <= psk@.len(),
            out@ == be16(l) + Seq::new(i as nat, |k: int| 0u8),
        decreases psk@.len() - i,
    {
        out.push(0u8);
        i = i + 1;
        assert(out@ =~= be16(l) + Seq::new(i as nat, |k: int| 0u8));
    }
    push_be16(&mut out, l);
    extend_from(&mut out, psk);
    assert(out@ =~= spec_psk_pre_master_secret(psk@));
    out
}

/// What the client got for the key exchange of a ServerKeyExchange: the
/// pre-shared key that its callback gave for the server's identity hint,
/// or the secret that the key agreement with the server's public key gave
/// (both computed outside, either possibly failed).
pub enum KeyAgreement {
    Psk(Result<Vec<u8>, DtlsError>),
    Ecdh(Result<Vec<u8>, DtlsError>),
}

/// A fatal internal-error alert with its error.
pub open spec fn internal_error(e: DtlsError) -> (Option<Alert>, Option<DtlsError>) {
    (Some(Alert { alert_level: AlertLevel::Fatal, alert_description: AlertDescription::InternalError }), Some(e))
}

/// The client's handling of a ServerKeyExchange: the pre-master secret, from
/// the pre-shared key or from the key agreement; a failure of either is a
/// fatal internal error.
pub fn handle_server_key_exchange(agreement: KeyAgreement) -> (r: Result<
    Vec<u8>,
    (Option<Alert>, Option<DtlsError>),
>)
    ensures
        match agreement {
            KeyAgreement::Psk(Ok(psk)) => r matches Ok(s) && s@ == spec_psk_pre_master_secret(psk@),
            KeyAgreement::Ecdh(Ok(secret)) => r matches Ok(s) && s@ == secret@,
            KeyAgreement::Psk(Err(e)) => r == Err::<Vec<u8>, (Option<Alert>, Option<DtlsError>)>(
                internal_error(e),
            ),
            KeyAgreement::Ecdh(Err(e)) => r == Err::<Vec<u8>, (Option<Alert>, Option<DtlsError>)>(
                internal_error(e),
            ),
        },
{
    let fatal = Alert { alert_level: AlertLevel::Fatal, alert_description: AlertDescription::InternalError };
    match agreement {
        KeyAgreement::Psk(Ok(psk)) => Ok(prf_psk_pre_master_secret(psk.as_slice())),
        KeyAgreement::Psk(Err(e)) => Err((Some(fatal), Some(e))),
        KeyAgreement::Ecdh(Ok(secret)) => Ok(secret),
        KeyAgreement::Ecdh(Err(e)) => Err((Some(fatal), Some(e))),
    }
}

} // verus!
