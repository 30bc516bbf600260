//! SCTP packets (RFC 4960, section 3): a common header with ports, the
//! verification tag and a CRC32c checksum, then chunks, each padded to a
//! multiple of four bytes. Chunks are kept as their type, flags and value.
use vstd::prelude::*;
use crate::bytes::{be16, be32, get_be16, get_be32, push_be16, push_be32, read_be16, read_be32};

verus! {

/// The size of the common header.
pub const PACKET_HEADER_SIZE: usize = 12;
/// The size of a chunk header.
pub const CHUNK_HEADER_SIZE: usize = 4;

/// Why a packet was refused.
#[derive(Debug, Clone, Copy, PartialEq, Eq)]
pub enum SctpError {
    ErrPacketRawTooSmall,
    ErrParseSctpChunkNotEnoughData,
    ErrUnmarshalUnknownChunkType,
    ErrChecksumMismatch,
    ErrChunkHeaderInvalidLength,
    ErrChunkHeaderNotEnoughSpace,
    ErrChunkHeaderPaddingNonZero,
}

/// A chunk: its type, its flags and its value.
#[derive(Debug, Clone, PartialEq, Eq)]
pub struct RawChunk {
    pub typ: u8,
    pub flags: u8,
    pub value: Vec<u8>,
}

/// An SCTP packet.
#[derive(Debug, Clone, PartialEq, Eq)]
pub struct Packet {
    pub source_port: u16,
    pub destination_port: u16,
    pub verification_tag: u32,
    pub chunks: Vec<RawChunk>,
}

/// One bit step of the reflected CRC-32C division: shift right, and
/// subtract the reflected Castagnoli polynomial 0x82F63B78 when a one falls
/// out.
pub open spec fn crc32c_shift(c: u32) -> u32 {
    if c % 2 == 1 {
        (c / 2) ^ 0x82F63B78u32
    } else {
        c / 2
    }
}

/// `n` bit steps.
pub open spec fn crc32c_bits(c: u32, n: nat) -> u32
    decreases n,
{
    if n == 0 {
        c
    } else {
        crc32c_bits(crc32c_shift(c), (n - 1) as nat)
    }
}

/// The CRC register after some bytes: it starts with all ones, and each
/// byte is XORed into its low bits and then shifted through.
pub open spec fn crc32c_register(data: Seq<u8>) -> u32
    decreases data.len(),
{
    if data.len() == 0 {
        0xFFFF_FFFFu32
    } else {
        crc32c_bits(crc32c_register(data.drop_last()) ^ (data.last() as u32), 8)
    }
}

/// The CRC32c (Castagnoli, CRC-32/ISCSI) checksum of some bytes: the final
/// register with all bits flipped.
pub open spec fn crc32c(data: Seq<u8>) -> u32 {
    crc32c_register(data) ^ 0xFFFF_FFFFu32
}

/// `crc::Crc::<u32>::checksum` with the CRC-32/ISCSI parameters of
/// `crc-catalog` (polynomial 0x1edc6f41, reflected in and out, initial value
/// and final XOR all ones). Claimed: the result is the CRC32c above.
#[verifier::external_body]
fn crc32c_checksum(data: &[u8]) -> (r: u32)
    ensures
        r == crc32c(data@),
{
    crc::Crc::<u32>::new(&crc::CRC_32_ISCSI).checksum(data)
}

/// The chunk types a packet may hold: DATA, INIT, INIT ACK, SACK,
/// HEARTBEAT, ABORT, SHUTDOWN, SHUTDOWN ACK, ERROR, COOKIE ECHO,
/// COOKIE ACK, SHUTDOWN COMPLETE, RE-CONFIG and FORWARD TSN.
pub open spec fn known_chunk_type(t: u8) -> bool {
    t == 0 || t == 1 || t == 2 || t == 3 || t == 4 || t == 6 || t == 7 || t == 8 || t == 9 || t
        == 10 || t == 11 || t == 14 || t == 130 || t == 192
}

fn is_known_chunk_type(t: u8) -> (r: bool)
    ensures
        r == known_chunk_type(t),
{
    t == 0 || t == 1 || t == 2 || t == 3 || t == 4 || t == 6 || t == 7 || t == 8 || t == 9 || t
        == 10 || t == 11 || t == 14 || t == 130 || t == 192
}

/// The zero bytes that pad `len` bytes to a multiple of four.
pub open spec fn padding(len: int) -> int {
    (4 - len % 4) % 4
}

/// The padding needed after `len` bytes.
pub fn get_padding_size(len: usize) -> (r: usize)
    ensures
        r == padding(len as int),
{
    (4 - len % 4) % 4
}

/// The check of a chunk header at the start of `b`: the length counts the
/// header and must fit; fewer than four bytes after the chunk must be zero
/// padding. The value length, or the refusal.
pub open spec fn chunk_header_spec(b: Seq<u8>) -> Result<int, SctpError> {
    let length = read_be16(b, 2) as int;
    if length < 4 {
        Err(SctpError::ErrChunkHeaderInvalidLength)
    } else if b.len() < length {
        Err(SctpError::ErrChunkHeaderNotEnoughSpace)
    } else if b.len() - length < 4 && exists|i: int| length <= i < b.len() && b[i] != 0 {
        Err(SctpError::ErrChunkHeaderPaddingNonZero)
    } else {
        Ok(length - 4)
    }
}

/// The chunks written in `b`, front to back.
pub open spec fn parse_chunks(b: Seq<u8>) -> Result<Seq<(u8, u8, Seq<u8>)>, SctpError>
    decreases b.len(),
{
    if b.len() == 0 {
        Ok(Seq::empty())
    } else if b.len() < 4 {
        Err(SctpError::ErrParseSctpChunkNotEnoughData)
    } else if !known_chunk_type(b[0]) {
        Err(SctpError::ErrUnmarshalUnknownChunkType)
    } else {
        match chunk_header_spec(b) {
            Err(e) => Err(e),
            Ok(vlen) => {
                let adv = 4 + vlen + padding(vlen);
                if adv > b.len() {
                    Err(SctpError::ErrParseSctpChunkNotEnoughData)
                } else {
                    match parse_chunks(b.subrange(adv, b.len() as int)) {
                        Ok(rest) => Ok(seq![(b[0], b[1], b.subrange(4, 4 + vlen))] + rest),
                        Err(e) => Err(e),
                    }
                }
            },
        }
    }
}

/// The bytes the checksum is computed over: the packet with its checksum
/// field zeroed.
pub open spec fn checksum_input(raw: Seq<u8>) -> Seq<u8> {
    raw.subrange(0, 8) + seq![0u8, 0u8, 0u8, 0u8] + raw.subrange(12, raw.len() as int)
}

/// The value of four little-endian bytes of `s` at `off`.
pub open spec fn read_le32(s: Seq<u8>, off: int) -> u32 {
    (s[off] + s[off + 1] * 256 + s[off + 2] * 65536 + s[off + 3] * 16777216) as u32
}

/// The four little-endian bytes of `x`.
pub open spec fn le32(x: u32) -> Seq<u8> {
    seq![(x % 256) as u8, ((x / 256) % 256) as u8, ((x / 65536) % 256) as u8, (x / 16777216) as u8]
}

/// The packet of `raw`: ports, tag and chunks, when the header is there,
/// the chunks parse and the checksum matches.
pub open spec fn packet_spec(raw: Seq<u8>) -> Result<(u16, u16, u32, Seq<(u8, u8, Seq<u8>)>), SctpError> {
    if raw.len() < 12 {
        Err(SctpError::ErrPacketRawTooSmall)
    } else {
        match parse_chunks(raw.subrange(12, raw.len() as int)) {
            Err(e) => Err(e),
            Ok(chunks) => if read_le32(raw, 8) != crc32c(checksum_input(raw)) {
                Err(SctpError::ErrChecksumMismatch)
            } else {
                Ok((read_be16(raw, 0), read_be16(raw, 2), read_be32(raw, 4), chunks))
            },
        }
    }
}

/// A chunk as its type, flags and value.
pub open spec fn chunk_view(c: RawChunk) -> (u8, u8, Seq<u8>) {
    (c.typ, c.flags, c.value@)
}

/// The chunks of a packet as plain values.
pub open spec fn chunks_view(cs: Seq<RawChunk>) -> Seq<(u8, u8, Seq<u8>)> {
    cs.map_values(|c: RawChunk| chunk_view(c))
}

/// A chunk on the wire: type, flags, length (with the header, modulo 2^16),
/// value and zero padding.
pub open spec fn chunk_bytes(c: (u8, u8, Seq<u8>)) -> Seq<u8> {
    seq![c.0, c.1] + be16(((4 + c.2.len()) % 65536) as u16) + c.2 + Seq::new(
        padding(c.2.len() as int) as nat,
        |i: int| 0u8,
    )
}

/// Chunks on the wire, one after the other.
pub open spec fn chunks_bytes(cs: Seq<(u8, u8, Seq<u8>)>) -> Seq<u8>
    decreases cs.len(),
{
    if cs.len() == 0 {
        Seq::empty()
    } else {
        chunk_bytes(cs[0]) + chunks_bytes(cs.drop_first())
    }
}

/// A packet on the wire: ports, tag, the checksum (little-endian) of the
/// packet with a zero checksum, then the chunks.
pub open spec fn packet_bytes(
    source_port: u16,
    destination_port: u16,
    verification_tag: u32,
    chunks: Seq<(u8, u8, Seq<u8>)>,
) -> Seq<u8> {
    let head = be16(source_port) + be16(destination_port) + be32(verification_tag);
    let body = chunks_bytes(chunks);
    head + le32(crc32c(head + seq![0u8, 0u8, 0u8, 0u8] + body)) + body
}

fn get_le32(s: &[u8], off: usize) -> (r: u32)
    requires
        off + 4 <= s@.len(),
    ensures
        r == read_le32(s@, off as int),
{
    let b0 = s[off] as u32;
    let b1 = s[off + 1] as u32;
    let b2 = s[off + 2] as u32;
    let b3 = s[off + 3] as u32;
    b0 + b1 * 256 + b2 * 65536 + b3 * 16777216
}

fn push_le32(v: &mut Vec<u8>, x: u32)
    ensures
        final(v)@ == old(v)@ + le32(x),
{
    v.push((x % 256) as u8);
    v.push(((x / 256) % 256) as u8);
    v.push(((x / 65536) % 256) as u8);
    v.push((x / 16777216) as u8);
    assert(v@ =~= old(v)@ + le32(x));
}

fn chunk_header(raw: &[u8], offset: usize) -> (r: Result<usize, SctpError>)
    requires
        offset + 4 <= raw.len(),
    ensures
        match chunk_header_spec(raw@.subrange(offset as int, raw@.len() as int)) {
            Ok(v) => r == Ok::<usize, SctpError>(v as usize),
            Err(e) => r == Err::<usize, SctpError>(e),
        },
{
    let ghost b = raw@.subrange(offset as int, raw@.len() as int);
    let length = get_be16(raw, offset + 2) as usize;
    assert(read_be16(b, 2) == length);
    if length < 4 {
        return Err(SctpError::ErrChunkHeaderInvalidLength);
    }
    let rest = raw.len() - offset;
    if rest < length {
        return Err(SctpError::ErrChunkHeaderNotEnoughSpace);
    }
    if rest - length < 4 {
        let mut i: usize = offset + length;
        while i < raw.len()
            invariant
                offset + length <= i <= raw@.len(),
                b == raw@.subrange(offset as int, raw@.len() as int),
                b.len() - length < 4,
                4 <= length <= b.len(),
                length == read_be16(b, 2),
                forall|k: int| length <= k < i - offset ==> b[k] == 0,
            decreases raw@.len() - i,
        {
            if raw[i] != 0 {
                proof {
                    let k = i - offset;
                    assert(b[k] == raw@[i as int]);
                    assert(length <= k < b.len() && b[k] != 0);
                    assert(b.len() - length < 4);
                }
                return Err(SctpError::ErrChunkHeaderPaddingNonZero);
            }
            i = i + 1;
        }
    }
    Ok(length - 4)
}

impl Packet {
    /// Parses a packet.
    pub fn unmarshal(raw: &[u8]) -> (r: Result<Packet, SctpError>)
        ensures
            match packet_spec(raw@) {
                Ok((sp, dp, tag, chunks)) => r matches Ok(p) && p.source_port == sp
                    && p.destination_port == dp && p.verification_tag == tag && chunks_view(
                    p.chunks@,
                ) == chunks,
                Err(e) => r matches Err(x) && x == e,
            },
    {
        if raw.len() < PACKET_HEADER_SIZE {
            return Err(SctpError::ErrPacketRawTooSmall);
        }
        let source_port = get_be16(raw, 0);
        let destination_port = get_be16(raw, 2);
        let verification_tag = get_be32(raw, 4);
        let their_checksum = get_le32(raw, 8);
        let ghost all = raw@.subrange(12, raw@.len() as int);
        let mut chunks: Vec<RawChunk> = Vec::new();
        let mut offset: usize = PACKET_HEADER_SIZE;
        while offset < raw.len()
            invariant
                12 <= offset <= raw@.len(),
                all == raw@.subrange(12, raw@.len() as int),
                parse_chunks(all) == match parse_chunks(
                    raw@.subrange(offset as int, raw@.len() as int),
                ) {
                    Ok(rest) => Ok(chunks_view(chunks@) + rest),
                    Err(e) => Err(e),
                },
            decreases raw@.len() - offset,
        {
            let ghost b = raw@.subrange(offset as int, raw@.len() as int);
            if raw.len() - offset < CHUNK_HEADER_SIZE {
                assert(parse_chunks(b) == Err::<Seq<(u8, u8, Seq<u8>)>, SctpError>(
                    SctpError::ErrParseSctpChunkNotEnoughData,
                ));
                return Err(SctpError::ErrParseSctpChunkNotEnoughData);
            }
            assert(b[0] == raw@[offset as int] && b[1] == raw@[offset + 1]);
            let typ = raw[offset];
            if !is_known_chunk_type(typ) {
                assert(parse_chunks(b) == Err::<Seq<(u8, u8, Seq<u8>)>, SctpError>(
                    SctpError::ErrUnmarshalUnknownChunkType,
                ));
                return Err(SctpError::ErrUnmarshalUnknownChunkType);
            }
            let vlen = match chunk_header(raw, offset) {
                Ok(v) => v,
                Err(e) => {
                    assert(parse_chunks(b) == Err::<Seq<(u8, u8, Seq<u8>)>, SctpError>(e));
                    return Err(e);
                },
            };
            let adv = 4 + vlen + get_padding_size(vlen);
            if raw.len() - offset < adv {
                assert(parse_chunks(b) == Err::<Seq<(u8, u8, Seq<u8>)>, SctpError>(
                    SctpError::ErrParseSctpChunkNotEnoughData,
                ));
                return Err(SctpError::ErrParseSctpChunkNotEnoughData);
            }
            let value = crate::bytes::slice_to_vec(raw, offset + 4, offset + 4 + vlen);
            let ghost before = chunks_view(chunks@);
            chunks.push(RawChunk { typ, flags: raw[offset + 1], value });
            proof {
                assert(b.subrange(4, 4 + vlen as int) =~= value@);
                assert(b.subrange(adv as int, b.len() as int) =~= raw@.subrange(
                    offset + adv,
                    raw@.len() as int,
                ));
                assert(chunks_view(chunks@) =~= before.push((typ, raw@[offset + 1], value@)));
                let rest = parse_chunks(raw@.subrange(offset + adv, raw@.len() as int));
                if let Ok(r) = rest {
                    assert(before + (seq![(typ, raw@[offset + 1], value@)] + r) =~= before.push(
                        (typ, raw@[offset + 1], value@),
                    ) + r);
                }
            }
            offset = offset + adv;
        }
        proof {
            assert(raw@.subrange(offset as int, raw@.len() as int) =~= Seq::<u8>::empty());
            assert(chunks_view(chunks@) + Seq::<(u8, u8, Seq<u8>)>::empty() =~= chunks_view(
                chunks@,
            ));
        }
        let mut input: Vec<u8> = crate::bytes::slice_to_vec(raw, 0, 8);
        push_be32(&mut input, 0);
        let tail = crate::bytes::slice_to_vec(raw, 12, raw.len());
        crate::bytes::extend_from(&mut input, tail.as_slice());
        proof {
            assert(input@ =~= checksum_input(raw@));
        }
        let ours = crc32c_checksum(input.as_slice());
        if their_checksum != ours {
            return Err(SctpError::ErrChecksumMismatch);
        }
        Ok(Packet { source_port, destination_port, verification_tag, chunks })
    }

    /// Serializes the packet, the checksum computed over it.
    pub fn marshal(&self) -> (r: Vec<u8>)
        ensures
            r@ == packet_bytes(
                self.source_port,
                self.destination_port,
                self.verification_tag,
                chunks_view(self.chunks@),
            ),
    {
        let ghost cs = chunks_view(self.chunks@);
        let mut body: Vec<u8> = Vec::new();
        let mut i: usize = 0;
        while i < self.chunks.len()
            invariant
                i <= self.chunks@.len(),
                cs == chunks_view(self.chunks@),
                body@ == chunks_bytes(cs.take(i as int)),
            decreases self.chunks@.len() - i,
        {
            let c = &self.chunks[i];
            let ghost before = body@;
            body.push(c.typ);
            body.push(c.flags);
            let l16: u16 = (c.value.len() % 65536) as u16;
            let length: u16 = l16.wrapping_add(4);
            proof {
                let n = c.value@.len();
                assert(((n % 65536) + 4) % 65536 == (4 + n) % 65536) by (nonlinear_arith);
                assert(length == ((4 + c.value@.len()) % 65536) as u16);
            }
            push_be16(&mut body, length);
            crate::bytes::extend_from(&mut body, c.value.as_slice());
            let pad = get_padding_size(c.value.len());
            let mut k: usize = 0;
            let ghost mid = body@;
            while k < pad
                invariant
                    k <= pad,
                    body@ == mid + Seq::new(k as nat, |j: int| 0u8),
                decreases pad - k,
            {
                body.push(0u8);
                k = k + 1;
                assert(body@ =~= mid + Seq::new(k as nat, |j: int| 0u8));
            }
            proof {
                assert(cs[i as int] == chunk_view(self.chunks@[i as int]));
                assert(body@ =~= before + chunk_bytes(cs[i as int]));
                assert(cs.take(i + 1) =~= cs.take(i as int).push(cs[i as int]));
                lemma_chunks_bytes_push(cs.take(i as int), cs[i as int]);
            }
            i = i + 1;
        }
        assert(cs.take(self.chunks@.len() as int) =~= cs);
        let mut head: Vec<u8> = Vec::new();
        push_be16(&mut head, self.source_port);
        push_be16(&mut head, self.destination_port);
        push_be32(&mut head, self.verification_tag);
        let mut input: Vec<u8> = crate::bytes::slice_to_vec(head.as_slice(), 0, 8);
        push_be32(&mut input, 0);
        crate::bytes::extend_from(&mut input, body.as_slice());
        proof {
            assert(head@.subrange(0, 8) =~= head@);
            assert(be32(0) =~= seq![0u8, 0u8, 0u8, 0u8]);
        }
        let checksum = crc32c_checksum(input.as_slice());
        let mut out = head;
        push_le32(&mut out, checksum);
        crate::bytes::extend_from(&mut out, body.as_slice());
        out
    }
}

proof fn lemma_chunks_bytes_push(cs: Seq<(u8, u8, Seq<u8>)>, c: (u8, u8, Seq<u8>))
    ensures
        chunks_bytes(cs.push(c)) == chunks_bytes(cs) + chunk_bytes(c),
    decreases cs.len(),
{
    if cs.len() == 0 {
        assert(cs.push(c).drop_first() =~= Seq::<(u8, u8, Seq<u8>)>::empty());
        assert(cs.push(c)[0] == c);
        assert(chunks_bytes(Seq::<(u8, u8, Seq<u8>)>::empty()) == Seq::<u8>::empty());
        assert(chunks_bytes(cs.push(c)) =~= chunk_bytes(c));
    } else {
        assert(cs.push(c).drop_first() =~= cs.drop_first().push(c));
        lemma_chunks_bytes_push(cs.drop_first(), c);
        assert(chunks_bytes(cs.push(c)) =~= chunks_bytes(cs) + chunk_bytes(c));
    }
}

/// Chunks whose type a packet may hold and whose length fits its field.
pub open spec fn chunks_ok(cs: Seq<(u8, u8, Seq<u8>)>) -> bool {
    forall|i: int|
        0 <= i < cs.len() ==> known_chunk_type(#[trigger] cs[i].0) && cs[i].2.len() + 4 < 65536
}

proof fn lemma_chunks_bytes_len(cs: Seq<(u8, u8, Seq<u8>)>)
    ensures
        cs.len() > 0 ==> chunks_bytes(cs).len() >= 4,
{
    if cs.len() > 0 {
        assert(chunks_bytes(cs) == chunk_bytes(cs[0]) + chunks_bytes(cs.drop_first()));
    }
}

#[verifier::spinoff_prover]
proof fn lemma_parse_one_chunk(c: (u8, u8, Seq<u8>), rest: Seq<u8>)
    requires
        known_chunk_type(c.0),
        c.2.len() + 4 < 65536,
        rest.len() == 0 || rest.len() >= 4,
    ensures
        parse_chunks(chunk_bytes(c) + rest) == match parse_chunks(rest) {
            Ok(r) => Ok(seq![c] + r),
            Err(x) => Err::<Seq<(u8, u8, Seq<u8>)>, SctpError>(x),
        },
{
    let b = chunk_bytes(c) + rest;
    let n = c.2.len() as int;
    let lw = ((4 + c.2.len()) % 65536) as u16;
    assert(lw == 4 + n);
    crate::bytes::lemma_be16_roundtrip(lw);
    assert(b[2] == be16(lw)[0] && b[3] == be16(lw)[1]);
    assert(read_be16(b, 2) == 4 + n);
    let p = padding(n);
    assert(0 <= p < 4);
    assert(chunk_bytes(c).len() == 4 + n + p);
    assert forall|i: int| 4 + n <= i < b.len() && b.len() - (4 + n) < 4 implies b[i] == 0 by {
        assert(i < 4 + n + p);
    }
    assert(chunk_header_spec(b) == Ok::<int, SctpError>(n));
    assert(b.subrange(4, 4 + n) =~= c.2);
    assert(b.subrange(4 + n + p, b.len() as int) =~= rest);
    assert(b[0] == c.0 && b[1] == c.1);
}

proof fn lemma_parse_chunks_bytes(cs: Seq<(u8, u8, Seq<u8>)>)
    requires
        chunks_ok(cs),
    ensures
        parse_chunks(chunks_bytes(cs)) == Ok::<Seq<(u8, u8, Seq<u8>)>, SctpError>(cs),
    decreases cs.len(),
{
    if cs.len() > 0 {
        let tail = cs.drop_first();
        assert forall|i: int| 0 <= i < tail.len() implies known_chunk_type(#[trigger] tail[i].0)
            && tail[i].2.len() + 4 < 65536 by {
            assert(tail[i] == cs[i + 1]);
        }
        lemma_parse_chunks_bytes(tail);
        lemma_chunks_bytes_len(tail);
        assert(chunks_bytes(cs) == chunk_bytes(cs[0]) + chunks_bytes(tail));
        lemma_parse_one_chunk(cs[0], chunks_bytes(tail));
        assert(seq![cs[0]] + tail =~= cs);
    } else {
        assert(chunks_bytes(cs) == Seq::<u8>::empty());
        assert(cs =~= Seq::<(u8, u8, Seq<u8>)>::empty());
    }
}

proof fn lemma_le32_roundtrip(x: u32)
    ensures
        read_le32(le32(x), 0) == x,
{
    let b = le32(x);
    assert(b[0] + b[1] * 256 + b[2] * 65536 + b[3] * 16777216 == x) by (nonlinear_arith)
        requires
            b[0] == x % 256,
            b[1] == (x / 256) % 256,
            b[2] == (x / 65536) % 256,
            b[3] == x / 16777216,
            x < 4294967296,
    ;
}

/// What `marshal` writes, `unmarshal` reads back: ports, tag and chunks,
/// for chunks of the types a packet may hold whose lengths fit.
pub proof fn lemma_packet_roundtrip(
    source_port: u16,
    destination_port: u16,
    verification_tag: u32,
    cs: Seq<(u8, u8, Seq<u8>)>,
)
    requires
        chunks_ok(cs),
    ensures
        packet_spec(packet_bytes(source_port, destination_port, verification_tag, cs)) == Ok::<
            (u16, u16, u32, Seq<(u8, u8, Seq<u8>)>),
            SctpError,
        >((source_port, destination_port, verification_tag, cs)),
{
    let head = be16(source_port) + be16(destination_port) + be32(verification_tag);
    let body = chunks_bytes(cs);
    let sum = crc32c(head + seq![0u8, 0u8, 0u8, 0u8] + body);
    let raw = packet_bytes(source_port, destination_port, verification_tag, cs);
    assert(raw == head + le32(sum) + body);
    assert(raw.len() == 12 + body.len());
    assert(raw.subrange(12, raw.len() as int) =~= body);
    lemma_parse_chunks_bytes(cs);
    assert(checksum_input(raw) =~= head + seq![0u8, 0u8, 0u8, 0u8] + body);
    lemma_le32_roundtrip(sum);
    assert(raw[8] == le32(sum)[0] && raw[9] == le32(sum)[1] && raw[10] == le32(sum)[2] && raw[11]
        == le32(sum)[3]);
    assert(read_le32(raw, 8) == sum);
    crate::bytes::lemma_be16_roundtrip(source_port);
    crate::bytes::lemma_be16_roundtrip(destination_port);
    crate::bytes::lemma_be32_roundtrip(verification_tag);
    assert(raw[0] == be16(source_port)[0] && raw[1] == be16(source_port)[1]);
    assert(raw[2] == be16(destination_port)[0] && raw[3] == be16(destination_port)[1]);
    assert(raw[4] == be32(verification_tag)[0] && raw[5] == be32(verification_tag)[1] && raw[6]
        == be32(verification_tag)[2] && raw[7] == be32(verification_tag)[3]);
}

} // verus!
