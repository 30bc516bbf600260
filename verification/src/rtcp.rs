//! RTCP: the common header (RFC 3550, section 6.4), raw packets and the
//! transport layer NACK feedback message (RFC 4585, section 6.2.1).
use vstd::prelude::*;
use crate::bytes::{be16, be32, read_be16, read_be32, push_be16, push_be32, get_be16, get_be32, extend_from, slice_to_vec};

verus! {

/// Length of the RTCP common header.
pub const HEADER_LENGTH: usize = 4;
/// The RTP/RTCP protocol version.
pub const RTP_VERSION: u8 = 2;
/// Feedback message type of a transport layer NACK.
pub const FORMAT_TLN: u8 = 1;
/// Length in 32-bit words, minus one, of a NACK without its NACK items.
pub const TLN_LENGTH: usize = 2;

/// Errors of RTCP marshaling and unmarshaling.
#[derive(Debug, PartialEq, Eq, Clone, Copy)]
pub enum RtcpError {
    ErrPacketTooShort,
    ErrBadVersion,
    ErrWrongType,
    ErrFailedToFillWholeBuffer,
    ErrInvalidHeader,
    ErrTooManyReports,
    ErrEmptyCompound,
    ErrBadFirstPacket,
    ErrMissingCname,
    ErrPacketBeforeCname,
}

/// The RTCP packet types.
#[derive(Debug, PartialEq, Eq, Structural, Clone, Copy)]
pub enum PacketType {
    Unsupported,
    SenderReport,
    ReceiverReport,
    SourceDescription,
    Goodbye,
    ApplicationDefined,
    TransportSpecificFeedback,
    PayloadSpecificFeedback,
}

/// The packet type of a type byte; unknown bytes are unsupported.
pub open spec fn packet_type_of(b: u8) -> PacketType {
    if b == 200 {
        PacketType::SenderReport
    } else if b == 201 {
        PacketType::ReceiverReport
    } else if b == 202 {
        PacketType::SourceDescription
    } else if b == 203 {
        PacketType::Goodbye
    } else if b == 204 {
        PacketType::ApplicationDefined
    } else if b == 205 {
        PacketType::TransportSpecificFeedback
    } else if b == 206 {
        PacketType::PayloadSpecificFeedback
    } else {
        PacketType::Unsupported
    }
}

/// The type byte of a packet type.
pub open spec fn packet_type_byte(t: PacketType) -> u8 {
    match t {
        PacketType::Unsupported => 0,
        PacketType::SenderReport => 200,
        PacketType::ReceiverReport => 201,
        PacketType::SourceDescription => 202,
        PacketType::Goodbye => 203,
        PacketType::ApplicationDefined => 204,
        PacketType::TransportSpecificFeedback => 205,
        PacketType::PayloadSpecificFeedback => 206,
    }
}

impl PacketType {
    pub fn from_byte(b: u8) -> (r: PacketType)
        ensures
            r == packet_type_of(b),
    {
        match b {
            200 => PacketType::SenderReport,
            201 => PacketType::ReceiverReport,
            202 => PacketType::SourceDescription,
            203 => PacketType::Goodbye,
            204 => PacketType::ApplicationDefined,
            205 => PacketType::TransportSpecificFeedback,
            206 => PacketType::PayloadSpecificFeedback,
            _ => PacketType::Unsupported,
        }
    }

    pub fn to_byte(&self) -> (r: u8)
        ensures
            r == packet_type_byte(*self),
    {
        match self {
            PacketType::Unsupported => 0,
            PacketType::SenderReport => 200,
            PacketType::ReceiverReport => 201,
            PacketType::SourceDescription => 202,
            PacketType::Goodbye => 203,
            PacketType::ApplicationDefined => 204,
            PacketType::TransportSpecificFeedback => 205,
            PacketType::PayloadSpecificFeedback => 206,
        }
    }
}

/// The common header of every RTCP packet.
#[derive(Debug, PartialEq, Eq, Clone, Copy)]
pub struct Header {
    /// Whether padding octets follow the packet.
    pub padding: bool,
    /// Count or format field: 5 bits.
    pub count: u8,
    pub packet_type: PacketType,
    /// Length of the packet in 32-bit words, minus one.
    pub length: u16,
}

/// The first header byte: version 2, the padding bit, the count.
pub open spec fn header_first_byte(padding: bool, count: u8) -> u8 {
    (128 + (if padding { 32int } else { 0int }) + count) as u8
}

/// The four bytes of a header.
pub open spec fn header_bytes(h: Header) -> Seq<u8> {
    seq![header_first_byte(h.padding, h.count), packet_type_byte(h.packet_type)] + be16(h.length)
}

/// The header at the start of `s`, or why there is none.
pub open spec fn parse_header(s: Seq<u8>) -> Result<Header, RtcpError> {
    if s.len() < 4 {
        Err(RtcpError::ErrFailedToFillWholeBuffer)
    } else if s[0] / 64 != 2 {
        Err(RtcpError::ErrBadVersion)
    } else {
        Ok(
            Header {
                padding: (s[0] / 32) % 2 == 1,
                count: s[0] % 32,
                packet_type: packet_type_of(s[1]),
                length: read_be16(s, 2),
            },
        )
    }
}

impl Header {
    /// Serializes the header; the count must fit in 5 bits.
    pub fn marshal(&self) -> (r: Result<Vec<u8>, RtcpError>)
        ensures
            self.count > 31 ==> r == Err::<Vec<u8>, RtcpError>(RtcpError::ErrInvalidHeader),
            self.count <= 31 ==> (r matches Ok(v) && v@ == header_bytes(*self)),
    {
        if self.count > 31 {
            return Err(RtcpError::ErrInvalidHeader);
        }
        let p: u8 = if self.padding { 32 } else { 0 };
        let mut v: Vec<u8> = Vec::new();
        v.push(128 + p + self.count);
        v.push(self.packet_type.to_byte());
        push_be16(&mut v, self.length);
        assert(v@ =~= header_bytes(*self));
        Ok(v)
    }

    /// Parses the header at the start of `raw`.
    pub fn unmarshal(raw: &[u8]) -> (r: Result<Header, RtcpError>)
        ensures
            r == parse_header(raw@),
    {
        if raw.len() < HEADER_LENGTH {
            return Err(RtcpError::ErrFailedToFillWholeBuffer);
        }
        let b0 = raw[0];
        if b0 / 64 != RTP_VERSION {
            return Err(RtcpError::ErrBadVersion);
        }
        Ok(
            Header {
                padding: (b0 / 32) % 2 == 1,
                count: b0 % 32,
                packet_type: PacketType::from_byte(raw[1]),
                length: get_be16(raw, 2),
            },
        )
    }
}

/// Parsing a marshaled header gives the header back.
pub proof fn lemma_header_roundtrip(h: Header)
    requires
        h.count <= 31,
    ensures
        parse_header(header_bytes(h)) == Ok::<Header, RtcpError>(h),
{
    let b = header_bytes(h);
    assert(b[0] / 64 == 2);
    assert(read_be16(b, 2) == h.length);
    assert(packet_type_of(packet_type_byte(h.packet_type)) == h.packet_type);
}

/// An RTCP packet kept as its bytes.
#[derive(Debug, PartialEq, Eq, Clone)]
pub struct RawPacket(pub Vec<u8>);

/// The raw packet of `s`: at least a header long, with a valid header.
pub open spec fn parse_raw_packet(s: Seq<u8>) -> Result<Seq<u8>, RtcpError> {
    if s.len() < 4 {
        Err(RtcpError::ErrPacketTooShort)
    } else {
        match parse_header(s) {
            Ok(_) => Ok(s),
            Err(e) => Err(e),
        }
    }
}

impl RawPacket {
    /// The packet's bytes.
    pub fn marshal(&self) -> (r: Result<Vec<u8>, RtcpError>)
        ensures
            r matches Ok(v) && v@ == self.0@,
    {
        let mut v: Vec<u8> = Vec::new();
        extend_from(&mut v, self.0.as_slice());
        Ok(v)
    }

    /// Takes all of `raw` as a packet, checking its header.
    pub fn unmarshal(raw: &[u8]) -> (r: Result<RawPacket, RtcpError>)
        ensures
            match parse_raw_packet(raw@) {
                Ok(s) => r matches Ok(p) && p.0@ == s,
                Err(e) => r == Err::<RawPacket, RtcpError>(e),
            },
    {
        if raw.len() < HEADER_LENGTH {
            return Err(RtcpError::ErrPacketTooShort);
        }
        Header::unmarshal(raw)?;
        Ok(RawPacket(slice_to_vec(raw, 0, raw.len())))
    }

    /// The header at the start of the packet.
    pub fn header(&self) -> (r: Result<Header, RtcpError>)
        ensures
            r == parse_header(self.0@),
    {
        Header::unmarshal(self.0.as_slice())
    }
}

/// A lost packet and the bitmask of the 16 packets that follow it.
#[derive(Debug, PartialEq, Eq, Clone, Copy)]
pub struct NackPair {
    /// The first lost packet.
    pub packet_id: u16,
    /// Bit i set: packet `packet_id + i + 1` was lost too.
    pub lost_packets: u16,
}

/// A transport layer NACK: which packets of a media source were lost.
#[derive(Debug, PartialEq, Eq, Clone, Default)]
pub struct TransportLayerNack {
    pub sender_ssrc: u32,
    pub media_ssrc: u32,
    pub nacks: Vec<NackPair>,
}

/// A NACK as plain values.
pub struct NackModel {
    pub sender_ssrc: u32,
    pub media_ssrc: u32,
    pub nacks: Seq<NackPair>,
}

impl View for TransportLayerNack {
    type V = NackModel;

    open spec fn view(&self) -> NackModel {
        NackModel { sender_ssrc: self.sender_ssrc, media_ssrc: self.media_ssrc, nacks: self.nacks@ }
    }
}

/// The bytes of the NACK items from index `i` on.
pub open spec fn nack_items(nacks: Seq<NackPair>) -> Seq<u8>
    decreases nacks.len(),
{
    if nacks.len() == 0 {
        Seq::empty()
    } else {
        nack_items(nacks.drop_last()) + be16(nacks.last().packet_id) + be16(
            nacks.last().lost_packets,
        )
    }
}

/// The header of a NACK with `n` items.
pub open spec fn tln_header(n: nat) -> Header {
    Header {
        padding: false,
        count: FORMAT_TLN,
        packet_type: PacketType::TransportSpecificFeedback,
        length: (TLN_LENGTH + n) as u16,
    }
}

/// The bytes of a NACK.
pub open spec fn tln_bytes(t: NackModel) -> Seq<u8> {
    header_bytes(tln_header(t.nacks.len())) + be32(t.sender_ssrc) + be32(t.media_ssrc)
        + nack_items(t.nacks)
}

/// The NACK at the start of `s`, or why there is none.
pub open spec fn parse_tln(s: Seq<u8>) -> Result<NackModel, RtcpError> {
    match parse_header(s) {
        Err(e) => Err(e),
        Ok(h) => if h.packet_type != PacketType::TransportSpecificFeedback || h.count != FORMAT_TLN {
            Err(RtcpError::ErrWrongType)
        } else {
            let n = if h.length >= 2 {
                h.length - 2
            } else {
                0
            };
            if s.len() < 12 + 4 * n {
                Err(RtcpError::ErrFailedToFillWholeBuffer)
            } else {
                Ok(
                    NackModel {
                        sender_ssrc: read_be32(s, 4),
                        media_ssrc: read_be32(s, 8),
                        nacks: Seq::new(
                            n as nat,
                            |i: int|
                                NackPair {
                                    packet_id: read_be16(s, 12 + 4 * i),
                                    lost_packets: read_be16(s, 14 + 4 * i),
                                },
                        ),
                    },
                )
            }
        },
    }
}

proof fn lemma_nack_items_len(nacks: Seq<NackPair>)
    ensures
        nack_items(nacks).len() == 4 * nacks.len(),
    decreases nacks.len(),
{
    if nacks.len() > 0 {
        lemma_nack_items_len(nacks.drop_last());
    }
}

proof fn lemma_nack_items_read(nacks: Seq<NackPair>, i: int)
    requires
        0 <= i < nacks.len(),
    ensures
        read_be16(nack_items(nacks), 4 * i) == nacks[i].packet_id,
        read_be16(nack_items(nacks), 4 * i + 2) == nacks[i].lost_packets,
    decreases nacks.len(),
{
    lemma_nack_items_len(nacks.drop_last());
    let prev = nack_items(nacks.drop_last());
    if i < nacks.len() - 1 {
        lemma_nack_items_read(nacks.drop_last(), i);
    } else {
        crate::bytes::lemma_be16_roundtrip(nacks.last().packet_id);
        crate::bytes::lemma_be16_roundtrip(nacks.last().lost_packets);
    }
}

/// Parsing the bytes of a NACK with fewer than 254 items gives it back.
pub proof fn lemma_tln_roundtrip(t: NackModel)
    requires
        t.nacks.len() + TLN_LENGTH <= 255,
    ensures
        parse_tln(tln_bytes(t)) matches Ok(p) && p.sender_ssrc == t.sender_ssrc && p.media_ssrc
            == t.media_ssrc && p.nacks == t.nacks,
{
    let h = tln_header(t.nacks.len());
    let b = tln_bytes(t);
    lemma_header_roundtrip(h);
    lemma_nack_items_len(t.nacks);
    let hb = header_bytes(h);
    assert(b.subrange(0, 4) =~= hb);
    assert(parse_header(b) == parse_header(hb));
    crate::bytes::lemma_be32_roundtrip(t.sender_ssrc);
    crate::bytes::lemma_be32_roundtrip(t.media_ssrc);
    assert(read_be32(b, 4) == t.sender_ssrc);
    assert(read_be32(b, 8) == t.media_ssrc);
    let items = nack_items(t.nacks);
    if let Ok(p) = parse_tln(b) {
        assert forall|i: int| 0 <= i < t.nacks.len() implies p.nacks[i] == t.nacks[i] by {
            lemma_nack_items_read(t.nacks, i);
            assert(read_be16(b, 12 + 4 * i) == read_be16(items, 4 * i));
            assert(read_be16(b, 14 + 4 * i) == read_be16(items, 4 * i + 2));
        }
        assert(p.nacks =~= t.nacks);
    }
}

impl TransportLayerNack {
    /// Serializes the NACK; at most 253 NACK items fit.
    pub fn marshal(&self) -> (r: Result<Vec<u8>, RtcpError>)
        ensures
            self.nacks@.len() + TLN_LENGTH > 255 ==> r == Err::<Vec<u8>, RtcpError>(
                RtcpError::ErrTooManyReports,
            ),
            self.nacks@.len() + TLN_LENGTH <= 255 ==> (r matches Ok(v) && v@ == tln_bytes(self@)),
    {
        if self.nacks.len() > 255 - TLN_LENGTH {
            return Err(RtcpError::ErrTooManyReports);
        }
        let h = Header {
            padding: false,
            count: FORMAT_TLN,
            packet_type: PacketType::TransportSpecificFeedback,
            length: (TLN_LENGTH + self.nacks.len()) as u16,
        };
        let mut v = h.marshal()?;
        push_be32(&mut v, self.sender_ssrc);
        push_be32(&mut v, self.media_ssrc);
        let ghost prefix = v@;
        let mut i: usize = 0;
        while i < self.nacks.len()
            invariant
                i <= self.nacks@.len(),
                v@ == prefix + nack_items(self.nacks@.take(i as int)),
            decreases self.nacks@.len() - i,
        {
            let n = self.nacks[i];
            push_be16(&mut v, n.packet_id);
            push_be16(&mut v, n.lost_packets);
            proof {
                assert(self.nacks@.take(i + 1).drop_last() =~= self.nacks@.take(i as int));
            }
            i = i + 1;
        }
        assert(self.nacks@.take(self.nacks@.len() as int) =~= self.nacks@);
        Ok(v)
    }

    /// Parses a NACK from the start of `raw`.
    pub fn unmarshal(raw: &[u8]) -> (r: Result<TransportLayerNack, RtcpError>)
        ensures
            match parse_tln(raw@) {
                Ok(m) => r matches Ok(t) && t@ == m,
                Err(e) => r == Err::<TransportLayerNack, RtcpError>(e),
            },
    {
        let h = Header::unmarshal(raw)?;
        if h.packet_type != PacketType::TransportSpecificFeedback || h.count != FORMAT_TLN {
            return Err(RtcpError::ErrWrongType);
        }
        let n: usize = if h.length >= 2 { (h.length - 2) as usize } else { 0 };
        if raw.len() < 12 + 4 * n {
            return Err(RtcpError::ErrFailedToFillWholeBuffer);
        }
        let sender_ssrc = get_be32(raw, 4);
        let media_ssrc = get_be32(raw, 8);
        let mut nacks: Vec<NackPair> = Vec::new();
        let mut i: usize = 0;
        while i < n
            invariant
                i <= n,
                n < 65536,
                12 + 4 * n <= raw@.len(),
                nacks@ == Seq::new(
                    i as nat,
                    |k: int|
                        NackPair {
                            packet_id: read_be16(raw@, 12 + 4 * k),
                            lost_packets: read_be16(raw@, 14 + 4 * k),
                        },
                ),
            decreases n - i,
        {
            let packet_id = get_be16(raw, 12 + 4 * i);
            let lost_packets = get_be16(raw, 14 + 4 * i);
            nacks.push(NackPair { packet_id, lost_packets });
            i = i + 1;
            assert(nacks@ =~= Seq::new(
                i as nat,
                |k: int|
                    NackPair {
                        packet_id: read_be16(raw@, 12 + 4 * k),
                        lost_packets: read_be16(raw@, 14 + 4 * k),
                    },
            ));
        }
        Ok(TransportLayerNack { sender_ssrc, media_ssrc, nacks })
    }
}

/// The packets of a datagram, cut by their headers' length fields: each
/// packet is its length field plus one 32-bit words long, and the last one
/// ends where the datagram does.
pub open spec fn spec_split_datagram(s: Seq<u8>) -> Result<Seq<Seq<u8>>, RtcpError>
    decreases s.len(),
{
    if s.len() == 0 {
        Ok(Seq::empty())
    } else if s.len() < 4 {
        Err(RtcpError::ErrPacketTooShort)
    } else {
        match parse_header(s) {
            Err(e) => Err(e),
            Ok(h) => {
                let n = (h.length + 1) * 4;
                if n > s.len() {
                    Err(RtcpError::ErrPacketTooShort)
                } else {
                    match spec_split_datagram(s.subrange(n, s.len() as int)) {
                        Err(e) => Err(e),
                        Ok(rest) => Ok(seq![s.subrange(0, n)] + rest),
                    }
                }
            },
        }
    }
}

/// The packets found before a part of the datagram, put in front of what
/// that part gives.
pub open spec fn prepend_packets(
    first: Seq<Seq<u8>>,
    rest: Result<Seq<Seq<u8>>, RtcpError>,
) -> Result<Seq<Seq<u8>>, RtcpError> {
    match rest {
        Ok(p) => Ok(first + p),
        Err(e) => Err(e),
    }
}

/// The packets of a datagram; a datagram without any is an invalid header.
pub open spec fn spec_datagram_packets(s: Seq<u8>) -> Result<Seq<Seq<u8>>, RtcpError> {
    match spec_split_datagram(s) {
        Ok(p) => if p.len() == 0 {
            Err(RtcpError::ErrInvalidHeader)
        } else {
            Ok(p)
        },
        Err(e) => Err(e),
    }
}

/// The byte strings of some packets, in order.
pub open spec fn packet_bytes(v: Seq<Vec<u8>>) -> Seq<Seq<u8>> {
    Seq::new(v.len(), |k: int| v[k]@)
}

/// Cuts a UDP datagram into the RTCP packets it holds, by their length
/// fields; each packet is then read by the parser of its type.
pub fn datagram_packets(raw_data: &[u8]) -> (r: Result<Vec<Vec<u8>>, RtcpError>)
    ensures
        match spec_datagram_packets(raw_data@) {
            Ok(p) => r matches Ok(v) && packet_bytes(v@) == p,
            Err(e) => r == Err::<Vec<Vec<u8>>, RtcpError>(e),
        },
{
    let mut packets: Vec<Vec<u8>> = Vec::new();
    let mut i: usize = 0;
    assert(raw_data@.subrange(0, raw_data@.len() as int) =~= raw_data@);
    assert(packet_bytes(packets@) =~= Seq::<Seq<u8>>::empty());
    assert(prepend_packets(Seq::empty(), spec_split_datagram(raw_data@)) == spec_split_datagram(raw_data@)) by {
        match spec_split_datagram(raw_data@) {
            Ok(p) => { assert(Seq::<Seq<u8>>::empty() + p =~= p); },
            Err(e) => {},
        }
    }
    while i < raw_data.len()
        invariant
            i <= raw_data@.len(),
            spec_split_datagram(raw_data@) == prepend_packets(
                packet_bytes(packets@),
                spec_split_datagram(raw_data@.subrange(i as int, raw_data@.len() as int)),
            ),
        decreases raw_data@.len() - i,
    {
        let ghost s = raw_data@.subrange(i as int, raw_data@.len() as int);
        if raw_data.len() - i < HEADER_LENGTH {
            return Err(RtcpError::ErrPacketTooShort);
        }
        let head = slice_to_vec(raw_data, i, i + HEADER_LENGTH);
        let h = match Header::unmarshal(head.as_slice()) {
            Ok(h) => h,
            Err(e) => {
                proof {
                    assert(parse_header(s) == parse_header(head@));
                }
                return Err(e);
            },
        };
        proof {
            assert(parse_header(s) == parse_header(head@));
        }
        let n: usize = (h.length as usize + 1) * 4;
        if n > raw_data.len() - i {
            return Err(RtcpError::ErrPacketTooShort);
        }
        let packet = slice_to_vec(raw_data, i, i + n);
        let ghost before = packet_bytes(packets@);
        packets.push(packet);
        proof {
            assert(s.subrange(0, n as int) =~= packet@);
            assert(s.subrange(n as int, s.len() as int) =~= raw_data@.subrange(
                (i + n) as int,
                raw_data@.len() as int,
            ));
            assert(packet_bytes(packets@) =~= before + seq![packet@]);
            match spec_split_datagram(s.subrange(n as int, s.len() as int)) {
                Ok(rest) => {
                    assert(before + (seq![packet@] + rest) =~= (before + seq![packet@]) + rest);
                },
                Err(e) => {},
            }
        }
        i = i + n;
    }
    proof {
        assert(raw_data@.subrange(i as int, raw_data@.len() as int) =~= Seq::<u8>::empty());
        assert(packet_bytes(packets@) + Seq::<Seq<u8>>::empty() =~= packet_bytes(packets@));
    }
    if packets.len() == 0 {
        return Err(RtcpError::ErrInvalidHeader);
    }
    Ok(packets)
}

/// The bytes of some packets, one after another.
pub open spec fn concat_packets(p: Seq<Seq<u8>>) -> Seq<u8>
    decreases p.len(),
{
    if p.len() == 0 {
        Seq::empty()
    } else {
        p[0] + concat_packets(p.drop_first())
    }
}

/// Cutting a datagram loses nothing: the packets, put one after another,
/// give the datagram back, and each one is as long as its header says.
pub proof fn lemma_datagram_packets_cover(s: Seq<u8>)
    ensures
        spec_split_datagram(s) matches Ok(p) ==> concat_packets(p) == s && forall|k: int|
            0 <= k < p.len() ==> (#[trigger] parse_header(p[k]) matches Ok(h) && p[k].len() == (
            h.length + 1) * 4),
    decreases s.len(),
{
    if s.len() >= 4 {
        if let Ok(h) = parse_header(s) {
            let n = (h.length + 1) * 4;
            if n <= s.len() {
                let rest = s.subrange(n, s.len() as int);
                lemma_datagram_packets_cover(rest);
                if let Ok(q) = spec_split_datagram(rest) {
                    let p = seq![s.subrange(0, n)] + q;
                    assert(p.drop_first() =~= q);
                    assert(s.subrange(0, n) + rest =~= s);
                    assert(parse_header(s.subrange(0, n)) == parse_header(s)) by {
                        assert(s.subrange(0, n)[0] == s[0]);
                        assert(s.subrange(0, n)[1] == s[1]);
                        assert(s.subrange(0, n)[2] == s[2]);
                        assert(s.subrange(0, n)[3] == s[3]);
                    }
                    assert forall|k: int| 0 <= k < p.len() implies (#[trigger] parse_header(p[k]) matches Ok(g)
                        && p[k].len() == (g.length + 1) * 4) by {
                        if k > 0 {
                            assert(p[k] == q[k - 1]);
                        }
                    }
                }
            }
        }
    }
}

/// Feedback message type of a rapid resynchronisation request (RFC 4585
/// section 6.2, RFC 5104).
pub const FORMAT_RRR: u8 = 5;
/// Feedback message type of a picture loss indication (RFC 4585 section 6.3).
pub const FORMAT_PLI: u8 = 1;
/// Feedback message type of a slice loss indication (RFC 4585 section 6.3).
pub const FORMAT_SLI: u8 = 2;
/// Feedback message type of application layer feedback, which carries REMB.
pub const FORMAT_REMB: u8 = 15;

/// The kind of an RTCP packet, which decides the parser that reads it.
#[derive(Debug, PartialEq, Eq, Clone, Copy)]
pub enum PacketKind {
    SenderReport,
    ReceiverReport,
    SourceDescription,
    Goodbye,
    TransportLayerNack,
    RapidResynchronizationRequest,
    PictureLossIndication,
    SliceLossIndication,
    ReceiverEstimatedMaximumBitrate,
    /// Any other packet, kept as its bytes.
    Raw,
}

/// The kind of a packet with header `h`: by its type, and for feedback
/// messages by the format in its count field.
pub open spec fn spec_packet_kind(h: Header) -> PacketKind {
    match h.packet_type {
        PacketType::SenderReport => PacketKind::SenderReport,
        PacketType::ReceiverReport => PacketKind::ReceiverReport,
        PacketType::SourceDescription => PacketKind::SourceDescription,
        PacketType::Goodbye => PacketKind::Goodbye,
        PacketType::TransportSpecificFeedback => if h.count == FORMAT_TLN {
            PacketKind::TransportLayerNack
        } else if h.count == FORMAT_RRR {
            PacketKind::RapidResynchronizationRequest
        } else {
            PacketKind::Raw
        },
        PacketType::PayloadSpecificFeedback => if h.count == FORMAT_PLI {
            PacketKind::PictureLossIndication
        } else if h.count == FORMAT_SLI {
            PacketKind::SliceLossIndication
        } else if h.count == FORMAT_REMB {
            PacketKind::ReceiverEstimatedMaximumBitrate
        } else {
            PacketKind::Raw
        },
        _ => PacketKind::Raw,
    }
}

/// Which parser reads a packet with header `h`.
pub fn packet_kind(h: &Header) -> (r: PacketKind)
    ensures
        r == spec_packet_kind(*h),
{
    match h.packet_type {
        PacketType::SenderReport => PacketKind::SenderReport,
        PacketType::ReceiverReport => PacketKind::ReceiverReport,
        PacketType::SourceDescription => PacketKind::SourceDescription,
        PacketType::Goodbye => PacketKind::Goodbye,
        PacketType::TransportSpecificFeedback => if h.count == FORMAT_TLN {
            PacketKind::TransportLayerNack
        } else if h.count == FORMAT_RRR {
            PacketKind::RapidResynchronizationRequest
        } else {
            PacketKind::Raw
        },
        PacketType::PayloadSpecificFeedback => if h.count == FORMAT_PLI {
            PacketKind::PictureLossIndication
        } else if h.count == FORMAT_SLI {
            PacketKind::SliceLossIndication
        } else if h.count == FORMAT_REMB {
            PacketKind::ReceiverEstimatedMaximumBitrate
        } else {
            PacketKind::Raw
        },
        _ => PacketKind::Raw,
    }
}

/// A packet of a datagram: read by its parser where this library has one,
/// else kept as its bytes with the kind that decides its parser.
#[derive(Debug, PartialEq, Eq)]
pub enum Packet {
    TransportLayerNack(TransportLayerNack),
    RawPacket(RawPacket),
    Unparsed(PacketKind, Vec<u8>),
}

/// A packet as plain values.
pub enum PacketView {
    TransportLayerNack(NackModel),
    RawPacket(Seq<u8>),
    Unparsed(PacketKind, Seq<u8>),
}

impl View for Packet {
    type V = PacketView;

    open spec fn view(&self) -> PacketView {
        match self {
            Packet::TransportLayerNack(t) => PacketView::TransportLayerNack(t@),
            Packet::RawPacket(r) => PacketView::RawPacket(r.0@),
            Packet::Unparsed(k, b) => PacketView::Unparsed(*k, b@),
        }
    }
}

/// The views of some packets.
pub open spec fn packet_views(v: Seq<Packet>) -> Seq<PacketView> {
    Seq::new(v.len(), |k: int| v[k]@)
}

/// One packet read by the parser of its kind.
pub open spec fn spec_decode_packet(s: Seq<u8>) -> Result<PacketView, RtcpError> {
    match parse_header(s) {
        Err(e) => Err(e),
        Ok(h) => match spec_packet_kind(h) {
            PacketKind::TransportLayerNack => match parse_tln(s) {
                Ok(m) => Ok(PacketView::TransportLayerNack(m)),
                Err(e) => Err(e),
            },
            PacketKind::Raw => match parse_raw_packet(s) {
                Ok(b) => Ok(PacketView::RawPacket(b)),
                Err(e) => Err(e),
            },
            k => Ok(PacketView::Unparsed(k, s)),
        },
    }
}

/// Reads one packet by the parser of its kind.
pub fn decode_packet(raw: &[u8]) -> (r: Result<Packet, RtcpError>)
    ensures
        match spec_decode_packet(raw@) {
            Ok(p) => r matches Ok(q) && q@ == p,
            Err(e) => r == Err::<Packet, RtcpError>(e),
        },
{
    let h = match Header::unmarshal(raw) {
        Ok(h) => h,
        Err(e) => {
            return Err(e);
        },
    };
    match packet_kind(&h) {
        PacketKind::TransportLayerNack => match TransportLayerNack::unmarshal(raw) {
            Ok(t) => Ok(Packet::TransportLayerNack(t)),
            Err(e) => Err(e),
        },
        PacketKind::Raw => match RawPacket::unmarshal(raw) {
            Ok(p) => Ok(Packet::RawPacket(p)),
            Err(e) => Err(e),
        },
        k => {
            let bytes = slice_to_vec(raw, 0, raw.len());
            assert(bytes@ =~= raw@);
            Ok(Packet::Unparsed(k, bytes))
        },
    }
}

/// The packets of a datagram, each cut by its length field and read by the
/// parser of its kind as soon as it is cut; the first failure ends it.
pub open spec fn spec_unmarshal_rest(s: Seq<u8>) -> Result<Seq<PacketView>, RtcpError>
    decreases s.len(),
{
    if s.len() == 0 {
        Ok(Seq::empty())
    } else if s.len() < 4 {
        Err(RtcpError::ErrPacketTooShort)
    } else {
        match parse_header(s) {
            Err(e) => Err(e),
            Ok(h) => {
                let n = (h.length + 1) * 4;
                if n > s.len() {
                    Err(RtcpError::ErrPacketTooShort)
                } else {
                    match spec_decode_packet(s.subrange(0, n)) {
                        Err(e) => Err(e),
                        Ok(p) => match spec_unmarshal_rest(s.subrange(n, s.len() as int)) {
                            Err(e) => Err(e),
                            Ok(rest) => Ok(seq![p] + rest),
                        },
                    }
                }
            },
        }
    }
}

/// The packets of a datagram; one without any is an invalid header.
pub open spec fn spec_unmarshal(s: Seq<u8>) -> Result<Seq<PacketView>, RtcpError> {
    match spec_unmarshal_rest(s) {
        Ok(p) => if p.len() == 0 {
            Err(RtcpError::ErrInvalidHeader)
        } else {
            Ok(p)
        },
        Err(e) => Err(e),
    }
}

/// The packets read before a part of the datagram, put in front of what
/// that part gives.
pub open spec fn prepend_views(
    first: Seq<PacketView>,
    rest: Result<Seq<PacketView>, RtcpError>,
) -> Result<Seq<PacketView>, RtcpError> {
    match rest {
        Ok(p) => Ok(first + p),
        Err(e) => Err(e),
    }
}

/// Reads all the RTCP packets of a UDP datagram.
pub fn unmarshal(raw_data: &[u8]) -> (r: Result<Vec<Packet>, RtcpError>)
    ensures
        match spec_unmarshal(raw_data@) {
            Ok(p) => r matches Ok(v) && packet_views(v@) == p,
            Err(e) => r == Err::<Vec<Packet>, RtcpError>(e),
        },
{
    let mut packets: Vec<Packet> = Vec::new();
    let mut i: usize = 0;
    assert(raw_data@.subrange(0, raw_data@.len() as int) =~= raw_data@);
    assert(packet_views(packets@) =~= Seq::<PacketView>::empty());
    assert(prepend_views(Seq::empty(), spec_unmarshal_rest(raw_data@)) == spec_unmarshal_rest(raw_data@)) by {
        match spec_unmarshal_rest(raw_data@) {
            Ok(p) => { assert(Seq::<PacketView>::empty() + p =~= p); },
            Err(e) => {},
        }
    }
    while i < raw_data.len()
        invariant
            i <= raw_data@.len(),
            spec_unmarshal_rest(raw_data@) == prepend_views(
                packet_views(packets@),
                spec_unmarshal_rest(raw_data@.subrange(i as int, raw_data@.len() as int)),
            ),
        decreases raw_data@.len() - i,
    {
        let ghost s = raw_data@.subrange(i as int, raw_data@.len() as int);
        if raw_data.len() - i < HEADER_LENGTH {
            return Err(RtcpError::ErrPacketTooShort);
        }
        let head = slice_to_vec(raw_data, i, i + HEADER_LENGTH);
        proof {
            assert(parse_header(s) == parse_header(head@));
        }
        let h = match Header::unmarshal(head.as_slice()) {
            Ok(h) => h,
            Err(e) => {
                return Err(e);
            },
        };
        let n: usize = (h.length as usize + 1) * 4;
        if n > raw_data.len() - i {
            return Err(RtcpError::ErrPacketTooShort);
        }
        let chunk = slice_to_vec(raw_data, i, i + n);
        proof {
            assert(s.subrange(0, n as int) =~= chunk@);
            assert(s.subrange(n as int, s.len() as int) =~= raw_data@.subrange(
                (i + n) as int,
                raw_data@.len() as int,
            ));
        }
        let packet = match decode_packet(chunk.as_slice()) {
            Ok(p) => p,
            Err(e) => {
                return Err(e);
            },
        };
        let ghost before = packet_views(packets@);
        let ghost pv = packet@;
        packets.push(packet);
        proof {
            assert(packet_views(packets@) =~= before + seq![pv]);
            match spec_unmarshal_rest(s.subrange(n as int, s.len() as int)) {
                Ok(rest) => {
                    assert(before + (seq![pv] + rest) =~= (before + seq![pv]) + rest);
                },
                Err(e) => {},
            }
        }
        i = i + n;
    }
    proof {
        assert(raw_data@.subrange(i as int, raw_data@.len() as int) =~= Seq::<u8>::empty());
        assert(packet_views(packets@) + Seq::<PacketView>::empty() =~= packet_views(packets@));
    }
    if packets.len() == 0 {
        return Err(RtcpError::ErrInvalidHeader);
    }
    Ok(packets)
}

} // verus!
