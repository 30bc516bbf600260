//! What a DTLS connection's reader decides for each incoming record
//! (RFC 6347 section 4.1.2): which epochs it reads, queues or drops, how the
//! remote epoch advances with ChangeCipherSpec, and which alert answers a
//! record; and how outgoing records are packed into datagrams and
//! handshake messages cut into fragments. Parsing, decryption and the
//! replay window stay with the caller, which hands their outcomes in.
use vstd::prelude::*;
use super::{Alert, AlertDescription, AlertLevel, DtlsError, ProtocolVersion};
use super::handshake::{spec_content_type_byte, spec_handshake_type_byte, ContentType, HandshakeType};
use crate::bytes::{be16, be32, be64, push_be16, push_be32};
use crate::bytes::{extend_from, slice_to_vec};
use crate::rtcp::concat_packets;

verus! {

/// The retransmission interval, in milliseconds, when none is configured.
pub const INITIAL_TICKER_INTERVAL_MS: u64 = 1000;
/// The replay protection window when none is configured (RFC 6347 section
/// 4.1.2.6).
pub const DEFAULT_REPLAY_PROTECTION_WINDOW: usize = 64;

/// The retransmission interval and replay window a connection runs with: the
/// configured ones, or the defaults where the configuration gives 0.
pub fn effective_timing(flight_interval_ms: u64, replay_protection_window: usize) -> (r: (u64, usize))
    ensures
        r.0 == (if flight_interval_ms == 0 { INITIAL_TICKER_INTERVAL_MS } else { flight_interval_ms }),
        r.1 == (if replay_protection_window == 0 {
            DEFAULT_REPLAY_PROTECTION_WINDOW
        } else {
            replay_protection_window
        }),
{
    let interval = if flight_interval_ms != 0 {
        flight_interval_ms
    } else {
        INITIAL_TICKER_INTERVAL_MS
    };
    let window = if replay_protection_window == 0 {
        DEFAULT_REPLAY_PROTECTION_WINDOW
    } else {
        replay_protection_window
    };
    (interval, window)
}

/// What becomes of a record whose header was read, before its payload is.
#[derive(Debug, PartialEq, Eq, Structural, Clone, Copy)]
pub enum RecordAdmission {
    /// Dropped without an answer.
    Discard,
    /// Kept back until the keys of its epoch are there.
    Queue,
    /// Decrypted with the current keys, then read.
    Decrypt,
    /// Read as it is (epoch 0 is not encrypted).
    Read,
}

/// The admission of a record of `record_epoch` while the remote epoch is
/// `remote_epoch`. `fresh` is the replay window's verdict on its sequence
/// number, `cipher_ready` whether the keys are there, `enqueue` whether
/// records may be kept back. A record of a later epoch than the next is
/// dropped; one of the next epoch is kept back; a replayed one is dropped;
/// an encrypted one waits for the keys.
pub open spec fn spec_admit_record(
    remote_epoch: u16,
    record_epoch: u16,
    enqueue: bool,
    fresh: bool,
    cipher_ready: bool,
) -> RecordAdmission {
    if record_epoch > remote_epoch {
        if record_epoch == remote_epoch + 1 && enqueue {
            RecordAdmission::Queue
        } else {
            RecordAdmission::Discard
        }
    } else if !fresh {
        RecordAdmission::Discard
    } else if record_epoch != 0 {
        if !cipher_ready {
            if enqueue {
                RecordAdmission::Queue
            } else {
                RecordAdmission::Discard
            }
        } else {
            RecordAdmission::Decrypt
        }
    } else {
        RecordAdmission::Read
    }
}

/// Decides what becomes of an incoming record from its header.
pub fn admit_record(
    remote_epoch: u16,
    record_epoch: u16,
    enqueue: bool,
    fresh: bool,
    cipher_ready: bool,
) -> (r: RecordAdmission)
    ensures
        r == spec_admit_record(remote_epoch, record_epoch, enqueue, fresh, cipher_ready),
{
    if record_epoch > remote_epoch {
        if record_epoch - 1 > remote_epoch {
            return RecordAdmission::Discard;
        }
        if enqueue {
            return RecordAdmission::Queue;
        }
        return RecordAdmission::Discard;
    }
    if !fresh {
        return RecordAdmission::Discard;
    }
    if record_epoch != 0 {
        if !cipher_ready {
            if enqueue {
                return RecordAdmission::Queue;
            }
            return RecordAdmission::Discard;
        }
        return RecordAdmission::Decrypt;
    }
    RecordAdmission::Read
}

/// The content of a readable record, as far as the decision needs it.
#[derive(Debug, PartialEq, Eq, Structural, Clone, Copy)]
pub enum RecordContent {
    /// The record could not be parsed.
    Malformed,
    /// A handshake fragment, taken by the fragment buffer.
    Handshake,
    ChangeCipherSpec,
    Alert(Alert),
    ApplicationData,
    /// Any other content type.
    Other,
}

/// Why reading a record ends the connection's read with an error.
#[derive(Debug, PartialEq, Eq, Structural, Clone, Copy)]
pub enum RecordError {
    /// The record could not be decoded.
    Decode,
    /// The peer sent an alert.
    PeerAlert,
    /// Application data came before the handshake was done.
    ApplicationDataEpochZero,
    /// The record's content type is not handled.
    UnhandledContentType,
}

/// What reading a record does.
#[derive(Debug, PartialEq, Eq, Structural, Clone, Copy)]
pub struct RecordOutcome {
    /// The remote epoch afterwards.
    pub remote_epoch: u16,
    /// Whether the record's sequence number is marked as seen.
    pub accept: bool,
    /// Whether the record is kept back for later.
    pub queue: bool,
    /// Whether a handshake message may now be complete.
    pub handshake: bool,
    /// Whether its data goes to the application.
    pub deliver: bool,
    /// The alert sent in reply.
    pub alert: Option<Alert>,
    pub error: Option<RecordError>,
}

/// Nothing happens but the given changes.
pub open spec fn quiet(remote_epoch: u16) -> RecordOutcome {
    RecordOutcome {
        remote_epoch,
        accept: false,
        queue: false,
        handshake: false,
        deliver: false,
        alert: None,
        error: None,
    }
}

/// What reading a record of `record_epoch` with `content` does. An alert is
/// answered by itself, and close_notify by a warning-level close_notify; a
/// ChangeCipherSpec of the current epoch moves the remote epoch one on once
/// the keys are there; application data is delivered, except in epoch 0,
/// which is a fatal unexpected_message; a record that cannot be decoded is
/// a fatal decode_error.
pub open spec fn spec_read_record(
    remote_epoch: u16,
    record_epoch: u16,
    content: RecordContent,
    enqueue: bool,
    cipher_ready: bool,
) -> RecordOutcome {
    match content {
        RecordContent::Malformed => RecordOutcome {
            alert: Some(Alert { alert_level: AlertLevel::Fatal, alert_description: AlertDescription::DecodeError }),
            error: Some(RecordError::Decode),
            ..quiet(remote_epoch)
        },
        RecordContent::Handshake => RecordOutcome { accept: true, handshake: true, ..quiet(remote_epoch) },
        RecordContent::Alert(a) => RecordOutcome {
            accept: true,
            alert: Some(
                if a.alert_description == AlertDescription::CloseNotify {
                    Alert { alert_level: AlertLevel::Warning, alert_description: AlertDescription::CloseNotify }
                } else {
                    a
                },
            ),
            error: Some(RecordError::PeerAlert),
            ..quiet(remote_epoch)
        },
        RecordContent::ChangeCipherSpec => if !cipher_ready {
            RecordOutcome { queue: enqueue, ..quiet(remote_epoch) }
        } else if record_epoch == remote_epoch {
            RecordOutcome { remote_epoch: (remote_epoch + 1) as u16, accept: true, ..quiet(remote_epoch) }
        } else {
            quiet(remote_epoch)
        },
        RecordContent::ApplicationData => if record_epoch == 0 {
            RecordOutcome {
                alert: Some(Alert { alert_level: AlertLevel::Fatal, alert_description: AlertDescription::UnexpectedMessage }),
                error: Some(RecordError::ApplicationDataEpochZero),
                ..quiet(remote_epoch)
            }
        } else {
            RecordOutcome { accept: true, deliver: true, ..quiet(remote_epoch) }
        },
        RecordContent::Other => RecordOutcome {
            alert: Some(Alert { alert_level: AlertLevel::Fatal, alert_description: AlertDescription::UnexpectedMessage }),
            error: Some(RecordError::UnhandledContentType),
            ..quiet(remote_epoch)
        },
    }
}

/// Reads an admitted record (one of the remote epoch or before) whose
/// content is `content`.
pub fn read_record(
    remote_epoch: u16,
    record_epoch: u16,
    content: RecordContent,
    enqueue: bool,
    cipher_ready: bool,
) -> (r: RecordOutcome)
    requires
        record_epoch <= remote_epoch,
        content == RecordContent::ChangeCipherSpec && cipher_ready ==> remote_epoch < 65535,
    ensures
        r == spec_read_record(remote_epoch, record_epoch, content, enqueue, cipher_ready),
        r.remote_epoch == remote_epoch || r.remote_epoch == remote_epoch + 1,
{
    let none = RecordOutcome {
        remote_epoch,
        accept: false,
        queue: false,
        handshake: false,
        deliver: false,
        alert: None,
        error: None,
    };
    match content {
        RecordContent::Malformed => RecordOutcome {
            alert: Some(Alert { alert_level: AlertLevel::Fatal, alert_description: AlertDescription::DecodeError }),
            error: Some(RecordError::Decode),
            ..none
        },
        RecordContent::Handshake => RecordOutcome { accept: true, handshake: true, ..none },
        RecordContent::Alert(a) => {
            let reply = if a.alert_description == AlertDescription::CloseNotify {
                Alert { alert_level: AlertLevel::Warning, alert_description: AlertDescription::CloseNotify }
            } else {
                a
            };
            RecordOutcome { accept: true, alert: Some(reply), error: Some(RecordError::PeerAlert), ..none }
        },
        RecordContent::ChangeCipherSpec => {
            if !cipher_ready {
                RecordOutcome { queue: enqueue, ..none }
            } else if remote_epoch + 1 == record_epoch + 1 {
                RecordOutcome { remote_epoch: record_epoch + 1, accept: true, ..none }
            } else {
                none
            }
        },
        RecordContent::ApplicationData => {
            if record_epoch == 0 {
                RecordOutcome {
                    alert: Some(Alert { alert_level: AlertLevel::Fatal, alert_description: AlertDescription::UnexpectedMessage }),
                    error: Some(RecordError::ApplicationDataEpochZero),
                    ..none
                }
            } else {
                RecordOutcome { accept: true, deliver: true, ..none }
            }
        },
        RecordContent::Other => RecordOutcome {
            alert: Some(Alert { alert_level: AlertLevel::Fatal, alert_description: AlertDescription::UnexpectedMessage }),
            error: Some(RecordError::UnhandledContentType),
            ..none
        },
    }
}

/// A record that is read comes from the remote epoch or an earlier one and
/// has a fresh sequence number; it is decrypted exactly when it is not of
/// epoch 0; and nothing is kept back unless keeping back is allowed. So every
/// record that is read meets what reading it asks for.
pub proof fn lemma_admitted_records(
    remote_epoch: u16,
    record_epoch: u16,
    enqueue: bool,
    fresh: bool,
    cipher_ready: bool,
)
    ensures
        ({
            let a = spec_admit_record(remote_epoch, record_epoch, enqueue, fresh, cipher_ready);
            &&& (a == RecordAdmission::Read || a == RecordAdmission::Decrypt) ==> record_epoch
                <= remote_epoch && fresh
            &&& a == RecordAdmission::Decrypt <==> (record_epoch <= remote_epoch && fresh
                && record_epoch != 0 && cipher_ready)
            &&& a == RecordAdmission::Queue ==> enqueue
            &&& record_epoch > remote_epoch + 1 ==> a == RecordAdmission::Discard
        }),
{
}

/// The bytes of some byte strings, one after another (from the back).
pub open spec fn flatten(v: Seq<Seq<u8>>) -> Seq<u8>
    decreases v.len(),
{
    if v.len() == 0 {
        Seq::empty()
    } else {
        flatten(v.drop_last()) + v.last()
    }
}

/// The byte strings of some vectors.
pub open spec fn byte_strings(v: Seq<Vec<u8>>) -> Seq<Seq<u8>> {
    Seq::new(v.len(), |k: int| v[k]@)
}

/// Packing records into datagrams, record by record: the datagrams closed
/// so far and the one being filled. A record goes into the open datagram
/// unless that one holds something and would reach the MTU with it, in
/// which case the open datagram is closed first.
pub open spec fn compact_fold(raw: Seq<Seq<u8>>, mtu: nat) -> (Seq<Seq<u8>>, Seq<u8>)
    decreases raw.len(),
{
    if raw.len() == 0 {
        (Seq::empty(), Seq::empty())
    } else {
        let (done, current) = compact_fold(raw.drop_last(), mtu);
        let p = raw.last();
        if current.len() != 0 && current.len() + p.len() >= mtu {
            (done.push(current), p)
        } else {
            (done, current + p)
        }
    }
}

/// The datagrams that some records are packed into; the last one is there
/// even when empty.
pub open spec fn spec_compact_raw_packets(raw: Seq<Seq<u8>>, mtu: nat) -> Seq<Seq<u8>> {
    let (done, current) = compact_fold(raw, mtu);
    done.push(current)
}

/// Packs outgoing records into as few datagrams below the MTU as the order
/// allows (a single record longer than that gets a datagram of its own).
pub fn compact_raw_packets(raw_packets: &[Vec<u8>], maximum_transmission_unit: usize) -> (r: Vec<Vec<u8>>)
    ensures
        byte_strings(r@) == spec_compact_raw_packets(byte_strings(raw_packets@), maximum_transmission_unit as nat),
{
    let ghost raw = byte_strings(raw_packets@);
    let mut combined: Vec<Vec<u8>> = Vec::new();
    let mut current: Vec<u8> = Vec::new();
    let mut i: usize = 0;
    while i < raw_packets.len()
        invariant
            i <= raw_packets@.len(),
            raw == byte_strings(raw_packets@),
            compact_fold(raw.take(i as int), maximum_transmission_unit as nat) == (byte_strings(combined@), current@),
        decreases raw_packets@.len() - i,
    {
        proof {
            assert(raw.take(i + 1).drop_last() =~= raw.take(i as int));
            assert(raw.take(i + 1).last() == raw_packets@[i as int]@);
        }
        let p = &raw_packets[i];
        let full = current.len() != 0 && (current.len() >= maximum_transmission_unit
            || p.len() >= maximum_transmission_unit - current.len());
        if full {
            let ghost before = byte_strings(combined@);
            let ghost cur = current@;
            combined.push(current);
            current = Vec::new();
            assert(byte_strings(combined@) =~= before.push(cur));
        }
        extend_from(&mut current, p.as_slice());
        i = i + 1;
    }
    assert(raw.take(i as int) =~= raw);
    let ghost before = byte_strings(combined@);
    let ghost cur = current@;
    combined.push(current);
    assert(byte_strings(combined@) =~= before.push(cur));
    combined
}

/// Packing loses and reorders nothing: the datagrams, one after another,
/// hold the records one after another.
pub proof fn lemma_compact_keeps_bytes(raw: Seq<Seq<u8>>, mtu: nat)
    ensures
        flatten(spec_compact_raw_packets(raw, mtu)) == flatten(raw),
    decreases raw.len(),
{
    lemma_compact_fold_bytes(raw, mtu);
    let (done, current) = compact_fold(raw, mtu);
    assert(done.push(current).drop_last() =~= done);
}

proof fn lemma_compact_fold_bytes(raw: Seq<Seq<u8>>, mtu: nat)
    ensures
        flatten(compact_fold(raw, mtu).0) + compact_fold(raw, mtu).1 == flatten(raw),
    decreases raw.len(),
{
    if raw.len() > 0 {
        lemma_compact_fold_bytes(raw.drop_last(), mtu);
        let (done, current) = compact_fold(raw.drop_last(), mtu);
        let p = raw.last();
        if current.len() != 0 && current.len() + p.len() >= mtu {
            assert(done.push(current).drop_last() =~= done);
        } else {
            assert(flatten(done) + (current + p) =~= (flatten(done) + current) + p);
        }
    }
}

/// The pieces of `bytes` of `split_len` bytes each, the last one shorter
/// when the length is no multiple of it.
pub open spec fn spec_split_bytes(bytes: Seq<u8>, split_len: nat) -> Seq<Seq<u8>>
    decreases bytes.len(),
{
    if bytes.len() == 0 || split_len == 0 {
        Seq::empty()
    } else if bytes.len() <= split_len {
        seq![bytes]
    } else {
        seq![bytes.take(split_len as int)] + spec_split_bytes(bytes.skip(split_len as int), split_len)
    }
}

/// Cuts a handshake message into fragments of at most `split_len` bytes.
pub fn split_bytes(bytes: &[u8], split_len: usize) -> (r: Vec<Vec<u8>>)
    requires
        split_len > 0,
    ensures
        byte_strings(r@) == spec_split_bytes(bytes@, split_len as nat),
{
    let mut splits: Vec<Vec<u8>> = Vec::new();
    let n = bytes.len();
    let mut i: usize = 0;
    assert(bytes@.subrange(0, n as int) =~= bytes@);
    assert(byte_strings(splits@) + spec_split_bytes(bytes@, split_len as nat) =~= spec_split_bytes(bytes@, split_len as nat));
    while i < n
        invariant
            i <= n,
            n == bytes@.len(),
            split_len > 0,
            byte_strings(splits@) + spec_split_bytes(bytes@.subrange(i as int, n as int), split_len as nat)
                == spec_split_bytes(bytes@, split_len as nat),
        decreases n - i,
    {
        let ghost rest = bytes@.subrange(i as int, n as int);
        let j: usize = if n - i > split_len { i + split_len } else { n };
        let piece = slice_to_vec(bytes, i, j);
        let ghost before = byte_strings(splits@);
        splits.push(piece);
        proof {
            assert(byte_strings(splits@) =~= before.push(piece@));
            if n - i > split_len {
                assert(rest.take(split_len as int) =~= piece@);
                assert(rest.skip(split_len as int) =~= bytes@.subrange(j as int, n as int));
                assert(before.push(piece@) + spec_split_bytes(bytes@.subrange(j as int, n as int), split_len as nat)
                    =~= before + (seq![piece@] + spec_split_bytes(rest.skip(split_len as int), split_len as nat)));
            } else {
                assert(rest =~= piece@);
                assert(bytes@.subrange(j as int, n as int) =~= Seq::<u8>::empty());
                assert(before.push(piece@) + Seq::<Seq<u8>>::empty() =~= before + seq![piece@]);
            }
        }
        i = j;
    }
    assert(bytes@.subrange(i as int, n as int) =~= Seq::<u8>::empty());
    assert(byte_strings(splits@) + Seq::<Seq<u8>>::empty() =~= byte_strings(splits@));
    splits
}

/// Cutting loses nothing: the fragments, one after another, give the
/// message, and none is empty or longer than `split_len`.
pub proof fn lemma_split_bytes_cover(bytes: Seq<u8>, split_len: nat)
    requires
        split_len > 0,
    ensures
        concat_packets(spec_split_bytes(bytes, split_len)) == bytes,
        forall|k: int| 0 <= k < spec_split_bytes(bytes, split_len).len() ==> 0 < (#[trigger] spec_split_bytes(bytes, split_len)[k]).len() <= split_len,
    decreases bytes.len(),
{
    if bytes.len() > split_len {
        let rest = bytes.skip(split_len as int);
        lemma_split_bytes_cover(rest, split_len);
        let s = spec_split_bytes(bytes, split_len);
        assert(s.drop_first() =~= spec_split_bytes(rest, split_len));
        assert(s[0] == bytes.take(split_len as int));
        assert(concat_packets(s) == s[0] + concat_packets(s.drop_first()));
        assert(bytes.take(split_len as int) + rest =~= bytes);
        assert forall|k: int| 0 <= k < s.len() implies 0 < (#[trigger] s[k]).len() <= split_len by {
            if k > 0 {
                assert(s[k] == spec_split_bytes(rest, split_len)[k - 1]);
            }
        }
    } else if bytes.len() > 0 {
        let s = spec_split_bytes(bytes, split_len);
        assert(s.drop_first() =~= Seq::<Seq<u8>>::empty());
        assert(concat_packets(s) == s[0] + concat_packets(s.drop_first()));
        assert(concat_packets(Seq::<Seq<u8>>::empty()) == Seq::<u8>::empty());
        assert(bytes + Seq::<u8>::empty() =~= bytes);
    }
}

/// A number below 2^24 as three big-endian bytes.
pub open spec fn be24(v: nat) -> Seq<u8> {
    seq![((v / 65536) % 256) as u8, ((v / 256) % 256) as u8, (v % 256) as u8]
}

fn push_be24(out: &mut Vec<u8>, v: usize)
    ensures
        final(out)@ == old(out)@ + be24(v as nat),
{
    out.push(((v / 65536) % 256) as u8);
    out.push(((v / 256) % 256) as u8);
    out.push((v % 256) as u8);
    assert(final(out)@ =~= old(out)@ + be24(v as nat));
}

/// The header of a handshake fragment (RFC 6347 section 4.2.2): the
/// message's type, length and sequence number, then the fragment's offset
/// and length.
pub open spec fn fragment_header(
    typ: HandshakeType,
    length: u32,
    message_sequence: u16,
    offset: nat,
    fragment_length: nat,
) -> Seq<u8> {
    seq![spec_handshake_type_byte(typ)] + be24(length as nat) + be16(message_sequence) + be24(offset)
        + be24(fragment_length)
}

/// The fragments of a handshake message's body from byte `from` on, each
/// at most `mtu` bytes, with their headers.
pub open spec fn fragments_from(
    typ: HandshakeType,
    length: u32,
    message_sequence: u16,
    content: Seq<u8>,
    from: nat,
    mtu: nat,
) -> Seq<Seq<u8>>
    decreases content.len() - from,
{
    if mtu == 0 || from >= content.len() {
        Seq::empty()
    } else {
        let to: nat = if from + mtu < content.len() { from + mtu } else { content.len() };
        seq![fragment_header(typ, length, message_sequence, from, (to - from) as nat) + content.subrange(from as int, to as int)]
            + fragments_from(typ, length, message_sequence, content, to, mtu)
    }
}

/// The fragments of a handshake message: its body cut into pieces of at
/// most `mtu` bytes, each behind a header that says where it lies; an empty
/// body is sent as one empty fragment.
pub open spec fn spec_fragment_handshake(
    typ: HandshakeType,
    length: u32,
    message_sequence: u16,
    content: Seq<u8>,
    mtu: nat,
) -> Seq<Seq<u8>> {
    if content.len() == 0 {
        seq![fragment_header(typ, length, message_sequence, 0, 0)]
    } else {
        fragments_from(typ, length, message_sequence, content, 0, mtu)
    }
}

/// Cuts a handshake message (of type `typ`, total length `length` and
/// sequence number `message_sequence`, with body `content`) into fragments
/// that fit the MTU.
pub fn fragment_handshake(
    maximum_transmission_unit: usize,
    typ: HandshakeType,
    length: u32,
    message_sequence: u16,
    content: &[u8],
) -> (r: Vec<Vec<u8>>)
    requires
        maximum_transmission_unit > 0,
        length < 16777216,
        content@.len() < 16777216,
    ensures
        byte_strings(r@) == spec_fragment_handshake(
            typ,
            length,
            message_sequence,
            content@,
            maximum_transmission_unit as nat,
        ),
{
    let mtu = maximum_transmission_unit;
    let n = content.len();
    let mut out: Vec<Vec<u8>> = Vec::new();
    if n == 0 {
        let mut f: Vec<u8> = Vec::new();
        f.push(typ.to_byte());
        push_be24(&mut f, length as usize);
        push_be16(&mut f, message_sequence);
        push_be24(&mut f, 0);
        push_be24(&mut f, 0);
        assert(f@ =~= fragment_header(typ, length, message_sequence, 0, 0));
        out.push(f);
        assert(byte_strings(out@) =~= seq![f@]);
        return out;
    }
    let ghost all = fragments_from(typ, length, message_sequence, content@, 0, mtu as nat);
    let mut i: usize = 0;
    assert(byte_strings(out@) + all =~= all);
    while i < n
        invariant
            i <= n,
            n == content@.len(),
            n < 16777216,
            mtu > 0,
            all == fragments_from(typ, length, message_sequence, content@, 0, mtu as nat),
            byte_strings(out@) + fragments_from(typ, length, message_sequence, content@, i as nat, mtu as nat) == all,
        decreases n - i,
    {
        let j: usize = if n - i > mtu { i + mtu } else { n };
        let mut f: Vec<u8> = Vec::new();
        f.push(typ.to_byte());
        push_be24(&mut f, length as usize);
        push_be16(&mut f, message_sequence);
        push_be24(&mut f, i);
        push_be24(&mut f, j - i);
        let piece = slice_to_vec(content, i, j);
        extend_from(&mut f, piece.as_slice());
        let ghost before = byte_strings(out@);
        proof {
            assert(f@ =~= fragment_header(typ, length, message_sequence, i as nat, (j - i) as nat)
                + content@.subrange(i as int, j as int));
            let rest = fragments_from(typ, length, message_sequence, content@, j as nat, mtu as nat);
            assert(fragments_from(typ, length, message_sequence, content@, i as nat, mtu as nat) == seq![f@] + rest);
            assert(before.push(f@) + rest =~= before + (seq![f@] + rest));
        }
        out.push(f);
        assert(byte_strings(out@) =~= before.push(f@));
        i = j;
    }
    assert(fragments_from(typ, length, message_sequence, content@, i as nat, mtu as nat) =~= Seq::<Seq<u8>>::empty());
    assert(byte_strings(out@) + Seq::<Seq<u8>>::empty() =~= byte_strings(out@));
    out
}

/// The largest record sequence number (48 bits).
pub const MAX_SEQUENCE_NUMBER: u64 = 0x0000_FFFF_FFFF_FFFF;

/// A record (RFC 6347 section 4.1): content type, version, epoch, 48-bit
/// sequence number and length, then the content.
pub open spec fn record_bytes(
    content_type: ContentType,
    version: ProtocolVersion,
    epoch: u16,
    sequence_number: u64,
    content: Seq<u8>,
) -> Seq<u8> {
    seq![spec_content_type_byte(content_type), version.major, version.minor] + be16(epoch) + be64(
        sequence_number,
    ).subrange(2, 8) + be16((content.len() % 65536) as u16) + content
}

/// The next sequence number of an epoch: 0 for an epoch not used yet.
pub open spec fn next_sequence(seqs: Seq<u64>, epoch: u16) -> int {
    if epoch < seqs.len() {
        seqs[epoch as int] as int
    } else {
        0
    }
}

/// The records of some handshake fragments, numbered on from `first`.
pub open spec fn spec_handshake_records(
    content_type: ContentType,
    version: ProtocolVersion,
    epoch: u16,
    first: int,
    fragments: Seq<Seq<u8>>,
) -> Seq<Seq<u8>> {
    Seq::new(
        fragments.len(),
        |k: int| record_bytes(content_type, version, epoch, (first + k) as u64, fragments[k]),
    )
}

/// How many fragments get a number before one is past the largest: all of
/// them when the numbers last.
pub open spec fn numbered_before_overflow(first: int, n: int) -> int {
    if first + n - 1 <= MAX_SEQUENCE_NUMBER || n == 0 {
        n
    } else if first > MAX_SEQUENCE_NUMBER {
        0
    } else {
        MAX_SEQUENCE_NUMBER + 1 - first
    }
}

/// Puts handshake fragments into records of `epoch`, each with the next
/// sequence number of the epoch (the counters of epochs not used yet start
/// at 0). A number past 48 bits is an error; the counter has then moved past
/// it. Encryption, where the flight asks for it, is done on the result by
/// the caller's cipher suite.
pub fn handshake_records(
    local_sequence_numbers: &mut Vec<u64>,
    content_type: ContentType,
    version: ProtocolVersion,
    epoch: u16,
    fragments: &[Vec<u8>],
) -> (r: Result<Vec<Vec<u8>>, DtlsError>)
    requires
        fragments@.len() > 0 ==> next_sequence(old(local_sequence_numbers)@, epoch) < u64::MAX,
    ensures
        ({
            let first = next_sequence(old(local_sequence_numbers)@, epoch);
            let n = fragments@.len() as int;
            let k = numbered_before_overflow(first, n);
            &&& final(local_sequence_numbers)@.len() == (if epoch < old(local_sequence_numbers)@.len() {
                old(local_sequence_numbers)@.len() as int
            } else {
                epoch + 1
            })
            &&& forall|e: int| 0 <= e < final(local_sequence_numbers)@.len() && e != epoch ==> #[trigger] final(local_sequence_numbers)@[e]
                == (if e < old(local_sequence_numbers)@.len() { old(local_sequence_numbers)@[e] } else { 0 })
            &&& k == n ==> (r matches Ok(v) && byte_strings(v@) == spec_handshake_records(
                content_type,
                version,
                epoch,
                first,
                byte_strings(fragments@),
            )) && final(local_sequence_numbers)@[epoch as int] == first + n
            &&& k < n ==> r == Err::<Vec<Vec<u8>>, DtlsError>(DtlsError::ErrSequenceNumberOverflow)
                && final(local_sequence_numbers)@[epoch as int] == first + k + 1
        }),
{
    let ghost old_seqs = local_sequence_numbers@;
    while local_sequence_numbers.len() <= epoch as usize
        invariant
            old_seqs.len() <= local_sequence_numbers@.len() <= (if epoch < old_seqs.len() {
                old_seqs.len() as int
            } else {
                epoch + 1
            }),
            forall|e: int| 0 <= e < local_sequence_numbers@.len() ==> #[trigger] local_sequence_numbers@[e]
                == (if e < old_seqs.len() { old_seqs[e] } else { 0 }),
        decreases epoch + 1 - local_sequence_numbers@.len(),
    {
        local_sequence_numbers.push(0);
    }
    let e = epoch as usize;
    let ghost first = next_sequence(old_seqs, epoch);
    assert(local_sequence_numbers@[e as int] == first);
    let mut out: Vec<Vec<u8>> = Vec::new();
    let mut i: usize = 0;
    while i < fragments.len()
        invariant
            i <= fragments@.len(),
            old_seqs == old(local_sequence_numbers)@,
            first == next_sequence(old_seqs, epoch),
            e == epoch as usize,
            e < local_sequence_numbers@.len(),
            local_sequence_numbers@.len() == (if epoch < old_seqs.len() { old_seqs.len() as int } else { epoch + 1 }),
            forall|x: int| 0 <= x < local_sequence_numbers@.len() && x != epoch ==> #[trigger] local_sequence_numbers@[x]
                == (if x < old_seqs.len() { old_seqs[x] } else { 0 }),
            fragments@.len() > 0 ==> first < u64::MAX,
            local_sequence_numbers@[e as int] == first + i,
            i <= numbered_before_overflow(first, fragments@.len() as int),
            first + i - 1 <= MAX_SEQUENCE_NUMBER || i == 0,
            byte_strings(out@) == spec_handshake_records(content_type, version, epoch, first, byte_strings(fragments@)).take(i as int),
        decreases fragments@.len() - i,
    {
        let seq = local_sequence_numbers[e];
        local_sequence_numbers.set(e, seq + 1);
        if seq > MAX_SEQUENCE_NUMBER {
            proof {
                assert(numbered_before_overflow(first, fragments@.len() as int) == i);
            }
            return Err(DtlsError::ErrSequenceNumberOverflow);
        }
        let f = &fragments[i];
        let mut rec: Vec<u8> = Vec::new();
        rec.push(content_type.to_byte());
        rec.push(version.major);
        rec.push(version.minor);
        push_be16(&mut rec, epoch);
        push_be16(&mut rec, (seq / 4294967296) as u16);
        push_be32(&mut rec, (seq % 4294967296) as u32);
        push_be16(&mut rec, (f.len() % 65536) as u16);
        extend_from(&mut rec, f.as_slice());
        proof {
            assert(be64(seq).subrange(2, 8) =~= be16((seq / 4294967296) as u16) + be32((seq % 4294967296) as u32));
            assert(rec@ =~= record_bytes(content_type, version, epoch, seq, f@));
        }
        let ghost before = byte_strings(out@);
        let ghost all = spec_handshake_records(content_type, version, epoch, first, byte_strings(fragments@));
        proof {
            assert(byte_strings(fragments@)[i as int] == f@);
            assert(seq == (first + i) as u64);
            assert(all[i as int] == rec@);
        }
        out.push(rec);
        assert(byte_strings(out@) =~= before.push(all[i as int]));
        assert(all.take(i + 1) =~= all.take(i as int).push(all[i as int]));
        i = i + 1;
    }
    assert(spec_handshake_records(content_type, version, epoch, first, byte_strings(fragments@)).take(i as int)
        =~= spec_handshake_records(content_type, version, epoch, first, byte_strings(fragments@)));
    Ok(out)
}

} // verus!
