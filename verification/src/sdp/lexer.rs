//! The order of the lines of a description. The reader of a description
//! takes the type letter of each line in turn, asks `next_line` which line
//! it is (or whether the description may end there), parses the value, and
//! moves to `state_after` that line.
use vstd::prelude::*;
use super::SdpError;

verus! {

/// Where the reader stands: which line types may come next.
#[derive(Debug, Clone, Copy, PartialEq, Eq)]
pub enum LexState {
    /// Before `v=`.
    S1,
    /// After `v=`: `o=` must follow.
    S2,
    /// After `o=`: `s=` must follow.
    S3,
    /// After `s=`.
    S4,
    /// After a session `c=` or `b=`.
    S5,
    /// After `e=`.
    S6,
    /// After `i=`.
    S7,
    /// After `p=`.
    S8,
    /// After `t=` or `r=`.
    S9,
    /// After `u=`.
    S10,
    /// After a session `k=` or `a=`.
    S11,
    /// After `m=`.
    S12,
    /// After `z=`.
    S13,
    /// After a media `k=` or `a=`.
    S14,
    /// After a media `c=` or `b=`.
    S15,
    /// After a media `i=`.
    S16,
}

/// What a line is, by its type and its place in the description.
#[derive(Debug, Clone, Copy, PartialEq, Eq)]
pub enum LineKind {
    ProtocolVersion,
    Origin,
    SessionName,
    SessionInformation,
    Uri,
    Email,
    Phone,
    SessionConnectionInformation,
    SessionBandwidth,
    Timing,
    RepeatTimes,
    TimeZones,
    SessionEncryptionKey,
    SessionAttribute,
    MediaDescription,
    MediaTitle,
    MediaConnectionInformation,
    MediaBandwidth,
    MediaEncryptionKey,
    MediaAttribute,
}

/// Whether the description may end in this state.
pub open spec fn may_end(state: LexState) -> bool {
    match state {
        LexState::S9 | LexState::S11 | LexState::S12 | LexState::S13 | LexState::S14
        | LexState::S15 | LexState::S16 => true,
        _ => false,
    }
}

/// The line that the type letter `t` begins in `state`, if it may come
/// there.
pub open spec fn line_for(state: LexState, t: char) -> Option<LineKind> {
    match state {
        LexState::S1 => if t == 'v' {
            Some(LineKind::ProtocolVersion)
        } else {
            None
        },
        LexState::S2 => if t == 'o' {
            Some(LineKind::Origin)
        } else {
            None
        },
        LexState::S3 => if t == 's' {
            Some(LineKind::SessionName)
        } else {
            None
        },
        LexState::S4 => if t == 'i' {
            Some(LineKind::SessionInformation)
        } else if t == 'u' {
            Some(LineKind::Uri)
        } else if t == 'e' {
            Some(LineKind::Email)
        } else if t == 'p' {
            Some(LineKind::Phone)
        } else {
            session_tail(t)
        },
        LexState::S5 => if t == 'b' {
            Some(LineKind::SessionBandwidth)
        } else if t == 't' {
            Some(LineKind::Timing)
        } else {
            None
        },
        LexState::S6 => if t == 'p' {
            Some(LineKind::Phone)
        } else {
            session_tail(t)
        },
        LexState::S7 => if t == 'u' {
            Some(LineKind::Uri)
        } else if t == 'e' {
            Some(LineKind::Email)
        } else if t == 'p' {
            Some(LineKind::Phone)
        } else {
            session_tail(t)
        },
        LexState::S8 => session_tail(t),
        LexState::S9 => if t == 'z' {
            Some(LineKind::TimeZones)
        } else if t == 'k' {
            Some(LineKind::SessionEncryptionKey)
        } else if t == 'a' {
            Some(LineKind::SessionAttribute)
        } else if t == 'r' {
            Some(LineKind::RepeatTimes)
        } else if t == 't' {
            Some(LineKind::Timing)
        } else if t == 'm' {
            Some(LineKind::MediaDescription)
        } else {
            None
        },
        LexState::S10 => if t == 'e' {
            Some(LineKind::Email)
        } else if t == 'p' {
            Some(LineKind::Phone)
        } else {
            session_tail(t)
        },
        LexState::S11 => if t == 'a' {
            Some(LineKind::SessionAttribute)
        } else if t == 'm' {
            Some(LineKind::MediaDescription)
        } else {
            None
        },
        LexState::S12 => if t == 'a' {
            Some(LineKind::MediaAttribute)
        } else if t == 'k' {
            Some(LineKind::MediaEncryptionKey)
        } else if t == 'b' {
            Some(LineKind::MediaBandwidth)
        } else if t == 'c' {
            Some(LineKind::MediaConnectionInformation)
        } else if t == 'i' {
            Some(LineKind::MediaTitle)
        } else if t == 'm' {
            Some(LineKind::MediaDescription)
        } else {
            None
        },
        LexState::S13 => if t == 'a' {
            Some(LineKind::SessionAttribute)
        } else if t == 'k' {
            Some(LineKind::SessionEncryptionKey)
        } else if t == 'm' {
            Some(LineKind::MediaDescription)
        } else {
            None
        },
        LexState::S14 => if t == 'a' {
            Some(LineKind::MediaAttribute)
        } else if t == 'm' {
            Some(LineKind::MediaDescription)
        } else {
            None
        },
        LexState::S15 => if t == 'a' {
            Some(LineKind::MediaAttribute)
        } else if t == 'k' {
            Some(LineKind::MediaEncryptionKey)
        } else if t == 'b' {
            Some(LineKind::MediaBandwidth)
        } else if t == 'm' {
            Some(LineKind::MediaDescription)
        } else {
            None
        },
        LexState::S16 => if t == 'a' {
            Some(LineKind::MediaAttribute)
        } else if t == 'k' {
            Some(LineKind::MediaEncryptionKey)
        } else if t == 'c' {
            Some(LineKind::MediaConnectionInformation)
        } else if t == 'b' {
            Some(LineKind::MediaBandwidth)
        } else if t == 'm' {
            Some(LineKind::MediaDescription)
        } else {
            None
        },
    }
}

/// The lines that may close the session part before the first `t=`:
/// `c=`, `b=` and `t=` itself.
pub open spec fn session_tail(t: char) -> Option<LineKind> {
    if t == 'c' {
        Some(LineKind::SessionConnectionInformation)
    } else if t == 'b' {
        Some(LineKind::SessionBandwidth)
    } else if t == 't' {
        Some(LineKind::Timing)
    } else {
        None
    }
}

/// The state after a line of kind `k`.
pub open spec fn spec_state_after(k: LineKind) -> LexState {
    match k {
        LineKind::ProtocolVersion => LexState::S2,
        LineKind::Origin => LexState::S3,
        LineKind::SessionName => LexState::S4,
        LineKind::SessionInformation => LexState::S7,
        LineKind::Uri => LexState::S10,
        LineKind::Email => LexState::S6,
        LineKind::Phone => LexState::S8,
        LineKind::SessionConnectionInformation => LexState::S5,
        LineKind::SessionBandwidth => LexState::S5,
        LineKind::Timing => LexState::S9,
        LineKind::RepeatTimes => LexState::S9,
        LineKind::TimeZones => LexState::S13,
        LineKind::SessionEncryptionKey => LexState::S11,
        LineKind::SessionAttribute => LexState::S11,
        LineKind::MediaDescription => LexState::S12,
        LineKind::MediaTitle => LexState::S16,
        LineKind::MediaConnectionInformation => LexState::S15,
        LineKind::MediaBandwidth => LexState::S15,
        LineKind::MediaEncryptionKey => LexState::S14,
        LineKind::MediaAttribute => LexState::S14,
    }
}

fn session_tail_exec(t: char) -> (r: Option<LineKind>)
    ensures
        r == session_tail(t),
{
    if t == 'c' {
        Some(LineKind::SessionConnectionInformation)
    } else if t == 'b' {
        Some(LineKind::SessionBandwidth)
    } else if t == 't' {
        Some(LineKind::Timing)
    } else {
        None
    }
}

/// Which line comes next: `key` is the type letter of the next line, or
/// `None` at the end of the input. `Ok(None)` means the description ends
/// here; a line or an end that may not come in `state` is refused.
pub fn next_line(state: LexState, key: Option<char>) -> (r: Result<Option<LineKind>, SdpError>)
    ensures
        match key {
            None => r == (if may_end(state) {
                Ok::<Option<LineKind>, SdpError>(None)
            } else {
                Err::<Option<LineKind>, SdpError>(SdpError::InvalidSyntax)
            }),
            Some(t) => match line_for(state, t) {
                Some(k) => r == Ok::<Option<LineKind>, SdpError>(Some(k)),
                None => r == Err::<Option<LineKind>, SdpError>(SdpError::InvalidSyntax),
            },
        },
{
    let t = match key {
        None => {
            return match state {
                LexState::S9 | LexState::S11 | LexState::S12 | LexState::S13 | LexState::S14
                | LexState::S15 | LexState::S16 => Ok(None),
                _ => Err(SdpError::InvalidSyntax),
            };
        },
        Some(t) => t,
    };
    let k = match state {
        LexState::S1 => if t == 'v' {
            Some(LineKind::ProtocolVersion)
        } else {
            None
        },
        LexState::S2 => if t == 'o' {
            Some(LineKind::Origin)
        } else {
            None
        },
        LexState::S3 => if t == 's' {
            Some(LineKind::SessionName)
        } else {
            None
        },
        LexState::S4 => if t == 'i' {
            Some(LineKind::SessionInformation)
        } else if t == 'u' {
            Some(LineKind::Uri)
        } else if t == 'e' {
            Some(LineKind::Email)
        } else if t == 'p' {
            Some(LineKind::Phone)
        } else {
            session_tail_exec(t)
        },
        LexState::S5 => if t == 'b' {
            Some(LineKind::SessionBandwidth)
        } else if t == 't' {
            Some(LineKind::Timing)
        } else {
            None
        },
        LexState::S6 => if t == 'p' {
            Some(LineKind::Phone)
        } else {
            session_tail_exec(t)
        },
        LexState::S7 => if t == 'u' {
            Some(LineKind::Uri)
        } else if t == 'e' {
            Some(LineKind::Email)
        } else if t == 'p' {
            Some(LineKind::Phone)
        } else {
            session_tail_exec(t)
        },
        LexState::S8 => session_tail_exec(t),
        LexState::S9 => if t == 'z' {
            Some(LineKind::TimeZones)
        } else if t == 'k' {
            Some(LineKind::SessionEncryptionKey)
        } else if t == 'a' {
            Some(LineKind::SessionAttribute)
        } else if t == 'r' {
            Some(LineKind::RepeatTimes)
        } else if t == 't' {
            Some(LineKind::Timing)
        } else if t == 'm' {
            Some(LineKind::MediaDescription)
        } else {
            None
        },
        LexState::S10 => if t == 'e' {
            Some(LineKind::Email)
        } else if t == 'p' {
            Some(LineKind::Phone)
        } else {
            session_tail_exec(t)
        },
        LexState::S11 => if t == 'a' {
            Some(LineKind::SessionAttribute)
        } else if t == 'm' {
            Some(LineKind::MediaDescription)
        } else {
            None
        },
        LexState::S12 => if t == 'a' {
            Some(LineKind::MediaAttribute)
        } else if t == 'k' {
            Some(LineKind::MediaEncryptionKey)
        } else if t == 'b' {
            Some(LineKind::MediaBandwidth)
        } else if t == 'c' {
            Some(LineKind::MediaConnectionInformation)
        } else if t == 'i' {
            Some(LineKind::MediaTitle)
        } else if t == 'm' {
            Some(LineKind::MediaDescription)
        } else {
            None
        },
        LexState::S13 => if t == 'a' {
            Some(LineKind::SessionAttribute)
        } else if t == 'k' {
            Some(LineKind::SessionEncryptionKey)
        } else if t == 'm' {
            Some(LineKind::MediaDescription)
        } else {
            None
        },
        LexState::S14 => if t == 'a' {
            Some(LineKind::MediaAttribute)
        } else if t == 'm' {
            Some(LineKind::MediaDescription)
        } else {
            None
        },
        LexState::S15 => if t == 'a' {
            Some(LineKind::MediaAttribute)
        } else if t == 'k' {
            Some(LineKind::MediaEncryptionKey)
        } else if t == 'b' {
            Some(LineKind::MediaBandwidth)
        } else if t == 'm' {
            Some(LineKind::MediaDescription)
        } else {
            None
        },
        LexState::S16 => if t == 'a' {
            Some(LineKind::MediaAttribute)
        } else if t == 'k' {
            Some(LineKind::MediaEncryptionKey)
        } else if t == 'c' {
            Some(LineKind::MediaConnectionInformation)
        } else if t == 'b' {
            Some(LineKind::MediaBandwidth)
        } else if t == 'm' {
            Some(LineKind::MediaDescription)
        } else {
            None
        },
    };
    match k {
        Some(k) => Ok(Some(k)),
        None => Err(SdpError::InvalidSyntax),
    }
}

/// The state after a line of kind `k`.
pub fn state_after(k: LineKind) -> (r: LexState)
    ensures
        r == spec_state_after(k),
{
    match k {
        LineKind::ProtocolVersion => LexState::S2,
        LineKind::Origin => LexState::S3,
        LineKind::SessionName => LexState::S4,
        LineKind::SessionInformation => LexState::S7,
        LineKind::Uri => LexState::S10,
        LineKind::Email => LexState::S6,
        LineKind::Phone => LexState::S8,
        LineKind::SessionConnectionInformation => LexState::S5,
        LineKind::SessionBandwidth => LexState::S5,
        LineKind::Timing => LexState::S9,
        LineKind::RepeatTimes => LexState::S9,
        LineKind::TimeZones => LexState::S13,
        LineKind::SessionEncryptionKey => LexState::S11,
        LineKind::SessionAttribute => LexState::S11,
        LineKind::MediaDescription => LexState::S12,
        LineKind::MediaTitle => LexState::S16,
        LineKind::MediaConnectionInformation => LexState::S15,
        LineKind::MediaBandwidth => LexState::S15,
        LineKind::MediaEncryptionKey => LexState::S14,
        LineKind::MediaAttribute => LexState::S14,
    }
}

/// The state reached by reading the type letters `ts` from `s`, if every
/// line may come where it stands.
pub open spec fn run(s: LexState, ts: Seq<char>) -> Option<LexState>
    decreases ts.len(),
{
    if ts.len() == 0 {
        Some(s)
    } else {
        match line_for(s, ts[0]) {
            Some(k) => run(spec_state_after(k), ts.drop_first()),
            None => None,
        }
    }
}

/// A description is accepted only if it begins with `v=`, `o=`, `s=` and
/// has a `t=` line before it ends.
pub proof fn lemma_accepted_begins_with_header(ts: Seq<char>)
    requires
        run(LexState::S1, ts) matches Some(end) && may_end(end),
    ensures
        ts.len() >= 4,
        ts[0] == 'v',
        ts[1] == 'o',
        ts[2] == 's',
        ts.contains('t'),
{
    let t1 = ts.drop_first();
    let t2 = t1.drop_first();
    let t3 = t2.drop_first();
    assert(ts.len() > 0);
    assert(ts[0] == 'v');
    assert(run(LexState::S1, ts) == run(LexState::S2, t1));
    assert(t1.len() > 0);
    assert(t1[0] == 'o');
    assert(run(LexState::S2, t1) == run(LexState::S3, t2));
    assert(t2.len() > 0);
    assert(t2[0] == 's');
    assert(run(LexState::S3, t2) == run(LexState::S4, t3));
    lemma_reaches_timing(LexState::S4, t3);
    let i = choose|i: int| 0 <= i < t3.len() && t3[i] == 't';
    assert(ts[i + 3] == t3[i]);
}

/// The states before the first `t=`.
pub open spec fn before_timing(s: LexState) -> bool {
    match s {
        LexState::S4 | LexState::S5 | LexState::S6 | LexState::S7 | LexState::S8
        | LexState::S10 => true,
        _ => false,
    }
}

/// From a state before the first `t=`, the description can only end after a
/// `t=` line has come.
proof fn lemma_reaches_timing(s: LexState, ts: Seq<char>)
    requires
        before_timing(s),
        run(s, ts) matches Some(end) && may_end(end),
    ensures
        ts.contains('t'),
    decreases ts.len(),
{
    if ts.len() > 0 {
        if ts[0] == 't' {
            assert(ts[0] == 't');
        } else {
            let k = line_for(s, ts[0])->0;
            lemma_reaches_timing(spec_state_after(k), ts.drop_first());
            let i = choose|i: int| 0 <= i < ts.drop_first().len() && ts.drop_first()[i] == 't';
            assert(ts[i + 1] == 't');
        }
    }
}

/// A carriage return or a line feed, which a reader skips before a line.
pub open spec fn is_line_break(b: u8) -> bool {
    b == 10 || b == 13
}

/// Whether a reader skips this byte before the type of a line.
pub fn skip_before_type(b: u8) -> (r: bool)
    ensures
        r == is_line_break(b),
{
    b == 10 || b == 13
}

/// What the bytes read up to and including the first `=` of a line are.
#[derive(Debug, Copy, Clone, PartialEq, Eq, Structural)]
pub enum TypeKey {
    /// Nothing was left to read.
    End,
    /// A line type: two bytes of UTF-8 text, one character and `=`.
    Key,
    /// Anything else is a syntax error.
    Invalid,
}

/// Two bytes that are UTF-8 text: two ASCII characters, or one character of
/// a two-byte sequence.
pub open spec fn is_utf8_pair(a: u8, b: u8) -> bool {
    (a < 0x80 && b < 0x80) || (0xC2 <= a <= 0xDF && 0x80 <= b <= 0xBF)
}

/// The kind of the bytes read for a line's type.
pub open spec fn spec_type_key(buf: Seq<u8>) -> TypeKey {
    if buf.len() == 0 {
        TypeKey::End
    } else if buf.len() == 2 && is_utf8_pair(buf[0], buf[1]) {
        TypeKey::Key
    } else {
        TypeKey::Invalid
    }
}

/// Classifies the bytes read up to and including the first `=` of a line
/// (or to the end of the input): none at all end the description; a line
/// type is exactly two bytes of text.
pub fn type_key(buf: &[u8]) -> (r: TypeKey)
    ensures
        r == spec_type_key(buf@),
{
    if buf.len() == 0 {
        TypeKey::End
    } else if buf.len() == 2 && ((buf[0] < 0x80 && buf[1] < 0x80) || (0xC2 <= buf[0] && buf[0]
        <= 0xDF && 0x80 <= buf[1] && buf[1] <= 0xBF)) {
        TypeKey::Key
    } else {
        TypeKey::Invalid
    }
}

} // verus!
