//! The session-level lines of a description: origin, timing, repeat times,
//! time zones, bandwidth, connection information and attributes, each
//! parsed from the value after its `<type>=`.
use vstd::prelude::*;
use super::text::{
    chars_range, parse_i64, parse_signed, parse_uint, parse_unsigned, split_char, split_on,
    split_once, split_once_on, split_ws, str_chars, str_eq, string_from_chars, split_whitespace,
    trim, trim_chars, ws_fold, decimal, signed_decimal, push_decimal, push_signed_decimal,
    push_str, is_ws,
};
use super::SdpError;
use vstd::string::StringSliceAdditionalSpecFns;

verus! {

/// The line separator of a description.
pub const END_LINE: &'static str = "\r\n";

/// Which end of a connection sets it up (`a=setup`).
#[derive(Debug, Clone, Copy, PartialEq, Eq)]
pub enum ConnectionRole {
    /// The endpoint will initiate an outgoing connection.
    ConnectionRoleActive,
    /// The endpoint will accept an incoming connection.
    ConnectionRolePassive,
    /// The endpoint will accept an incoming connection or initiate one.
    ConnectionRoleActpass,
    /// The endpoint does not want the connection established for now.
    ConnectionRoleHoldconn,
}

impl ConnectionRole {
    /// The role's name in an `a=setup` attribute.
    pub open spec fn spec_name(self) -> Seq<char> {
        match self {
            ConnectionRole::ConnectionRoleActive => seq!['a', 'c', 't', 'i', 'v', 'e'],
            ConnectionRole::ConnectionRolePassive => seq!['p', 'a', 's', 's', 'i', 'v', 'e'],
            ConnectionRole::ConnectionRoleActpass => seq!['a', 'c', 't', 'p', 'a', 's', 's'],
            ConnectionRole::ConnectionRoleHoldconn => seq!['h', 'o', 'l', 'd', 'c', 'o', 'n', 'n'],
        }
    }

    /// The role's name in an `a=setup` attribute.
    pub fn to_string(&self) -> (r: String)
        ensures
            r@ == self.spec_name(),
    {
        proof {
            reveal_strlit("active");
            reveal_strlit("passive");
            reveal_strlit("actpass");
            reveal_strlit("holdconn");
        }
        match self {
            ConnectionRole::ConnectionRoleActive => String::from_str("active"),
            ConnectionRole::ConnectionRolePassive => String::from_str("passive"),
            ConnectionRole::ConnectionRoleActpass => String::from_str("actpass"),
            ConnectionRole::ConnectionRoleHoldconn => String::from_str("holdconn"),
        }
    }
}

/// The `o=` line: who originated the session, and its identity.
#[derive(Debug)]
pub struct Origin {
    pub username: String,
    pub session_id: u64,
    pub session_version: u64,
    pub network_type: String,
    pub address_type: String,
    pub unicast_address: String,
}

impl Origin {
    /// An origin with empty text and zero numbers.
    pub fn new() -> (r: Origin)
        ensures
            r.username@.len() == 0,
            r.session_id == 0,
            r.session_version == 0,
            r.network_type@.len() == 0,
            r.address_type@.len() == 0,
            r.unicast_address@.len() == 0,
    {
        Origin {
            username: String::new(),
            session_id: 0,
            session_version: 0,
            network_type: String::new(),
            address_type: String::new(),
            unicast_address: String::new(),
        }
    }
}

/// One adjustment of a `z=` line.
#[derive(Debug, Clone, Copy, PartialEq, Eq)]
pub struct TimeZone {
    pub adjustment_time: u64,
    pub offset: i64,
}

/// The `t=` line: start and stop times.
#[derive(Debug, Clone, Copy, PartialEq, Eq)]
pub struct Timing {
    pub start_time: u64,
    pub stop_time: u64,
}

/// An `r=` line: repeat interval, active duration and offsets.
#[derive(Debug)]
pub struct RepeatTime {
    pub interval: i64,
    pub duration: i64,
    pub offsets: Vec<i64>,
}

/// A `t=` line with the `r=` lines that follow it.
#[derive(Debug)]
pub struct TimeDescription {
    pub timing: Timing,
    pub repeat_times: Vec<RepeatTime>,
}

/// The position of the first element of `data` equal to `e`, or -1.
pub open spec fn position_of(e: Seq<char>, data: Seq<Seq<char>>) -> int
    decreases data.len(),
{
    if data.len() == 0 {
        -1
    } else if position_of(e, data.drop_last()) >= 0 {
        position_of(e, data.drop_last())
    } else if data.last() == e {
        data.len() - 1
    } else {
        -1
    }
}

proof fn lemma_position_of(e: Seq<char>, data: Seq<Seq<char>>)
    ensures
        -1 <= position_of(e, data) < data.len(),
        position_of(e, data) == -1 <==> !data.contains(e),
        position_of(e, data) >= 0 ==> data[position_of(e, data)] == e,
    decreases data.len(),
{
    if data.len() > 0 {
        lemma_position_of(e, data.drop_last());
        if data.contains(e) && position_of(e, data.drop_last()) == -1 {
            let k = choose|k: int| 0 <= k < data.len() && data[k] == e;
            if k < data.len() - 1 {
                assert(data.drop_last()[k] == e);
            }
        }
        if position_of(e, data.drop_last()) >= 0 {
            assert(data.contains(e));
        }
    }
}

/// The text views of a list of string slices.
pub open spec fn str_views(data: Seq<&str>) -> Seq<Seq<char>> {
    data.map_values(|s: &str| s@)
}

/// The position of `element` in `data`, or -1 if it is not there.
pub fn index_of(element: &str, data: &[&str]) -> (r: i32)
    requires
        data@.len() <= i32::MAX,
    ensures
        r == position_of(element@, str_views(data@)),
        r == -1 <==> !str_views(data@).contains(element@),
{
    proof {
        lemma_position_of(element@, str_views(data@));
    }
    let mut k: usize = 0;
    while k < data.len()
        invariant
            k <= data@.len() <= i32::MAX,
            position_of(element@, str_views(data@).take(k as int)) == -1,
        decreases data@.len() - k,
    {
        proof {
            assert(str_views(data@).take(k + 1).drop_last() =~= str_views(data@).take(k as int));
        }
        if str_eq(element, data[k]) {
            proof {
                lemma_position_prefix(element@, str_views(data@), k + 1);
            }
            return k as i32;
        }
        k = k + 1;
    }
    proof {
        assert(str_views(data@).take(data@.len() as int) =~= str_views(data@));
    }
    -1
}

/// Once found in a prefix, the position is the same in the whole list.
proof fn lemma_position_prefix(e: Seq<char>, data: Seq<Seq<char>>, n: int)
    requires
        0 < n <= data.len(),
        position_of(e, data.take(n)) >= 0,
    ensures
        position_of(e, data) == position_of(e, data.take(n)),
    decreases data.len() - n,
{
    if n < data.len() {
        assert(data.take(n + 1).drop_last() =~= data.take(n));
        lemma_position_prefix(e, data, n + 1);
    } else {
        assert(data.take(n) =~= data);
    }
}

/// The value of a line, trimmed, and the number of bytes the line took.
pub fn read_value(line: &str) -> (r: (String, usize))
    ensures
        r.0@ == trim(line@),
        r.1 == line.spec_bytes().len(),
{
    let chars = str_chars(line);
    let t = trim_chars(chars.as_slice());
    (string_from_chars(t.as_slice()), line.as_bytes().len())
}

/// `<key><value>\r\n`, or nothing when there is no value.
pub fn key_value_build(key: &str, value: Option<&String>) -> (r: String)
    ensures
        r@ == (match value {
            Some(v) => key@ + v@ + seq!['\r', '\n'],
            None => Seq::empty(),
        }),
{
    match value {
        Some(v) => {
            let mut s = String::from_str(key);
            s.append(v.as_str());
            proof {
                reveal_strlit("\r\n");
            }
            s.append(END_LINE);
            s
        },
        None => String::new(),
    }
}

/// `o=<username> <sess-id> <sess-version> <nettype> <addrtype> <unicast-address>`
pub open spec fn origin_spec(s: Seq<char>) -> Result<(Seq<Seq<char>>, u64, u64), SdpError> {
    let f = split_ws(s);
    if f.len() != 6 {
        Err(SdpError::InvalidSyntax)
    } else {
        match (parse_unsigned(f[1], u64::MAX as nat), parse_unsigned(f[2], u64::MAX as nat)) {
            (Some(id), Some(version)) => if f[3] != seq!['I', 'N'] {
                Err(SdpError::InvalidValue)
            } else if f[4] != seq!['I', 'P', '4'] && f[4] != seq!['I', 'P', '6'] {
                Err(SdpError::InvalidValue)
            } else {
                Ok((f, id as u64, version as u64))
            },
            _ => Err(SdpError::ParseInt),
        }
    }
}

fn parse_u64(s: &[char]) -> (r: Result<u64, SdpError>)
    ensures
        match parse_unsigned(s@, u64::MAX as nat) {
            Some(v) => r == Ok::<u64, SdpError>(v as u64),
            None => r == Err::<u64, SdpError>(SdpError::ParseInt),
        },
{
    match parse_uint(s, u64::MAX) {
        Some(v) => Ok(v),
        None => Err(SdpError::ParseInt),
    }
}

fn is_network_type(s: &[char]) -> (r: bool)
    ensures
        r == (s@ == seq!['I', 'N']),
{
    let t = string_from_chars(s);
    let mut registered: Vec<&str> = Vec::new();
    registered.push("IN");
    proof {
        reveal_strlit("IN");
        assert(registered@[0]@ == seq!['I', 'N']);
        assert(str_views(registered@) =~= seq![seq!['I', 'N']]);
    }
    index_of(t.as_str(), registered.as_slice()) != -1
}

fn is_address_type(s: &[char]) -> (r: bool)
    ensures
        r == (s@ == seq!['I', 'P', '4'] || s@ == seq!['I', 'P', '6']),
{
    let t = string_from_chars(s);
    let mut registered: Vec<&str> = Vec::new();
    registered.push("IP4");
    registered.push("IP6");
    proof {
        reveal_strlit("IP4");
        reveal_strlit("IP6");
        assert(registered@[0]@ == seq!['I', 'P', '4']);
        assert(registered@[1]@ == seq!['I', 'P', '6']);
        assert(str_views(registered@) =~= seq![seq!['I', 'P', '4'], seq!['I', 'P', '6']]);
    }
    index_of(t.as_str(), registered.as_slice()) != -1
}

/// Parses the value of an `o=` line.
pub fn unmarshal_origin(value: &str) -> (r: Result<Origin, SdpError>)
    ensures
        match origin_spec(value@) {
            Ok((f, id, version)) => r matches Ok(o) && o.username@ == f[0] && o.session_id == id
                && o.session_version == version && o.network_type@ == f[3] && o.address_type@
                == f[4] && o.unicast_address@ == f[5],
            Err(e) => r == Err::<Origin, SdpError>(e),
        },
{
    let chars = str_chars(value);
    let fields = split_whitespace(chars.as_slice());
    if fields.len() != 6 {
        return Err(SdpError::InvalidSyntax);
    }
    let id = parse_u64(fields[1].as_slice());
    let version = parse_u64(fields[2].as_slice());
    let (session_id, session_version) = match (id, version) {
        (Ok(a), Ok(b)) => (a, b),
        _ => return Err(SdpError::ParseInt),
    };
    if !is_network_type(fields[3].as_slice()) {
        return Err(SdpError::InvalidValue);
    }
    if !is_address_type(fields[4].as_slice()) {
        return Err(SdpError::InvalidValue);
    }
    Ok(
        Origin {
            username: string_from_chars(fields[0].as_slice()),
            session_id,
            session_version,
            network_type: string_from_chars(fields[3].as_slice()),
            address_type: string_from_chars(fields[4].as_slice()),
            unicast_address: string_from_chars(fields[5].as_slice()),
        },
    )
}

/// `t=<start-time> <stop-time>`: further fields are ignored.
pub open spec fn timing_spec(s: Seq<char>) -> Result<Timing, SdpError> {
    let f = split_ws(s);
    if f.len() < 2 {
        Err(SdpError::InvalidSyntax)
    } else {
        match (parse_unsigned(f[0], u64::MAX as nat), parse_unsigned(f[1], u64::MAX as nat)) {
            (Some(a), Some(b)) => Ok(Timing { start_time: a as u64, stop_time: b as u64 }),
            _ => Err(SdpError::ParseInt),
        }
    }
}

/// Parses the value of a `t=` line.
pub fn unmarshal_timing(value: &str) -> (r: Result<Timing, SdpError>)
    ensures
        r == timing_spec(value@),
{
    let chars = str_chars(value);
    let fields = split_whitespace(chars.as_slice());
    if fields.len() < 2 {
        return Err(SdpError::InvalidSyntax);
    }
    match (parse_u64(fields[0].as_slice()), parse_u64(fields[1].as_slice())) {
        (Ok(a), Ok(b)) => Ok(Timing { start_time: a, stop_time: b }),
        _ => Err(SdpError::ParseInt),
    }
}

/// `v=0`: the only protocol version there is.
pub open spec fn version_spec(s: Seq<char>) -> Result<(), SdpError> {
    match parse_unsigned(s, u32::MAX as nat) {
        Some(v) => if v == 0 {
            Ok(())
        } else {
            Err(SdpError::InvalidValue)
        },
        None => Err(SdpError::ParseInt),
    }
}

/// Checks the value of a `v=` line.
pub fn unmarshal_protocol_version(value: &str) -> (r: Result<(), SdpError>)
    ensures
        r == version_spec(value@),
{
    let chars = str_chars(value);
    match parse_uint(chars.as_slice(), 0xffff_ffff) {
        Some(v) => if v == 0 {
            Ok(())
        } else {
            Err(SdpError::InvalidValue)
        },
        None => Err(SdpError::ParseInt),
    }
}

/// `s` without the copies of `c` at its end (`str::trim_end_matches`).
pub open spec fn trim_end_char(s: Seq<char>, c: char) -> Seq<char>
    decreases s.len(),
{
    if s.len() > 0 && s.last() == c {
        trim_end_char(s.drop_last(), c)
    } else {
        s
    }
}

/// `s` without its trailing copies of `c`.
fn trim_end(s: &[char], c: char) -> (r: Vec<char>)
    ensures
        r@ == trim_end_char(s@, c),
{
    let mut n: usize = s.len();
    assert(s@.take(n as int) =~= s@);
    while n > 0 && s[n - 1] == c
        invariant
            n <= s@.len(),
            trim_end_char(s@.take(n as int), c) == trim_end_char(s@, c),
        decreases n,
    {
        proof {
            assert(s@.take(n as int).drop_last() =~= s@.take(n - 1));
        }
        n = n - 1;
    }
    proof {
        assert(s@.take(s@.len() as int) =~= s@);
    }
    chars_range(s, 0, n)
}

/// Whether `c` is a time-unit suffix: `d` (days), `h` (hours), `m`
/// (minutes) or `s` (seconds).
pub open spec fn is_unit(c: char) -> bool {
    c == 'd' || c == 'h' || c == 'm' || c == 's'
}

/// Seconds in one unit of the time-unit suffix `c` (`d`, `h`, `m`), or 1
/// (`s`, or no suffix).
pub open spec fn unit_seconds(c: char) -> int {
    if c == 'd' {
        86400
    } else if c == 'h' {
        3600
    } else if c == 'm' {
        60
    } else {
        1
    }
}

/// The number of seconds a time value with an optional unit suffix stands
/// for, or `None` where the digits do not make a 64-bit number.
pub open spec fn time_units(s: Seq<char>) -> Option<int> {
    let m = unit_seconds(s.last());
    let body = if is_unit(s.last()) {
        trim_end_char(s, s.last())
    } else {
        s
    };
    match parse_signed(body) {
        Some(v) => Some(v * m),
        None => None,
    }
}

/// The seconds a time value stands for, where they are a number at all,
/// fit in 64 bits.
pub open spec fn time_units_in_range(s: Seq<char>) -> bool {
    match time_units(s) {
        Some(v) => i64::MIN <= v <= i64::MAX,
        None => true,
    }
}

fn time_units_of(s: &[char]) -> (r: Result<i64, SdpError>)
    requires
        s@.len() > 0,
        time_units_in_range(s@),
    ensures
        match time_units(s@) {
            Some(v) => r == Ok::<i64, SdpError>(v as i64),
            None => r == Err::<i64, SdpError>(SdpError::ParseInt),
        },
{
    let last = s[s.len() - 1];
    assert(last == s@.last());
    if last == 'd' || last == 'h' || last == 'm' || last == 's' {
        let body = trim_end(s, last);
        match parse_i64(body.as_slice()) {
            Some(v) => {
                if last == 'd' {
                    Ok(v * 86400)
                } else if last == 'h' {
                    Ok(v * 3600)
                } else if last == 'm' {
                    Ok(v * 60)
                } else {
                    Ok(v)
                }
            },
            None => Err(SdpError::ParseInt),
        }
    } else {
        match parse_i64(s) {
            Some(v) => Ok(v),
            None => Err(SdpError::ParseInt),
        }
    }
}

/// Seconds from a time value with an optional `d`, `h`, `m` or `s` suffix.
pub fn parse_time_units(value: &str) -> (r: Result<i64, SdpError>)
    requires
        value@.len() > 0,
        time_units_in_range(value@),
    ensures
        match time_units(value@) {
            Some(v) => r == Ok::<i64, SdpError>(v as i64),
            None => r == Err::<i64, SdpError>(SdpError::ParseInt),
        },
{
    let chars = str_chars(value);
    time_units_of(chars.as_slice())
}

/// The pieces of a split on whitespace are never empty.
proof fn lemma_split_ws_nonempty(s: Seq<char>)
    ensures
        forall|i: int| 0 <= i < split_ws(s).len() ==> #[trigger] split_ws(s)[i].len() > 0,
{
    lemma_ws_fold_nonempty(s);
}

proof fn lemma_ws_fold_nonempty(s: Seq<char>)
    ensures
        forall|i: int|
            0 <= i < ws_fold(s).0.len() ==> #[trigger] ws_fold(s).0[i].len() > 0,
    decreases s.len(),
{
    if s.len() > 0 {
        lemma_ws_fold_nonempty(s.drop_last());
        let (toks, cur) = ws_fold(s.drop_last());
        assert forall|i: int| 0 <= i < ws_fold(s).0.len() implies #[trigger] ws_fold(s).0[i].len()
            > 0 by {
            if i < toks.len() {
                assert(ws_fold(s).0[i] == toks[i]);
            }
        }
    }
}

/// Seconds of each of a list of time values, left to right, up to the
/// first that is not a number.
pub open spec fn units_list(f: Seq<Seq<char>>) -> Option<Seq<int>>
    decreases f.len(),
{
    if f.len() == 0 {
        Some(Seq::empty())
    } else {
        match units_list(f.drop_last()) {
            Some(vs) => match time_units(f.last()) {
                Some(v) => Some(vs.push(v)),
                None => None,
            },
            None => None,
        }
    }
}

/// No time value of the list that is reached overflows.
pub open spec fn units_list_in_range(f: Seq<Seq<char>>) -> bool
    decreases f.len(),
{
    if f.len() == 0 {
        true
    } else {
        units_list_in_range(f.drop_last()) && (units_list(f.drop_last()) is Some
            ==> time_units_in_range(f.last()))
    }
}

/// An `r=` value reached by the parser overflows nowhere.
pub open spec fn repeat_time_in_range(s: Seq<char>) -> bool {
    split_ws(s).len() < 3 || units_list_in_range(split_ws(s))
}

/// `r=<repeat interval> <active duration> <offsets from start-time>...`
pub open spec fn repeat_time_spec(s: Seq<char>) -> Result<Seq<int>, SdpError> {
    let f = split_ws(s);
    if f.len() < 3 {
        Err(SdpError::InvalidSyntax)
    } else {
        match units_list(f) {
            Some(vs) => Ok(vs),
            None => Err(SdpError::ParseInt),
        }
    }
}

proof fn lemma_units_list_len(f: Seq<Seq<char>>)
    ensures
        units_list(f) matches Some(vs) ==> vs.len() == f.len(),
    decreases f.len(),
{
    if f.len() > 0 {
        lemma_units_list_len(f.drop_last());
    }
}

/// Parses the value of an `r=` line: the interval, the duration and then
/// the offsets are the time values in order.
pub fn unmarshal_repeat_times(value: &str) -> (r: Result<RepeatTime, SdpError>)
    requires
        repeat_time_in_range(value@),
    ensures
        match repeat_time_spec(value@) {
            Ok(vs) => r matches Ok(rt) && rt.interval == vs[0] && rt.duration == vs[1]
                && rt.offsets@.len() + 2 == vs.len() && forall|i: int|
                0 <= i < rt.offsets@.len() ==> #[trigger] rt.offsets@[i] == vs[i + 2],
            Err(e) => r matches Err(x) && x == e,
        },
{
    let chars = str_chars(value);
    let fields = split_whitespace(chars.as_slice());
    if fields.len() < 3 {
        return Err(SdpError::InvalidSyntax);
    }
    let ghost f = split_ws(value@);
    proof {
        lemma_split_ws_nonempty(value@);
        lemma_units_list_len(f);
    }
    let mut values: Vec<i64> = Vec::new();
    let mut i: usize = 0;
    while i < fields.len()
        invariant
            i <= fields@.len() == f.len(),
            f.len() >= 3,
            f == split_ws(value@),
            forall|k: int| 0 <= k < fields@.len() ==> #[trigger] fields@[k]@ == f[k],
            forall|k: int| 0 <= k < f.len() ==> #[trigger] f[k].len() > 0,
            units_list_in_range(f),
            units_list(f.take(i as int)) == Some(values@.map_values(|v: i64| v as int)),
        decreases f.len() - i,
    {
        proof {
            assert(f.take(i + 1).drop_last() =~= f.take(i as int));
            assert(f.take(i + 1).last() == fields@[i as int]@);
            lemma_units_in_range_prefix(f, i + 1);
        }
        match time_units_of(fields[i].as_slice()) {
            Ok(v) => {
                values.push(v);
                proof {
                    assert(values@.map_values(|v: i64| v as int) =~= units_list(
                        f.take(i as int),
                    )->0.push(v as int));
                }
            },
            Err(e) => {
                proof {
                    assert(units_list(f.take(i + 1)) is None);
                    lemma_units_list_prefix_none(f, i + 1);
                }
                return Err(e);
            },
        }
        i = i + 1;
    }
    proof {
        assert(f.take(f.len() as int) =~= f);
        lemma_units_list_len(f);
    }
    let interval = values[0];
    let duration = values[1];
    let mut offsets: Vec<i64> = Vec::new();
    let mut j: usize = 2;
    while j < values.len()
        invariant
            2 <= j <= values@.len(),
            offsets@ == values@.subrange(2, j as int),
        decreases values@.len() - j,
    {
        offsets.push(values[j]);
        j = j + 1;
        assert(offsets@ =~= values@.subrange(2, j as int));
    }
    Ok(RepeatTime { interval, duration, offsets })
}

proof fn lemma_units_in_range_prefix(f: Seq<Seq<char>>, n: int)
    requires
        0 <= n <= f.len(),
        units_list_in_range(f),
    ensures
        units_list_in_range(f.take(n)),
    decreases f.len() - n,
{
    if n < f.len() {
        lemma_units_in_range_prefix(f, n + 1);
        assert(f.take(n + 1).drop_last() =~= f.take(n));
    } else {
        assert(f.take(n) =~= f);
    }
}

proof fn lemma_units_list_prefix_none(f: Seq<Seq<char>>, n: int)
    requires
        0 <= n <= f.len(),
        units_list(f.take(n)) is None,
    ensures
        units_list(f) is None,
    decreases f.len() - n,
{
    if n < f.len() {
        assert(f.take(n + 1).drop_last() =~= f.take(n));
        lemma_units_list_prefix_none(f, n + 1);
    } else {
        assert(f.take(n) =~= f);
    }
}

/// Adjustment times and offsets of a `z=` line, pair by pair from the
/// front, up to the first field that is not a number.
pub open spec fn zones_spec(f: Seq<Seq<char>>) -> Option<Seq<(u64, int)>>
    decreases f.len(),
{
    if f.len() < 2 {
        Some(Seq::empty())
    } else {
        match (parse_unsigned(f[0], u64::MAX as nat), time_units(f[1])) {
            (Some(a), Some(o)) => match zones_spec(f.subrange(2, f.len() as int)) {
                Some(rest) => Some(seq![(a as u64, o)] + rest),
                None => None,
            },
            _ => None,
        }
    }
}

/// No offset of a `z=` line that is reached overflows.
pub open spec fn zones_in_range(f: Seq<Seq<char>>) -> bool
    decreases f.len(),
{
    if f.len() < 2 {
        true
    } else {
        match parse_unsigned(f[0], u64::MAX as nat) {
            Some(_) => time_units_in_range(f[1]) && (time_units(f[1]) is Some ==> zones_in_range(
                f.subrange(2, f.len() as int),
            )),
            None => true,
        }
    }
}

/// `z=<adjustment time> <offset> <adjustment time> <offset> ...`
pub open spec fn time_zones_spec(s: Seq<char>) -> Result<Seq<(u64, int)>, SdpError> {
    let f = split_ws(s);
    if f.len() % 2 != 0 {
        Err(SdpError::InvalidSyntax)
    } else {
        match zones_spec(f) {
            Some(zs) => Ok(zs),
            None => Err(SdpError::ParseInt),
        }
    }
}

/// A time zone as an adjustment time and an offset.
pub open spec fn zone_view(z: TimeZone) -> (u64, int) {
    (z.adjustment_time, z.offset as int)
}

/// Whether the seconds a time value stands for fit in 64 bits, and
/// whether it stands for a number at all.
fn time_units_status(s: &[char]) -> (r: (bool, bool))
    requires
        s@.len() > 0,
    ensures
        r.0 == time_units_in_range(s@),
        r.1 == (time_units(s@) is Some),
{
    let last = s[s.len() - 1];
    assert(last == s@.last());
    if last == 'd' || last == 'h' || last == 'm' || last == 's' {
        let body = trim_end(s, last);
        let m: i64 = if last == 'd' {
            86400
        } else if last == 'h' {
            3600
        } else if last == 'm' {
            60
        } else {
            1
        };
        match parse_i64(body.as_slice()) {
            Some(v) => (v.checked_mul(m).is_some(), true),
            None => (true, false),
        }
    } else {
        (true, parse_i64(s).is_some())
    }
}

/// Whether no time value of an `r=` value overflows where it is reached.
pub fn repeat_time_value_in_range(value: &str) -> (r: bool)
    ensures
        r == repeat_time_in_range(value@),
{
    let chars = str_chars(value);
    let fields = split_whitespace(chars.as_slice());
    if fields.len() < 3 {
        return true;
    }
    let ghost f = split_ws(value@);
    proof {
        lemma_split_ws_nonempty(value@);
    }
    let mut ok = true;
    let mut some = true;
    let mut i: usize = 0;
    while i < fields.len()
        invariant
            i <= fields@.len() == f.len(),
            f == split_ws(value@),
            forall|k: int| 0 <= k < fields@.len() ==> #[trigger] fields@[k]@ == f[k],
            forall|k: int| 0 <= k < f.len() ==> #[trigger] f[k].len() > 0,
            ok == units_list_in_range(f.take(i as int)),
            some == (units_list(f.take(i as int)) is Some),
        decreases f.len() - i,
    {
        proof {
            assert(f.take(i + 1).drop_last() =~= f.take(i as int));
            assert(f.take(i + 1).last() == fields@[i as int]@);
        }
        let (in_range, is_some) = time_units_status(fields[i].as_slice());
        ok = ok && (!some || in_range);
        some = some && is_some;
        i = i + 1;
    }
    assert(f.take(f.len() as int) =~= f);
    ok
}

/// Whether no offset of a `z=` value overflows where it is reached.
pub fn time_zones_value_in_range(value: &str) -> (r: bool)
    ensures
        r == zones_in_range(split_ws(value@)),
{
    let chars = str_chars(value);
    let fields = split_whitespace(chars.as_slice());
    let ghost f = split_ws(value@);
    proof {
        lemma_split_ws_nonempty(value@);
        assert(f.subrange(0, f.len() as int) =~= f);
    }
    let mut i: usize = 0;
    while fields.len() - i >= 2
        invariant
            i <= fields@.len() == f.len(),
            f == split_ws(value@),
            forall|k: int| 0 <= k < fields@.len() ==> #[trigger] fields@[k]@ == f[k],
            forall|k: int| 0 <= k < f.len() ==> #[trigger] f[k].len() > 0,
            zones_in_range(f) == zones_in_range(f.subrange(i as int, f.len() as int)),
        decreases f.len() - i,
    {
        let ghost g = f.subrange(i as int, f.len() as int);
        proof {
            assert(g[0] == f[i as int]);
            assert(g[1] == f[i + 1]);
            assert(g.subrange(2, g.len() as int) =~= f.subrange(i + 2, f.len() as int));
        }
        if parse_uint(fields[i].as_slice(), u64::MAX).is_none() {
            return true;
        }
        let (in_range, is_some) = time_units_status(fields[i + 1].as_slice());
        if !in_range {
            return false;
        }
        if !is_some {
            return true;
        }
        i = i + 2;
    }
    true
}

/// Parses the value of a `z=` line into its adjustments.
pub fn unmarshal_time_zones(value: &str) -> (r: Result<Vec<TimeZone>, SdpError>)
    requires
        zones_in_range(split_ws(value@)),
    ensures
        match time_zones_spec(value@) {
            Ok(zs) => r matches Ok(v) && v@.map_values(|z: TimeZone| zone_view(z)) == zs,
            Err(e) => r matches Err(x) && x == e,
        },
{
    let chars = str_chars(value);
    let fields = split_whitespace(chars.as_slice());
    if fields.len() % 2 != 0 {
        return Err(SdpError::InvalidSyntax);
    }
    let ghost f = split_ws(value@);
    proof {
        lemma_split_ws_nonempty(value@);
        assert(f.subrange(0, f.len() as int) =~= f);
    }
    let mut zones: Vec<TimeZone> = Vec::new();
    let mut i: usize = 0;
    while i < fields.len()
        invariant
            i <= fields@.len() == f.len(),
            f == split_ws(value@),
            f.len() % 2 == 0,
            i % 2 == 0,
            forall|k: int| 0 <= k < fields@.len() ==> #[trigger] fields@[k]@ == f[k],
            forall|k: int| 0 <= k < f.len() ==> #[trigger] f[k].len() > 0,
            zones_in_range(f.subrange(i as int, f.len() as int)),
            zones_spec(f) == match zones_spec(f.subrange(i as int, f.len() as int)) {
                Some(rest) => Some(zones@.map_values(|z: TimeZone| zone_view(z)) + rest),
                None => None,
            },
        decreases f.len() - i,
    {
        let ghost g = f.subrange(i as int, f.len() as int);
        proof {
            assert(i + 2 <= f.len());
            assert(g.len() >= 2);
            assert(g[0] == f[i as int]);
            assert(g[1] == f[i + 1]);
            assert(g.subrange(2, g.len() as int) =~= f.subrange(i + 2, f.len() as int));
        }
        let adjustment_time = match parse_u64(fields[i].as_slice()) {
            Ok(a) => a,
            Err(e) => {
                assert(zones_spec(g) is None);
                return Err(e);
            },
        };
        let offset = match time_units_of(fields[i + 1].as_slice()) {
            Ok(o) => o,
            Err(e) => {
                assert(zones_spec(g) is None);
                return Err(e);
            },
        };
        let ghost before = zones@.map_values(|z: TimeZone| zone_view(z));
        zones.push(TimeZone { adjustment_time, offset });
        proof {
            assert(zones@.map_values(|z: TimeZone| zone_view(z)) =~= before + seq![
                (adjustment_time, offset as int),
            ]);
            let rest = zones_spec(f.subrange(i + 2, f.len() as int));
            if rest is Some {
                assert(before + (seq![(adjustment_time, offset as int)] + rest->0) =~= (before
                    + seq![(adjustment_time, offset as int)]) + rest->0);
            }
        }
        i = i + 2;
    }
    proof {
        assert(zones@.map_values(|z: TimeZone| zone_view(z)) + Seq::<(u64, int)>::empty()
            =~= zones@.map_values(|z: TimeZone| zone_view(z)));
    }
    Ok(zones)
}

/// A `b=` line: the bandwidth type, whether it is experimental, and the
/// bandwidth in kilobits per second.
#[derive(Debug)]
pub struct Bandwidth {
    pub experimental: bool,
    pub bandwidth_type: String,
    pub bandwidth: u64,
}

/// Whether `s` begins with `X-`, the mark of an experimental type.
pub open spec fn is_experimental(s: Seq<char>) -> bool {
    s.len() >= 2 && s[0] == 'X' && s[1] == '-'
}

/// `s` without its leading `X-` marks (`str::trim_start_matches("X-")`).
pub open spec fn strip_experimental(s: Seq<char>) -> Seq<char>
    decreases s.len(),
{
    if is_experimental(s) {
        strip_experimental(s.subrange(2, s.len() as int))
    } else {
        s
    }
}

/// `b=<bwtype>:<bandwidth>`: the type is `CT`, `AS` or experimental.
pub open spec fn bandwidth_spec(s: Seq<char>) -> Result<(bool, Seq<char>, u64), SdpError> {
    let parts = split_on(s, ':');
    if parts.len() != 2 {
        Err(SdpError::InvalidSyntax)
    } else if !is_experimental(parts[0]) && parts[0] != seq!['C', 'T'] && parts[0] != seq![
        'A',
        'S',
    ] {
        Err(SdpError::InvalidValue)
    } else {
        match parse_unsigned(parts[1], u64::MAX as nat) {
            Some(b) => Ok(
                (
                    is_experimental(parts[0]),
                    if is_experimental(parts[0]) {
                        strip_experimental(parts[0])
                    } else {
                        parts[0]
                    },
                    b as u64,
                ),
            ),
            None => Err(SdpError::ParseInt),
        }
    }
}

fn strip_experimental_chars(s: &[char]) -> (r: Vec<char>)
    ensures
        r@ == strip_experimental(s@),
{
    let mut a: usize = 0;
    assert(s@.subrange(0, s@.len() as int) =~= s@);
    while s.len() - a >= 2 && s[a] == 'X' && s[a + 1] == '-'
        invariant
            a <= s@.len(),
            strip_experimental(s@.subrange(a as int, s@.len() as int)) == strip_experimental(s@),
        decreases s@.len() - a,
    {
        proof {
            let t = s@.subrange(a as int, s@.len() as int);
            assert(t[0] == 'X' && t[1] == '-');
            assert(t.subrange(2, t.len() as int) =~= s@.subrange(a + 2, s@.len() as int));
        }
        a = a + 2;
    }
    proof {
        let t = s@.subrange(a as int, s@.len() as int);
        if t.len() >= 2 {
            assert(t[0] == s@[a as int] && t[1] == s@[a + 1]);
        }
    }
    chars_range(s, a, s.len())
}

fn is_bandwidth_type(s: &[char]) -> (r: bool)
    ensures
        r == (s@ == seq!['C', 'T'] || s@ == seq!['A', 'S']),
{
    let t = string_from_chars(s);
    let mut registered: Vec<&str> = Vec::new();
    registered.push("CT");
    registered.push("AS");
    proof {
        reveal_strlit("CT");
        reveal_strlit("AS");
        assert(registered@[0]@ == seq!['C', 'T']);
        assert(registered@[1]@ == seq!['A', 'S']);
        assert(str_views(registered@) =~= seq![seq!['C', 'T'], seq!['A', 'S']]);
    }
    index_of(t.as_str(), registered.as_slice()) != -1
}

/// Parses the value of a `b=` line.
pub fn unmarshal_bandwidth(value: &str) -> (r: Result<Bandwidth, SdpError>)
    ensures
        match bandwidth_spec(value@) {
            Ok((experimental, ty, b)) => r matches Ok(bw) && bw.experimental == experimental
                && bw.bandwidth_type@ == ty && bw.bandwidth == b,
            Err(e) => r matches Err(x) && x == e,
        },
{
    let chars = str_chars(value);
    let parts = split_char(chars.as_slice(), ':');
    if parts.len() != 2 {
        return Err(SdpError::InvalidSyntax);
    }
    let p0 = parts[0].as_slice();
    let experimental = p0.len() >= 2 && p0[0] == 'X' && p0[1] == '-';
    let bandwidth_type = if experimental {
        strip_experimental_chars(p0)
    } else {
        if !is_bandwidth_type(p0) {
            return Err(SdpError::InvalidValue);
        }
        chars_range(p0, 0, p0.len())
    };
    proof {
        assert(p0@.subrange(0, p0@.len() as int) =~= p0@);
    }
    let bandwidth = match parse_u64(parts[1].as_slice()) {
        Ok(b) => b,
        Err(e) => return Err(e),
    };
    Ok(
        Bandwidth {
            experimental,
            bandwidth_type: string_from_chars(bandwidth_type.as_slice()),
            bandwidth,
        },
    )
}

/// The address of a `c=` line.
#[derive(Debug)]
pub struct Address {
    pub address: String,
    pub ttl: Option<isize>,
    pub range: Option<isize>,
}

/// A `c=` line: network type, address type and an optional address.
#[derive(Debug)]
pub struct ConnectionInformation {
    pub network_type: String,
    pub address_type: String,
    pub address: Option<Address>,
}

/// `c=<nettype> <addrtype> [<connection-address>]`: the fields, if they are
/// well formed.
pub open spec fn connection_spec(s: Seq<char>) -> Result<Seq<Seq<char>>, SdpError> {
    let f = split_ws(s);
    if f.len() < 2 {
        Err(SdpError::InvalidSyntax)
    } else if f[0] != seq!['I', 'N'] {
        Err(SdpError::InvalidValue)
    } else if f[1] != seq!['I', 'P', '4'] && f[1] != seq!['I', 'P', '6'] {
        Err(SdpError::InvalidValue)
    } else {
        Ok(f)
    }
}

/// Parses the value of a `c=` line.
pub fn unmarshal_connection_information(value: &str) -> (r: Result<ConnectionInformation, SdpError>)
    ensures
        match connection_spec(value@) {
            Ok(f) => r matches Ok(ci) && ci.network_type@ == f[0] && ci.address_type@ == f[1] && (
            if f.len() > 2 {
                ci.address matches Some(a) && a.address@ == f[2] && a.ttl is None
                    && a.range is None
            } else {
                ci.address is None
            }),
            Err(e) => r matches Err(x) && x == e,
        },
{
    let chars = str_chars(value);
    let fields = split_whitespace(chars.as_slice());
    if fields.len() < 2 {
        return Err(SdpError::InvalidSyntax);
    }
    if !is_network_type(fields[0].as_slice()) {
        return Err(SdpError::InvalidValue);
    }
    if !is_address_type(fields[1].as_slice()) {
        return Err(SdpError::InvalidValue);
    }
    let address = if fields.len() > 2 {
        Some(Address { address: string_from_chars(fields[2].as_slice()), ttl: None, range: None })
    } else {
        None
    };
    Ok(
        ConnectionInformation {
            network_type: string_from_chars(fields[0].as_slice()),
            address_type: string_from_chars(fields[1].as_slice()),
            address,
        },
    )
}

/// An `a=` line: a key, and a value after the first `:` if there is one.
#[derive(Debug)]
pub struct Attribute {
    pub key: String,
    pub value: Option<String>,
}

/// Parses the value of an `a=` line.
pub fn unmarshal_attribute(value: &str) -> (r: Attribute)
    ensures
        r.key@ == split_once_on(value@, ':')[0],
        split_once_on(value@, ':').len() == 2 ==> (r.value matches Some(v) && v@ == split_once_on(
            value@,
            ':',
        )[1]),
        split_once_on(value@, ':').len() != 2 ==> r.value is None,
{
    let chars = str_chars(value);
    let fields = split_once(chars.as_slice(), ':');
    let key = string_from_chars(fields[0].as_slice());
    if fields.len() == 2 {
        Attribute { key, value: Some(string_from_chars(fields[1].as_slice())) }
    } else {
        Attribute { key, value: None }
    }
}

impl Timing {
    /// `<start-time> <stop-time>`.
    pub fn to_string(&self) -> (r: String)
        ensures
            r@ == decimal(self.start_time as nat) + seq![' '] + decimal(self.stop_time as nat),
    {
        let mut out: Vec<char> = Vec::new();
        push_decimal(&mut out, self.start_time);
        out.push(' ');
        push_decimal(&mut out, self.stop_time);
        string_from_chars(out.as_slice())
    }
}

impl TimeZone {
    /// `<adjustment time> <offset>`.
    pub fn to_string(&self) -> (r: String)
        ensures
            r@ == decimal(self.adjustment_time as nat) + seq![' '] + signed_decimal(
                self.offset as int,
            ),
    {
        let mut out: Vec<char> = Vec::new();
        push_decimal(&mut out, self.adjustment_time);
        out.push(' ');
        push_signed_decimal(&mut out, self.offset);
        string_from_chars(out.as_slice())
    }
}

/// The offsets of a repeat time, each after a space.
pub open spec fn offsets_text(os: Seq<i64>) -> Seq<char>
    decreases os.len(),
{
    if os.len() == 0 {
        Seq::empty()
    } else {
        offsets_text(os.drop_last()) + seq![' '] + signed_decimal(os.last() as int)
    }
}

impl RepeatTime {
    /// `<interval> <duration> <offset>...`, separated by spaces.
    pub fn to_string(&self) -> (r: String)
        ensures
            r@ == signed_decimal(self.interval as int) + seq![' '] + signed_decimal(
                self.duration as int,
            ) + offsets_text(self.offsets@),
    {
        let mut out: Vec<char> = Vec::new();
        push_signed_decimal(&mut out, self.interval);
        out.push(' ');
        push_signed_decimal(&mut out, self.duration);
        let ghost head = out@;
        let mut i: usize = 0;
        while i < self.offsets.len()
            invariant
                i <= self.offsets@.len(),
                out@ == head + offsets_text(self.offsets@.take(i as int)),
            decreases self.offsets@.len() - i,
        {
            proof {
                assert(self.offsets@.take(i + 1).drop_last() =~= self.offsets@.take(i as int));
            }
            out.push(' ');
            push_signed_decimal(&mut out, self.offsets[i]);
            i = i + 1;
            assert(out@ =~= head + offsets_text(self.offsets@.take(i as int)));
        }
        assert(self.offsets@.take(self.offsets@.len() as int) =~= self.offsets@);
        string_from_chars(out.as_slice())
    }
}

impl Origin {
    /// `<username> <sess-id> <sess-version> <nettype> <addrtype> <address>`.
    pub fn to_string(&self) -> (r: String)
        ensures
            r@ == self.username@ + seq![' '] + decimal(self.session_id as nat) + seq![' ']
                + decimal(self.session_version as nat) + seq![' '] + self.network_type@ + seq![
                ' ',
            ] + self.address_type@ + seq![' '] + self.unicast_address@,
    {
        let mut out: Vec<char> = Vec::new();
        push_str(&mut out, self.username.as_str());
        out.push(' ');
        push_decimal(&mut out, self.session_id);
        out.push(' ');
        push_decimal(&mut out, self.session_version);
        out.push(' ');
        push_str(&mut out, self.network_type.as_str());
        out.push(' ');
        push_str(&mut out, self.address_type.as_str());
        out.push(' ');
        push_str(&mut out, self.unicast_address.as_str());
        string_from_chars(out.as_slice())
    }
}

/// Whitespace-free text.
pub open spec fn no_ws(s: Seq<char>) -> bool {
    forall|i: int| 0 <= i < s.len() ==> !is_ws(#[trigger] s[i])
}

/// Splitting state after text with no whitespace appended: the piece under
/// way grows.
pub(crate) proof fn lemma_ws_fold_append(p: Seq<char>, q: Seq<char>)
    requires
        no_ws(q),
    ensures
        ws_fold(p + q) == (ws_fold(p).0, ws_fold(p).1 + q),
    decreases q.len(),
{
    if q.len() == 0 {
        assert(p + q =~= p);
        assert(ws_fold(p).1 + q =~= ws_fold(p).1);
    } else {
        let q0 = q.drop_last();
        assert((p + q).drop_last() =~= p + q0);
        assert((p + q).last() == q.last());
        assert(!is_ws(q[q.len() - 1]));
        assert forall|i: int| 0 <= i < q0.len() implies !is_ws(#[trigger] q0[i]) by {
            assert(q0[i] == q[i]);
        }
        lemma_ws_fold_append(p, q0);
        assert((ws_fold(p).1 + q0).push(q.last()) =~= ws_fold(p).1 + q);
    }
}

/// Two whitespace-free nonempty words with a space between split into the
/// two words.
proof fn lemma_split_two_words(a: Seq<char>, b: Seq<char>)
    requires
        no_ws(a),
        no_ws(b),
        a.len() > 0,
        b.len() > 0,
    ensures
        split_ws(a + seq![' '] + b) == seq![a, b],
{
    let e = Seq::<char>::empty();
    lemma_ws_fold_append(e, a);
    assert(e + a =~= a);
    assert(ws_fold(e) == (Seq::<Seq<char>>::empty(), e));
    assert(ws_fold(a) == (Seq::<Seq<char>>::empty(), e + a));
    let a1 = a + seq![' '];
    assert(a1.drop_last() =~= a);
    assert(is_ws(a1.last()));
    assert(ws_fold(a1) == (seq![a], e));
    lemma_ws_fold_append(a1, b);
    assert(e + b =~= b);
    assert(seq![a].push(b) =~= seq![a, b]);
}

/// The digits of a number are no whitespace, and read back give the
/// number.
pub(crate) proof fn lemma_decimal_reads_back(n: nat)
    ensures
        decimal(n).len() > 0,
        no_ws(decimal(n)),
        decimal(n)[0] != '+',
        super::text::all_digits(decimal(n)),
        super::text::digits_value(decimal(n)) == n,
    decreases n,
{
    let d = (n % 10) as nat;
    assert(super::text::is_digit(super::text::digit_char(d)));
    assert(!is_ws(super::text::digit_char(d)));
    assert(super::text::digit_char(d) as nat - '0' as nat == d);
    if n >= 10 {
        lemma_decimal_reads_back(n / 10);
        let p = decimal(n / 10);
        let s = decimal(n);
        assert(s == p.push(super::text::digit_char(d)));
        assert(s.drop_last() =~= p);
        assert forall|i: int| 0 <= i < s.len() implies !is_ws(#[trigger] s[i]) && super::text::is_digit(s[i]) by {
            if i < p.len() {
                assert(s[i] == p[i]);
            }
        }
        assert(s[0] == p[0]);
        assert(s.last() == super::text::digit_char(d));
        assert(super::text::digits_value(s) == super::text::digits_value(p) * 10 + d);
        assert((n / 10) * 10 + n % 10 == n) by (nonlinear_arith);
    } else {
        let s = decimal(n);
        assert(s == seq![super::text::digit_char(n)]);
        assert(n % 10 == n);
        assert(s.drop_last() =~= Seq::<char>::empty());
        assert(super::text::digits_value(s.drop_last()) == 0);
        assert(s.last() == super::text::digit_char(d));
        assert(super::text::digits_value(s) == d);
    }
}

/// What `Timing::to_string` writes, `unmarshal_timing` reads back.
pub proof fn lemma_timing_roundtrip(t: Timing)
    ensures
        timing_spec(decimal(t.start_time as nat) + seq![' '] + decimal(t.stop_time as nat))
            == Ok::<Timing, SdpError>(t),
{
    let a = decimal(t.start_time as nat);
    let b = decimal(t.stop_time as nat);
    lemma_decimal_reads_back(t.start_time as nat);
    lemma_decimal_reads_back(t.stop_time as nat);
    lemma_split_two_words(a, b);
    let f = split_ws(a + seq![' '] + b);
    assert(f[0] == a && f[1] == b);
    assert(parse_unsigned(a, u64::MAX as nat) == Some(t.start_time as nat));
    assert(parse_unsigned(b, u64::MAX as nat) == Some(t.stop_time as nat));
}

/// The port of an `m=` line, and the number of ports after a `/`.
#[derive(Debug, Clone, Copy, PartialEq, Eq)]
pub struct RangedPort {
    pub value: isize,
    pub range: Option<isize>,
}

/// The fields of an `m=` line.
#[derive(Debug)]
pub struct MediaName {
    pub media: String,
    pub port: RangedPort,
    pub protos: Vec<String>,
    pub formats: Vec<String>,
}

/// The media types registered for `m=` lines.
pub open spec fn is_media_type(s: Seq<char>) -> bool {
    s == seq!['a', 'u', 'd', 'i', 'o'] || s == seq!['v', 'i', 'd', 'e', 'o'] || s == seq![
        't',
        'e',
        'x',
        't',
    ] || s == seq!['a', 'p', 'p', 'l', 'i', 'c', 'a', 't', 'i', 'o', 'n'] || s == seq![
        'm',
        'e',
        's',
        's',
        'a',
        'g',
        'e',
    ]
}

/// The transport protocol names registered for `m=` lines.
pub open spec fn is_proto(s: Seq<char>) -> bool {
    s == seq!['U', 'D', 'P'] || s == seq!['R', 'T', 'P'] || s == seq!['A', 'V', 'P'] || s == seq![
        'S',
        'A',
        'V',
        'P',
    ] || s == seq!['S', 'A', 'V', 'P', 'F'] || s == seq!['T', 'L', 'S'] || s == seq![
        'D',
        'T',
        'L',
        'S',
    ] || s == seq!['S', 'C', 'T', 'P']
}

/// A signed 32-bit number written in `s`.
pub open spec fn parse_i32_spec(s: Seq<char>) -> Option<int> {
    match parse_signed(s) {
        Some(v) => if -2147483648 <= v <= 2147483647 {
            Some(v)
        } else {
            None
        },
        None => None,
    }
}

/// `m=<media> <port>[/<number of ports>] <proto>[/<proto>...] <fmt> ...`
pub open spec fn media_description_spec(s: Seq<char>) -> Result<
    (Seq<char>, int, Option<int>, Seq<Seq<char>>, Seq<Seq<char>>),
    SdpError,
> {
    let f = split_ws(s);
    if f.len() < 4 {
        Err(SdpError::InvalidSyntax)
    } else if !is_media_type(f[0]) {
        Err(SdpError::InvalidValue)
    } else {
        let parts = split_on(f[1], '/');
        match parse_unsigned(parts[0], 65535) {
            None => Err(SdpError::ParseInt),
            Some(port) => {
                let range = if parts.len() > 1 {
                    match parse_i32_spec(parts[1]) {
                        Some(r) => Ok(Some(r)),
                        None => Err(SdpError::ParseInt),
                    }
                } else {
                    Ok(None)
                };
                match range {
                    Err(e) => Err(e),
                    Ok(range) => {
                        let protos = split_on(f[2], '/');
                        if exists|i: int| 0 <= i < protos.len() && !is_proto(#[trigger] protos[i]) {
                            Err(SdpError::InvalidValue)
                        } else {
                            Ok((f[0], port as int, range, protos, f.subrange(3, f.len() as int)))
                        }
                    },
                }
            },
        }
    }
}

fn in_list(s: &[char], names: &[&str]) -> (r: bool)
    requires
        names@.len() <= 100,
    ensures
        r == str_views(names@).contains(s@),
{
    let t = string_from_chars(s);
    index_of(t.as_str(), names) != -1
}

fn is_media_type_exec(s: &[char]) -> (r: bool)
    ensures
        r == is_media_type(s@),
{
    let mut names: Vec<&str> = Vec::new();
    names.push("audio");
    names.push("video");
    names.push("text");
    names.push("application");
    names.push("message");
    proof {
        reveal_strlit("audio");
        reveal_strlit("video");
        reveal_strlit("text");
        reveal_strlit("application");
        reveal_strlit("message");
        assert(names@[0]@ == seq!['a', 'u', 'd', 'i', 'o']);
        assert(names@[1]@ == seq!['v', 'i', 'd', 'e', 'o']);
        assert(names@[2]@ == seq!['t', 'e', 'x', 't']);
        assert(names@[3]@ == seq!['a', 'p', 'p', 'l', 'i', 'c', 'a', 't', 'i', 'o', 'n']);
        assert(names@[4]@ == seq!['m', 'e', 's', 's', 'a', 'g', 'e']);
        let v = str_views(names@);
        assert(v.len() == 5);
        if is_media_type(s@) {
            assert(v[0] == seq!['a', 'u', 'd', 'i', 'o']);
            assert(v[1] == seq!['v', 'i', 'd', 'e', 'o']);
            assert(v[2] == seq!['t', 'e', 'x', 't']);
            assert(v[3] == seq!['a', 'p', 'p', 'l', 'i', 'c', 'a', 't', 'i', 'o', 'n']);
            assert(v[4] == seq!['m', 'e', 's', 's', 'a', 'g', 'e']);
        }
    }
    in_list(s, names.as_slice())
}

fn is_proto_exec(s: &[char]) -> (r: bool)
    ensures
        r == is_proto(s@),
{
    let mut names: Vec<&str> = Vec::new();
    names.push("UDP");
    names.push("RTP");
    names.push("AVP");
    names.push("SAVP");
    names.push("SAVPF");
    names.push("TLS");
    names.push("DTLS");
    names.push("SCTP");
    proof {
        reveal_strlit("UDP");
        reveal_strlit("RTP");
        reveal_strlit("AVP");
        reveal_strlit("SAVP");
        reveal_strlit("SAVPF");
        reveal_strlit("TLS");
        reveal_strlit("DTLS");
        reveal_strlit("SCTP");
        let v = str_views(names@);
        assert(v.len() == 8);
        assert(v[0] == seq!['U', 'D', 'P']);
        assert(v[1] == seq!['R', 'T', 'P']);
        assert(v[2] == seq!['A', 'V', 'P']);
        assert(v[3] == seq!['S', 'A', 'V', 'P']);
        assert(v[4] == seq!['S', 'A', 'V', 'P', 'F']);
        assert(v[5] == seq!['T', 'L', 'S']);
        assert(v[6] == seq!['D', 'T', 'L', 'S']);
        assert(v[7] == seq!['S', 'C', 'T', 'P']);
    }
    in_list(s, names.as_slice())
}

/// The texts of a list of strings.
pub open spec fn string_views(v: Seq<String>) -> Seq<Seq<char>> {
    v.map_values(|p: String| p@)
}

/// The texts of some character vectors.
pub open spec fn char_views(v: Seq<Vec<char>>) -> Seq<Seq<char>> {
    v.map_values(|p: Vec<char>| p@)
}

/// The pieces as strings, if each is a registered protocol name.
fn checked_protos(parts: &Vec<Vec<char>>) -> (r: Option<Vec<String>>)
    ensures
        match r {
            Some(v) => string_views(v@) == char_views(parts@) && forall|k: int|
                0 <= k < parts@.len() ==> is_proto(#[trigger] parts@[k]@),
            None => exists|k: int| 0 <= k < parts@.len() && !is_proto(#[trigger] parts@[k]@),
        },
{
    let mut out: Vec<String> = Vec::new();
    let mut i: usize = 0;
    while i < parts.len()
        invariant
            i <= parts@.len(),
            forall|k: int| 0 <= k < i ==> is_proto(#[trigger] parts@[k]@),
            string_views(out@) == char_views(parts@).take(i as int),
        decreases parts@.len() - i,
    {
        if !is_proto_exec(parts[i].as_slice()) {
            return None;
        }
        let ghost before = string_views(out@);
        out.push(string_from_chars(parts[i].as_slice()));
        proof {
            assert(char_views(parts@).take(i + 1) =~= char_views(parts@).take(i as int).push(
                parts@[i as int]@,
            ));
            assert(string_views(out@) =~= before.push(parts@[i as int]@));
        }
        i = i + 1;
    }
    assert(char_views(parts@).take(parts@.len() as int) =~= char_views(parts@));
    Some(out)
}

/// The vectors from index `from` on, as strings.
fn strings_from(v: &Vec<Vec<char>>, from: usize) -> (r: Vec<String>)
    requires
        from <= v@.len(),
    ensures
        string_views(r@) == char_views(v@).subrange(from as int, v@.len() as int),
{
    let mut out: Vec<String> = Vec::new();
    let mut j: usize = from;
    while j < v.len()
        invariant
            from <= j <= v@.len(),
            string_views(out@) == char_views(v@).subrange(from as int, j as int),
        decreases v@.len() - j,
    {
        let ghost before = string_views(out@);
        out.push(string_from_chars(v[j].as_slice()));
        proof {
            assert(char_views(v@).subrange(from as int, j + 1) =~= char_views(v@).subrange(
                from as int,
                j as int,
            ).push(v@[j as int]@));
            assert(string_views(out@) =~= before.push(v@[j as int]@));
        }
        j = j + 1;
    }
    out
}

/// Parses the value of an `m=` line.
pub fn unmarshal_media_description(value: &str) -> (r: Result<MediaName, SdpError>)
    ensures
        match media_description_spec(value@) {
            Ok((media, port, range, protos, formats)) => r matches Ok(m) && m.media@ == media
                && m.port.value == port && (match range {
                Some(x) => m.port.range == Some(x as isize),
                None => m.port.range is None,
            }) && string_views(m.protos@) == protos && string_views(m.formats@) == formats,
            Err(e) => r matches Err(x) && x == e,
        },
{
    let chars = str_chars(value);
    let fields = split_whitespace(chars.as_slice());
    proof {
        assert(char_views(fields@) =~= split_ws(value@));
    }
    if fields.len() < 4 {
        return Err(SdpError::InvalidSyntax);
    }
    if !is_media_type_exec(fields[0].as_slice()) {
        return Err(SdpError::InvalidValue);
    }
    let parts = split_char(fields[1].as_slice(), '/');
    let port = match parse_uint(parts[0].as_slice(), 65535) {
        Some(p) => p as isize,
        None => return Err(SdpError::ParseInt),
    };
    let range: Option<isize> = if parts.len() > 1 {
        match parse_i64(parts[1].as_slice()) {
            Some(v) => {
                if v < -2147483648 || v > 2147483647 {
                    return Err(SdpError::ParseInt);
                }
                Some(v as isize)
            },
            None => return Err(SdpError::ParseInt),
        }
    } else {
        None
    };
    let proto_parts = split_char(fields[2].as_slice(), '/');
    proof {
        assert(char_views(proto_parts@) =~= split_on(split_ws(value@)[2], '/'));
    }
    let protos = match checked_protos(&proto_parts) {
        Some(p) => p,
        None => return Err(SdpError::InvalidValue),
    };
    let formats = strings_from(&fields, 3);
    Ok(
        MediaName {
            media: string_from_chars(fields[0].as_slice()),
            port: RangedPort { value: port, range },
            protos,
            formats,
        },
    )
}

/// A random 64-bit value from `rand::random`. Nothing is claimed of it.
#[verifier::external_body]
fn random_u64() -> (r: u64) {
    rand::random::<u64>()
}

/// A session identifier made of 64 random bits: the highest bit cleared.
pub open spec fn spec_session_id(bits: u64) -> u64 {
    (bits % 0x8000_0000_0000_0000) as u64
}

/// The session identifier made of `bits`.
pub fn session_id_from(bits: u64) -> (r: u64)
    ensures
        r == spec_session_id(bits),
{
    let c: u64 = u64::MAX ^ (1u64 << 63u64);
    assert(bits & (0xffff_ffff_ffff_ffffu64 ^ (1u64 << 63u64)) == bits % 0x8000_0000_0000_0000)
        by (bit_vector);
    bits & c
}

/// A new random session identifier, with the highest bit zero.
pub fn new_session_id() -> (r: u64)
    ensures
        r < 0x8000_0000_0000_0000,
{
    session_id_from(random_u64())
}

/// The text of the URL that `url::Url::parse` makes of `input`, or `None`
/// where it is not a URL.
pub uninterp spec fn url_parse(input: Seq<char>) -> Option<Seq<char>>;

/// `url::Url::parse`, keeping `Url::as_str`. Claimed: the result is the
/// named parse of the input; the URL grammar is not stated.
#[verifier::external_body]
fn parse_url(input: &str) -> (r: Option<String>)
    ensures
        match r {
            Some(s) => url_parse(input@) == Some(s@),
            None => url_parse(input@) is None,
        },
{
    match url::Url::parse(input) {
        Ok(u) => Some(u.as_str().to_string()),
        Err(_) => None,
    }
}

/// Parses the value of a `u=` line: the URL in its normal form.
pub fn unmarshal_uri(value: &str) -> (r: Result<String, SdpError>)
    ensures
        match url_parse(value@) {
            Some(s) => r matches Ok(x) && x@ == s,
            None => r == Err::<String, SdpError>(SdpError::InvalidUri),
        },
{
    match parse_url(value) {
        Some(s) => Ok(s),
        None => Err(SdpError::InvalidUri),
    }
}

} // verus!
