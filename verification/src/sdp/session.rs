//! A whole session description: its model, the text it is written as,
//! the JSEP defaults it starts from, the codecs its media announce, and
//! the reading of a description line by line.
use vstd::prelude::*;
use super::text::{
    decimal, signed_decimal, join, push_chars, push_decimal, push_signed_decimal, push_str,
    string_from_chars,
};
use super::description::{
    Attribute, Address, ConnectionInformation, Bandwidth, RangedPort, MediaName, Origin, Timing,
    TimeZone, RepeatTime, TimeDescription, offsets_text, string_views, key_value_build,
};
use super::codec::{
    Codec, CodecView, codecs_match, codecs_match_spec, fmtp_spec, merge_codecs, merged, parse_fmtp,
    parse_rtpmap, rtpmap_spec,
};
use super::description::{
    unmarshal_attribute, unmarshal_bandwidth, unmarshal_connection_information,
    unmarshal_media_description, unmarshal_origin, unmarshal_repeat_times, unmarshal_time_zones,
    unmarshal_timing, unmarshal_uri, unmarshal_protocol_version, read_value, bandwidth_spec, connection_spec, media_description_spec, origin_spec, repeat_time_in_range,
    repeat_time_spec, time_zones_spec, timing_spec, url_parse, version_spec, zones_in_range,
};
use super::lexer::{line_for, may_end, next_line, spec_state_after, state_after, LexState, LineKind};
use super::text::{split_once_on, split_ws, trim};
use super::SdpError;
use std::collections::HashMap;

verus! {

broadcast use vstd::std_specs::hash::group_hash_axioms;

/// The text of an optional string.
pub open spec fn opt_text(o: Option<String>) -> Option<Seq<char>> {
    match o {
        Some(s) => Some(s@),
        None => None,
    }
}

/// An attribute as text: its key and its optional value.
pub struct AttributeView {
    pub key: Seq<char>,
    pub value: Option<Seq<char>>,
}

impl View for Attribute {
    type V = AttributeView;

    open spec fn view(&self) -> AttributeView {
        AttributeView { key: self.key@, value: opt_text(self.value) }
    }
}

/// A connection address as text and numbers.
pub struct AddressView {
    pub address: Seq<char>,
    pub ttl: Option<isize>,
    pub range: Option<isize>,
}

impl View for Address {
    type V = AddressView;

    open spec fn view(&self) -> AddressView {
        AddressView { address: self.address@, ttl: self.ttl, range: self.range }
    }
}

/// Connection information as text.
pub struct ConnectionView {
    pub network_type: Seq<char>,
    pub address_type: Seq<char>,
    pub address: Option<AddressView>,
}

impl View for ConnectionInformation {
    type V = ConnectionView;

    open spec fn view(&self) -> ConnectionView {
        ConnectionView {
            network_type: self.network_type@,
            address_type: self.address_type@,
            address: match self.address {
                Some(a) => Some(a@),
                None => None,
            },
        }
    }
}

/// A bandwidth line's fields.
pub struct BandwidthView {
    pub experimental: bool,
    pub bandwidth_type: Seq<char>,
    pub bandwidth: u64,
}

impl View for Bandwidth {
    type V = BandwidthView;

    open spec fn view(&self) -> BandwidthView {
        BandwidthView {
            experimental: self.experimental,
            bandwidth_type: self.bandwidth_type@,
            bandwidth: self.bandwidth,
        }
    }
}

/// A repeat time's numbers.
pub struct RepeatView {
    pub interval: i64,
    pub duration: i64,
    pub offsets: Seq<i64>,
}

impl View for RepeatTime {
    type V = RepeatView;

    open spec fn view(&self) -> RepeatView {
        RepeatView { interval: self.interval, duration: self.duration, offsets: self.offsets@ }
    }
}

/// A time description: its timing and its repeat times.
pub struct TimeView {
    pub timing: Timing,
    pub repeat_times: Seq<RepeatView>,
}

impl View for TimeDescription {
    type V = TimeView;

    open spec fn view(&self) -> TimeView {
        TimeView {
            timing: self.timing,
            repeat_times: repeat_views(self.repeat_times@),
        }
    }
}

/// An origin's fields.
pub struct OriginView {
    pub username: Seq<char>,
    pub session_id: u64,
    pub session_version: u64,
    pub network_type: Seq<char>,
    pub address_type: Seq<char>,
    pub unicast_address: Seq<char>,
}

impl View for Origin {
    type V = OriginView;

    open spec fn view(&self) -> OriginView {
        OriginView {
            username: self.username@,
            session_id: self.session_id,
            session_version: self.session_version,
            network_type: self.network_type@,
            address_type: self.address_type@,
            unicast_address: self.unicast_address@,
        }
    }
}

/// The fields of an `m=` line.
pub struct MediaNameView {
    pub media: Seq<char>,
    pub port: RangedPort,
    pub protos: Seq<Seq<char>>,
    pub formats: Seq<Seq<char>>,
}

impl View for MediaName {
    type V = MediaNameView;

    open spec fn view(&self) -> MediaNameView {
        MediaNameView {
            media: self.media@,
            port: self.port,
            protos: string_views(self.protos@),
            formats: string_views(self.formats@),
        }
    }
}

// ---------------------------------------------------------------------
// The texts of the line values.

/// `<key>` or `<key>:<value>`.
pub open spec fn attribute_text(a: AttributeView) -> Seq<char> {
    match a.value {
        Some(v) => a.key + seq![':'] + v,
        None => a.key,
    }
}

/// `<address>[/<ttl>][/<range>]`.
pub open spec fn address_text(a: AddressView) -> Seq<char> {
    a.address + match a.ttl {
        Some(t) => seq!['/'] + signed_decimal(t as int),
        None => Seq::empty(),
    } + match a.range {
        Some(r) => seq!['/'] + signed_decimal(r as int),
        None => Seq::empty(),
    }
}

/// `<nettype> <addrtype>[ <connection-address>]`.
pub open spec fn connection_text(c: ConnectionView) -> Seq<char> {
    c.network_type + seq![' '] + c.address_type + match c.address {
        Some(a) => seq![' '] + address_text(a),
        None => Seq::empty(),
    }
}

/// `[X-]<bwtype>:<bandwidth>`.
pub open spec fn bandwidth_text(b: BandwidthView) -> Seq<char> {
    (if b.experimental {
        seq!['X', '-']
    } else {
        Seq::empty()
    }) + b.bandwidth_type + seq![':'] + decimal(b.bandwidth as nat)
}

/// `<port>[/<number of ports>]`.
pub open spec fn port_text(p: RangedPort) -> Seq<char> {
    signed_decimal(p.value as int) + match p.range {
        Some(r) => seq!['/'] + signed_decimal(r as int),
        None => Seq::empty(),
    }
}

/// `<media> <port> <proto>/<proto>... <fmt> <fmt>...`.
pub open spec fn media_name_text(m: MediaNameView) -> Seq<char> {
    m.media + seq![' '] + port_text(m.port) + seq![' '] + join(m.protos, seq!['/']) + seq![' ']
        + join(m.formats, seq![' '])
}

/// `<username> <sess-id> <sess-version> <nettype> <addrtype> <address>`.
pub open spec fn origin_text(o: OriginView) -> Seq<char> {
    o.username + seq![' '] + decimal(o.session_id as nat) + seq![' '] + decimal(
        o.session_version as nat,
    ) + seq![' '] + o.network_type + seq![' '] + o.address_type + seq![' '] + o.unicast_address
}

/// `<start-time> <stop-time>`.
pub open spec fn timing_text(t: Timing) -> Seq<char> {
    decimal(t.start_time as nat) + seq![' '] + decimal(t.stop_time as nat)
}

/// `<interval> <duration> <offset>...`.
pub open spec fn repeat_text(r: RepeatView) -> Seq<char> {
    signed_decimal(r.interval as int) + seq![' '] + signed_decimal(r.duration as int)
        + offsets_text(r.offsets)
}

/// `<adjustment time> <offset>`.
pub open spec fn zone_text(z: TimeZone) -> Seq<char> {
    decimal(z.adjustment_time as nat) + seq![' '] + signed_decimal(z.offset as int)
}

fn push_opt_signed(out: &mut Vec<char>, v: Option<isize>)
    ensures
        final(out)@ == old(out)@ + match v {
            Some(x) => seq!['/'] + signed_decimal(x as int),
            None => Seq::<char>::empty(),
        },
{
    match v {
        Some(x) => {
            out.push('/');
            push_signed_decimal(out, x as i64);
            assert(out@ =~= old(out)@ + (seq!['/'] + signed_decimal(x as int)));
        },
        None => {
            assert(out@ =~= old(out)@ + Seq::<char>::empty());
        },
    }
}

impl Attribute {
    /// An attribute of the given key and optional value.
    pub fn new(key: String, value: Option<String>) -> (r: Attribute)
        ensures
            r@ == (AttributeView { key: key@, value: opt_text(value) }),
    {
        Attribute { key, value }
    }

    /// The attribute as text.
    pub fn to_string(&self) -> (r: String)
        ensures
            r@ == attribute_text(self@),
    {
        let mut out: Vec<char> = Vec::new();
        push_str(&mut out, self.key.as_str());
        match &self.value {
            Some(v) => {
                out.push(':');
                push_str(&mut out, v.as_str());
            },
            None => {},
        }
        string_from_chars(out.as_slice())
    }
}

impl Address {
    /// The address as text.
    pub fn to_string(&self) -> (r: String)
        ensures
            r@ == address_text(self@),
    {
        let mut out: Vec<char> = Vec::new();
        push_str(&mut out, self.address.as_str());
        push_opt_signed(&mut out, self.ttl);
        push_opt_signed(&mut out, self.range);
        string_from_chars(out.as_slice())
    }
}

impl ConnectionInformation {
    /// The connection information as text.
    pub fn to_string(&self) -> (r: String)
        ensures
            r@ == connection_text(self@),
    {
        let mut out: Vec<char> = Vec::new();
        push_str(&mut out, self.network_type.as_str());
        out.push(' ');
        push_str(&mut out, self.address_type.as_str());
        let ghost head = out@;
        match &self.address {
            Some(a) => {
                out.push(' ');
                let t = a.to_string();
                push_str(&mut out, t.as_str());
                assert(out@ =~= head + (seq![' '] + address_text(a@)));
            },
            None => {
                assert(out@ =~= head + Seq::<char>::empty());
            },
        }
        string_from_chars(out.as_slice())
    }
}

impl Bandwidth {
    /// The bandwidth as text.
    pub fn to_string(&self) -> (r: String)
        ensures
            r@ == bandwidth_text(self@),
    {
        let mut out: Vec<char> = Vec::new();
        if self.experimental {
            out.push('X');
            out.push('-');
        }
        let ghost head = out@;
        push_str(&mut out, self.bandwidth_type.as_str());
        out.push(':');
        push_decimal(&mut out, self.bandwidth);
        assert(out@ =~= head + self.bandwidth_type@ + seq![':'] + decimal(self.bandwidth as nat));
        string_from_chars(out.as_slice())
    }
}

impl RangedPort {
    /// The port as text.
    pub fn to_string(&self) -> (r: String)
        ensures
            r@ == port_text(*self),
    {
        let mut out: Vec<char> = Vec::new();
        push_signed_decimal(&mut out, self.value as i64);
        push_opt_signed(&mut out, self.range);
        string_from_chars(out.as_slice())
    }
}

/// Appends the strings with `sep` between each two.
fn push_joined(out: &mut Vec<char>, xs: &Vec<String>, sep: char)
    ensures
        final(out)@ == old(out)@ + join(string_views(xs@), seq![sep]),
{
    let ghost v = string_views(xs@);
    let mut i: usize = 0;
    while i < xs.len()
        invariant
            i <= xs@.len(),
            v == string_views(xs@),
            v.len() == xs@.len(),
            out@ == old(out)@ + join(v.take(i as int), seq![sep]),
        decreases xs@.len() - i,
    {
        proof {
            assert(v.take(i + 1).drop_last() =~= v.take(i as int));
            assert(v[i as int] == xs@[i as int]@);
        }
        if i > 0 {
            out.push(sep);
        }
        push_str(out, xs[i].as_str());
        i = i + 1;
        proof {
            if i == 1 {
                assert(v.take(1) =~= seq![v[0]]);
            }
        }
        assert(out@ =~= old(out)@ + join(v.take(i as int), seq![sep]));
    }
    assert(v.take(v.len() as int) =~= v);
}

impl MediaName {
    /// The `m=` fields as text.
    pub fn to_string(&self) -> (r: String)
        ensures
            r@ == media_name_text(self@),
    {
        let mut out: Vec<char> = Vec::new();
        push_str(&mut out, self.media.as_str());
        out.push(' ');
        let p = self.port.to_string();
        push_str(&mut out, p.as_str());
        out.push(' ');
        push_joined(&mut out, &self.protos, '/');
        out.push(' ');
        push_joined(&mut out, &self.formats, ' ');
        string_from_chars(out.as_slice())
    }
}

// ---------------------------------------------------------------------
// Media and session descriptions.

/// The views of a list of bandwidths.
pub open spec fn bandwidth_views(v: Seq<Bandwidth>) -> Seq<BandwidthView> {
    v.map_values(|b: Bandwidth| b@)
}

/// The views of a list of attributes.
pub open spec fn attribute_views(v: Seq<Attribute>) -> Seq<AttributeView> {
    v.map_values(|a: Attribute| a@)
}

/// The views of a list of repeat times.
pub open spec fn repeat_views(v: Seq<RepeatTime>) -> Seq<RepeatView> {
    v.map_values(|r: RepeatTime| r@)
}

/// One media description: its `m=` line and the lines that follow it.
#[derive(Debug)]
pub struct MediaDescription {
    pub media_name: MediaName,
    pub media_title: Option<String>,
    pub connection_information: Option<ConnectionInformation>,
    pub bandwidth: Vec<Bandwidth>,
    pub encryption_key: Option<String>,
    pub attributes: Vec<Attribute>,
}

/// A media description's fields, by their views.
pub struct MediaView {
    pub media_name: MediaNameView,
    pub media_title: Option<Seq<char>>,
    pub connection_information: Option<ConnectionView>,
    pub bandwidth: Seq<BandwidthView>,
    pub encryption_key: Option<Seq<char>>,
    pub attributes: Seq<AttributeView>,
}

/// The view of optional connection information.
pub open spec fn opt_connection(c: Option<ConnectionInformation>) -> Option<ConnectionView> {
    match c {
        Some(x) => Some(x@),
        None => None,
    }
}

impl View for MediaDescription {
    type V = MediaView;

    open spec fn view(&self) -> MediaView {
        MediaView {
            media_name: self.media_name@,
            media_title: opt_text(self.media_title),
            connection_information: opt_connection(self.connection_information),
            bandwidth: bandwidth_views(self.bandwidth@),
            encryption_key: opt_text(self.encryption_key),
            attributes: attribute_views(self.attributes@),
        }
    }
}

/// A session description: the session-level lines, the time descriptions
/// and the media descriptions.
#[derive(Debug)]
pub struct SessionDescription {
    pub version: isize,
    pub origin: Origin,
    pub session_name: String,
    pub session_information: Option<String>,
    /// The URI of the description, in the normal form the URL parser gives.
    pub uri: Option<String>,
    pub email_address: Option<String>,
    pub phone_number: Option<String>,
    pub connection_information: Option<ConnectionInformation>,
    pub bandwidth: Vec<Bandwidth>,
    pub time_descriptions: Vec<TimeDescription>,
    pub time_zones: Vec<TimeZone>,
    pub encryption_key: Option<String>,
    pub attributes: Vec<Attribute>,
    pub media_descriptions: Vec<MediaDescription>,
}

/// A session description's fields, by their views.
pub struct SessionView {
    pub version: isize,
    pub origin: OriginView,
    pub session_name: Seq<char>,
    pub session_information: Option<Seq<char>>,
    pub uri: Option<Seq<char>>,
    pub email_address: Option<Seq<char>>,
    pub phone_number: Option<Seq<char>>,
    pub connection_information: Option<ConnectionView>,
    pub bandwidth: Seq<BandwidthView>,
    pub time_descriptions: Seq<TimeView>,
    pub time_zones: Seq<TimeZone>,
    pub encryption_key: Option<Seq<char>>,
    pub attributes: Seq<AttributeView>,
    pub media_descriptions: Seq<MediaView>,
}

/// The views of a list of time descriptions.
pub open spec fn time_views(v: Seq<TimeDescription>) -> Seq<TimeView> {
    v.map_values(|t: TimeDescription| t@)
}

/// The views of a list of media descriptions.
pub open spec fn media_views(v: Seq<MediaDescription>) -> Seq<MediaView> {
    v.map_values(|m: MediaDescription| m@)
}

impl View for SessionDescription {
    type V = SessionView;

    open spec fn view(&self) -> SessionView {
        SessionView {
            version: self.version,
            origin: self.origin@,
            session_name: self.session_name@,
            session_information: opt_text(self.session_information),
            uri: opt_text(self.uri),
            email_address: opt_text(self.email_address),
            phone_number: opt_text(self.phone_number),
            connection_information: opt_connection(self.connection_information),
            bandwidth: bandwidth_views(self.bandwidth@),
            time_descriptions: time_views(self.time_descriptions@),
            time_zones: self.time_zones@,
            encryption_key: opt_text(self.encryption_key),
            attributes: attribute_views(self.attributes@),
            media_descriptions: media_views(self.media_descriptions@),
        }
    }
}

// ---------------------------------------------------------------------
// The text of a description.

/// The end of a line.
pub open spec fn crlf() -> Seq<char> {
    seq!['\r', '\n']
}

/// `<key><value>\r\n`.
pub open spec fn line(key: Seq<char>, value: Seq<char>) -> Seq<char> {
    key + value + crlf()
}

/// A line where there is a value, nothing where there is none.
pub open spec fn opt_line(key: Seq<char>, value: Option<Seq<char>>) -> Seq<char> {
    match value {
        Some(v) => line(key, v),
        None => Seq::empty(),
    }
}

/// A `c=` line where there is connection information.
pub open spec fn connection_line(c: Option<ConnectionView>) -> Seq<char> {
    match c {
        Some(x) => line(seq!['c', '='], connection_text(x)),
        None => Seq::empty(),
    }
}

/// One `b=` line for each bandwidth, in order.
pub open spec fn bandwidth_lines(bs: Seq<BandwidthView>) -> Seq<char>
    decreases bs.len(),
{
    if bs.len() == 0 {
        Seq::empty()
    } else {
        bandwidth_lines(bs.drop_last()) + line(seq!['b', '='], bandwidth_text(bs.last()))
    }
}

/// One `a=` line for each attribute, in order.
pub open spec fn attribute_lines(attrs: Seq<AttributeView>) -> Seq<char>
    decreases attrs.len(),
{
    if attrs.len() == 0 {
        Seq::empty()
    } else {
        attribute_lines(attrs.drop_last()) + line(seq!['a', '='], attribute_text(attrs.last()))
    }
}

/// One `r=` line for each repeat time, in order.
pub open spec fn repeat_lines(rs: Seq<RepeatView>) -> Seq<char>
    decreases rs.len(),
{
    if rs.len() == 0 {
        Seq::empty()
    } else {
        repeat_lines(rs.drop_last()) + line(seq!['r', '='], repeat_text(rs.last()))
    }
}

/// For each time description, its `t=` line and its `r=` lines.
pub open spec fn time_lines(ts: Seq<TimeView>) -> Seq<char>
    decreases ts.len(),
{
    if ts.len() == 0 {
        Seq::empty()
    } else {
        time_lines(ts.drop_last()) + line(seq!['t', '='], timing_text(ts.last().timing))
            + repeat_lines(ts.last().repeat_times)
    }
}

/// The texts of the time zones.
pub open spec fn zone_texts(zs: Seq<TimeZone>) -> Seq<Seq<char>> {
    zs.map_values(|z: TimeZone| zone_text(z))
}

/// The `z=` line, where there are time zones: all of them, separated by
/// spaces.
pub open spec fn zones_line(zs: Seq<TimeZone>) -> Seq<char> {
    if zs.len() > 0 {
        line(seq!['z', '='], join(zone_texts(zs), seq![' ']))
    } else {
        Seq::empty()
    }
}

/// The lines of one media description.
pub open spec fn media_text(m: MediaView) -> Seq<char> {
    line(seq!['m', '='], media_name_text(m.media_name)) + opt_line(seq!['i', '='], m.media_title)
        + connection_line(m.connection_information) + bandwidth_lines(m.bandwidth) + opt_line(
        seq!['k', '='],
        m.encryption_key,
    ) + attribute_lines(m.attributes)
}

/// The lines of each media description, in order.
pub open spec fn media_lines(ms: Seq<MediaView>) -> Seq<char>
    decreases ms.len(),
{
    if ms.len() == 0 {
        Seq::empty()
    } else {
        media_lines(ms.drop_last()) + media_text(ms.last())
    }
}

/// The session-level lines before the time descriptions.
pub open spec fn session_lines(d: SessionView) -> Seq<char> {
    line(seq!['v', '='], signed_decimal(d.version as int)) + line(
        seq!['o', '='],
        origin_text(d.origin),
    ) + line(seq!['s', '='], d.session_name) + opt_line(seq!['i', '='], d.session_information)
        + opt_line(seq!['u', '='], d.uri) + opt_line(seq!['e', '='], d.email_address) + opt_line(
        seq!['p', '='],
        d.phone_number,
    ) + connection_line(d.connection_information) + bandwidth_lines(d.bandwidth)
}

/// A description as text: its lines in the order the grammar gives them.
pub open spec fn marshal_spec(d: SessionView) -> Seq<char> {
    session_lines(d) + time_lines(d.time_descriptions) + zones_line(d.time_zones) + opt_line(
        seq!['k', '='],
        d.encryption_key,
    ) + attribute_lines(d.attributes) + media_lines(d.media_descriptions)
}

/// Appends `<key><value>\r\n`.
fn push_line(out: &mut Vec<char>, key: &str, value: &String)
    ensures
        final(out)@ == old(out)@ + line(key@, value@),
{
    let l = key_value_build(key, Some(value));
    push_str(out, l.as_str());
    assert(out@ =~= old(out)@ + line(key@, value@));
}

/// Appends a line where there is a value.
fn push_opt_line(out: &mut Vec<char>, key: &str, value: &Option<String>)
    ensures
        final(out)@ == old(out)@ + opt_line(key@, opt_text(*value)),
{
    match value {
        Some(v) => push_line(out, key, v),
        None => {
            assert(out@ =~= old(out)@ + Seq::<char>::empty());
        },
    }
}

/// Appends the `c=` line where there is connection information.
fn push_connection_line(out: &mut Vec<char>, c: &Option<ConnectionInformation>)
    ensures
        final(out)@ == old(out)@ + connection_line(opt_connection(*c)),
{
    match c {
        Some(x) => {
            let t = x.to_string();
            proof {
                reveal_strlit("c=");
            }
            push_line(out, "c=", &t);
        },
        None => {
            assert(out@ =~= old(out)@ + Seq::<char>::empty());
        },
    }
}

fn push_bandwidth_lines(out: &mut Vec<char>, bs: &Vec<Bandwidth>)
    ensures
        final(out)@ == old(out)@ + bandwidth_lines(bandwidth_views(bs@)),
{
    let ghost v = bandwidth_views(bs@);
    proof {
        reveal_strlit("b=");
    }
    let mut i: usize = 0;
    while i < bs.len()
        invariant
            i <= bs@.len(),
            v == bandwidth_views(bs@),
            v.len() == bs@.len(),
            "b="@ == seq!['b', '='],
            out@ == old(out)@ + bandwidth_lines(v.take(i as int)),
        decreases bs@.len() - i,
    {
        proof {
            assert(v.take(i + 1).drop_last() =~= v.take(i as int));
            assert(v.take(i + 1).last() == bs@[i as int]@);
        }
        let t = bs[i].to_string();
        push_line(out, "b=", &t);
        i = i + 1;
        assert(out@ =~= old(out)@ + bandwidth_lines(v.take(i as int)));
    }
    assert(v.take(v.len() as int) =~= v);
}

fn push_attribute_lines(out: &mut Vec<char>, attrs: &Vec<Attribute>)
    ensures
        final(out)@ == old(out)@ + attribute_lines(attribute_views(attrs@)),
{
    let ghost v = attribute_views(attrs@);
    proof {
        reveal_strlit("a=");
    }
    let mut i: usize = 0;
    while i < attrs.len()
        invariant
            i <= attrs@.len(),
            v == attribute_views(attrs@),
            v.len() == attrs@.len(),
            "a="@ == seq!['a', '='],
            out@ == old(out)@ + attribute_lines(v.take(i as int)),
        decreases attrs@.len() - i,
    {
        proof {
            assert(v.take(i + 1).drop_last() =~= v.take(i as int));
            assert(v.take(i + 1).last() == attrs@[i as int]@);
        }
        let t = attrs[i].to_string();
        push_line(out, "a=", &t);
        i = i + 1;
        assert(out@ =~= old(out)@ + attribute_lines(v.take(i as int)));
    }
    assert(v.take(v.len() as int) =~= v);
}

fn push_repeat_lines(out: &mut Vec<char>, rs: &Vec<RepeatTime>)
    ensures
        final(out)@ == old(out)@ + repeat_lines(repeat_views(rs@)),
{
    let ghost v = repeat_views(rs@);
    proof {
        reveal_strlit("r=");
    }
    let mut i: usize = 0;
    while i < rs.len()
        invariant
            i <= rs@.len(),
            v == repeat_views(rs@),
            v.len() == rs@.len(),
            "r="@ == seq!['r', '='],
            out@ == old(out)@ + repeat_lines(v.take(i as int)),
        decreases rs@.len() - i,
    {
        proof {
            assert(v.take(i + 1).drop_last() =~= v.take(i as int));
            assert(v.take(i + 1).last() == rs@[i as int]@);
        }
        let t = rs[i].to_string();
        push_line(out, "r=", &t);
        i = i + 1;
        assert(out@ =~= old(out)@ + repeat_lines(v.take(i as int)));
    }
    assert(v.take(v.len() as int) =~= v);
}

fn push_time_lines(out: &mut Vec<char>, ts: &Vec<TimeDescription>)
    ensures
        final(out)@ == old(out)@ + time_lines(time_views(ts@)),
{
    let ghost v = time_views(ts@);
    proof {
        reveal_strlit("t=");
    }
    let mut i: usize = 0;
    while i < ts.len()
        invariant
            i <= ts@.len(),
            v == time_views(ts@),
            v.len() == ts@.len(),
            "t="@ == seq!['t', '='],
            out@ == old(out)@ + time_lines(v.take(i as int)),
        decreases ts@.len() - i,
    {
        proof {
            assert(v.take(i + 1).drop_last() =~= v.take(i as int));
            assert(v.take(i + 1).last() == ts@[i as int]@);
        }
        let ghost before = out@;
        let t = ts[i].timing.to_string();
        push_line(out, "t=", &t);
        push_repeat_lines(out, &ts[i].repeat_times);
        i = i + 1;
        assert(out@ =~= old(out)@ + time_lines(v.take(i as int)));
    }
    assert(v.take(v.len() as int) =~= v);
}

fn push_zones_line(out: &mut Vec<char>, zs: &Vec<TimeZone>)
    ensures
        final(out)@ == old(out)@ + zones_line(zs@),
{
    if zs.len() == 0 {
        assert(out@ =~= old(out)@ + zones_line(zs@));
        return;
    }
    let mut texts: Vec<String> = Vec::new();
    let mut i: usize = 0;
    while i < zs.len()
        invariant
            i <= zs@.len(),
            string_views(texts@) == zone_texts(zs@.take(i as int)),
        decreases zs@.len() - i,
    {
        let t = zs[i].to_string();
        let ghost before = string_views(texts@);
        texts.push(t);
        proof {
            assert(zs@.take(i + 1) =~= zs@.take(i as int).push(zs@[i as int]));
            assert(string_views(texts@) =~= before.push(t@));
            assert(zone_texts(zs@.take(i + 1)) =~= zone_texts(zs@.take(i as int)).push(
                zone_text(zs@[i as int]),
            ));
        }
        i = i + 1;
    }
    assert(zs@.take(zs@.len() as int) =~= zs@);
    let mut buf: Vec<char> = Vec::new();
    push_joined(&mut buf, &texts, ' ');
    let joined = string_from_chars(buf.as_slice());
    proof {
        reveal_strlit("z=");
    }
    push_line(out, "z=", &joined);
}

fn push_media_text(out: &mut Vec<char>, m: &MediaDescription)
    ensures
        final(out)@ == old(out)@ + media_text(m@),
{
    proof {
        reveal_strlit("m=");
        reveal_strlit("i=");
        reveal_strlit("k=");
    }
    let t = m.media_name.to_string();
    push_line(out, "m=", &t);
    push_opt_line(out, "i=", &m.media_title);
    push_connection_line(out, &m.connection_information);
    push_bandwidth_lines(out, &m.bandwidth);
    push_opt_line(out, "k=", &m.encryption_key);
    push_attribute_lines(out, &m.attributes);
    assert(out@ =~= old(out)@ + media_text(m@));
}

fn push_media_lines(out: &mut Vec<char>, ms: &Vec<MediaDescription>)
    ensures
        final(out)@ == old(out)@ + media_lines(media_views(ms@)),
{
    let ghost v = media_views(ms@);
    let mut i: usize = 0;
    while i < ms.len()
        invariant
            i <= ms@.len(),
            v == media_views(ms@),
            v.len() == ms@.len(),
            out@ == old(out)@ + media_lines(v.take(i as int)),
        decreases ms@.len() - i,
    {
        proof {
            assert(v.take(i + 1).drop_last() =~= v.take(i as int));
            assert(v.take(i + 1).last() == ms@[i as int]@);
        }
        push_media_text(out, &ms[i]);
        i = i + 1;
        assert(out@ =~= old(out)@ + media_lines(v.take(i as int)));
    }
    assert(v.take(v.len() as int) =~= v);
}

#[verifier::rlimit(60)]
#[verifier::spinoff_prover]
fn push_session_lines(out: &mut Vec<char>, d: &SessionDescription)
    ensures
        final(out)@ == old(out)@ + session_lines(d@),
{
    proof {
        reveal_strlit("v=");
        reveal_strlit("o=");
        reveal_strlit("s=");
        reveal_strlit("i=");
        reveal_strlit("u=");
        reveal_strlit("e=");
        reveal_strlit("p=");
    }
    let mut v: Vec<char> = Vec::new();
    push_signed_decimal(&mut v, d.version as i64);
    let version = string_from_chars(v.as_slice());
    assert(version@ =~= signed_decimal(d.version as int));
    let mut buf: Vec<char> = Vec::new();
    push_line(&mut buf, "v=", &version);
    assert(buf@ =~= line(seq!['v', '='], signed_decimal(d.version as int)));
    let origin = d.origin.to_string();
    push_line(&mut buf, "o=", &origin);
    push_line(&mut buf, "s=", &d.session_name);
    push_opt_line(&mut buf, "i=", &d.session_information);
    push_opt_line(&mut buf, "u=", &d.uri);
    push_opt_line(&mut buf, "e=", &d.email_address);
    push_opt_line(&mut buf, "p=", &d.phone_number);
    push_connection_line(&mut buf, &d.connection_information);
    push_bandwidth_lines(&mut buf, &d.bandwidth);
    assert(buf@ == session_lines(d@));
    push_chars(out, buf.as_slice());
}

impl SessionDescription {
    /// The description as text, one line per field, in the order the
    /// grammar gives the lines.
    pub fn marshal(&self) -> (r: String)
        ensures
            r@ == marshal_spec(self@),
    {
        proof {
            reveal_strlit("k=");
        }
        let mut out: Vec<char> = Vec::new();
        push_session_lines(&mut out, self);
        assert(out@ =~= session_lines(self@));
        push_time_lines(&mut out, &self.time_descriptions);
        push_zones_line(&mut out, &self.time_zones);
        push_opt_line(&mut out, "k=", &self.encryption_key);
        push_attribute_lines(&mut out, &self.attributes);
        push_media_lines(&mut out, &self.media_descriptions);
        string_from_chars(out.as_slice())
    }
}

// ---------------------------------------------------------------------
// Building a description.

/// The key of the identity attribute.
pub open spec fn identity_key() -> Seq<char> {
    seq!['i', 'd', 'e', 'n', 't', 'i', 't', 'y']
}

/// The description that JSEP starts from: version 0, origin `- <id>
/// <version> IN IP4 0.0.0.0`, session name `-`, one time description
/// `0 0`, and the identity attribute where it is asked for.
pub open spec fn jsep_view(identity: bool, session_id: u64, session_version: u64) -> SessionView {
    SessionView {
        version: 0,
        origin: OriginView {
            username: seq!['-'],
            session_id,
            session_version,
            network_type: seq!['I', 'N'],
            address_type: seq!['I', 'P', '4'],
            unicast_address: seq!['0', '.', '0', '.', '0', '.', '0'],
        },
        session_name: seq!['-'],
        session_information: None,
        uri: None,
        email_address: None,
        phone_number: None,
        connection_information: None,
        bandwidth: Seq::empty(),
        time_descriptions: seq![
            TimeView { timing: Timing { start_time: 0, stop_time: 0 }, repeat_times: Seq::empty() },
        ],
        time_zones: Seq::empty(),
        encryption_key: None,
        attributes: if identity {
            seq![AttributeView { key: identity_key(), value: None }]
        } else {
            Seq::empty()
        },
        media_descriptions: Seq::empty(),
    }
}

/// The time since 1970 by the system clock: `SystemTime::elapsed` of
/// `UNIX_EPOCH`, with `None` where the clock is set before it. Nothing is
/// claimed of the value, which depends on the clock.
#[verifier::external_body]
fn elapsed_since_epoch() -> (r: Option<std::time::Duration>) {
    std::time::UNIX_EPOCH.elapsed().ok()
}

/// `Duration::subsec_nanos`: the fraction of a second of a duration, in
/// nanoseconds. Claimed: below one billion, as its documentation says;
/// which value it is is not stated, since a duration is opaque here.
#[verifier::external_body]
fn subsec_nanos(d: &std::time::Duration) -> (r: u32)
    ensures
        r < 1_000_000_000,
{
    d.subsec_nanos()
}

impl SessionDescription {
    /// The JSEP starting description with the given session identifier and
    /// version.
    pub fn new_jsep(identity: bool, session_id: u64, session_version: u64) -> (r: SessionDescription)
        ensures
            r@ == jsep_view(identity, session_id, session_version),
    {
        let mut time_descriptions: Vec<TimeDescription> = Vec::new();
        time_descriptions.push(
            TimeDescription { timing: Timing { start_time: 0, stop_time: 0 }, repeat_times: Vec::new() },
        );
        let d = SessionDescription {
            version: 0,
            origin: Origin {
                username: String::from_str("-"),
                session_id,
                session_version,
                network_type: String::from_str("IN"),
                address_type: String::from_str("IP4"),
                unicast_address: String::from_str("0.0.0.0"),
            },
            session_name: String::from_str("-"),
            session_information: None,
            uri: None,
            email_address: None,
            phone_number: None,
            connection_information: None,
            bandwidth: Vec::new(),
            time_descriptions,
            time_zones: Vec::new(),
            encryption_key: None,
            attributes: Vec::new(),
            media_descriptions: Vec::new(),
        };
        proof {
            reveal_strlit("-");
            reveal_strlit("IN");
            reveal_strlit("IP4");
            reveal_strlit("0.0.0.0");
            reveal_strlit("identity");
            assert(repeat_views(d.time_descriptions@[0].repeat_times@) =~= Seq::<RepeatView>::empty());
            assert(time_views(d.time_descriptions@) =~= jsep_view(identity, session_id, session_version).time_descriptions);
            assert(bandwidth_views(d.bandwidth@) =~= Seq::<BandwidthView>::empty());
            assert(attribute_views(d.attributes@) =~= Seq::<AttributeView>::empty());
            assert(media_views(d.media_descriptions@) =~= Seq::<MediaView>::empty());
            assert(d.time_zones@ =~= Seq::<TimeZone>::empty());
            assert(d.origin@.username == seq!['-']);
            assert(d.origin@.network_type == seq!['I', 'N']);
            assert(d.origin@.unicast_address == seq!['0', '.', '0', '.', '0', '.', '0']);
            assert(d.origin@.address_type == seq!['I', 'P', '4']);
            assert(d.origin@ == jsep_view(false, session_id, session_version).origin);
            assert(d@.session_name == seq!['-']);
            assert(d@ == jsep_view(false, session_id, session_version));
            assert(Seq::<AttributeView>::empty().push(AttributeView { key: identity_key(), value: None })
                =~= seq![AttributeView { key: identity_key(), value: None }]);
        }
        if identity {
            let key = String::from_str("identity");
            assert(key@ == identity_key());
            let r = d.with_property_attribute(key);
            assert(r@.attributes == jsep_view(true, session_id, session_version).attributes);
            r
        } else {
            d
        }
    }

    /// A new JSEP description: a random session identifier whose highest
    /// bit is zero, and the fraction of the current second in nanoseconds as
    /// its version (0 where the clock is set before 1970).
    pub fn new(identity: bool) -> (r: SessionDescription)
        ensures
            exists|id: u64, version: u64|
                id < 0x8000_0000_0000_0000 && version < 1_000_000_000 && r@ == jsep_view(
                    identity,
                    id,
                    version,
                ),
    {
        let id = super::description::new_session_id();
        let version: u64 = match elapsed_since_epoch() {
            Some(d) => subsec_nanos(&d) as u64,
            None => 0,
        };
        Self::new_jsep(identity, id, version)
    }

    /// Adds the attribute `a=<key>`.
    pub fn with_property_attribute(self, key: String) -> (r: SessionDescription)
        ensures
            r@ == (SessionView {
                attributes: self@.attributes.push(AttributeView { key: key@, value: None }),
                ..self@
            }),
    {
        let mut d = self;
        let ghost before = attribute_views(d.attributes@);
        d.attributes.push(Attribute::new(key, None));
        assert(attribute_views(d.attributes@) =~= before.push(
            AttributeView { key: key@, value: None },
        ));
        d
    }

    /// Adds the attribute `a=<key>:<value>`.
    pub fn with_value_attribute(self, key: String, value: String) -> (r: SessionDescription)
        ensures
            r@ == (SessionView {
                attributes: self@.attributes.push(AttributeView { key: key@, value: Some(value@) }),
                ..self@
            }),
    {
        let mut d = self;
        let ghost before = attribute_views(d.attributes@);
        let ghost a = AttributeView { key: key@, value: Some(value@) };
        d.attributes.push(Attribute::new(key, Some(value)));
        assert(attribute_views(d.attributes@) =~= before.push(a));
        d
    }

    /// Adds the attribute `a=fingerprint:<algorithm> <value>`.
    pub fn with_fingerprint(self, algorithm: String, value: String) -> (r: SessionDescription)
        ensures
            r@ == (SessionView {
                attributes: self@.attributes.push(
                    AttributeView {
                        key: seq!['f', 'i', 'n', 'g', 'e', 'r', 'p', 'r', 'i', 'n', 't'],
                        value: Some(algorithm@ + seq![' '] + value@),
                    },
                ),
                ..self@
            }),
    {
        let mut text = algorithm;
        text.append(" ");
        text.append(value.as_str());
        proof {
            reveal_strlit(" ");
            reveal_strlit("fingerprint");
            assert(text@ =~= algorithm@ + seq![' '] + value@);
        }
        let key = String::from_str("fingerprint");
        assert(key@ == seq!['f', 'i', 'n', 'g', 'e', 'r', 'p', 'r', 'i', 'n', 't']);
        self.with_value_attribute(key, text)
    }

    /// Adds a media description.
    pub fn with_media(self, md: MediaDescription) -> (r: SessionDescription)
        ensures
            r@ == (SessionView { media_descriptions: self@.media_descriptions.push(md@), ..self@ }),
    {
        let mut d = self;
        let ghost before = media_views(d.media_descriptions@);
        let ghost m = md@;
        d.media_descriptions.push(md);
        assert(media_views(d.media_descriptions@) =~= before.push(m));
        d
    }
}

// ---------------------------------------------------------------------
// The codecs of a description.

/// Whether `s` begins with `p`.
pub open spec fn starts_with(s: Seq<char>, p: Seq<char>) -> bool {
    p.len() <= s.len() && s.subrange(0, p.len() as int) == p
}

/// `rtpmap:`
pub open spec fn rtpmap_prefix() -> Seq<char> {
    seq!['r', 't', 'p', 'm', 'a', 'p', ':']
}

/// `fmtp:`
pub open spec fn fmtp_prefix() -> Seq<char> {
    seq!['f', 'm', 't', 'p', ':']
}

/// The codec an attribute describes, where it is an `rtpmap` or `fmtp`
/// attribute that parses.
pub open spec fn attribute_codec(t: Seq<char>) -> Option<CodecView> {
    if starts_with(t, rtpmap_prefix()) {
        match rtpmap_spec(t) {
            Ok(c) => Some(c),
            Err(_) => None,
        }
    } else if starts_with(t, fmtp_prefix()) {
        match fmtp_spec(t) {
            Ok(c) => Some(c),
            Err(_) => None,
        }
    } else {
        None
    }
}

/// A map of codecs after `c` is merged in under its payload type.
pub open spec fn merge_spec(m: Map<u8, CodecView>, c: CodecView) -> Map<u8, CodecView> {
    m.insert(
        c.payload_type,
        if m.contains_key(c.payload_type) {
            merged(m[c.payload_type], c)
        } else {
            c
        },
    )
}

/// The codecs of `m` after the codecs of the attributes are merged in, in
/// order.
pub open spec fn codecs_of_attributes(m: Map<u8, CodecView>, attrs: Seq<AttributeView>) -> Map<
    u8,
    CodecView,
>
    decreases attrs.len(),
{
    if attrs.len() == 0 {
        m
    } else {
        let m0 = codecs_of_attributes(m, attrs.drop_last());
        match attribute_codec(attribute_text(attrs.last())) {
            Some(c) => merge_spec(m0, c),
            None => m0,
        }
    }
}

/// The codecs announced by the attributes of the media descriptions, by
/// payload type.
pub open spec fn codec_map(ms: Seq<MediaView>) -> Map<u8, CodecView>
    decreases ms.len(),
{
    if ms.len() == 0 {
        Map::empty()
    } else {
        codecs_of_attributes(codec_map(ms.drop_last()), ms.last().attributes)
    }
}

/// A map of codecs by their views.
pub open spec fn codec_views(m: Map<u8, Codec>) -> Map<u8, CodecView> {
    m.map_values(|c: Codec| c@)
}

/// Whether the characters begin with those of `p`.
fn chars_start_with(s: &[char], p: &str) -> (r: bool)
    ensures
        r == starts_with(s@, p@),
{
    let pc = super::text::str_chars(p);
    if pc.len() > s.len() {
        return false;
    }
    let mut i: usize = 0;
    while i < pc.len()
        invariant
            i <= pc@.len() <= s@.len(),
            pc@ == p@,
            s@.subrange(0, i as int) == pc@.subrange(0, i as int),
        decreases pc@.len() - i,
    {
        if s[i] != pc[i] {
            assert(s@.subrange(0, pc@.len() as int)[i as int] != pc@[i as int]);
            return false;
        }
        i = i + 1;
        assert(s@.subrange(0, i as int) =~= pc@.subrange(0, i as int));
    }
    assert(pc@.subrange(0, pc@.len() as int) =~= pc@);
    true
}

fn merge_into(codecs: &mut HashMap<u8, Codec>, c: Codec)
    ensures
        codec_views(final(codecs)@) == merge_spec(codec_views(old(codecs)@), c@),
{
    let ghost cv = c@;
    let ghost before = codec_views(codecs@);
    merge_codecs(c, codecs);
    assert(codec_views(codecs@) =~= merge_spec(before, cv));
}

/// Merges the codec of one attribute, if it describes one.
fn merge_attribute(codecs: &mut HashMap<u8, Codec>, a: &Attribute)
    ensures
        codec_views(final(codecs)@) == match attribute_codec(attribute_text(a@)) {
            Some(c) => merge_spec(codec_views(old(codecs)@), c),
            None => codec_views(old(codecs)@),
        },
{
    let t = a.to_string();
    let tc = super::text::str_chars(t.as_str());
    proof {
        reveal_strlit("rtpmap:");
        reveal_strlit("fmtp:");
        assert("rtpmap:"@ =~= rtpmap_prefix());
        assert("fmtp:"@ =~= fmtp_prefix());
    }
    if chars_start_with(tc.as_slice(), "rtpmap:") {
        match parse_rtpmap(t.as_str()) {
            Ok(c) => merge_into(codecs, c),
            Err(_) => {},
        }
    } else if chars_start_with(tc.as_slice(), "fmtp:") {
        match parse_fmtp(t.as_str()) {
            Ok(c) => merge_into(codecs, c),
            Err(_) => {},
        }
    }
}

impl SessionDescription {
    /// The codecs that the `rtpmap` and `fmtp` attributes of the media
    /// descriptions announce, merged by payload type.
    fn build_codec_map(&self) -> (r: HashMap<u8, Codec>)
        ensures
            codec_views(r@) == codec_map(self@.media_descriptions),
    {
        let mut codecs: HashMap<u8, Codec> = HashMap::new();
        let ghost ms = self@.media_descriptions;
        assert(codec_views(codecs@) =~= Map::<u8, CodecView>::empty());
        let mut i: usize = 0;
        while i < self.media_descriptions.len()
            invariant
                i <= self.media_descriptions@.len(),
                ms == self@.media_descriptions,
                ms.len() == self.media_descriptions@.len(),
                codec_views(codecs@) == codec_map(ms.take(i as int)),
            decreases self.media_descriptions@.len() - i,
        {
            let m = &self.media_descriptions[i];
            let ghost attrs = m@.attributes;
            let ghost start = codec_views(codecs@);
            proof {
                assert(ms.take(i + 1).drop_last() =~= ms.take(i as int));
                assert(ms.take(i + 1).last() == m@);
            }
            let mut j: usize = 0;
            while j < m.attributes.len()
                invariant
                    j <= m.attributes@.len(),
                    attrs == m@.attributes,
                    attrs.len() == m.attributes@.len(),
                    codec_views(codecs@) == codecs_of_attributes(start, attrs.take(j as int)),
                decreases m.attributes@.len() - j,
            {
                proof {
                    assert(attrs.take(j + 1).drop_last() =~= attrs.take(j as int));
                    assert(attrs.take(j + 1).last() == m.attributes@[j as int]@);
                }
                merge_attribute(&mut codecs, &m.attributes[j]);
                j = j + 1;
            }
            assert(attrs.take(attrs.len() as int) =~= attrs);
            i = i + 1;
        }
        assert(ms.take(ms.len() as int) =~= ms);
        codecs
    }

    /// The codec announced for a payload type.
    pub fn get_codec_for_payload_type(&self, payload_type: u8) -> (r: Result<Codec, SdpError>)
        ensures
            match r {
                Ok(c) => codec_map(self@.media_descriptions).contains_key(payload_type) && c@
                    == codec_map(self@.media_descriptions)[payload_type],
                Err(e) => e == SdpError::PayloadTypeNotFound && !codec_map(
                    self@.media_descriptions,
                ).contains_key(payload_type),
            },
    {
        let mut codecs = self.build_codec_map();
        match codecs.remove(&payload_type) {
            Some(c) => Ok(c),
            None => Err(SdpError::PayloadTypeNotFound),
        }
    }

    /// A payload type whose codec matches `wanted`, where there is one.
    /// Which of several matching payload types is given is left open: the
    /// map of codecs is searched in its own order.
    pub fn get_payload_type_for_codec(&self, wanted: &Codec) -> (r: Result<u8, SdpError>)
        ensures
            match r {
                Ok(pt) => codec_map(self@.media_descriptions).contains_key(pt) && codecs_match_spec(
                    wanted@,
                    codec_map(self@.media_descriptions)[pt],
                ),
                Err(e) => e == SdpError::CodecNotFound && forall|k: u8|
                    #[trigger] codec_map(self@.media_descriptions).contains_key(k)
                        ==> !codecs_match_spec(wanted@, codec_map(self@.media_descriptions)[k]),
            },
    {
        let codecs = self.build_codec_map();
        let ghost m = codec_views(codecs@);
        for (pt, codec) in it: codecs.iter()
            invariant
                m == codec_views(codecs@),
                m == codec_map(self@.media_descriptions),
                forall|j: int|
                    0 <= j < it.index() ==> !codecs_match_spec(wanted@, (*it.seq()[j].1)@),
        {
            if codecs_match(wanted, codec) {
                return Ok(*pt);
            }
        }
        Err(SdpError::CodecNotFound)
    }
}

// ---------------------------------------------------------------------
// Reading a description.

/// The first position at or after `i` that is not a line break.
pub open spec fn skip_breaks(s: Seq<char>, i: int) -> int
    decreases s.len() - i,
{
    if 0 <= i < s.len() && (s[i] == '\n' || s[i] == '\r') {
        skip_breaks(s, i + 1)
    } else {
        i
    }
}

/// The position just after the first `c` at or after `i`, or the end of
/// the text where there is none.
pub open spec fn past(s: Seq<char>, i: int, c: char) -> int
    decreases s.len() - i,
{
    if i >= s.len() {
        s.len() as int
    } else if 0 <= i && s[i] == c {
        i + 1
    } else {
        past(s, i + 1, c)
    }
}

/// The connection information of the fields of a `c=` value.
pub open spec fn connection_of(f: Seq<Seq<char>>) -> ConnectionView {
    ConnectionView {
        network_type: f[0],
        address_type: f[1],
        address: if f.len() > 2 {
            Some(AddressView { address: f[2], ttl: None, range: None })
        } else {
            None
        },
    }
}

/// The attribute of an `a=` value: a key, and a value after the first `:`.
pub open spec fn attribute_of(v: Seq<char>) -> AttributeView {
    let f = split_once_on(v, ':');
    AttributeView {
        key: f[0],
        value: if f.len() == 2 {
            Some(f[1])
        } else {
            None
        },
    }
}

/// The repeat time of the seconds of an `r=` value.
pub open spec fn repeat_of(vs: Seq<int>) -> RepeatView {
    RepeatView {
        interval: vs[0] as i64,
        duration: vs[1] as i64,
        offsets: Seq::new((vs.len() - 2) as nat, |k: int| vs[k + 2] as i64),
    }
}

/// The time zones of the pairs of a `z=` value.
pub open spec fn zones_of(zs: Seq<(u64, int)>) -> Seq<TimeZone> {
    zs.map_values(|z: (u64, int)| TimeZone { adjustment_time: z.0, offset: z.1 as i64 })
}

/// A new media description of the fields of an `m=` value.
pub open spec fn media_of(
    media: Seq<char>,
    port: int,
    range: Option<int>,
    protos: Seq<Seq<char>>,
    formats: Seq<Seq<char>>,
) -> MediaView {
    MediaView {
        media_name: MediaNameView {
            media,
            port: RangedPort {
                value: port as isize,
                range: match range {
                    Some(x) => Some(x as isize),
                    None => None,
                },
            },
            protos,
            formats,
        },
        media_title: None,
        connection_information: None,
        bandwidth: Seq::empty(),
        encryption_key: None,
        attributes: Seq::empty(),
    }
}

/// `d` with its last media description replaced by `m`.
pub open spec fn with_last_media(d: SessionView, m: MediaView) -> SessionView {
    SessionView {
        media_descriptions: d.media_descriptions.update(d.media_descriptions.len() - 1, m),
        ..d
    }
}

/// What a line of the given kind and (trimmed) value does to the
/// description read so far, or why it is refused.
pub open spec fn apply_spec(d: SessionView, kind: LineKind, value: Seq<char>) -> Result<
    SessionView,
    SdpError,
> {
    let lm = d.media_descriptions.last();
    match kind {
        LineKind::ProtocolVersion => match version_spec(value) {
            Ok(_) => Ok(d),
            Err(e) => Err(e),
        },
        LineKind::Origin => match origin_spec(value) {
            Ok((f, id, version)) => Ok(
                SessionView {
                    origin: OriginView {
                        username: f[0],
                        session_id: id,
                        session_version: version,
                        network_type: f[3],
                        address_type: f[4],
                        unicast_address: f[5],
                    },
                    ..d
                },
            ),
            Err(e) => Err(e),
        },
        LineKind::SessionName => Ok(SessionView { session_name: value, ..d }),
        LineKind::SessionInformation => Ok(SessionView { session_information: Some(value), ..d }),
        LineKind::Uri => match url_parse(value) {
            Some(u) => Ok(SessionView { uri: Some(u), ..d }),
            None => Err(SdpError::InvalidUri),
        },
        LineKind::Email => Ok(SessionView { email_address: Some(value), ..d }),
        LineKind::Phone => Ok(SessionView { phone_number: Some(value), ..d }),
        LineKind::SessionConnectionInformation => match connection_spec(value) {
            Ok(f) => Ok(SessionView { connection_information: Some(connection_of(f)), ..d }),
            Err(e) => Err(e),
        },
        LineKind::SessionBandwidth => match bandwidth_spec(value) {
            Ok((e, t, b)) => Ok(
                SessionView {
                    bandwidth: d.bandwidth.push(
                        BandwidthView { experimental: e, bandwidth_type: t, bandwidth: b },
                    ),
                    ..d
                },
            ),
            Err(e) => Err(e),
        },
        LineKind::Timing => match timing_spec(value) {
            Ok(t) => Ok(
                SessionView {
                    time_descriptions: d.time_descriptions.push(
                        TimeView { timing: t, repeat_times: Seq::empty() },
                    ),
                    ..d
                },
            ),
            Err(e) => Err(e),
        },
        LineKind::RepeatTimes => if split_ws(value).len() < 3 {
            Err(SdpError::InvalidSyntax)
        } else if d.time_descriptions.len() == 0 {
            Err(SdpError::EmptyTimeDescriptions)
        } else {
            match repeat_time_spec(value) {
                Ok(vs) => {
                    let lt = d.time_descriptions.last();
                    Ok(
                        SessionView {
                            time_descriptions: d.time_descriptions.update(
                                d.time_descriptions.len() - 1,
                                TimeView {
                                    repeat_times: lt.repeat_times.push(repeat_of(vs)),
                                    ..lt
                                },
                            ),
                            ..d
                        },
                    )
                },
                Err(e) => Err(e),
            }
        },
        LineKind::TimeZones => match time_zones_spec(value) {
            Ok(zs) => Ok(SessionView { time_zones: d.time_zones + zones_of(zs), ..d }),
            Err(e) => Err(e),
        },
        LineKind::SessionEncryptionKey => Ok(SessionView { encryption_key: Some(value), ..d }),
        LineKind::SessionAttribute => Ok(
            SessionView { attributes: d.attributes.push(attribute_of(value)), ..d },
        ),
        LineKind::MediaDescription => match media_description_spec(value) {
            Ok((media, port, range, protos, formats)) => Ok(
                SessionView {
                    media_descriptions: d.media_descriptions.push(
                        media_of(media, port, range, protos, formats),
                    ),
                    ..d
                },
            ),
            Err(e) => Err(e),
        },
        LineKind::MediaTitle => if d.media_descriptions.len() == 0 {
            Err(SdpError::EmptyMediaDescriptions)
        } else {
            Ok(with_last_media(d, MediaView { media_title: Some(value), ..lm }))
        },
        LineKind::MediaConnectionInformation => if d.media_descriptions.len() == 0 {
            Err(SdpError::EmptyMediaDescriptions)
        } else {
            match connection_spec(value) {
                Ok(f) => Ok(
                    with_last_media(
                        d,
                        MediaView { connection_information: Some(connection_of(f)), ..lm },
                    ),
                ),
                Err(e) => Err(e),
            }
        },
        LineKind::MediaBandwidth => if d.media_descriptions.len() == 0 {
            Err(SdpError::EmptyMediaDescriptions)
        } else {
            match bandwidth_spec(value) {
                Ok((e, t, b)) => Ok(
                    with_last_media(
                        d,
                        MediaView {
                            bandwidth: lm.bandwidth.push(
                                BandwidthView { experimental: e, bandwidth_type: t, bandwidth: b },
                            ),
                            ..lm
                        },
                    ),
                ),
                Err(e) => Err(e),
            }
        },
        LineKind::MediaEncryptionKey => if d.media_descriptions.len() == 0 {
            Err(SdpError::EmptyMediaDescriptions)
        } else {
            Ok(with_last_media(d, MediaView { encryption_key: Some(value), ..lm }))
        },
        LineKind::MediaAttribute => if d.media_descriptions.len() == 0 {
            Err(SdpError::EmptyMediaDescriptions)
        } else {
            Ok(
                with_last_media(
                    d,
                    MediaView { attributes: lm.attributes.push(attribute_of(value)), ..lm },
                ),
            )
        },
    }
}

/// Whether a line's time values fit in 64 bits where they are reached.
pub open spec fn line_in_range(d: SessionView, kind: LineKind, value: Seq<char>) -> bool {
    match kind {
        LineKind::RepeatTimes => d.time_descriptions.len() == 0 || repeat_time_in_range(value),
        LineKind::TimeZones => zones_in_range(split_ws(value)),
        _ => true,
    }
}

/// The description read from the text `s` from position `i` on, in
/// `state`, with `d` read so far: line breaks are skipped, the type of a
/// line runs up to its first `=`, its value up to the end of the line.
pub open spec fn parse_from(state: LexState, d: SessionView, s: Seq<char>, i: int) -> Result<
    SessionView,
    SdpError,
>
    decreases s.len() - i,
{
    let j = skip_breaks(s, i);
    if j < 0 || j >= s.len() {
        if may_end(state) {
            Ok(d)
        } else {
            Err(SdpError::InvalidSyntax)
        }
    } else {
        let k = past(s, j, '=');
        if k != j + 2 || j + 1 >= s.len() || s[j + 1] != '=' {
            Err(SdpError::InvalidSyntax)
        } else {
            match line_for(state, s[j]) {
                None => Err(SdpError::InvalidSyntax),
                Some(kind) => {
                    let m = past(s, k, '\n');
                    match apply_spec(d, kind, trim(s.subrange(k, m))) {
                        Err(e) => Err(e),
                        Ok(d2) => if i < m <= s.len() {
                            parse_from(spec_state_after(kind), d2, s, m)
                        } else {
                            Err(SdpError::InvalidSyntax)
                        },
                    }
                },
            }
        }
    }
}

/// Whether every `r=` and `z=` line that the reading of `s` reaches has
/// time values that fit in 64 bits.
pub open spec fn parse_in_range(state: LexState, d: SessionView, s: Seq<char>, i: int) -> bool
    decreases s.len() - i,
{
    let j = skip_breaks(s, i);
    if j < 0 || j >= s.len() {
        true
    } else {
        let k = past(s, j, '=');
        if k != j + 2 || j + 1 >= s.len() || s[j + 1] != '=' {
            true
        } else {
            match line_for(state, s[j]) {
                None => true,
                Some(kind) => {
                    let m = past(s, k, '\n');
                    let v = trim(s.subrange(k, m));
                    line_in_range(d, kind, v) && match apply_spec(d, kind, v) {
                        Err(_) => true,
                        Ok(d2) => if i < m <= s.len() {
                            parse_in_range(spec_state_after(kind), d2, s, m)
                        } else {
                            true
                        },
                    }
                },
            }
        }
    }
}

/// The description nothing has been read into yet.
pub open spec fn empty_view() -> SessionView {
    SessionView {
        version: 0,
        origin: OriginView {
            username: Seq::empty(),
            session_id: 0,
            session_version: 0,
            network_type: Seq::empty(),
            address_type: Seq::empty(),
            unicast_address: Seq::empty(),
        },
        session_name: Seq::empty(),
        session_information: None,
        uri: None,
        email_address: None,
        phone_number: None,
        connection_information: None,
        bandwidth: Seq::empty(),
        time_descriptions: Seq::empty(),
        time_zones: Seq::empty(),
        encryption_key: None,
        attributes: Seq::empty(),
        media_descriptions: Seq::empty(),
    }
}

/// The description that the text `s` holds, or why it is refused.
pub open spec fn unmarshal_spec(s: Seq<char>) -> Result<SessionView, SdpError> {
    parse_from(LexState::S1, empty_view(), s, 0)
}

/// Whether a line of `kind` and `value` did to `old` what `apply_spec`
/// says, giving `new` and the result `r`.
pub open spec fn applied(
    old: SessionView,
    kind: LineKind,
    value: Seq<char>,
    r: Result<(), SdpError>,
    new: SessionView,
) -> bool {
    match apply_spec(old, kind, value) {
        Ok(d2) => r is Ok && new == d2,
        Err(e) => r == Err::<(), SdpError>(e),
    }
}

impl Default for SessionDescription {
    /// The description with every field empty or zero.
    fn default() -> (r: SessionDescription)
        ensures
            r@ == empty_view(),
    {
        let d = SessionDescription {
            version: 0,
            origin: Origin::new(),
            session_name: String::new(),
            session_information: None,
            uri: None,
            email_address: None,
            phone_number: None,
            connection_information: None,
            bandwidth: Vec::new(),
            time_descriptions: Vec::new(),
            time_zones: Vec::new(),
            encryption_key: None,
            attributes: Vec::new(),
            media_descriptions: Vec::new(),
        };
        proof {
            assert(d.origin@.username =~= Seq::<char>::empty());
            assert(d.origin@.network_type =~= Seq::<char>::empty());
            assert(d.origin@.address_type =~= Seq::<char>::empty());
            assert(d.origin@.unicast_address =~= Seq::<char>::empty());
            assert(d.session_name@ =~= Seq::<char>::empty());
            assert(bandwidth_views(d.bandwidth@) =~= Seq::<BandwidthView>::empty());
            assert(time_views(d.time_descriptions@) =~= Seq::<TimeView>::empty());
            assert(d.time_zones@ =~= Seq::<TimeZone>::empty());
            assert(attribute_views(d.attributes@) =~= Seq::<AttributeView>::empty());
            assert(media_views(d.media_descriptions@) =~= Seq::<MediaView>::empty());
        }
        d
    }
}

fn connection_from(value: &str) -> (r: Result<ConnectionInformation, SdpError>)
    ensures
        match connection_spec(value@) {
            Ok(f) => r matches Ok(c) && c@ == connection_of(f),
            Err(e) => r == Err::<ConnectionInformation, SdpError>(e),
        },
{
    match unmarshal_connection_information(value) {
        Ok(c) => Ok(c),
        Err(e) => Err(e),
    }
}

fn bandwidth_from(value: &str) -> (r: Result<Bandwidth, SdpError>)
    ensures
        match bandwidth_spec(value@) {
            Ok((e, t, b)) => r matches Ok(x) && x@ == (BandwidthView {
                experimental: e,
                bandwidth_type: t,
                bandwidth: b,
            }),
            Err(e) => r == Err::<Bandwidth, SdpError>(e),
        },
{
    match unmarshal_bandwidth(value) {
        Ok(b) => Ok(b),
        Err(e) => Err(e),
    }
}

fn attribute_from(value: &str) -> (r: Attribute)
    ensures
        r@ == attribute_of(value@),
{
    unmarshal_attribute(value)
}

impl SessionDescription {
    fn set_origin(&mut self, value: &str) -> (r: Result<(), SdpError>)
        ensures
            applied(old(self)@, LineKind::Origin, value@, r, final(self)@),
    {
        match unmarshal_origin(value) {
            Ok(o) => {
                self.origin = o;
                Ok(())
            },
            Err(e) => Err(e),
        }
    }

    fn set_uri(&mut self, value: &str) -> (r: Result<(), SdpError>)
        ensures
            applied(old(self)@, LineKind::Uri, value@, r, final(self)@),
    {
        match unmarshal_uri(value) {
            Ok(u) => {
                self.uri = Some(u);
                Ok(())
            },
            Err(e) => Err(e),
        }
    }

    fn set_connection(&mut self, value: &str) -> (r: Result<(), SdpError>)
        ensures
            applied(old(self)@, LineKind::SessionConnectionInformation, value@, r, final(self)@),
    {
        match connection_from(value) {
            Ok(c) => {
                self.connection_information = Some(c);
                Ok(())
            },
            Err(e) => Err(e),
        }
    }

    fn add_bandwidth(&mut self, value: &str) -> (r: Result<(), SdpError>)
        ensures
            applied(old(self)@, LineKind::SessionBandwidth, value@, r, final(self)@),
    {
        match bandwidth_from(value) {
            Ok(b) => {
                let ghost before = bandwidth_views(self.bandwidth@);
                let ghost bv = b@;
                self.bandwidth.push(b);
                assert(bandwidth_views(self.bandwidth@) =~= before.push(bv));
                Ok(())
            },
            Err(e) => Err(e),
        }
    }

    fn add_timing(&mut self, value: &str) -> (r: Result<(), SdpError>)
        ensures
            applied(old(self)@, LineKind::Timing, value@, r, final(self)@),
    {
        match unmarshal_timing(value) {
            Ok(t) => {
                let ghost before = time_views(self.time_descriptions@);
                let td = TimeDescription { timing: t, repeat_times: Vec::new() };
                assert(td@ == TimeView { timing: t, repeat_times: Seq::empty() }) by {
                    assert(repeat_views(td.repeat_times@) =~= Seq::<RepeatView>::empty());
                }
                self.time_descriptions.push(td);
                assert(time_views(self.time_descriptions@) =~= before.push(
                    TimeView { timing: t, repeat_times: Seq::empty() },
                ));
                Ok(())
            },
            Err(e) => Err(e),
        }
    }

    fn add_attribute(&mut self, value: &str)
        ensures
            applied(old(self)@, LineKind::SessionAttribute, value@, Ok(()), final(self)@),
    {
        let a = attribute_from(value);
        let ghost before = attribute_views(self.attributes@);
        let ghost av = a@;
        self.attributes.push(a);
        assert(attribute_views(self.attributes@) =~= before.push(av));
    }

    fn add_media(&mut self, value: &str) -> (r: Result<(), SdpError>)
        ensures
            applied(old(self)@, LineKind::MediaDescription, value@, r, final(self)@),
    {
        match unmarshal_media_description(value) {
            Ok(name) => {
                let ghost before = media_views(self.media_descriptions@);
                let md = MediaDescription {
                    media_name: name,
                    media_title: None,
                    connection_information: None,
                    bandwidth: Vec::new(),
                    encryption_key: None,
                    attributes: Vec::new(),
                };
                proof {
                    assert(bandwidth_views(md.bandwidth@) =~= Seq::<BandwidthView>::empty());
                    assert(attribute_views(md.attributes@) =~= Seq::<AttributeView>::empty());
                }
                let ghost mv = md@;
                self.media_descriptions.push(md);
                assert(media_views(self.media_descriptions@) =~= before.push(mv));
                Ok(())
            },
            Err(e) => Err(e),
        }
    }
}

impl SessionDescription {
    fn add_repeat_time(&mut self, value: &str) -> (r: Result<(), SdpError>)
        requires
            line_in_range(old(self)@, LineKind::RepeatTimes, value@),
        ensures
            applied(old(self)@, LineKind::RepeatTimes, value@, r, final(self)@),
    {
        let chars = super::text::str_chars(value);
        let fields = super::text::split_whitespace(chars.as_slice());
        if fields.len() < 3 {
            return Err(SdpError::InvalidSyntax);
        }
        if self.time_descriptions.len() == 0 {
            return Err(SdpError::EmptyTimeDescriptions);
        }
        let rt = match unmarshal_repeat_times(value) {
            Ok(rt) => rt,
            Err(e) => return Err(e),
        };
        let ghost vs = repeat_time_spec(value@)->Ok_0;
        assert(rt@ == repeat_of(vs)) by {
            assert(rt.offsets@ =~= repeat_of(vs).offsets);
        }
        let ghost before = time_views(self.time_descriptions@);
        let ghost n = self.time_descriptions@.len();
        let mut td = match self.time_descriptions.pop() {
            Some(td) => td,
            None => return Err(SdpError::EmptyTimeDescriptions),
        };
        let ghost lt = td@;
        assert(lt == before.last());
        assert(time_views(self.time_descriptions@) =~= before.drop_last());
        let ghost rv = rt@;
        let ghost rbefore = repeat_views(td.repeat_times@);
        td.repeat_times.push(rt);
        assert(repeat_views(td.repeat_times@) =~= rbefore.push(rv));
        let ghost tv = td@;
        self.time_descriptions.push(td);
        assert(time_views(self.time_descriptions@) =~= before.update(
            n - 1,
            TimeView { repeat_times: lt.repeat_times.push(repeat_of(vs)), ..lt },
        ));
        Ok(())
    }

    fn add_time_zones(&mut self, value: &str) -> (r: Result<(), SdpError>)
        requires
            line_in_range(old(self)@, LineKind::TimeZones, value@),
        ensures
            applied(old(self)@, LineKind::TimeZones, value@, r, final(self)@),
    {
        let mut zs = match unmarshal_time_zones(value) {
            Ok(zs) => zs,
            Err(e) => return Err(e),
        };
        let ghost spec_zs = time_zones_spec(value@)->Ok_0;
        assert(zs@ =~= zones_of(spec_zs)) by {
            assert forall|k: int| 0 <= k < zs@.len() implies zs@[k] == zones_of(spec_zs)[k] by {
                assert(zs@.map_values(|z: TimeZone| super::description::zone_view(z))[k]
                    == spec_zs[k]);
            }
        }
        self.time_zones.append(&mut zs);
        Ok(())
    }

    /// Takes out the last media description.
    fn take_last_media(&mut self) -> (r: MediaDescription)
        requires
            old(self)@.media_descriptions.len() > 0,
        ensures
            r@ == old(self)@.media_descriptions.last(),
            final(self)@ == (SessionView {
                media_descriptions: old(self)@.media_descriptions.drop_last(),
                ..old(self)@
            }),
    {
        let ghost before = media_views(self.media_descriptions@);
        let m = self.media_descriptions.pop().unwrap();
        assert(media_views(self.media_descriptions@) =~= before.drop_last());
        m
    }

    fn put_last_media(&mut self, m: MediaDescription)
        ensures
            final(self)@ == (SessionView {
                media_descriptions: old(self)@.media_descriptions.push(m@),
                ..old(self)@
            }),
    {
        let ghost before = media_views(self.media_descriptions@);
        let ghost mv = m@;
        self.media_descriptions.push(m);
        assert(media_views(self.media_descriptions@) =~= before.push(mv));
    }

    fn apply_media_line(&mut self, kind: LineKind, value: &str) -> (r: Result<(), SdpError>)
        requires
            kind == LineKind::MediaTitle || kind == LineKind::MediaConnectionInformation || kind
                == LineKind::MediaBandwidth || kind == LineKind::MediaEncryptionKey || kind
                == LineKind::MediaAttribute,
        ensures
            applied(old(self)@, kind, value@, r, final(self)@),
    {
        if self.media_descriptions.len() == 0 {
            return Err(SdpError::EmptyMediaDescriptions);
        }
        let ghost d = self@;
        let ghost lm = d.media_descriptions.last();
        proof {
            assert(d.media_descriptions.drop_last().push(lm) =~= d.media_descriptions);
        }
        let r = match kind {
            LineKind::MediaTitle => {
                let mut m = self.take_last_media();
                m.media_title = Some(String::from_str(value));
                self.put_last_media(m);
                Ok(())
            },
            LineKind::MediaConnectionInformation => {
                match connection_from(value) {
                    Ok(c) => {
                        let mut m = self.take_last_media();
                        m.connection_information = Some(c);
                        self.put_last_media(m);
                        Ok(())
                    },
                    Err(e) => Err(e),
                }
            },
            LineKind::MediaBandwidth => {
                match bandwidth_from(value) {
                    Ok(b) => {
                        let mut m = self.take_last_media();
                        let ghost before = bandwidth_views(m.bandwidth@);
                        let ghost bv = b@;
                        m.bandwidth.push(b);
                        assert(bandwidth_views(m.bandwidth@) =~= before.push(bv));
                        self.put_last_media(m);
                        Ok(())
                    },
                    Err(e) => Err(e),
                }
            },
            LineKind::MediaEncryptionKey => {
                let mut m = self.take_last_media();
                m.encryption_key = Some(String::from_str(value));
                self.put_last_media(m);
                Ok(())
            },
            _ => {
                let a = attribute_from(value);
                let mut m = self.take_last_media();
                let ghost before = attribute_views(m.attributes@);
                let ghost av = a@;
                m.attributes.push(a);
                assert(attribute_views(m.attributes@) =~= before.push(av));
                self.put_last_media(m);
                Ok(())
            },
        };
        proof {
            if r is Ok {
                let n = d.media_descriptions.len() - 1;
                let nm = self@.media_descriptions.last();
                assert(self@.media_descriptions =~= d.media_descriptions.update(n, nm));
            }
        }
        r
    }

    /// Applies one line of a description, of the given kind and trimmed
    /// value, to the description read so far.
    pub fn apply_line(&mut self, kind: LineKind, value: &str) -> (r: Result<(), SdpError>)
        requires
            line_in_range(old(self)@, kind, value@),
        ensures
            applied(old(self)@, kind, value@, r, final(self)@),
    {
        match kind {
            LineKind::ProtocolVersion => unmarshal_protocol_version(value),
            LineKind::Origin => self.set_origin(value),
            LineKind::SessionName => {
                self.session_name = String::from_str(value);
                Ok(())
            },
            LineKind::SessionInformation => {
                self.session_information = Some(String::from_str(value));
                Ok(())
            },
            LineKind::Uri => self.set_uri(value),
            LineKind::Email => {
                self.email_address = Some(String::from_str(value));
                Ok(())
            },
            LineKind::Phone => {
                self.phone_number = Some(String::from_str(value));
                Ok(())
            },
            LineKind::SessionConnectionInformation => self.set_connection(value),
            LineKind::SessionBandwidth => self.add_bandwidth(value),
            LineKind::Timing => self.add_timing(value),
            LineKind::RepeatTimes => self.add_repeat_time(value),
            LineKind::TimeZones => self.add_time_zones(value),
            LineKind::SessionEncryptionKey => {
                self.encryption_key = Some(String::from_str(value));
                Ok(())
            },
            LineKind::SessionAttribute => {
                self.add_attribute(value);
                Ok(())
            },
            LineKind::MediaDescription => self.add_media(value),
            _ => self.apply_media_line(kind, value),
        }
    }
}

fn skip_breaks_at(s: &Vec<char>, i: usize) -> (r: usize)
    requires
        i <= s@.len(),
    ensures
        r == skip_breaks(s@, i as int),
        i <= r <= s@.len(),
{
    let mut j = i;
    while j < s.len() && (s[j] == '\n' || s[j] == '\r')
        invariant
            i <= j <= s@.len(),
            skip_breaks(s@, j as int) == skip_breaks(s@, i as int),
        decreases s@.len() - j,
    {
        j = j + 1;
    }
    j
}

fn past_at(s: &Vec<char>, i: usize, c: char) -> (r: usize)
    requires
        i <= s@.len(),
    ensures
        r == past(s@, i as int, c),
        i <= r <= s@.len(),
        i < s@.len() ==> i < r,
{
    let mut j = i;
    while j < s.len() && s[j] != c
        invariant
            i <= j <= s@.len(),
            past(s@, j as int, c) == past(s@, i as int, c),
        decreases s@.len() - j,
    {
        j = j + 1;
    }
    if j < s.len() {
        j + 1
    } else {
        j
    }
}

impl SessionDescription {
    /// Whether the time values of a line fit in 64 bits where they are
    /// reached.
    fn line_values_in_range(&self, kind: LineKind, value: &str) -> (r: bool)
        ensures
            r == line_in_range(self@, kind, value@),
    {
        match kind {
            LineKind::RepeatTimes => self.time_descriptions.len() == 0
                || super::description::repeat_time_value_in_range(value),
            LineKind::TimeZones => super::description::time_zones_value_in_range(value),
            _ => true,
        }
    }

    /// Reads a description line by line; `None` where a time value of an
    /// `r=` or `z=` line that is reached does not fit in 64 bits.
    fn read_description(input: &str) -> (r: Option<Result<SessionDescription, SdpError>>)
        ensures
            r is None <==> !parse_in_range(LexState::S1, empty_view(), input@, 0),
            r matches Some(x) ==> match unmarshal_spec(input@) {
                Ok(d) => x matches Ok(y) && y@ == d,
                Err(e) => x matches Err(f) && f == e,
            },
    {
        let s = super::text::str_chars(input);
        let mut d = SessionDescription::default();
        let mut state = LexState::S1;
        let mut i: usize = 0;
        loop
            invariant
                i <= s@.len(),
                s@ == input@,
                unmarshal_spec(input@) == parse_from(state, d@, s@, i as int),
                parse_in_range(LexState::S1, empty_view(), input@, 0) == parse_in_range(
                    state,
                    d@,
                    s@,
                    i as int,
                ),
            decreases s@.len() - i,
        {
            let j = skip_breaks_at(&s, i);
            if j >= s.len() {
                return match next_line(state, None) {
                    Ok(_) => Some(Ok(d)),
                    Err(e) => Some(Err(e)),
                };
            }
            let k = past_at(&s, j, '=');
            if k - j != 2 || s[j + 1] != '=' {
                return Some(Err(SdpError::InvalidSyntax));
            }
            let kind = match next_line(state, Some(s[j])) {
                Ok(Some(kind)) => kind,
                Ok(None) => return Some(Err(SdpError::InvalidSyntax)),
                Err(e) => return Some(Err(e)),
            };
            let m = past_at(&s, k, '\n');
            let rest = super::text::chars_range(s.as_slice(), k, m);
            let line_text = string_from_chars(rest.as_slice());
            let (value, _) = read_value(line_text.as_str());
            if !d.line_values_in_range(kind, value.as_str()) {
                return None;
            }
            match d.apply_line(kind, value.as_str()) {
                Ok(()) => {},
                Err(e) => return Some(Err(e)),
            }
            state = state_after(kind);
            i = m;
        }
    }

    /// Reads a description from its text: the lines in the order the
    /// grammar allows, each value parsed as its line type says.
    pub fn unmarshal(input: &str) -> (r: Result<SessionDescription, SdpError>)
        requires
            parse_in_range(LexState::S1, empty_view(), input@, 0),
        ensures
            match unmarshal_spec(input@) {
                Ok(d) => r matches Ok(x) && x@ == d,
                Err(e) => r matches Err(f) && f == e,
            },
    {
        match Self::read_description(input) {
            Some(r) => r,
            None => Err(SdpError::InvalidSyntax),
        }
    }

    /// Reads a description from its text, or gives `None` where a time
    /// value of an `r=` or `z=` line that is reached does not fit in 64
    /// bits, where `unmarshal` may not be called.
    pub fn unmarshal_checked(input: &str) -> (r: Option<Result<SessionDescription, SdpError>>)
        ensures
            r is None <==> !parse_in_range(LexState::S1, empty_view(), input@, 0),
            r matches Some(x) ==> match unmarshal_spec(input@) {
                Ok(d) => x matches Ok(y) && y@ == d,
                Err(e) => x matches Err(f) && f == e,
            },
    {
        match Self::read_description(input) {
            Some(_) => Some(Self::unmarshal(input)),
            None => None,
        }
    }
}

} // verus!
