//! Codecs as SDP describes them in `a=rtpmap`, `a=fmtp` and `a=rtcp-fb`
//! attributes, and the merging of those attributes by payload type.
use vstd::prelude::*;
use std::collections::HashMap;
use super::text::{
    chars_eq, parse_uint, parse_unsigned, split_char, split_on, split_whitespace, split_ws,
    str_chars, string_from_chars, trim, trim_chars, decimal, join, push_decimal, push_str, push_chars,
};
use vstd::relations::{sorted_by, total_ordering};
use super::SdpError;

verus! {

broadcast use vstd::std_specs::hash::group_hash_axioms;

/// A codec, as built from the attributes of a media description.
#[derive(Debug)]
pub struct Codec {
    pub payload_type: u8,
    pub name: String,
    pub clock_rate: u32,
    pub encoding_parameters: String,
    pub fmtp: String,
    pub rtcp_feedback: Vec<String>,
}

/// A codec with its text fields as character sequences.
pub struct CodecView {
    pub payload_type: u8,
    pub name: Seq<char>,
    pub clock_rate: u32,
    pub encoding_parameters: Seq<char>,
    pub fmtp: Seq<char>,
    pub rtcp_feedback: Seq<Seq<char>>,
}

impl View for Codec {
    type V = CodecView;

    open spec fn view(&self) -> CodecView {
        CodecView {
            payload_type: self.payload_type,
            name: self.name@,
            clock_rate: self.clock_rate,
            encoding_parameters: self.encoding_parameters@,
            fmtp: self.fmtp@,
            rtcp_feedback: self.rtcp_feedback@.map_values(|s: String| s@),
        }
    }
}

/// The codec with every field empty or zero.
pub open spec fn empty_codec() -> CodecView {
    CodecView {
        payload_type: 0,
        name: Seq::empty(),
        clock_rate: 0,
        encoding_parameters: Seq::empty(),
        fmtp: Seq::empty(),
        rtcp_feedback: Seq::empty(),
    }
}

impl Default for Codec {
    fn default() -> (r: Codec)
        ensures
            r@ == empty_codec(),
    {
        let r = Codec {
            payload_type: 0,
            name: String::new(),
            clock_rate: 0,
            encoding_parameters: String::new(),
            fmtp: String::new(),
            rtcp_feedback: Vec::new(),
        };
        assert(r.rtcp_feedback@.map_values(|s: String| s@) =~= Seq::<Seq<char>>::empty());
        r
    }
}

/// A parse result, with the codec taken by its view.
pub open spec fn codec_result(r: Result<Codec, SdpError>) -> Result<CodecView, SdpError> {
    match r {
        Ok(c) => Ok(c@),
        Err(e) => Err(e),
    }
}

/// `a=rtpmap:<payload type> <encoding name>/<clock rate>[/<encoding parameters>]`
pub open spec fn rtpmap_spec(s: Seq<char>) -> Result<CodecView, SdpError> {
    let split = split_ws(s);
    if split.len() != 2 {
        Err(SdpError::RtpmapSyntax)
    } else {
        let pt_split = split_on(split[0], ':');
        if pt_split.len() != 2 {
            Err(SdpError::RtpmapSyntax)
        } else {
            let parts = split_on(split[1], '/');
            let clock = if parts.len() > 1 {
                parse_unsigned(parts[1], 0xffff_ffff)
            } else {
                Some(0nat)
            };
            match (parse_unsigned(pt_split[1], 0xff), clock) {
                (Some(pt), Some(rate)) => Ok(
                    CodecView {
                        payload_type: pt as u8,
                        name: parts[0],
                        clock_rate: rate as u32,
                        encoding_parameters: if parts.len() > 2 {
                            parts[2]
                        } else {
                            Seq::empty()
                        },
                        fmtp: Seq::empty(),
                        rtcp_feedback: Seq::empty(),
                    },
                ),
                _ => Err(SdpError::ParseInt),
            }
        }
    }
}

/// `a=fmtp:<format> <format specific parameters>`
pub open spec fn fmtp_spec(s: Seq<char>) -> Result<CodecView, SdpError> {
    let split = split_ws(s);
    if split.len() != 2 {
        Err(SdpError::FmtpSyntax)
    } else {
        let pt_split = split_on(split[0], ':');
        if pt_split.len() != 2 {
            Err(SdpError::FmtpSyntax)
        } else {
            match parse_unsigned(pt_split[1], 0xff) {
                Some(pt) => Ok(CodecView { payload_type: pt as u8, fmtp: split[1], ..empty_codec() }),
                None => Err(SdpError::ParseInt),
            }
        }
    }
}

/// `a=rtcp-fb:<payload type> <RTCP feedback type> [<RTCP feedback
/// parameter>]`: the payload type follows the `:`, and the one feedback
/// entry is the type with its parameter, if any, after a space.
pub open spec fn rtcp_fb_spec(s: Seq<char>) -> Result<CodecView, SdpError> {
    let split = split_ws(s);
    if split.len() != 2 && split.len() != 3 {
        Err(SdpError::RtcpFbSyntax)
    } else {
        let pt_split = split_on(split[0], ':');
        if pt_split.len() != 2 {
            Err(SdpError::RtcpFbSyntax)
        } else {
            match parse_unsigned(pt_split[1], 0xff) {
                Some(pt) => Ok(
                    CodecView {
                        payload_type: pt as u8,
                        rtcp_feedback: seq![join(split.subrange(1, split.len() as int), seq![' '])],
                        ..empty_codec()
                    },
                ),
                None => Err(SdpError::ParseInt),
            }
        }
    }
}

fn parse_u8(s: &[char]) -> (r: Result<u8, SdpError>)
    ensures
        match parse_unsigned(s@, 0xff) {
            Some(v) => r == Ok::<u8, SdpError>(v as u8),
            None => r == Err::<u8, SdpError>(SdpError::ParseInt),
        },
{
    match parse_uint(s, 0xff) {
        Some(v) => Ok(v as u8),
        None => Err(SdpError::ParseInt),
    }
}

/// Parses the value of an `rtpmap` attribute into a codec.
pub fn parse_rtpmap(rtpmap: &str) -> (r: Result<Codec, SdpError>)
    ensures
        codec_result(r) == rtpmap_spec(rtpmap@),
{
    let chars = str_chars(rtpmap);
    let split = split_whitespace(chars.as_slice());
    if split.len() != 2 {
        return Err(SdpError::RtpmapSyntax);
    }
    let pt_split = split_char(split[0].as_slice(), ':');
    if pt_split.len() != 2 {
        return Err(SdpError::RtpmapSyntax);
    }
    let pt = parse_u8(pt_split[1].as_slice());
    let parts = split_char(split[1].as_slice(), '/');
    let clock_rate: Option<u64> = if parts.len() > 1 {
        parse_uint(parts[1].as_slice(), 0xffff_ffff)
    } else {
        Some(0)
    };
    let payload_type = match pt {
        Ok(v) => v,
        Err(e) => return Err(e),
    };
    let clock_rate = match clock_rate {
        Some(v) => v as u32,
        None => return Err(SdpError::ParseInt),
    };
    let encoding_parameters = if parts.len() > 2 {
        string_from_chars(parts[2].as_slice())
    } else {
        String::new()
    };
    let c = Codec {
        payload_type,
        name: string_from_chars(parts[0].as_slice()),
        clock_rate,
        encoding_parameters,
        fmtp: String::new(),
        rtcp_feedback: Vec::new(),
    };
    assert(c.rtcp_feedback@.map_values(|s: String| s@) =~= Seq::<Seq<char>>::empty());
    Ok(c)
}

/// Parses the value of an `fmtp` attribute into a codec.
pub fn parse_fmtp(fmtp: &str) -> (r: Result<Codec, SdpError>)
    ensures
        codec_result(r) == fmtp_spec(fmtp@),
{
    let chars = str_chars(fmtp);
    let split = split_whitespace(chars.as_slice());
    if split.len() != 2 {
        return Err(SdpError::FmtpSyntax);
    }
    let params = string_from_chars(split[1].as_slice());
    let pt_split = split_char(split[0].as_slice(), ':');
    if pt_split.len() != 2 {
        return Err(SdpError::FmtpSyntax);
    }
    let payload_type = match parse_u8(pt_split[1].as_slice()) {
        Ok(v) => v,
        Err(e) => return Err(e),
    };
    let c = Codec {
        payload_type,
        name: String::new(),
        clock_rate: 0,
        encoding_parameters: String::new(),
        fmtp: params,
        rtcp_feedback: Vec::new(),
    };
    assert(c.rtcp_feedback@.map_values(|s: String| s@) =~= Seq::<Seq<char>>::empty());
    Ok(c)
}

/// Parses the value of an `rtcp-fb` attribute into a codec.
pub fn parse_rtcp_fb(rtcp_fb: &str) -> (r: Result<Codec, SdpError>)
    ensures
        codec_result(r) == rtcp_fb_spec(rtcp_fb@),
{
    let chars = str_chars(rtcp_fb);
    let split = split_whitespace(chars.as_slice());
    if split.len() != 2 && split.len() != 3 {
        return Err(SdpError::RtcpFbSyntax);
    }
    let pt_split = split_char(split[0].as_slice(), ':');
    if pt_split.len() != 2 {
        return Err(SdpError::RtcpFbSyntax);
    }
    let payload_type = match parse_u8(pt_split[1].as_slice()) {
        Ok(v) => v,
        Err(e) => return Err(e),
    };
    let ghost f = split_ws(rtcp_fb@);
    let mut feedback: Vec<char> = Vec::new();
    push_chars(&mut feedback, split[1].as_slice());
    if split.len() == 3 {
        feedback.push(' ');
        push_chars(&mut feedback, split[2].as_slice());
    }
    proof {
        reveal_with_fuel(join, 3);
        if f.len() == 3 {
            assert(f.subrange(1, 3) =~= seq![f[1], f[2]]);
            assert(seq![f[1], f[2]].drop_last() =~= seq![f[1]]);
        } else {
            assert(f.subrange(1, 2) =~= seq![f[1]]);
        }
        assert(feedback@ =~= join(f.subrange(1, f.len() as int), seq![' ']));
    }
    let mut rtcp_feedback: Vec<String> = Vec::new();
    rtcp_feedback.push(string_from_chars(feedback.as_slice()));
    let c = Codec {
        payload_type,
        name: String::new(),
        clock_rate: 0,
        encoding_parameters: String::new(),
        fmtp: String::new(),
        rtcp_feedback,
    };
    assert(c.rtcp_feedback@.map_values(|s: String| s@) =~= seq![
        join(f.subrange(1, f.len() as int), seq![' ']),
    ]);
    Ok(c)
}

/// What a codec saved under a payload type becomes when another codec of
/// that payload type is merged into it: empty fields are filled in and the
/// feedback entries are appended.
pub open spec fn merged(saved: CodecView, c: CodecView) -> CodecView {
    CodecView {
        payload_type: if saved.payload_type == 0 {
            c.payload_type
        } else {
            saved.payload_type
        },
        name: if saved.name.len() == 0 {
            c.name
        } else {
            saved.name
        },
        clock_rate: if saved.clock_rate == 0 {
            c.clock_rate
        } else {
            saved.clock_rate
        },
        encoding_parameters: if saved.encoding_parameters.len() == 0 {
            c.encoding_parameters
        } else {
            saved.encoding_parameters
        },
        fmtp: if saved.fmtp.len() == 0 {
            c.fmtp
        } else {
            saved.fmtp
        },
        rtcp_feedback: saved.rtcp_feedback + c.rtcp_feedback,
    }
}

/// Merges `codec` into the codec saved under its payload type, or saves it
/// there if there is none.
pub fn merge_codecs(codec: Codec, codecs: &mut HashMap<u8, Codec>)
    ensures
        final(codecs)@.dom() == old(codecs)@.dom().insert(codec.payload_type),
        forall|k: u8|
            k != codec.payload_type && #[trigger] old(codecs)@.contains_key(k) ==> final(codecs)@[k]
                == old(codecs)@[k],
        final(codecs)@[codec.payload_type]@ == (if old(codecs)@.contains_key(codec.payload_type) {
            merged(old(codecs)@[codec.payload_type]@, codec@)
        } else {
            codec@
        }),
{
    let pt = codec.payload_type;
    let ghost c = codec@;
    match codecs.remove(&pt) {
        Some(saved) => {
            let ghost s = saved@;
            let Codec {
                payload_type,
                name,
                clock_rate,
                encoding_parameters,
                fmtp,
                mut rtcp_feedback,
            } = codec;
            let Codec {
                payload_type: s_payload_type,
                name: s_name,
                clock_rate: s_clock_rate,
                encoding_parameters: s_encoding_parameters,
                fmtp: s_fmtp,
                rtcp_feedback: mut s_rtcp_feedback,
            } = saved;
            let ghost fb_old = s_rtcp_feedback@;
            let ghost fb_new = rtcp_feedback@;
            s_rtcp_feedback.append(&mut rtcp_feedback);
            let m = Codec {
                payload_type: if s_payload_type == 0 {
                    payload_type
                } else {
                    s_payload_type
                },
                name: if s_name.as_str().is_empty() {
                    name
                } else {
                    s_name
                },
                clock_rate: if s_clock_rate == 0 {
                    clock_rate
                } else {
                    s_clock_rate
                },
                encoding_parameters: if s_encoding_parameters.as_str().is_empty() {
                    encoding_parameters
                } else {
                    s_encoding_parameters
                },
                fmtp: if s_fmtp.as_str().is_empty() {
                    fmtp
                } else {
                    s_fmtp
                },
                rtcp_feedback: s_rtcp_feedback,
            };
            assert(m.rtcp_feedback@.map_values(|x: String| x@) =~= fb_old.map_values(
                |x: String| x@,
            ) + fb_new.map_values(|x: String| x@));
            assert(m@ == merged(s, c));
            codecs.insert(pt, m);
        },
        None => {
            codecs.insert(pt, codec);
        },
    }
    assert(codecs@.dom() =~= old(codecs)@.dom().insert(pt));
}

/// Lexicographic order of character strings, which is the order of `str`.
pub open spec fn lex_le(a: Seq<char>, b: Seq<char>) -> bool
    decreases a.len(),
{
    if a.len() == 0 {
        true
    } else if b.len() == 0 {
        false
    } else if a[0] != b[0] {
        a[0] < b[0]
    } else {
        lex_le(a.drop_first(), b.drop_first())
    }
}

/// The lexicographic order as a relation.
pub open spec fn lex_order() -> spec_fn(Seq<char>, Seq<char>) -> bool {
    |a: Seq<char>, b: Seq<char>| lex_le(a, b)
}

proof fn lemma_lex_reflexive(a: Seq<char>)
    ensures
        lex_le(a, a),
    decreases a.len(),
{
    if a.len() > 0 {
        lemma_lex_reflexive(a.drop_first());
    }
}

proof fn lemma_lex_antisymmetric(a: Seq<char>, b: Seq<char>)
    requires
        lex_le(a, b),
        lex_le(b, a),
    ensures
        a == b,
    decreases a.len(),
{
    if a.len() == 0 {
        assert(b.len() == 0);
        assert(a =~= b);
    } else {
        assert(b.len() > 0);
        assert(a[0] == b[0]);
        lemma_lex_antisymmetric(a.drop_first(), b.drop_first());
        assert(a =~= seq![a[0]] + a.drop_first());
        assert(b =~= seq![b[0]] + b.drop_first());
    }
}

proof fn lemma_lex_transitive(a: Seq<char>, b: Seq<char>, c: Seq<char>)
    requires
        lex_le(a, b),
        lex_le(b, c),
    ensures
        lex_le(a, c),
    decreases a.len(),
{
    if a.len() > 0 {
        assert(b.len() > 0);
        assert(c.len() > 0);
        if a[0] == b[0] && b[0] == c[0] {
            lemma_lex_transitive(a.drop_first(), b.drop_first(), c.drop_first());
        }
    }
}

proof fn lemma_lex_total(a: Seq<char>, b: Seq<char>)
    ensures
        lex_le(a, b) || lex_le(b, a),
    decreases a.len(),
{
    if a.len() > 0 && b.len() > 0 && a[0] == b[0] {
        lemma_lex_total(a.drop_first(), b.drop_first());
    }
}

/// The lexicographic order is a total order.
pub proof fn lemma_lex_total_ordering()
    ensures
        total_ordering(lex_order()),
{
    assert forall|a: Seq<char>| #[trigger] lex_order()(a, a) by {
        lemma_lex_reflexive(a);
    }
    assert forall|a: Seq<char>, b: Seq<char>|
        #[trigger] lex_order()(a, b) && #[trigger] lex_order()(b, a) implies a == b by {
        lemma_lex_antisymmetric(a, b);
    }
    assert forall|a: Seq<char>, b: Seq<char>, c: Seq<char>|
        #[trigger] lex_order()(a, b) && #[trigger] lex_order()(b, c) implies lex_order()(a, c) by {
        lemma_lex_transitive(a, b, c);
    }
    assert forall|a: Seq<char>, b: Seq<char>|
        #[trigger] lex_order()(a, b) || #[trigger] lex_order()(b, a) by {
        lemma_lex_total(a, b);
    }
}

/// Whether `a` comes before `b` or equals it, lexicographically.
pub fn lex_le_exec(a: &[char], b: &[char]) -> (r: bool)
    ensures
        r == lex_le(a@, b@),
{
    let mut i: usize = 0;
    assert(a@.subrange(0, a@.len() as int) =~= a@);
    assert(b@.subrange(0, b@.len() as int) =~= b@);
    while i < a.len() && i < b.len()
        invariant
            i <= a@.len(),
            i <= b@.len(),
            lex_le(a@, b@) == lex_le(
                a@.subrange(i as int, a@.len() as int),
                b@.subrange(i as int, b@.len() as int),
            ),
        decreases a@.len() - i,
    {
        let ghost sa = a@.subrange(i as int, a@.len() as int);
        let ghost sb = b@.subrange(i as int, b@.len() as int);
        assert(sa[0] == a@[i as int]);
        assert(sb[0] == b@[i as int]);
        if a[i] != b[i] {
            return a[i] < b[i];
        }
        assert(sa.drop_first() =~= a@.subrange(i + 1, a@.len() as int));
        assert(sb.drop_first() =~= b@.subrange(i + 1, b@.len() as int));
        i = i + 1;
    }
    a.len() - i == 0
}

/// The texts of a list of character vectors.
pub open spec fn texts(v: Seq<Vec<char>>) -> Seq<Seq<char>> {
    v.map_values(|x: Vec<char>| x@)
}

/// The pieces sorted lexicographically (`slice::sort` on `&str`).
pub fn sort_texts(v: Vec<Vec<char>>) -> (r: Vec<Vec<char>>)
    ensures
        texts(r@) == texts(v@).sort_by(lex_order()),
{
    broadcast use vstd::seq_lib::group_to_multiset_ensures;

    proof {
        lemma_lex_total_ordering();
    }
    let mut out: Vec<Vec<char>> = Vec::new();
    let mut i: usize = 0;
    let ghost src = texts(v@);
    let n: usize = v.len();
    let mut rest = v;
    assert(texts(out@) =~= Seq::<Seq<char>>::empty());
    while i < n
        invariant
            i <= src.len(),
            n == src.len(),
            src == texts(v@),
            rest@.len() + i == src.len(),
            forall|k: int| 0 <= k < rest@.len() ==> #[trigger] rest@[k]@ == src[k + i],
            total_ordering(lex_order()),
            sorted_by(texts(out@), lex_order()),
            texts(out@).to_multiset() == src.take(i as int).to_multiset(),
            out@.len() == i,
        decreases src.len() - i,
    {
        let x = rest.remove(0);
        assert(x@ == src[i as int]);
        let mut pos: usize = 0;
        while pos < out.len() && lex_le_exec(out[pos].as_slice(), x.as_slice())
            invariant
                pos <= out@.len(),
                forall|k: int| 0 <= k < pos ==> lex_le(#[trigger] out@[k]@, x@),
            decreases out@.len() - pos,
        {
            pos = pos + 1;
        }
        let ghost before = texts(out@);
        out.insert(pos, x);
        proof {
            let after = texts(out@);
            assert(after =~= before.insert(pos as int, src[i as int]));
            assert forall|a: int, b: int| 0 <= a < b < after.len() implies #[trigger] lex_order()(
                after[a],
                after[b],
            ) by {
                if b < pos {
                    assert(lex_order()(before[a], before[b]));
                } else if b == pos {
                    assert(lex_le(before[a], src[i as int]));
                } else if a < pos {
                    assert(lex_order()(before[a], before[b - 1]));
                } else if a == pos {
                    if pos < before.len() {
                        assert(!lex_le(before[pos as int], src[i as int]));
                        lemma_lex_total(before[pos as int], src[i as int]);
                        assert(lex_order()(before[pos as int], before[b - 1]));
                        assert(lex_order()(src[i as int], before[pos as int]));
                    }
                } else {
                    assert(lex_order()(before[a - 1], before[b - 1]));
                }
            }
            assert(src.take(i + 1) =~= src.take(i as int).push(src[i as int]));
            vstd::seq_lib::to_multiset_insert(before, pos as int, src[i as int]);
            vstd::seq_lib::to_multiset_build(src.take(i as int), src[i as int]);
        }
        i = i + 1;
        assert forall|k: int| 0 <= k < rest@.len() implies #[trigger] rest@[k]@ == src[k + i] by {}
    }
    proof {
        assert(src.take(src.len() as int) =~= src);
        src.lemma_sort_by_ensures(lex_order());
        vstd::seq_lib::lemma_sorted_unique(texts(out@), src.sort_by(lex_order()), lex_order());
    }
    out
}

/// Whether two format parameter lists say the same: split at `;`, sorted,
/// the pieces agree once trimmed.
pub open spec fn equivalent_fmtp_spec(want: Seq<char>, got: Seq<char>) -> bool {
    let w = split_on(want, ';').sort_by(lex_order());
    let g = split_on(got, ';').sort_by(lex_order());
    split_on(want, ';').len() == split_on(got, ';').len() && forall|i: int|
        0 <= i < w.len() ==> trim(#[trigger] w[i]) == trim(g[i])
}

proof fn lemma_texts_of_split(v: Seq<Vec<char>>, s: Seq<Seq<char>>)
    requires
        v.len() == s.len(),
        forall|i: int| 0 <= i < v.len() ==> #[trigger] v[i]@ == s[i],
    ensures
        texts(v) == s,
{
    assert(texts(v) =~= s);
}

/// Whether two format parameter lists say the same.
pub fn equivalent_fmtp(want: &str, got: &str) -> (r: bool)
    ensures
        r == equivalent_fmtp_spec(want@, got@),
{
    let wc = str_chars(want);
    let gc = str_chars(got);
    let want_split = split_char(wc.as_slice(), ';');
    let got_split = split_char(gc.as_slice(), ';');
    proof {
        lemma_texts_of_split(want_split@, split_on(want@, ';'));
        lemma_texts_of_split(got_split@, split_on(got@, ';'));
    }
    if want_split.len() != got_split.len() {
        return false;
    }
    let ws = sort_texts(want_split);
    let gs = sort_texts(got_split);
    let ghost w = split_on(want@, ';').sort_by(lex_order());
    let ghost g = split_on(got@, ';').sort_by(lex_order());
    proof {
        lemma_lex_total_ordering();
        split_on(want@, ';').lemma_sort_by_ensures(lex_order());
        split_on(got@, ';').lemma_sort_by_ensures(lex_order());
        vstd::seq_lib::to_multiset_len(split_on(want@, ';'));
        vstd::seq_lib::to_multiset_len(split_on(got@, ';'));
        vstd::seq_lib::to_multiset_len(w);
        vstd::seq_lib::to_multiset_len(g);
        assert(texts(ws@).len() == ws@.len());
        assert(texts(gs@).len() == gs@.len());
    }
    let mut i: usize = 0;
    while i < ws.len()
        invariant
            i <= ws@.len(),
            ws@.len() == gs@.len(),
            texts(ws@) == w,
            texts(gs@) == g,
            w == split_on(want@, ';').sort_by(lex_order()),
            g == split_on(got@, ';').sort_by(lex_order()),
            split_on(want@, ';').len() == split_on(got@, ';').len(),
            forall|k: int| 0 <= k < i ==> trim(#[trigger] w[k]) == trim(g[k]),
        decreases ws@.len() - i,
    {
        assert(ws@[i as int]@ == w[i as int]);
        assert(gs@[i as int]@ == g[i as int]);
        let a = trim_chars(ws[i].as_slice());
        let b = trim_chars(gs[i].as_slice());
        if !chars_eq(a.as_slice(), b.as_slice()) {
            proof {
                assert(w.len() == ws@.len());
                assert(trim(w[i as int]) != trim(g[i as int]));
            }
            return false;
        }
        i = i + 1;
    }
    true
}

/// The lower-case form of a text, as `str::to_lowercase` maps it.
pub uninterp spec fn lowercase(s: Seq<char>) -> Seq<char>;

/// `str::to_lowercase`. Claimed: the result is the lower-case mapping of
/// the argument, the same for the same text; the Unicode mapping itself
/// is not stated.
#[verifier::external_body]
fn to_lowercase(s: &str) -> (r: String)
    ensures
        r@ == lowercase(s@),
{
    s.to_lowercase()
}

/// Whether `got` is a codec that `wanted` asks for: each field that
/// `wanted` sets must agree, the name without regard to case, the format
/// parameters as `equivalent_fmtp_spec` says.
pub open spec fn codecs_match_spec(wanted: CodecView, got: CodecView) -> bool {
    &&& wanted.name.len() == 0 || lowercase(wanted.name) == lowercase(got.name)
    &&& wanted.clock_rate == 0 || wanted.clock_rate == got.clock_rate
    &&& wanted.encoding_parameters.len() == 0 || wanted.encoding_parameters
        == got.encoding_parameters
    &&& wanted.fmtp.len() == 0 || equivalent_fmtp_spec(wanted.fmtp, got.fmtp)
}

/// The match of two codecs given the lower-case forms of their names.
pub fn codecs_match_lowered(wanted: &Codec, got: &Codec, wanted_name: &str, got_name: &str) -> (r:
    bool)
    ensures
        r == ((wanted.name@.len() == 0 || wanted_name@ == got_name@) && (wanted.clock_rate == 0
            || wanted.clock_rate == got.clock_rate) && (wanted.encoding_parameters@.len() == 0
            || wanted.encoding_parameters@ == got.encoding_parameters@) && (wanted.fmtp@.len() == 0
            || equivalent_fmtp_spec(wanted.fmtp@, got.fmtp@))),
{
    if !wanted.name.as_str().is_empty() && !super::text::str_eq(wanted_name, got_name) {
        return false;
    }
    if wanted.clock_rate != 0 && wanted.clock_rate != got.clock_rate {
        return false;
    }
    if !wanted.encoding_parameters.as_str().is_empty() && !super::text::str_eq(
        wanted.encoding_parameters.as_str(),
        got.encoding_parameters.as_str(),
    ) {
        return false;
    }
    if !wanted.fmtp.as_str().is_empty() && !equivalent_fmtp(
        wanted.fmtp.as_str(),
        got.fmtp.as_str(),
    ) {
        return false;
    }
    true
}

/// Whether `got` is a codec that `wanted` asks for.
pub fn codecs_match(wanted: &Codec, got: &Codec) -> (r: bool)
    ensures
        r == codecs_match_spec(wanted@, got@),
{
    let w = to_lowercase(wanted.name.as_str());
    let g = to_lowercase(got.name.as_str());
    codecs_match_lowered(wanted, got, w.as_str(), g.as_str())
}

/// A codec as text: `<pt> <name>/<clock rate>/<encoding parameters>
/// (<fmtp>) [<feedback>, ...]`.
pub open spec fn codec_text(c: CodecView) -> Seq<char> {
    decimal(c.payload_type as nat) + seq![' '] + c.name + seq!['/'] + decimal(c.clock_rate as nat)
        + seq!['/'] + c.encoding_parameters + seq![' ', '('] + c.fmtp + seq![')', ' ', '['] + join(
        c.rtcp_feedback,
        seq![',', ' '],
    ) + seq![']']
}

impl Codec {
    /// The codec as text.
    pub fn to_string(&self) -> (r: String)
        ensures
            r@ == codec_text(self@),
    {
        let mut out: Vec<char> = Vec::new();
        push_decimal(&mut out, self.payload_type as u64);
        out.push(' ');
        push_str(&mut out, self.name.as_str());
        out.push('/');
        push_decimal(&mut out, self.clock_rate as u64);
        out.push('/');
        push_str(&mut out, self.encoding_parameters.as_str());
        out.push(' ');
        out.push('(');
        push_str(&mut out, self.fmtp.as_str());
        out.push(')');
        out.push(' ');
        out.push('[');
        let ghost head = out@;
        let ghost fb = self@.rtcp_feedback;
        let mut i: usize = 0;
        while i < self.rtcp_feedback.len()
            invariant
                i <= self.rtcp_feedback@.len(),
                fb == self@.rtcp_feedback,
                fb.len() == self.rtcp_feedback@.len(),
                out@ == head + join(fb.take(i as int), seq![',', ' ']),
            decreases self.rtcp_feedback@.len() - i,
        {
            proof {
                assert(fb.take(i + 1).drop_last() =~= fb.take(i as int));
                assert(fb[i as int] == self.rtcp_feedback@[i as int]@);
            }
            if i > 0 {
                out.push(',');
                out.push(' ');
            }
            push_str(&mut out, self.rtcp_feedback[i].as_str());
            i = i + 1;
            proof {
                if i == 1 {
                    assert(fb.take(1) =~= seq![fb[0]]);
                }
            }
            assert(out@ =~= head + join(fb.take(i as int), seq![',', ' ']));
        }
        assert(fb.take(fb.len() as int) =~= fb);
        out.push(']');
        string_from_chars(out.as_slice())
    }
}

} // verus!
