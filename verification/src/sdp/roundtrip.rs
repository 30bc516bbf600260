//! Laws of writing and reading descriptions: what `marshal` writes,
//! `unmarshal` reads back as the same description, where its values can
//! stand in their lines as they are; and every description `unmarshal`
//! accepts has a time description.
use vstd::prelude::*;
use super::text::{
    is_ws, ws_fold, split_ws, sep_fold, split_on, first_index_of, split_once_on, trim,
    leading_ws, trailing_ws, join,
};
use super::text::{
    decimal, signed_decimal, parse_unsigned, parse_signed, all_digits, is_digit,
};
use super::description::{
    no_ws, lemma_ws_fold_append, lemma_decimal_reads_back, time_units, time_units_in_range,
    unit_seconds, is_unit, origin_spec, connection_spec, bandwidth_spec, is_experimental,
    strip_experimental, units_list, units_list_in_range, repeat_time_spec, repeat_time_in_range,
    offsets_text, zones_spec, zones_in_range, is_media_type, is_proto, parse_i32_spec,
    media_description_spec, TimeZone, time_zones_spec,
};
use super::session::{
    OriginView, ConnectionView, BandwidthView, AttributeView, origin_text, connection_text,
    address_text, bandwidth_text, attribute_text, connection_of, attribute_of, RepeatView,
    repeat_text, repeat_of, zone_text, zone_texts, MediaNameView, media_name_text, port_text,
};
use super::session::{
    SessionView, parse_from, parse_in_range, apply_spec, line_in_range, line, skip_breaks, past,
    bandwidth_lines, attribute_lines, repeat_lines, time_lines, timing_text, TimeView,
    MediaView, with_last_media, media_text, media_lines, opt_line, connection_line, empty_view,
    session_lines, zones_line, zones_of, marshal_spec, unmarshal_spec, jsep_view, identity_key,
};
use super::description::url_parse;
use super::description::lemma_timing_roundtrip;
use super::lexer::{before_timing, line_for, may_end, spec_state_after, LexState, LineKind};
use super::SdpError;

verus! {

/// A piece of text between separators: not empty, without whitespace.
pub open spec fn word(w: Seq<char>) -> bool {
    w.len() > 0 && no_ws(w)
}

/// Text that reads back as itself as the value of a line: no line feed,
/// and no whitespace at either end.
pub open spec fn clean_value(v: Seq<char>) -> bool {
    !v.contains('\n') && (v.len() == 0 || (!is_ws(v[0]) && !is_ws(v.last())))
}

/// Splitting words joined by spaces: the last word is the piece under way.
proof fn lemma_ws_fold_join(words: Seq<Seq<char>>)
    requires
        words.len() > 0,
        forall|i: int| 0 <= i < words.len() ==> word(#[trigger] words[i]),
    ensures
        ws_fold(join(words, seq![' '])) == (words.drop_last(), words.last()),
    decreases words.len(),
{
    let e = Seq::<char>::empty();
    if words.len() == 1 {
        lemma_ws_fold_append(e, words[0]);
        assert(e + words[0] =~= words[0]);
        assert(ws_fold(e) == (Seq::<Seq<char>>::empty(), e));
        assert(e + words[0] =~= words[0]);
        assert(words.drop_last() =~= Seq::<Seq<char>>::empty());
    } else {
        let w = words.drop_last();
        assert forall|i: int| 0 <= i < w.len() implies word(#[trigger] w[i]) by {
            assert(w[i] == words[i]);
        }
        lemma_ws_fold_join(w);
        let p = join(w, seq![' ']);
        let p1 = p + seq![' '];
        assert(p1.drop_last() =~= p);
        assert(is_ws(p1.last()));
        assert(w.last().len() > 0);
        assert(ws_fold(p1) == (w.drop_last().push(w.last()), e));
        assert(w.drop_last().push(w.last()) =~= w);
        lemma_ws_fold_append(p1, words.last());
        assert(e + words.last() =~= words.last());
        assert(join(words, seq![' ']) == p1 + words.last());
    }
}

/// Words joined by spaces split on whitespace into the words.
proof fn lemma_split_ws_join(words: Seq<Seq<char>>)
    requires
        words.len() > 0,
        forall|i: int| 0 <= i < words.len() ==> word(#[trigger] words[i]),
    ensures
        split_ws(join(words, seq![' '])) == words,
{
    lemma_ws_fold_join(words);
    assert(words.drop_last().push(words.last()) =~= words);
}

/// Appending text without the separator grows the piece under way.
proof fn lemma_sep_fold_append(p: Seq<char>, q: Seq<char>, c: char)
    requires
        !q.contains(c),
    ensures
        sep_fold(p + q, c) == (sep_fold(p, c).0, sep_fold(p, c).1 + q),
    decreases q.len(),
{
    if q.len() == 0 {
        assert(p + q =~= p);
        assert(sep_fold(p, c).1 + q =~= sep_fold(p, c).1);
    } else {
        let q0 = q.drop_last();
        assert((p + q).drop_last() =~= p + q0);
        assert((p + q).last() == q.last());
        assert(q.last() != c) by {
            assert(q[q.len() - 1] == q.last());
        }
        assert(!q0.contains(c)) by {
            if q0.contains(c) {
                let k = choose|k: int| 0 <= k < q0.len() && q0[k] == c;
                assert(q[k] == c);
            }
        }
        lemma_sep_fold_append(p, q0, c);
        assert((sep_fold(p, c).1 + q0).push(q.last()) =~= sep_fold(p, c).1 + q);
    }
}

proof fn lemma_sep_fold_join(xs: Seq<Seq<char>>, c: char)
    requires
        xs.len() > 0,
        forall|i: int| 0 <= i < xs.len() ==> !(#[trigger] xs[i]).contains(c),
    ensures
        sep_fold(join(xs, seq![c]), c) == (xs.drop_last(), xs.last()),
    decreases xs.len(),
{
    let e = Seq::<char>::empty();
    if xs.len() == 1 {
        lemma_sep_fold_append(e, xs[0], c);
        assert(e + xs[0] =~= xs[0]);
        assert(xs.drop_last() =~= Seq::<Seq<char>>::empty());
    } else {
        let w = xs.drop_last();
        assert forall|i: int| 0 <= i < w.len() implies !(#[trigger] w[i]).contains(c) by {
            assert(w[i] == xs[i]);
        }
        lemma_sep_fold_join(w, c);
        let p = join(w, seq![c]);
        let p1 = p + seq![c];
        assert(p1.drop_last() =~= p);
        assert(sep_fold(p1, c) == (w.drop_last().push(w.last()), e));
        assert(w.drop_last().push(w.last()) =~= w);
        lemma_sep_fold_append(p1, xs.last(), c);
        assert(e + xs.last() =~= xs.last());
        assert(join(xs, seq![c]) == p1 + xs.last());
    }
}

/// Pieces joined by a separator that none of them holds split back into
/// the pieces.
proof fn lemma_split_on_join(xs: Seq<Seq<char>>, c: char)
    requires
        xs.len() > 0,
        forall|i: int| 0 <= i < xs.len() ==> !(#[trigger] xs[i]).contains(c),
    ensures
        split_on(join(xs, seq![c]), c) == xs,
{
    lemma_sep_fold_join(xs, c);
    assert(xs.drop_last().push(xs.last()) =~= xs);
}

proof fn lemma_first_index_append(p: Seq<char>, q: Seq<char>, c: char)
    ensures
        first_index_of(p + q, c) == match first_index_of(p, c) {
            Some(i) => Some(i),
            None => match first_index_of(q, c) {
                Some(j) => Some(p.len() + j),
                None => None,
            },
        },
    decreases q.len(),
{
    if q.len() == 0 {
        assert(p + q =~= p);
    } else {
        let q0 = q.drop_last();
        assert((p + q).drop_last() =~= p + q0);
        lemma_first_index_append(p, q0, c);
    }
}

proof fn lemma_first_index_none(s: Seq<char>, c: char)
    requires
        !s.contains(c),
    ensures
        first_index_of(s, c) is None,
    decreases s.len(),
{
    if s.len() > 0 {
        assert(!s.drop_last().contains(c)) by {
            if s.drop_last().contains(c) {
                let k = choose|k: int| 0 <= k < s.drop_last().len() && s.drop_last()[k] == c;
                assert(s[k] == c);
            }
        }
        lemma_first_index_none(s.drop_last(), c);
        assert(s.last() != c) by {
            assert(s[s.len() - 1] == s.last());
        }
    }
}

/// Split once at the separator after a piece that does not hold it.
proof fn lemma_split_once(k: Seq<char>, v: Seq<char>, c: char)
    requires
        !k.contains(c),
    ensures
        split_once_on(k + seq![c] + v, c) == seq![k, v],
{
    let e = Seq::<char>::empty();
    lemma_first_index_none(k, c);
    lemma_first_index_append(k, seq![c], c);
    assert(seq![c].drop_last() =~= e);
    assert(first_index_of(e, c) is None);
    assert(seq![c].last() == c);
    assert(first_index_of(seq![c], c) == Some(0int));
    lemma_first_index_append(k + seq![c], v, c);
    let s = k + seq![c] + v;
    assert(s.subrange(0, k.len() as int) =~= k);
    assert(s.subrange(k.len() as int + 1, s.len() as int) =~= v);
}

/// A clean value followed by the end of its line trims to itself.
proof fn lemma_trim_clean(v: Seq<char>)
    requires
        clean_value(v),
    ensures
        trim(v + seq!['\r', '\n']) == v,
{
    let s = v + seq!['\r', '\n'];
    if v.len() == 0 {
        assert(is_ws(s[0]));
        assert(s =~= seq!['\r', '\n']);
        assert(is_ws('\r'));
        assert(is_ws('\n'));
        assert(s.drop_first() =~= seq!['\n']);
        assert(seq!['\n'][0] == '\n');
        assert(seq!['\n'].drop_first() =~= Seq::<char>::empty());
        assert(leading_ws(Seq::<char>::empty()) == 0);
        assert(leading_ws(seq!['\n']) == 1);
        assert(leading_ws(s) == 2);
        assert(trim(s) =~= v);
    } else {
        assert(s[0] == v[0]);
        assert(leading_ws(s) == 0);
        assert(s.drop_last() =~= v + seq!['\r']);
        assert((v + seq!['\r']).drop_last() =~= v);
        assert(is_ws(s.last()));
        assert(is_ws((v + seq!['\r']).last()));
        assert(v.last() == v[v.len() - 1]);
        assert(trailing_ws(v) == 0);
        assert(trailing_ws(v + seq!['\r']) == 1);
        assert(trailing_ws(s) == 2);
        assert(trim(s) =~= v);
    }
}

// ---------------------------------------------------------------------
// Numbers.

/// A decimal reads back as its number, and is a word of digits.
proof fn lemma_decimal_word(n: nat, max: nat)
    requires
        n <= max,
    ensures
        word(decimal(n)),
        parse_unsigned(decimal(n), max) == Some(n),
        all_digits(decimal(n)),
        is_digit(decimal(n).last()),
        !decimal(n).contains(':'),
        !decimal(n).contains('/'),
        !decimal(n).contains('\n'),
        decimal(n)[0] != '-',
{
    lemma_decimal_reads_back(n);
    let s = decimal(n);
    assert(is_digit(s[s.len() - 1]));
    assert(is_digit(s[0]));
    assert forall|c: char| !is_digit(c) implies !s.contains(c) by {
        if s.contains(c) {
            let k = choose|k: int| 0 <= k < s.len() && s[k] == c;
            assert(is_digit(s[k]));
        }
    }
    assert(!is_digit(':') && !is_digit('/') && !is_digit('\n'));
}

/// A signed decimal of a 64-bit number reads back as the number, also as
/// a time value, and is a word.
proof fn lemma_signed_word(v: int)
    requires
        i64::MIN <= v <= i64::MAX,
    ensures
        word(signed_decimal(v)),
        parse_signed(signed_decimal(v)) == Some(v),
        time_units(signed_decimal(v)) == Some(v),
        time_units_in_range(signed_decimal(v)),
        is_digit(signed_decimal(v).last()),
        !signed_decimal(v).contains(':'),
        !signed_decimal(v).contains('/'),
        !signed_decimal(v).contains('\n'),
{
    let s = signed_decimal(v);
    if v < 0 {
        let n = (-v) as nat;
        lemma_decimal_word(n, 9223372036854775808);
        let d = decimal(n);
        assert(s == seq!['-'] + d);
        assert(s.drop_first() =~= d);
        assert(s.last() == d.last());
        assert(no_ws(s)) by {
            assert forall|i: int| 0 <= i < s.len() implies !is_ws(#[trigger] s[i]) by {
                if i > 0 {
                    assert(s[i] == d[i - 1]);
                }
            }
        }
        assert forall|c: char| c != '-' && !is_digit(c) implies !s.contains(c) by {
            if s.contains(c) {
                let k = choose|k: int| 0 <= k < s.len() && s[k] == c;
                if k > 0 {
                    assert(s[k] == d[k - 1]);
                    assert(d.contains(c));
                }
            }
        }
        assert(!is_digit(':') && !is_digit('/') && !is_digit('\n'));
    } else {
        lemma_decimal_word(v as nat, 9223372036854775807);
    }
    assert(!is_digit('d') && !is_digit('h') && !is_digit('m') && !is_digit('s'));
    assert(unit_seconds(s.last()) == 1);
    assert(!is_unit(s.last()));
}

// ---------------------------------------------------------------------
// The values of single lines.

/// The words of an origin line.
pub open spec fn origin_words(o: OriginView) -> Seq<Seq<char>> {
    seq![
        o.username,
        decimal(o.session_id as nat),
        decimal(o.session_version as nat),
        o.network_type,
        o.address_type,
        o.unicast_address,
    ]
}

/// An origin whose text reads back.
pub open spec fn origin_ok(o: OriginView) -> bool {
    &&& word(o.username)
    &&& o.network_type == seq!['I', 'N']
    &&& (o.address_type == seq!['I', 'P', '4'] || o.address_type == seq!['I', 'P', '6'])
    &&& word(o.unicast_address)
}

proof fn lemma_origin_reads_back(o: OriginView)
    requires
        origin_ok(o),
    ensures
        origin_spec(origin_text(o)) == Ok::<(Seq<Seq<char>>, u64, u64), SdpError>(
            (origin_words(o), o.session_id, o.session_version),
        ),
        clean_value(origin_text(o)),
{
    let w = origin_words(o);
    lemma_decimal_word(o.session_id as nat, u64::MAX as nat);
    lemma_decimal_word(o.session_version as nat, u64::MAX as nat);
    assert(word(o.network_type));
    assert(word(o.address_type));
    assert forall|i: int| 0 <= i < w.len() implies word(#[trigger] w[i]) by {}
    reveal_with_fuel(join, 7);
    assert(origin_text(o) =~= join(w, seq![' ']));
    lemma_split_ws_join(w);
    lemma_join_words_clean(w);
}

/// Connection information whose text reads back.
pub open spec fn connection_ok(c: ConnectionView) -> bool {
    &&& c.network_type == seq!['I', 'N']
    &&& (c.address_type == seq!['I', 'P', '4'] || c.address_type == seq!['I', 'P', '6'])
    &&& match c.address {
        Some(a) => word(a.address) && a.ttl is None && a.range is None,
        None => true,
    }
}

/// The words of a connection line.
pub open spec fn connection_words(c: ConnectionView) -> Seq<Seq<char>> {
    match c.address {
        Some(a) => seq![c.network_type, c.address_type, a.address],
        None => seq![c.network_type, c.address_type],
    }
}

proof fn lemma_connection_reads_back(c: ConnectionView)
    requires
        connection_ok(c),
    ensures
        connection_spec(connection_text(c)) == Ok::<Seq<Seq<char>>, SdpError>(connection_words(c)),
        connection_of(connection_words(c)) == c,
        clean_value(connection_text(c)),
{
    let w = connection_words(c);
    assert(word(c.network_type));
    assert(word(c.address_type));
    assert forall|i: int| 0 <= i < w.len() implies word(#[trigger] w[i]) by {}
    reveal_with_fuel(join, 4);
    match c.address {
        Some(a) => {
            assert(address_text(a) =~= a.address);
        },
        None => {},
    }
    assert(connection_text(c) =~= join(w, seq![' ']));
    lemma_split_ws_join(w);
    lemma_join_words_clean(w);
}

/// Words joined by spaces make a clean value.
proof fn lemma_join_words_clean(w: Seq<Seq<char>>)
    requires
        w.len() > 0,
        forall|i: int| 0 <= i < w.len() ==> word(#[trigger] w[i]),
    ensures
        clean_value(join(w, seq![' '])),
        join(w, seq![' ']).len() > 0,
        !join(w, seq![' ']).contains('\n'),
        !is_ws(join(w, seq![' '])[0]),
        !is_ws(join(w, seq![' ']).last()),
    decreases w.len(),
{
    let j = join(w, seq![' ']);
    if w.len() == 1 {
        assert(j == w[0]);
        assert(!is_ws(w[0][0]));
        assert(!is_ws(w[0][w[0].len() - 1]));
        assert(!w[0].contains('\n')) by {
            if w[0].contains('\n') {
                let k = choose|k: int| 0 <= k < w[0].len() && w[0][k] == '\n';
                assert(!is_ws(w[0][k]));
            }
        }
    } else {
        let p = w.drop_last();
        assert forall|i: int| 0 <= i < p.len() implies word(#[trigger] p[i]) by {
            assert(p[i] == w[i]);
        }
        lemma_join_words_clean(p);
        let pj = join(p, seq![' ']);
        let l = w.last();
        assert(word(l));
        assert(j == pj + seq![' '] + l);
        assert(j[0] == pj[0]);
        assert(j.last() == l[l.len() - 1]);
        assert(!is_ws(l[l.len() - 1]));
        assert(!j.contains('\n')) by {
            if j.contains('\n') {
                let k = choose|k: int| 0 <= k < j.len() && j[k] == '\n';
                if k < pj.len() {
                    assert(pj[k] == '\n');
                    assert(pj.contains('\n'));
                } else if k == pj.len() {
                    assert(j[k] == ' ');
                } else {
                    assert(l[k - pj.len() - 1] == '\n');
                    assert(!is_ws(l[k - pj.len() - 1]));
                }
            }
        }
    }
}

/// A bandwidth whose text reads back.
pub open spec fn bandwidth_ok(b: BandwidthView) -> bool {
    &&& !b.bandwidth_type.contains(':')
    &&& !b.bandwidth_type.contains('\n')
    &&& if b.experimental {
        !is_experimental(b.bandwidth_type)
    } else {
        b.bandwidth_type == seq!['C', 'T'] || b.bandwidth_type == seq!['A', 'S']
    }
}

proof fn lemma_bandwidth_reads_back(b: BandwidthView)
    requires
        bandwidth_ok(b),
    ensures
        bandwidth_spec(bandwidth_text(b)) == Ok::<(bool, Seq<char>, u64), SdpError>(
            (b.experimental, b.bandwidth_type, b.bandwidth),
        ),
        clean_value(bandwidth_text(b)),
{
    let pre: Seq<char> = if b.experimental {
        seq!['X', '-']
    } else {
        Seq::empty()
    };
    let head = pre + b.bandwidth_type;
    let d = decimal(b.bandwidth as nat);
    lemma_decimal_word(b.bandwidth as nat, u64::MAX as nat);
    assert(!head.contains(':')) by {
        if head.contains(':') {
            let k = choose|k: int| 0 <= k < head.len() && head[k] == ':';
            if k >= pre.len() {
                assert(b.bandwidth_type[k - pre.len()] == ':');
            }
        }
    }
    let parts = seq![head, d];
    assert forall|i: int| 0 <= i < parts.len() implies !(#[trigger] parts[i]).contains(':') by {}
    reveal_with_fuel(join, 3);
    assert(bandwidth_text(b) =~= join(parts, seq![':']));
    lemma_split_on_join(parts, ':');
    assert(split_on(bandwidth_text(b), ':') == parts);
    if b.experimental {
        assert(is_experimental(head));
        assert(head.subrange(2, head.len() as int) =~= b.bandwidth_type);
        assert(strip_experimental(b.bandwidth_type) == b.bandwidth_type);
        assert(strip_experimental(head) == b.bandwidth_type);
    } else {
        assert(head =~= b.bandwidth_type);
        assert(head[0] == 'C' || head[0] == 'A');
        assert(!is_experimental(head));
    }
    let t = bandwidth_text(b);
    assert(t.len() > 0);
    assert(t.last() == d.last());
    assert(!is_ws(t.last())) by {
        assert(!is_ws(d[d.len() - 1]));
    }
    assert(head.len() > 0);
    assert(t[0] == head[0]);
    assert(!is_ws(head[0])) by {
        if !b.experimental {
            assert(head[0] == 'C' || head[0] == 'A');
        }
    }
    assert(!t.contains('\n')) by {
        if t.contains('\n') {
            let k = choose|k: int| 0 <= k < t.len() && t[k] == '\n';
            if k < pre.len() {
            } else if k < head.len() {
                assert(b.bandwidth_type[k - pre.len()] == '\n');
            } else if k == head.len() {
            } else {
                assert(d[k - head.len() - 1] == '\n');
                assert(d.contains('\n'));
            }
        }
    }
}

/// An attribute whose text reads back.
pub open spec fn attribute_ok(a: AttributeView) -> bool {
    !a.key.contains(':') && clean_value(attribute_text(a))
}

proof fn lemma_attribute_reads_back(a: AttributeView)
    requires
        attribute_ok(a),
    ensures
        attribute_of(attribute_text(a)) == a,
{
    match a.value {
        Some(v) => {
            lemma_split_once(a.key, v, ':');
        },
        None => {
            lemma_first_index_none(a.key, ':');
        },
    }
}

/// Joining two lists of pieces is joining each and putting the separator
/// between.
proof fn lemma_join_concat(a: Seq<Seq<char>>, b: Seq<Seq<char>>, sep: Seq<char>)
    requires
        a.len() > 0,
        b.len() > 0,
    ensures
        join(a + b, sep) == join(a, sep) + sep + join(b, sep),
    decreases b.len(),
{
    if b.len() == 1 {
        assert((a + b).drop_last() =~= a);
        assert((a + b).last() == b[0]);
    } else {
        let b0 = b.drop_last();
        assert((a + b).drop_last() =~= a + b0);
        assert((a + b).last() == b.last());
        lemma_join_concat(a, b0, sep);
        assert(join(a + b, sep) =~= join(a, sep) + sep + join(b, sep));
    }
}

/// The words of a list of 64-bit values, each a signed decimal.
pub open spec fn signed_words(vs: Seq<int>) -> Seq<Seq<char>> {
    vs.map_values(|v: int| signed_decimal(v))
}

/// All values fit in 64 bits.
pub open spec fn all_i64(vs: Seq<int>) -> bool {
    forall|k: int| 0 <= k < vs.len() ==> i64::MIN <= #[trigger] vs[k] <= i64::MAX
}

/// Signed decimals read back as time values.
proof fn lemma_units_list_signed(vs: Seq<int>)
    requires
        all_i64(vs),
    ensures
        units_list(signed_words(vs)) == Some(vs),
        units_list_in_range(signed_words(vs)),
        forall|k: int| 0 <= k < vs.len() ==> word(#[trigger] signed_words(vs)[k]),
    decreases vs.len(),
{
    let w = signed_words(vs);
    if vs.len() > 0 {
        let v0 = vs.drop_last();
        assert(all_i64(v0)) by {
            assert forall|k: int| 0 <= k < v0.len() implies i64::MIN <= #[trigger] v0[k] <= i64::MAX by {
                assert(v0[k] == vs[k]);
            }
        }
        lemma_units_list_signed(v0);
        assert(w.drop_last() =~= signed_words(v0));
        assert(w.last() == signed_decimal(vs.last()));
        lemma_signed_word(vs.last());
        assert(v0.push(vs.last()) =~= vs);
        assert forall|k: int| 0 <= k < vs.len() implies word(#[trigger] w[k]) by {
            lemma_signed_word(vs[k]);
        }
    } else {
        assert(vs =~= Seq::<int>::empty());
    }
}

/// The offsets of a repeat time as whole numbers.
pub open spec fn repeat_values(r: RepeatView) -> Seq<int> {
    seq![r.interval as int, r.duration as int] + r.offsets.map_values(|o: i64| o as int)
}

proof fn lemma_offsets_join(p: Seq<Seq<char>>, os: Seq<i64>)
    requires
        p.len() > 0,
    ensures
        join(p, seq![' ']) + offsets_text(os) == join(
            p + signed_words(os.map_values(|o: i64| o as int)),
            seq![' '],
        ),
    decreases os.len(),
{
    let ow = signed_words(os.map_values(|o: i64| o as int));
    if os.len() == 0 {
        assert(ow =~= Seq::<Seq<char>>::empty());
        assert(p + ow =~= p);
        assert(join(p, seq![' ']) + offsets_text(os) =~= join(p, seq![' ']));
    } else {
        let o0 = os.drop_last();
        lemma_offsets_join(p, o0);
        let ow0 = signed_words(o0.map_values(|o: i64| o as int));
        assert(ow.drop_last() =~= ow0);
        assert((p + ow).drop_last() =~= p + ow0);
        assert((p + ow).last() == signed_decimal(os.last() as int));
        assert(join(p, seq![' ']) + offsets_text(os) =~= join(p + ow, seq![' ']));
    }
}

/// A repeat time whose text reads back: it has at least one offset.
pub open spec fn repeat_ok(r: RepeatView) -> bool {
    r.offsets.len() > 0
}

proof fn lemma_repeat_reads_back(r: RepeatView)
    requires
        repeat_ok(r),
    ensures
        repeat_time_spec(repeat_text(r)) == Ok::<Seq<int>, SdpError>(repeat_values(r)),
        repeat_time_in_range(repeat_text(r)),
        repeat_of(repeat_values(r)) == r,
        clean_value(repeat_text(r)),
        split_ws(repeat_text(r)).len() >= 3,
{
    let vs = repeat_values(r);
    let head = seq![signed_decimal(r.interval as int), signed_decimal(r.duration as int)];
    reveal_with_fuel(join, 3);
    assert(join(head, seq![' ']) =~= signed_decimal(r.interval as int) + seq![' '] + signed_decimal(
        r.duration as int,
    ));
    lemma_offsets_join(head, r.offsets);
    assert(head + signed_words(r.offsets.map_values(|o: i64| o as int)) =~= signed_words(vs));
    assert(all_i64(vs));
    lemma_units_list_signed(vs);
    lemma_split_ws_join(signed_words(vs));
    lemma_join_words_clean(signed_words(vs));
    assert(repeat_of(vs).offsets =~= r.offsets);
}

/// The words of the time zones, pair by pair from the front.
pub open spec fn zone_words(zs: Seq<TimeZone>) -> Seq<Seq<char>>
    decreases zs.len(),
{
    if zs.len() == 0 {
        Seq::empty()
    } else {
        seq![decimal(zs[0].adjustment_time as nat), signed_decimal(zs[0].offset as int)]
            + zone_words(zs.drop_first())
    }
}

/// The time zones as pairs of numbers.
pub open spec fn zone_pairs(zs: Seq<TimeZone>) -> Seq<(u64, int)> {
    zs.map_values(|z: TimeZone| (z.adjustment_time, z.offset as int))
}

#[verifier::spinoff_prover]
proof fn lemma_zones_read_back(zs: Seq<TimeZone>)
    requires
        zs.len() > 0,
    ensures
        join(zone_texts(zs), seq![' ']) == join(zone_words(zs), seq![' ']),
        zone_words(zs).len() == 2 * zs.len(),
        forall|k: int| 0 <= k < zone_words(zs).len() ==> word(#[trigger] zone_words(zs)[k]),
        zones_spec(zone_words(zs)) == Some(zone_pairs(zs)),
        zones_in_range(zone_words(zs)),
    decreases zs.len(),
{
    let z = zs[0];
    let rest = zs.drop_first();
    let d = decimal(z.adjustment_time as nat);
    let sd = signed_decimal(z.offset as int);
    lemma_decimal_word(z.adjustment_time as nat, u64::MAX as nat);
    lemma_signed_word(z.offset as int);
    let head = seq![d, sd];
    reveal_with_fuel(join, 3);
    assert(join(head, seq![' ']) =~= zone_text(z));
    assert(zone_words(zs) == head + zone_words(rest));
    if rest.len() == 0 {
        assert(zone_words(rest) =~= Seq::<Seq<char>>::empty());
        assert(zone_words(zs) =~= head);
        assert(zone_texts(zs) =~= seq![zone_text(z)]);
        assert(zone_words(zs).subrange(2, 2) =~= Seq::<Seq<char>>::empty());
        assert(zones_in_range(Seq::<Seq<char>>::empty()));
        assert(zones_in_range(head));
        assert(zone_pairs(zs) =~= seq![(z.adjustment_time, z.offset as int)]);
        assert(seq![(z.adjustment_time, z.offset as int)] + Seq::<(u64, int)>::empty() =~= seq![
            (z.adjustment_time, z.offset as int),
        ]);
    } else {
        lemma_zones_read_back(rest);
        assert(zone_texts(zs) =~= seq![zone_text(z)] + zone_texts(rest));
        lemma_join_concat(seq![zone_text(z)], zone_texts(rest), seq![' ']);
        lemma_join_concat(head, zone_words(rest), seq![' ']);
        let w = zone_words(zs);
        assert forall|k: int| 0 <= k < w.len() implies word(#[trigger] w[k]) by {
            if k >= 2 {
                assert(w[k] == zone_words(rest)[k - 2]);
            }
        }
        assert(w.subrange(2, w.len() as int) =~= zone_words(rest));
        assert(w[0] == d && w[1] == sd);
        assert(zones_in_range(w));
        assert(zone_pairs(zs) =~= seq![(z.adjustment_time, z.offset as int)] + zone_pairs(rest));
    }
}

/// The words of an `m=` line.
pub open spec fn media_words(m: MediaNameView) -> Seq<Seq<char>> {
    seq![m.media, port_text(m.port), join(m.protos, seq!['/'])] + m.formats
}

/// The fields of an `m=` line that read back.
pub open spec fn media_name_ok(m: MediaNameView) -> bool {
    &&& is_media_type(m.media)
    &&& 0 <= m.port.value <= 65535
    &&& match m.port.range {
        Some(x) => -2147483648 <= x <= 2147483647,
        None => true,
    }
    &&& m.protos.len() > 0
    &&& forall|k: int| 0 <= k < m.protos.len() ==> is_proto(#[trigger] m.protos[k])
    &&& m.formats.len() > 0
    &&& forall|k: int| 0 <= k < m.formats.len() ==> word(#[trigger] m.formats[k])
}

proof fn lemma_registered_word(s: Seq<char>)
    requires
        is_media_type(s) || is_proto(s),
    ensures
        word(s),
        !s.contains('/'),
{
    assert forall|i: int| 0 <= i < s.len() implies !is_ws(#[trigger] s[i]) && s[i] != '/' by {
        assert('a' <= s[i] <= 'z' || 'A' <= s[i] <= 'Z');
    }
}

/// Words joined by a separator that is no whitespace make one word.
proof fn lemma_join_word(xs: Seq<Seq<char>>, c: char)
    requires
        xs.len() > 0,
        !is_ws(c),
        forall|k: int| 0 <= k < xs.len() ==> word(#[trigger] xs[k]),
    ensures
        word(join(xs, seq![c])),
    decreases xs.len(),
{
    if xs.len() > 1 {
        let x0 = xs.drop_last();
        assert forall|k: int| 0 <= k < x0.len() implies word(#[trigger] x0[k]) by {
            assert(x0[k] == xs[k]);
        }
        lemma_join_word(x0, c);
        let j = join(xs, seq![c]);
        let p = join(x0, seq![c]);
        let l = xs.last();
        assert(word(l));
        assert forall|i: int| 0 <= i < j.len() implies !is_ws(#[trigger] j[i]) by {
            if i < p.len() {
                assert(j[i] == p[i]);
            } else if i > p.len() {
                assert(j[i] == l[i - p.len() - 1]);
            }
        }
    }
}

#[verifier::spinoff_prover]
proof fn lemma_media_name_reads_back(m: MediaNameView)
    requires
        media_name_ok(m),
    ensures
        split_ws(media_name_text(m)) == media_words(m),
        media_description_spec(media_name_text(m)) == Ok::<
            (Seq<char>, int, Option<int>, Seq<Seq<char>>, Seq<Seq<char>>),
            SdpError,
        >(
            (
                m.media,
                m.port.value as int,
                match m.port.range {
                    Some(x) => Some(x as int),
                    None => None,
                },
                m.protos,
                m.formats,
            ),
        ),
        clean_value(media_name_text(m)),
{
    let v = m.port.value as int;
    lemma_decimal_word(v as nat, 65535);
    assert(signed_decimal(v) == decimal(v as nat));
    let port_parts: Seq<Seq<char>> = match m.port.range {
        Some(x) => seq![decimal(v as nat), signed_decimal(x as int)],
        None => seq![decimal(v as nat)],
    };
    reveal_with_fuel(join, 3);
    match m.port.range {
        Some(x) => {
            lemma_signed_word(x as int);
            assert(parse_i32_spec(signed_decimal(x as int)) == Some(x as int));
        },
        None => {},
    }
    assert(port_text(m.port) =~= join(port_parts, seq!['/']));
    assert forall|k: int| 0 <= k < port_parts.len() implies !(#[trigger] port_parts[k]).contains('/') && word(port_parts[k]) by {}
    lemma_split_on_join(port_parts, '/');
    lemma_join_word(port_parts, '/');
    assert forall|k: int| 0 <= k < m.protos.len() implies !(#[trigger] m.protos[k]).contains('/') && word(m.protos[k]) by {
        lemma_registered_word(m.protos[k]);
    }
    lemma_split_on_join(m.protos, '/');
    lemma_join_word(m.protos, '/');
    lemma_registered_word(m.media);
    let head = seq![m.media, port_text(m.port), join(m.protos, seq!['/'])];
    assert(join(head, seq![' ']) =~= m.media + seq![' '] + port_text(m.port) + seq![' '] + join(
        m.protos,
        seq!['/'],
    ));
    lemma_join_concat(head, m.formats, seq![' ']);
    let w = media_words(m);
    assert(media_name_text(m) =~= join(w, seq![' ']));
    assert forall|k: int| 0 <= k < w.len() implies word(#[trigger] w[k]) by {
        if k >= 3 {
            assert(w[k] == m.formats[k - 3]);
        }
    }
    lemma_split_ws_join(w);
    lemma_join_words_clean(w);
    assert(w[0] == m.media);
    assert(w[1] == port_text(m.port));
    assert(w[2] == join(m.protos, seq!['/']));
    assert(w.subrange(3, w.len() as int) =~= m.formats);
    assert(!(exists|i: int| 0 <= i < m.protos.len() && !is_proto(#[trigger] m.protos[i])));
}

// ---------------------------------------------------------------------
// Reading lines.

/// What reading from `i` in `state` gives: the description, or why it is
/// refused, and whether every time value reached fits in 64 bits.
#[verifier::opaque]
pub open spec fn reading(st: LexState, d: SessionView, s: Seq<char>, i: int) -> (
    Result<SessionView, SdpError>,
    bool,
) {
    (parse_from(st, d, s, i), parse_in_range(st, d, s, i))
}

/// `s` holds `piece` from position `i` on.
pub open spec fn holds_at(s: Seq<char>, i: int, piece: Seq<char>) -> bool {
    0 <= i && i + piece.len() <= s.len() && s.subrange(i, i + piece.len()) == piece
}

proof fn lemma_holds_split(s: Seq<char>, i: int, a: Seq<char>, b: Seq<char>)
    requires
        holds_at(s, i, a + b),
    ensures
        holds_at(s, i, a),
        holds_at(s, i + a.len(), b),
{
    let t = s.subrange(i, i + (a + b).len());
    assert(t == a + b);
    assert(s.subrange(i, i + a.len()) =~= t.subrange(0, a.len() as int));
    assert(t.subrange(0, a.len() as int) =~= a);
    assert(s.subrange(i + a.len(), i + a.len() + b.len()) =~= t.subrange(
        a.len() as int,
        t.len() as int,
    ));
    assert(t.subrange(a.len() as int, t.len() as int) =~= b);
}

proof fn lemma_past_skip(s: Seq<char>, a: int, b: int, c: char)
    requires
        0 <= a <= b <= s.len(),
        forall|k: int| a <= k < b ==> s[k] != c,
    ensures
        past(s, a, c) == past(s, b, c),
    decreases b - a,
{
    if a < b {
        lemma_past_skip(s, a + 1, b, c);
    }
}

/// A line of type `c` and clean value `v` that may come in `st` and is
/// applied without refusal moves the reading past it.
#[verifier::spinoff_prover]
proof fn lemma_read_line(
    st: LexState,
    d: SessionView,
    s: Seq<char>,
    i: int,
    c: char,
    v: Seq<char>,
    kind: LineKind,
    d2: SessionView,
)
    requires
        holds_at(s, i, line(seq![c, '='], v)),
        c != '\n' && c != '\r' && c != '=',
        clean_value(v),
        line_for(st, c) == Some(kind),
        apply_spec(d, kind, v) == Ok::<SessionView, SdpError>(d2),
        line_in_range(d, kind, v),
    ensures
        reading(st, d, s, i) == reading(spec_state_after(kind), d2, s, i + v.len() + 4),
{
    let l = line(seq![c, '='], v);
    assert(l.len() == v.len() + 4);
    assert forall|k: int| i <= k < i + l.len() implies s[k] == l[k - i] by {
        assert(s.subrange(i, i + l.len())[k - i] == s[k]);
    }
    assert(s[i] == l[0]);
    assert(s[i + 1] == l[1]);
    assert(s[i] == c);
    assert(s[i + 1] == '=');
    assert(skip_breaks(s, i) == i);
    assert(past(s, i + 1, '=') == i + 2);
    assert(past(s, i, '=') == i + 2);
    let e = i + 2 + v.len();
    assert forall|k: int| i + 2 <= k < e implies s[k] != '\n' by {
        assert(s[k] == l[k - i]);
        assert(l[k - i] == v[k - i - 2]);
        if v[k - i - 2] == '\n' {
            assert(v.contains('\n'));
        }
    }
    lemma_past_skip(s, i + 2, e, '\n');
    assert(s[e] == l[v.len() as int + 2]);
    assert(s[e] == '\r');
    assert(s[e + 1] == l[v.len() as int + 3]);
    assert(s[e + 1] == '\n');
    assert(past(s, e + 1, '\n') == e + 2);
    assert(past(s, e, '\n') == e + 2);
    assert(s.subrange(i + 2, e + 2) =~= v + seq!['\r', '\n']);
    lemma_trim_clean(v);
    reveal(reading);
}

// ---------------------------------------------------------------------
// Reading runs of lines.

pub open spec fn all_bandwidths_ok(bs: Seq<BandwidthView>) -> bool {
    forall|k: int| 0 <= k < bs.len() ==> bandwidth_ok(#[trigger] bs[k])
}

pub open spec fn all_attributes_ok(attrs: Seq<AttributeView>) -> bool {
    forall|k: int| 0 <= k < attrs.len() ==> attribute_ok(#[trigger] attrs[k])
}

pub open spec fn all_repeats_ok(rs: Seq<RepeatView>) -> bool {
    forall|k: int| 0 <= k < rs.len() ==> repeat_ok(#[trigger] rs[k])
}

pub open spec fn all_times_ok(ts: Seq<TimeView>) -> bool {
    forall|k: int| 0 <= k < ts.len() ==> all_repeats_ok(#[trigger] ts[k].repeat_times)
}

#[verifier::spinoff_prover]
proof fn lemma_read_session_bandwidths(
    st: LexState,
    d: SessionView,
    s: Seq<char>,
    i: int,
    bs: Seq<BandwidthView>,
)
    requires
        holds_at(s, i, bandwidth_lines(bs)),
        all_bandwidths_ok(bs),
        before_timing(st),
    ensures
        reading(st, d, s, i) == reading(
            if bs.len() == 0 {
                st
            } else {
                LexState::S5
            },
            SessionView { bandwidth: d.bandwidth + bs, ..d },
            s,
            i + bandwidth_lines(bs).len(),
        ),
    decreases bs.len(),
{
    if bs.len() == 0 {
        assert(d.bandwidth + bs =~= d.bandwidth);
    } else {
        let b0 = bs.drop_last();
        let b = bs.last();
        let t = bandwidth_text(b);
        lemma_holds_split(s, i, bandwidth_lines(b0), line(seq!['b', '='], t));
        assert(all_bandwidths_ok(b0)) by {
            assert forall|k: int| 0 <= k < b0.len() implies bandwidth_ok(#[trigger] b0[k]) by {
                assert(b0[k] == bs[k]);
            }
        }
        lemma_read_session_bandwidths(st, d, s, i, b0);
        let st1 = if b0.len() == 0 {
            st
        } else {
            LexState::S5
        };
        let d1 = SessionView { bandwidth: d.bandwidth + b0, ..d };
        assert(bandwidth_ok(b)) by {
            assert(b == bs[bs.len() - 1]);
        }
        lemma_bandwidth_reads_back(b);
        let d2 = SessionView { bandwidth: d1.bandwidth.push(b), ..d1 };
        assert(apply_spec(d1, LineKind::SessionBandwidth, t) == Ok::<SessionView, SdpError>(d2));
        lemma_read_line(
            st1,
            d1,
            s,
            i + bandwidth_lines(b0).len(),
            'b',
            t,
            LineKind::SessionBandwidth,
            d2,
        );
        assert(d1.bandwidth.push(b) =~= d.bandwidth + bs);
    }
}

/// The states in which session attributes may come.
pub open spec fn attribute_state(st: LexState) -> bool {
    st == LexState::S9 || st == LexState::S11 || st == LexState::S13
}

#[verifier::spinoff_prover]
proof fn lemma_read_session_attributes(
    st: LexState,
    d: SessionView,
    s: Seq<char>,
    i: int,
    attrs: Seq<AttributeView>,
)
    requires
        holds_at(s, i, attribute_lines(attrs)),
        all_attributes_ok(attrs),
        attribute_state(st),
    ensures
        reading(st, d, s, i) == reading(
            if attrs.len() == 0 {
                st
            } else {
                LexState::S11
            },
            SessionView { attributes: d.attributes + attrs, ..d },
            s,
            i + attribute_lines(attrs).len(),
        ),
    decreases attrs.len(),
{
    if attrs.len() == 0 {
        assert(d.attributes + attrs =~= d.attributes);
    } else {
        let a0 = attrs.drop_last();
        let a = attrs.last();
        let t = attribute_text(a);
        lemma_holds_split(s, i, attribute_lines(a0), line(seq!['a', '='], t));
        assert(all_attributes_ok(a0)) by {
            assert forall|k: int| 0 <= k < a0.len() implies attribute_ok(#[trigger] a0[k]) by {
                assert(a0[k] == attrs[k]);
            }
        }
        lemma_read_session_attributes(st, d, s, i, a0);
        let st1 = if a0.len() == 0 {
            st
        } else {
            LexState::S11
        };
        let d1 = SessionView { attributes: d.attributes + a0, ..d };
        assert(attribute_ok(a)) by {
            assert(a == attrs[attrs.len() - 1]);
        }
        lemma_attribute_reads_back(a);
        let d2 = SessionView { attributes: d1.attributes.push(a), ..d1 };
        assert(apply_spec(d1, LineKind::SessionAttribute, t) == Ok::<SessionView, SdpError>(d2));
        lemma_read_line(
            st1,
            d1,
            s,
            i + attribute_lines(a0).len(),
            'a',
            t,
            LineKind::SessionAttribute,
            d2,
        );
        assert(d1.attributes.push(a) =~= d.attributes + attrs);
    }
}

/// `d` with `rs` appended to the repeat times of its last time description.
pub open spec fn with_repeats(d: SessionView, rs: Seq<RepeatView>) -> SessionView {
    let n = d.time_descriptions.len() - 1;
    let lt = d.time_descriptions[n];
    SessionView {
        time_descriptions: d.time_descriptions.update(
            n,
            TimeView { repeat_times: lt.repeat_times + rs, ..lt },
        ),
        ..d
    }
}

#[verifier::spinoff_prover]
proof fn lemma_read_repeats(d: SessionView, s: Seq<char>, i: int, rs: Seq<RepeatView>)
    requires
        holds_at(s, i, repeat_lines(rs)),
        all_repeats_ok(rs),
        d.time_descriptions.len() > 0,
    ensures
        reading(LexState::S9, d, s, i) == reading(
            LexState::S9,
            with_repeats(d, rs),
            s,
            i + repeat_lines(rs).len(),
        ),
    decreases rs.len(),
{
    let n = d.time_descriptions.len() - 1;
    let lt = d.time_descriptions[n];
    if rs.len() == 0 {
        assert(lt.repeat_times + rs =~= lt.repeat_times);
        assert(d.time_descriptions.update(n, TimeView { repeat_times: lt.repeat_times, ..lt })
            =~= d.time_descriptions);
    } else {
        let r0 = rs.drop_last();
        let r = rs.last();
        let t = repeat_text(r);
        lemma_holds_split(s, i, repeat_lines(r0), line(seq!['r', '='], t));
        assert(all_repeats_ok(r0)) by {
            assert forall|k: int| 0 <= k < r0.len() implies repeat_ok(#[trigger] r0[k]) by {
                assert(r0[k] == rs[k]);
            }
        }
        lemma_read_repeats(d, s, i, r0);
        let d1 = with_repeats(d, r0);
        assert(repeat_ok(r)) by {
            assert(r == rs[rs.len() - 1]);
        }
        lemma_repeat_reads_back(r);
        let lt1 = d1.time_descriptions.last();
        assert(lt1 == TimeView { repeat_times: lt.repeat_times + r0, ..lt });
        let d2 = SessionView {
            time_descriptions: d1.time_descriptions.update(
                n,
                TimeView { repeat_times: lt1.repeat_times.push(repeat_of(repeat_values(r))), ..lt1 },
            ),
            ..d1
        };
        assert(apply_spec(d1, LineKind::RepeatTimes, t) == Ok::<SessionView, SdpError>(d2));
        lemma_read_line(
            LexState::S9,
            d1,
            s,
            i + repeat_lines(r0).len(),
            'r',
            t,
            LineKind::RepeatTimes,
            d2,
        );
        assert((lt.repeat_times + r0).push(r) =~= lt.repeat_times + rs);
        assert(d2.time_descriptions =~= with_repeats(d, rs).time_descriptions);
    }
}

/// The states in which a `t=` line may come.
pub open spec fn timing_state(st: LexState) -> bool {
    before_timing(st) || st == LexState::S9
}

#[verifier::spinoff_prover]
proof fn lemma_read_times(st: LexState, d: SessionView, s: Seq<char>, i: int, ts: Seq<TimeView>)
    requires
        holds_at(s, i, time_lines(ts)),
        all_times_ok(ts),
        timing_state(st),
    ensures
        reading(st, d, s, i) == reading(
            if ts.len() == 0 {
                st
            } else {
                LexState::S9
            },
            SessionView { time_descriptions: d.time_descriptions + ts, ..d },
            s,
            i + time_lines(ts).len(),
        ),
    decreases ts.len(),
{
    if ts.len() == 0 {
        assert(d.time_descriptions + ts =~= d.time_descriptions);
    } else {
        let t0 = ts.drop_last();
        let tv = ts.last();
        let tt = timing_text(tv.timing);
        let tl = line(seq!['t', '='], tt);
        lemma_holds_split(s, i, time_lines(t0) + tl, repeat_lines(tv.repeat_times));
        lemma_holds_split(s, i, time_lines(t0), tl);
        assert(all_times_ok(t0)) by {
            assert forall|k: int| 0 <= k < t0.len() implies all_repeats_ok(
                #[trigger] t0[k].repeat_times,
            ) by {
                assert(t0[k] == ts[k]);
            }
        }
        lemma_read_times(st, d, s, i, t0);
        let st1 = if t0.len() == 0 {
            st
        } else {
            LexState::S9
        };
        let d1 = SessionView { time_descriptions: d.time_descriptions + t0, ..d };
        lemma_timing_roundtrip(tv.timing);
        lemma_decimal_word(tv.timing.start_time as nat, u64::MAX as nat);
        lemma_decimal_word(tv.timing.stop_time as nat, u64::MAX as nat);
        let w = seq![decimal(tv.timing.start_time as nat), decimal(tv.timing.stop_time as nat)];
        reveal_with_fuel(join, 3);
        assert(tt =~= join(w, seq![' ']));
        assert forall|k: int| 0 <= k < w.len() implies word(#[trigger] w[k]) by {}
        lemma_join_words_clean(w);
        let fresh = TimeView { timing: tv.timing, repeat_times: Seq::empty() };
        let d2 = SessionView { time_descriptions: d1.time_descriptions.push(fresh), ..d1 };
        assert(apply_spec(d1, LineKind::Timing, tt) == Ok::<SessionView, SdpError>(d2));
        let j = i + time_lines(t0).len();
        lemma_read_line(st1, d1, s, j, 't', tt, LineKind::Timing, d2);
        assert(all_repeats_ok(tv.repeat_times)) by {
            assert(tv == ts[ts.len() - 1]);
        }
        lemma_read_repeats(d2, s, j + tl.len(), tv.repeat_times);
        let d3 = with_repeats(d2, tv.repeat_times);
        assert(Seq::<RepeatView>::empty() + tv.repeat_times =~= tv.repeat_times);
        assert(d3.time_descriptions =~= d.time_descriptions + ts);
        assert(time_lines(ts) == time_lines(t0) + tl + repeat_lines(tv.repeat_times));
    }
}

/// The states after the `m=` line of a media description and the lines
/// that may follow it.
pub open spec fn media_state(st: LexState) -> bool {
    st == LexState::S12 || st == LexState::S14 || st == LexState::S15 || st == LexState::S16
}

/// `d` with its last media description replaced by `m`, keeping the rest.
pub open spec fn last_media(d: SessionView) -> MediaView {
    d.media_descriptions.last()
}

#[verifier::spinoff_prover]
proof fn lemma_read_media_bandwidths(
    st: LexState,
    d: SessionView,
    s: Seq<char>,
    i: int,
    bs: Seq<BandwidthView>,
)
    requires
        holds_at(s, i, bandwidth_lines(bs)),
        all_bandwidths_ok(bs),
        d.media_descriptions.len() > 0,
        st == LexState::S12 || st == LexState::S15 || st == LexState::S16,
    ensures
        reading(st, d, s, i) == reading(
            if bs.len() == 0 {
                st
            } else {
                LexState::S15
            },
            with_last_media(
                d,
                MediaView { bandwidth: last_media(d).bandwidth + bs, ..last_media(d) },
            ),
            s,
            i + bandwidth_lines(bs).len(),
        ),
    decreases bs.len(),
{
    let lm = last_media(d);
    let n = d.media_descriptions.len() - 1;
    if bs.len() == 0 {
        assert(lm.bandwidth + bs =~= lm.bandwidth);
        assert(d.media_descriptions.update(n, lm) =~= d.media_descriptions);
    } else {
        let b0 = bs.drop_last();
        let b = bs.last();
        let t = bandwidth_text(b);
        lemma_holds_split(s, i, bandwidth_lines(b0), line(seq!['b', '='], t));
        assert(all_bandwidths_ok(b0)) by {
            assert forall|k: int| 0 <= k < b0.len() implies bandwidth_ok(#[trigger] b0[k]) by {
                assert(b0[k] == bs[k]);
            }
        }
        lemma_read_media_bandwidths(st, d, s, i, b0);
        let st1 = if b0.len() == 0 {
            st
        } else {
            LexState::S15
        };
        let m1 = MediaView { bandwidth: lm.bandwidth + b0, ..lm };
        let d1 = with_last_media(d, m1);
        assert(bandwidth_ok(b)) by {
            assert(b == bs[bs.len() - 1]);
        }
        lemma_bandwidth_reads_back(b);
        assert(last_media(d1) == m1);
        let m2 = MediaView { bandwidth: m1.bandwidth.push(b), ..m1 };
        let d2 = with_last_media(d1, m2);
        assert(apply_spec(d1, LineKind::MediaBandwidth, t) == Ok::<SessionView, SdpError>(d2));
        lemma_read_line(st1, d1, s, i + bandwidth_lines(b0).len(), 'b', t, LineKind::MediaBandwidth, d2);
        assert(m1.bandwidth.push(b) =~= lm.bandwidth + bs);
        assert(d2.media_descriptions =~= with_last_media(
            d,
            MediaView { bandwidth: lm.bandwidth + bs, ..lm },
        ).media_descriptions);
    }
}

#[verifier::spinoff_prover]
proof fn lemma_read_media_attributes(
    st: LexState,
    d: SessionView,
    s: Seq<char>,
    i: int,
    attrs: Seq<AttributeView>,
)
    requires
        holds_at(s, i, attribute_lines(attrs)),
        all_attributes_ok(attrs),
        d.media_descriptions.len() > 0,
        media_state(st),
    ensures
        reading(st, d, s, i) == reading(
            if attrs.len() == 0 {
                st
            } else {
                LexState::S14
            },
            with_last_media(
                d,
                MediaView { attributes: last_media(d).attributes + attrs, ..last_media(d) },
            ),
            s,
            i + attribute_lines(attrs).len(),
        ),
    decreases attrs.len(),
{
    let lm = last_media(d);
    let n = d.media_descriptions.len() - 1;
    if attrs.len() == 0 {
        assert(lm.attributes + attrs =~= lm.attributes);
        assert(d.media_descriptions.update(n, lm) =~= d.media_descriptions);
    } else {
        let a0 = attrs.drop_last();
        let a = attrs.last();
        let t = attribute_text(a);
        lemma_holds_split(s, i, attribute_lines(a0), line(seq!['a', '='], t));
        assert(all_attributes_ok(a0)) by {
            assert forall|k: int| 0 <= k < a0.len() implies attribute_ok(#[trigger] a0[k]) by {
                assert(a0[k] == attrs[k]);
            }
        }
        lemma_read_media_attributes(st, d, s, i, a0);
        let st1 = if a0.len() == 0 {
            st
        } else {
            LexState::S14
        };
        let m1 = MediaView { attributes: lm.attributes + a0, ..lm };
        let d1 = with_last_media(d, m1);
        assert(attribute_ok(a)) by {
            assert(a == attrs[attrs.len() - 1]);
        }
        lemma_attribute_reads_back(a);
        assert(last_media(d1) == m1);
        let m2 = MediaView { attributes: m1.attributes.push(a), ..m1 };
        let d2 = with_last_media(d1, m2);
        assert(apply_spec(d1, LineKind::MediaAttribute, t) == Ok::<SessionView, SdpError>(d2));
        lemma_read_line(st1, d1, s, i + attribute_lines(a0).len(), 'a', t, LineKind::MediaAttribute, d2);
        assert(m1.attributes.push(a) =~= lm.attributes + attrs);
        assert(d2.media_descriptions =~= with_last_media(
            d,
            MediaView { attributes: lm.attributes + attrs, ..lm },
        ).media_descriptions);
    }
}

/// An optional value that reads back as itself.
pub open spec fn opt_clean(v: Option<Seq<char>>) -> bool {
    match v {
        Some(x) => clean_value(x),
        None => true,
    }
}

/// Optional connection information that reads back.
pub open spec fn opt_connection_ok(c: Option<ConnectionView>) -> bool {
    match c {
        Some(x) => connection_ok(x),
        None => true,
    }
}

/// A media description whose lines read back.
pub open spec fn media_ok(m: MediaView) -> bool {
    &&& media_name_ok(m.media_name)
    &&& opt_clean(m.media_title)
    &&& opt_connection_ok(m.connection_information)
    &&& all_bandwidths_ok(m.bandwidth)
    &&& opt_clean(m.encryption_key)
    &&& all_attributes_ok(m.attributes)
}

/// The state after the lines of a media description.
pub open spec fn media_end_state(m: MediaView) -> LexState {
    if m.attributes.len() > 0 || m.encryption_key is Some {
        LexState::S14
    } else if m.bandwidth.len() > 0 || m.connection_information is Some {
        LexState::S15
    } else if m.media_title is Some {
        LexState::S16
    } else {
        LexState::S12
    }
}

/// The states from which an `m=` line may come.
pub open spec fn media_start_state(st: LexState) -> bool {
    attribute_state(st) || media_state(st)
}

/// A media description with only its `m=`, `i=` and `c=` lines.
pub open spec fn media_head(m: MediaView) -> MediaView {
    MediaView {
        media_name: m.media_name,
        media_title: m.media_title,
        connection_information: m.connection_information,
        bandwidth: Seq::empty(),
        encryption_key: None,
        attributes: Seq::empty(),
    }
}

/// The state after the `m=`, `i=` and `c=` lines of a media description.
pub open spec fn media_head_state(m: MediaView) -> LexState {
    if m.connection_information is Some {
        LexState::S15
    } else if m.media_title is Some {
        LexState::S16
    } else {
        LexState::S12
    }
}

/// The `m=`, `i=` and `c=` lines of a media description.
pub open spec fn media_head_text(m: MediaView) -> Seq<char> {
    line(seq!['m', '='], media_name_text(m.media_name)) + opt_line(seq!['i', '='], m.media_title)
        + connection_line(m.connection_information)
}

/// The `b=`, `k=` and `a=` lines of a media description.
pub open spec fn media_tail_text(m: MediaView) -> Seq<char> {
    bandwidth_lines(m.bandwidth) + opt_line(seq!['k', '='], m.encryption_key) + attribute_lines(
        m.attributes,
    )
}

#[verifier::spinoff_prover]
proof fn lemma_read_media_name(st: LexState, d: SessionView, s: Seq<char>, i: int, m: MediaView)
    requires
        holds_at(s, i, line(seq!['m', '='], media_name_text(m.media_name))),
        media_name_ok(m.media_name),
        media_start_state(st),
    ensures
        reading(st, d, s, i) == reading(
            LexState::S12,
            SessionView {
                media_descriptions: d.media_descriptions.push(
                    MediaView {
                        media_title: None,
                        connection_information: None,
                        ..media_head(m)
                    },
                ),
                ..d
            },
            s,
            i + line(seq!['m', '='], media_name_text(m.media_name)).len(),
        ),
{
    lemma_media_name_reads_back(m.media_name);
    let m0 = MediaView { media_title: None, connection_information: None, ..media_head(m) };
    let d0 = SessionView { media_descriptions: d.media_descriptions.push(m0), ..d };
    assert(apply_spec(d, LineKind::MediaDescription, media_name_text(m.media_name)) == Ok::<
        SessionView,
        SdpError,
    >(d0));
    lemma_read_line(st, d, s, i, 'm', media_name_text(m.media_name), LineKind::MediaDescription, d0);
}

#[verifier::spinoff_prover]
proof fn lemma_read_media_title(d: SessionView, s: Seq<char>, i: int, m: MediaView)
    requires
        holds_at(s, i, opt_line(seq!['i', '='], m.media_title)),
        opt_clean(m.media_title),
    ensures
        ({
            let m0 = MediaView { media_title: None, connection_information: None, ..media_head(m) };
            let m1 = MediaView { connection_information: None, ..media_head(m) };
            reading(
                LexState::S12,
                SessionView { media_descriptions: d.media_descriptions.push(m0), ..d },
                s,
                i,
            ) == reading(
                if m.media_title is Some {
                    LexState::S16
                } else {
                    LexState::S12
                },
                SessionView { media_descriptions: d.media_descriptions.push(m1), ..d },
                s,
                i + opt_line(seq!['i', '='], m.media_title).len(),
            )
        }),
{
    let m0 = MediaView { media_title: None, connection_information: None, ..media_head(m) };
    let m1 = MediaView { connection_information: None, ..media_head(m) };
    let d0 = SessionView { media_descriptions: d.media_descriptions.push(m0), ..d };
    let d1 = SessionView { media_descriptions: d.media_descriptions.push(m1), ..d };
    match m.media_title {
        Some(t) => {
            assert(with_last_media(d0, m1).media_descriptions =~= d1.media_descriptions);
            assert(apply_spec(d0, LineKind::MediaTitle, t) == Ok::<SessionView, SdpError>(d1));
            lemma_read_line(LexState::S12, d0, s, i, 'i', t, LineKind::MediaTitle, d1);
        },
        None => {
            assert(d0 == d1);
        },
    }
}

#[verifier::rlimit(40)]
proof fn lemma_read_media_connection(st: LexState, d: SessionView, s: Seq<char>, i: int, m: MediaView)
    requires
        holds_at(s, i, connection_line(m.connection_information)),
        opt_connection_ok(m.connection_information),
        st == (if m.media_title is Some {
            LexState::S16
        } else {
            LexState::S12
        }),
    ensures
        ({
            let m1 = MediaView { connection_information: None, ..media_head(m) };
            reading(
                st,
                SessionView { media_descriptions: d.media_descriptions.push(m1), ..d },
                s,
                i,
            ) == reading(
                media_head_state(m),
                SessionView { media_descriptions: d.media_descriptions.push(media_head(m)), ..d },
                s,
                i + connection_line(m.connection_information).len(),
            )
        }),
{
    let m1 = MediaView { connection_information: None, ..media_head(m) };
    let m2 = media_head(m);
    let d1 = SessionView { media_descriptions: d.media_descriptions.push(m1), ..d };
    let d2 = SessionView { media_descriptions: d.media_descriptions.push(m2), ..d };
    match m.connection_information {
        Some(c) => {
            lemma_connection_reads_back(c);
            let w = connection_words(c);
            assert(connection_spec(connection_text(c)) == Ok::<Seq<Seq<char>>, SdpError>(w));
            assert(connection_of(w) == c);
            assert(last_media(d1) == m1);
            assert(with_last_media(d1, m2).media_descriptions =~= d2.media_descriptions);
            assert(apply_spec(d1, LineKind::MediaConnectionInformation, connection_text(c)) == Ok::<
                SessionView,
                SdpError,
            >(d2));
            lemma_read_line(
                st,
                d1,
                s,
                i,
                'c',
                connection_text(c),
                LineKind::MediaConnectionInformation,
                d2,
            );
        },
        None => {
            assert(m1 == m2);
        },
    }
}

#[verifier::spinoff_prover]
proof fn lemma_read_media_tail(st: LexState, d: SessionView, s: Seq<char>, i: int, m: MediaView)
    requires
        holds_at(s, i, media_tail_text(m)),
        media_ok(m),
        st == media_head_state(m),
    ensures
        reading(
            st,
            SessionView { media_descriptions: d.media_descriptions.push(media_head(m)), ..d },
            s,
            i,
        ) == reading(
            media_end_state(m),
            SessionView { media_descriptions: d.media_descriptions.push(m), ..d },
            s,
            i + media_tail_text(m).len(),
        ),
{
    let lb = bandwidth_lines(m.bandwidth);
    let lk = opt_line(seq!['k', '='], m.encryption_key);
    let la = attribute_lines(m.attributes);
    lemma_holds_split(s, i, lb + lk, la);
    lemma_holds_split(s, i, lb, lk);
    let m2 = media_head(m);
    let d2 = SessionView { media_descriptions: d.media_descriptions.push(m2), ..d };
    let m3 = MediaView { bandwidth: m.bandwidth, ..m2 };
    let d3 = SessionView { media_descriptions: d.media_descriptions.push(m3), ..d };
    let s3 = if m.bandwidth.len() > 0 {
        LexState::S15
    } else {
        st
    };
    lemma_read_media_bandwidths(st, d2, s, i, m.bandwidth);
    assert(last_media(d2) == m2);
    assert(Seq::<BandwidthView>::empty() + m.bandwidth =~= m.bandwidth);
    assert(with_last_media(
        d2,
        MediaView { bandwidth: m2.bandwidth + m.bandwidth, ..m2 },
    ).media_descriptions =~= d3.media_descriptions);
    let i4 = i + lb.len();
    let m4 = MediaView { encryption_key: m.encryption_key, ..m3 };
    let d4 = SessionView { media_descriptions: d.media_descriptions.push(m4), ..d };
    let s4 = if m.encryption_key is Some {
        LexState::S14
    } else {
        s3
    };
    match m.encryption_key {
        Some(k) => {
            assert(last_media(d3) == m3);
            assert(with_last_media(d3, m4).media_descriptions =~= d4.media_descriptions);
            assert(apply_spec(d3, LineKind::MediaEncryptionKey, k) == Ok::<SessionView, SdpError>(
                d4,
            ));
            lemma_read_line(s3, d3, s, i4, 'k', k, LineKind::MediaEncryptionKey, d4);
        },
        None => {
            assert(d3 == d4);
        },
    }
    let i5 = i4 + lk.len();
    lemma_read_media_attributes(s4, d4, s, i5, m.attributes);
    assert(last_media(d4) == m4);
    assert(Seq::<AttributeView>::empty() + m.attributes =~= m.attributes);
    assert(MediaView { attributes: m4.attributes + m.attributes, ..m4 } == m);
    assert(with_last_media(d4, m).media_descriptions =~= d.media_descriptions.push(m));
}

#[verifier::spinoff_prover]
proof fn lemma_read_media(st: LexState, d: SessionView, s: Seq<char>, i: int, m: MediaView)
    requires
        holds_at(s, i, media_text(m)),
        media_ok(m),
        media_start_state(st),
    ensures
        reading(st, d, s, i) == reading(
            media_end_state(m),
            SessionView { media_descriptions: d.media_descriptions.push(m), ..d },
            s,
            i + media_text(m).len(),
        ),
{
    let lm = line(seq!['m', '='], media_name_text(m.media_name));
    let li = opt_line(seq!['i', '='], m.media_title);
    let lc = connection_line(m.connection_information);
    assert(media_text(m) =~= media_head_text(m) + media_tail_text(m));
    lemma_holds_split(s, i, media_head_text(m), media_tail_text(m));
    lemma_holds_split(s, i, lm + li, lc);
    lemma_holds_split(s, i, lm, li);
    lemma_read_media_name(st, d, s, i, m);
    lemma_read_media_title(d, s, i + lm.len(), m);
    lemma_read_media_connection(
        if m.media_title is Some {
            LexState::S16
        } else {
            LexState::S12
        },
        d,
        s,
        i + lm.len() + li.len(),
        m,
    );
    lemma_read_media_tail(media_head_state(m), d, s, i + media_head_text(m).len(), m);
}

pub open spec fn all_media_ok(ms: Seq<MediaView>) -> bool {
    forall|k: int| 0 <= k < ms.len() ==> media_ok(#[trigger] ms[k])
}

#[verifier::spinoff_prover]
proof fn lemma_read_media_lines(st: LexState, d: SessionView, s: Seq<char>, i: int, ms: Seq<MediaView>)
    requires
        holds_at(s, i, media_lines(ms)),
        all_media_ok(ms),
        media_start_state(st),
    ensures
        reading(st, d, s, i) == reading(
            if ms.len() == 0 {
                st
            } else {
                media_end_state(ms.last())
            },
            SessionView { media_descriptions: d.media_descriptions + ms, ..d },
            s,
            i + media_lines(ms).len(),
        ),
    decreases ms.len(),
{
    if ms.len() == 0 {
        assert(d.media_descriptions + ms =~= d.media_descriptions);
    } else {
        let m0 = ms.drop_last();
        let m = ms.last();
        lemma_holds_split(s, i, media_lines(m0), media_text(m));
        assert(all_media_ok(m0)) by {
            assert forall|k: int| 0 <= k < m0.len() implies media_ok(#[trigger] m0[k]) by {
                assert(m0[k] == ms[k]);
            }
        }
        lemma_read_media_lines(st, d, s, i, m0);
        let st1 = if m0.len() == 0 {
            st
        } else {
            media_end_state(m0.last())
        };
        let d1 = SessionView { media_descriptions: d.media_descriptions + m0, ..d };
        assert(media_ok(m)) by {
            assert(m == ms[ms.len() - 1]);
        }
        lemma_read_media(st1, d1, s, i + media_lines(m0).len(), m);
        assert((d.media_descriptions + m0).push(m) =~= d.media_descriptions + ms);
    }
}

// ---------------------------------------------------------------------
// The session part.

/// The session-level fields of `d` before its time descriptions, on top
/// of an empty description.
pub open spec fn header_view(d: SessionView) -> SessionView {
    SessionView {
        time_descriptions: Seq::empty(),
        time_zones: Seq::empty(),
        encryption_key: None,
        attributes: Seq::empty(),
        media_descriptions: Seq::empty(),
        ..d
    }
}

/// The state after the `s=` line and the optional lines up to `c=`.
pub open spec fn optional_state(d: SessionView) -> LexState {
    if d.connection_information is Some {
        LexState::S5
    } else if d.phone_number is Some {
        LexState::S8
    } else if d.email_address is Some {
        LexState::S6
    } else if d.uri is Some {
        LexState::S10
    } else if d.session_information is Some {
        LexState::S7
    } else {
        LexState::S4
    }
}

/// A URI that reads back as itself.
pub open spec fn uri_ok(u: Option<Seq<char>>) -> bool {
    match u {
        Some(x) => clean_value(x) && url_parse(x) == Some(x),
        None => true,
    }
}

#[verifier::spinoff_prover]
proof fn lemma_read_version(s: Seq<char>, i: int)
    requires
        holds_at(s, i, line(seq!['v', '='], signed_decimal(0))),
    ensures
        reading(LexState::S1, empty_view(), s, i) == reading(
            LexState::S2,
            empty_view(),
            s,
            i + line(seq!['v', '='], signed_decimal(0)).len(),
        ),
{
    let e = empty_view();
    lemma_decimal_word(0, u32::MAX as nat);
    assert(signed_decimal(0) == decimal(0));
    assert(clean_value(signed_decimal(0))) by {
        lemma_join_words_clean(seq![decimal(0)]);
    }
    assert(apply_spec(e, LineKind::ProtocolVersion, signed_decimal(0)) == Ok::<SessionView, SdpError>(e));
    lemma_read_line(LexState::S1, e, s, i, 'v', signed_decimal(0), LineKind::ProtocolVersion, e);
}

#[verifier::spinoff_prover]
proof fn lemma_read_origin(s: Seq<char>, i: int, o: OriginView)
    requires
        holds_at(s, i, line(seq!['o', '='], origin_text(o))),
        origin_ok(o),
    ensures
        reading(LexState::S2, empty_view(), s, i) == reading(
            LexState::S3,
            SessionView { origin: o, ..empty_view() },
            s,
            i + line(seq!['o', '='], origin_text(o)).len(),
        ),
{
    let e = empty_view();
    lemma_origin_reads_back(o);
    let e1 = SessionView { origin: o, ..e };
    assert(apply_spec(e, LineKind::Origin, origin_text(o)) == Ok::<SessionView, SdpError>(e1));
    lemma_read_line(LexState::S2, e, s, i, 'o', origin_text(o), LineKind::Origin, e1);
}

#[verifier::spinoff_prover]
proof fn lemma_read_version_origin_name(s: Seq<char>, i: int, d: SessionView)
    requires
        holds_at(
            s,
            i,
            line(seq!['v', '='], signed_decimal(0)) + line(seq!['o', '='], origin_text(d.origin))
                + line(seq!['s', '='], d.session_name),
        ),
        origin_ok(d.origin),
        clean_value(d.session_name),
    ensures
        reading(LexState::S1, empty_view(), s, i) == reading(
            LexState::S4,
            SessionView { origin: d.origin, session_name: d.session_name, ..empty_view() },
            s,
            i + (line(seq!['v', '='], signed_decimal(0)) + line(
                seq!['o', '='],
                origin_text(d.origin),
            ) + line(seq!['s', '='], d.session_name)).len(),
        ),
{
    let lv = line(seq!['v', '='], signed_decimal(0));
    let lo = line(seq!['o', '='], origin_text(d.origin));
    let ls = line(seq!['s', '='], d.session_name);
    lemma_holds_split(s, i, lv + lo, ls);
    lemma_holds_split(s, i, lv, lo);
    lemma_read_version(s, i);
    lemma_read_origin(s, i + lv.len(), d.origin);
    let e1 = SessionView { origin: d.origin, ..empty_view() };
    let e2 = SessionView { session_name: d.session_name, ..e1 };
    assert(apply_spec(e1, LineKind::SessionName, d.session_name) == Ok::<SessionView, SdpError>(e2));
    lemma_read_line(
        LexState::S3,
        e1,
        s,
        i + lv.len() + lo.len(),
        's',
        d.session_name,
        LineKind::SessionName,
        e2,
    );
}

/// The optional lines `i=`, `u=`, `e=`, `p=` and `c=`.
pub open spec fn optional_text(d: SessionView) -> Seq<char> {
    opt_line(seq!['i', '='], d.session_information) + opt_line(seq!['u', '='], d.uri) + opt_line(
        seq!['e', '='],
        d.email_address,
    ) + opt_line(seq!['p', '='], d.phone_number) + connection_line(d.connection_information)
}

#[verifier::spinoff_prover]
proof fn lemma_read_information_uri(s: Seq<char>, i: int, d: SessionView, h: SessionView)
    requires
        holds_at(s, i, opt_line(seq!['i', '='], d.session_information) + opt_line(seq!['u', '='], d.uri)),
        opt_clean(d.session_information),
        uri_ok(d.uri),
        h.uri is None,
        h.session_information is None,
    ensures
        reading(LexState::S4, h, s, i) == reading(
            if d.uri is Some {
                LexState::S10
            } else if d.session_information is Some {
                LexState::S7
            } else {
                LexState::S4
            },
            SessionView { session_information: d.session_information, uri: d.uri, ..h },
            s,
            i + (opt_line(seq!['i', '='], d.session_information) + opt_line(
                seq!['u', '='],
                d.uri,
            )).len(),
        ),
{
    let li = opt_line(seq!['i', '='], d.session_information);
    lemma_holds_split(s, i, li, opt_line(seq!['u', '='], d.uri));
    let h1 = SessionView { session_information: d.session_information, ..h };
    let s1 = if d.session_information is Some {
        LexState::S7
    } else {
        LexState::S4
    };
    match d.session_information {
        Some(x) => {
            assert(apply_spec(h, LineKind::SessionInformation, x) == Ok::<SessionView, SdpError>(h1));
            lemma_read_line(LexState::S4, h, s, i, 'i', x, LineKind::SessionInformation, h1);
        },
        None => {
            assert(h1 == h);
        },
    }
    let h2 = SessionView { uri: d.uri, ..h1 };
    match d.uri {
        Some(u) => {
            assert(apply_spec(h1, LineKind::Uri, u) == Ok::<SessionView, SdpError>(h2));
            lemma_read_line(s1, h1, s, i + li.len(), 'u', u, LineKind::Uri, h2);
        },
        None => {
            assert(h2 == h1);
        },
    }
}

#[verifier::rlimit(50)]
proof fn lemma_read_email_phone(st: LexState, s: Seq<char>, i: int, d: SessionView, h: SessionView)
    requires
        holds_at(
            s,
            i,
            opt_line(seq!['e', '='], d.email_address) + opt_line(seq!['p', '='], d.phone_number),
        ),
        opt_clean(d.email_address),
        opt_clean(d.phone_number),
        st == LexState::S4 || st == LexState::S7 || st == LexState::S10,
        h.email_address is None,
        h.phone_number is None,
    ensures
        reading(st, h, s, i) == reading(
            if d.phone_number is Some {
                LexState::S8
            } else if d.email_address is Some {
                LexState::S6
            } else {
                st
            },
            SessionView { email_address: d.email_address, phone_number: d.phone_number, ..h },
            s,
            i + (opt_line(seq!['e', '='], d.email_address) + opt_line(
                seq!['p', '='],
                d.phone_number,
            )).len(),
        ),
{
    let le = opt_line(seq!['e', '='], d.email_address);
    lemma_holds_split(s, i, le, opt_line(seq!['p', '='], d.phone_number));
    assert(line_for(st, 'e') == Some(LineKind::Email));
    assert(line_for(LexState::S6, 'p') == Some(LineKind::Phone));
    assert(line_for(st, 'p') == Some(LineKind::Phone));
    let h1 = SessionView { email_address: d.email_address, ..h };
    let s1 = if d.email_address is Some {
        LexState::S6
    } else {
        st
    };
    match d.email_address {
        Some(x) => {
            assert(apply_spec(h, LineKind::Email, x) == Ok::<SessionView, SdpError>(h1));
            lemma_read_line(st, h, s, i, 'e', x, LineKind::Email, h1);
        },
        None => {
            assert(h1 == h);
        },
    }
    let h2 = SessionView { phone_number: d.phone_number, ..h1 };
    match d.phone_number {
        Some(x) => {
            assert(apply_spec(h1, LineKind::Phone, x) == Ok::<SessionView, SdpError>(h2));
            lemma_read_line(s1, h1, s, i + le.len(), 'p', x, LineKind::Phone, h2);
        },
        None => {
            assert(h2 == h1);
        },
    }
}

#[verifier::rlimit(40)]
proof fn lemma_read_session_connection(st: LexState, s: Seq<char>, i: int, d: SessionView, h: SessionView)
    requires
        holds_at(s, i, connection_line(d.connection_information)),
        opt_connection_ok(d.connection_information),
        st == LexState::S4 || st == LexState::S6 || st == LexState::S7 || st == LexState::S8 || st
            == LexState::S10,
        h.connection_information is None,
    ensures
        reading(st, h, s, i) == reading(
            if d.connection_information is Some {
                LexState::S5
            } else {
                st
            },
            SessionView { connection_information: d.connection_information, ..h },
            s,
            i + connection_line(d.connection_information).len(),
        ),
{
    let h1 = SessionView { connection_information: d.connection_information, ..h };
    match d.connection_information {
        Some(c) => {
            lemma_connection_reads_back(c);
            let w = connection_words(c);
            assert(connection_spec(connection_text(c)) == Ok::<Seq<Seq<char>>, SdpError>(w));
            assert(connection_of(w) == c);
            assert(apply_spec(h, LineKind::SessionConnectionInformation, connection_text(c)) == Ok::<
                SessionView,
                SdpError,
            >(h1));
            lemma_read_line(
                st,
                h,
                s,
                i,
                'c',
                connection_text(c),
                LineKind::SessionConnectionInformation,
                h1,
            );
        },
        None => {
            assert(h1 == h);
        },
    }
}

/// The session-level lines of a description that read back.
pub open spec fn header_ok(d: SessionView) -> bool {
    &&& d.version == 0
    &&& origin_ok(d.origin)
    &&& clean_value(d.session_name)
    &&& opt_clean(d.session_information)
    &&& uri_ok(d.uri)
    &&& opt_clean(d.email_address)
    &&& opt_clean(d.phone_number)
    &&& opt_connection_ok(d.connection_information)
    &&& all_bandwidths_ok(d.bandwidth)
}

#[verifier::rlimit(80)]
proof fn lemma_read_header(s: Seq<char>, d: SessionView)
    requires
        holds_at(s, 0, session_lines(d)),
        header_ok(d),
    ensures
        reading(LexState::S1, empty_view(), s, 0) == reading(
            if d.bandwidth.len() > 0 {
                LexState::S5
            } else {
                optional_state(d)
            },
            header_view(d),
            s,
            session_lines(d).len() as int,
        ),
{
    let lv = line(seq!['v', '='], signed_decimal(d.version as int));
    let lo = line(seq!['o', '='], origin_text(d.origin));
    let ls = line(seq!['s', '='], d.session_name);
    let li = opt_line(seq!['i', '='], d.session_information);
    let lu = opt_line(seq!['u', '='], d.uri);
    let le = opt_line(seq!['e', '='], d.email_address);
    let lp = opt_line(seq!['p', '='], d.phone_number);
    let lc = connection_line(d.connection_information);
    let lb = bandwidth_lines(d.bandwidth);
    assert(d.version as int == 0);
    assert(session_lines(d) == lv + lo + ls + li + lu + le + lp + lc + lb);
    assert(lv + lo + ls + li + lu =~= (lv + lo + ls) + (li + lu));
    assert(lv + lo + ls + li + lu + le + lp =~= (lv + lo + ls) + (li + lu) + (le + lp));
    lemma_holds_split(s, 0, (lv + lo + ls) + (li + lu) + (le + lp) + lc, lb);
    lemma_holds_split(s, 0, (lv + lo + ls) + (li + lu) + (le + lp), lc);
    lemma_holds_split(s, 0, (lv + lo + ls) + (li + lu), le + lp);
    lemma_holds_split(s, 0, lv + lo + ls, li + lu);
    lemma_read_version_origin_name(s, 0, d);
    let h0 = SessionView { origin: d.origin, session_name: d.session_name, ..empty_view() };
    let i1 = (lv + lo + ls).len() as int;
    lemma_read_information_uri(s, i1, d, h0);
    let h1 = SessionView { session_information: d.session_information, uri: d.uri, ..h0 };
    let s1 = if d.uri is Some {
        LexState::S10
    } else if d.session_information is Some {
        LexState::S7
    } else {
        LexState::S4
    };
    let i2 = i1 + (li + lu).len();
    lemma_read_email_phone(s1, s, i2, d, h1);
    let h2 = SessionView { email_address: d.email_address, phone_number: d.phone_number, ..h1 };
    let s2 = if d.phone_number is Some {
        LexState::S8
    } else if d.email_address is Some {
        LexState::S6
    } else {
        s1
    };
    let i3 = i2 + (le + lp).len();
    lemma_read_session_connection(s2, s, i3, d, h2);
    let h3 = SessionView { connection_information: d.connection_information, ..h2 };
    let s3 = if d.connection_information is Some {
        LexState::S5
    } else {
        s2
    };
    assert(s3 == optional_state(d));
    let i4 = i3 + lc.len();
    lemma_read_session_bandwidths(s3, h3, s, i4, d.bandwidth);
    assert(Seq::<BandwidthView>::empty() + d.bandwidth =~= d.bandwidth);
    assert(SessionView { bandwidth: h3.bandwidth + d.bandwidth, ..h3 } == header_view(d));
}

#[verifier::spinoff_prover]
proof fn lemma_read_zones(d: SessionView, s: Seq<char>, i: int, zs: Seq<TimeZone>)
    requires
        holds_at(s, i, zones_line(zs)),
        d.time_zones.len() == 0,
    ensures
        reading(LexState::S9, d, s, i) == reading(
            if zs.len() > 0 {
                LexState::S13
            } else {
                LexState::S9
            },
            SessionView { time_zones: zs, ..d },
            s,
            i + zones_line(zs).len(),
        ),
{
    if zs.len() > 0 {
        lemma_zones_read_back(zs);
        let w = zone_words(zs);
        let v = join(zone_texts(zs), seq![' ']);
        lemma_split_ws_join(w);
        lemma_join_words_clean(w);
        assert(split_ws(v) == w);
        assert(time_zones_spec(v) == Ok::<Seq<(u64, int)>, SdpError>(zone_pairs(zs)));
        assert(d.time_zones + zones_of(zone_pairs(zs)) =~= zs);
        let d1 = SessionView { time_zones: zs, ..d };
        assert(apply_spec(d, LineKind::TimeZones, v) == Ok::<SessionView, SdpError>(d1));
        lemma_read_line(LexState::S9, d, s, i, 'z', v, LineKind::TimeZones, d1);
    } else {
        assert(d.time_zones =~= zs);
    }
}

#[verifier::spinoff_prover]
proof fn lemma_read_session_key(st: LexState, d: SessionView, s: Seq<char>, i: int, k: Option<Seq<char>>)
    requires
        holds_at(s, i, opt_line(seq!['k', '='], k)),
        opt_clean(k),
        st == LexState::S9 || st == LexState::S13,
        d.encryption_key is None,
    ensures
        reading(st, d, s, i) == reading(
            if k is Some {
                LexState::S11
            } else {
                st
            },
            SessionView { encryption_key: k, ..d },
            s,
            i + opt_line(seq!['k', '='], k).len(),
        ),
{
    let d1 = SessionView { encryption_key: k, ..d };
    match k {
        Some(x) => {
            assert(apply_spec(d, LineKind::SessionEncryptionKey, x) == Ok::<SessionView, SdpError>(d1));
            lemma_read_line(st, d, s, i, 'k', x, LineKind::SessionEncryptionKey, d1);
        },
        None => {
            assert(d1 == d);
        },
    }
}

proof fn lemma_read_end(st: LexState, d: SessionView, s: Seq<char>)
    ensures
        reading(st, d, s, s.len() as int) == (
            if may_end(st) {
                Ok::<SessionView, SdpError>(d)
            } else {
                Err::<SessionView, SdpError>(SdpError::InvalidSyntax)
            },
            true,
        ),
{
    reveal(reading);
}

/// A description whose text `unmarshal` reads back as it is: version 0,
/// an origin of words with registered network and address types, values
/// without line feeds or whitespace at their ends, a URI in the normal
/// form the URL parser gives, connection addresses without TTL or range,
/// bandwidth types that are registered or experimental, attribute keys
/// without `:`, at least one time description, each repeat time with an
/// offset, and media lines of registered media and protocols with at
/// least one format and a port below 65536.
pub open spec fn text_safe(d: SessionView) -> bool {
    &&& header_ok(d)
    &&& d.time_descriptions.len() > 0
    &&& all_times_ok(d.time_descriptions)
    &&& opt_clean(d.encryption_key)
    &&& all_attributes_ok(d.attributes)
    &&& all_media_ok(d.media_descriptions)
}

/// The state after the lines of a description.
pub open spec fn final_state(d: SessionView) -> LexState {
    if d.media_descriptions.len() > 0 {
        media_end_state(d.media_descriptions.last())
    } else if d.attributes.len() > 0 || d.encryption_key is Some {
        LexState::S11
    } else if d.time_zones.len() > 0 {
        LexState::S13
    } else {
        LexState::S9
    }
}

/// What `marshal` writes of a description whose values can stand in their
/// lines as they are, `unmarshal` reads back as the same description; and
/// no time value in that text overflows, so `unmarshal` may be called on
/// it.
#[verifier::spinoff_prover]
pub proof fn lemma_marshal_unmarshal(d: SessionView)
    requires
        text_safe(d),
    ensures
        unmarshal_spec(marshal_spec(d)) == Ok::<SessionView, SdpError>(d),
        parse_in_range(LexState::S1, empty_view(), marshal_spec(d), 0),
{
    let t = marshal_spec(d);
    let lh = session_lines(d);
    let lt = time_lines(d.time_descriptions);
    let lz = zones_line(d.time_zones);
    let lk = opt_line(seq!['k', '='], d.encryption_key);
    let la = attribute_lines(d.attributes);
    let lm = media_lines(d.media_descriptions);
    assert(t == lh + lt + lz + lk + la + lm);
    assert(holds_at(t, 0, t)) by {
        assert(t.subrange(0, t.len() as int) =~= t);
    }
    lemma_holds_split(t, 0, lh + lt + lz + lk + la, lm);
    lemma_holds_split(t, 0, lh + lt + lz + lk, la);
    lemma_holds_split(t, 0, lh + lt + lz, lk);
    lemma_holds_split(t, 0, lh + lt, lz);
    lemma_holds_split(t, 0, lh, lt);
    // the session-level lines
    lemma_read_header(t, d);
    let h = header_view(d);
    let sh = if d.bandwidth.len() > 0 {
        LexState::S5
    } else {
        optional_state(d)
    };
    // the time descriptions
    let i1 = lh.len() as int;
    lemma_read_times(sh, h, t, i1, d.time_descriptions);
    assert(Seq::<TimeView>::empty() + d.time_descriptions =~= d.time_descriptions);
    let h1 = SessionView { time_descriptions: d.time_descriptions, ..h };
    // the time zones
    let i2 = i1 + lt.len();
    lemma_read_zones(h1, t, i2, d.time_zones);
    let h2 = SessionView { time_zones: d.time_zones, ..h1 };
    let s2 = if d.time_zones.len() > 0 {
        LexState::S13
    } else {
        LexState::S9
    };
    // the key
    let i3 = i2 + lz.len();
    lemma_read_session_key(s2, h2, t, i3, d.encryption_key);
    let h3 = SessionView { encryption_key: d.encryption_key, ..h2 };
    let s3 = if d.encryption_key is Some {
        LexState::S11
    } else {
        s2
    };
    // the attributes
    let i4 = i3 + lk.len();
    lemma_read_session_attributes(s3, h3, t, i4, d.attributes);
    assert(Seq::<AttributeView>::empty() + d.attributes =~= d.attributes);
    let h4 = SessionView { attributes: d.attributes, ..h3 };
    let s4 = if d.attributes.len() > 0 {
        LexState::S11
    } else {
        s3
    };
    // the media descriptions
    let i5 = i4 + la.len();
    lemma_read_media_lines(s4, h4, t, i5, d.media_descriptions);
    assert(Seq::<MediaView>::empty() + d.media_descriptions =~= d.media_descriptions);
    let h5 = SessionView { media_descriptions: d.media_descriptions, ..h4 };
    assert(h5 == d);
    let s5 = if d.media_descriptions.len() > 0 {
        media_end_state(d.media_descriptions.last())
    } else {
        s4
    };
    assert(s5 == final_state(d));
    lemma_read_end(s5, d, t);
    reveal(reading);
}

/// The description that JSEP starts from reads back from its text.
pub proof fn lemma_jsep_reads_back(identity: bool, session_id: u64, session_version: u64)
    ensures
        unmarshal_spec(marshal_spec(jsep_view(identity, session_id, session_version))) == Ok::<
            SessionView,
            SdpError,
        >(jsep_view(identity, session_id, session_version)),
{
    let d = jsep_view(identity, session_id, session_version);
    let o = d.origin;
    assert(word(o.username)) by {
        assert(!is_ws('-'));
    }
    assert(word(o.unicast_address)) by {
        assert forall|k: int| 0 <= k < o.unicast_address.len() implies !is_ws(
            #[trigger] o.unicast_address[k],
        ) by {
            assert(o.unicast_address[k] == '0' || o.unicast_address[k] == '.');
        }
    }
    assert(clean_value(d.session_name)) by {
        assert(!is_ws('-'));
    }
    assert(all_times_ok(d.time_descriptions));
    assert(all_attributes_ok(d.attributes)) by {
        if identity {
            let a = d.attributes[0];
            assert(attribute_text(a) == identity_key());
            assert forall|k: int| 0 <= k < identity_key().len() implies identity_key()[k] != ':'
                && identity_key()[k] != '\n' by {}
            assert(!a.key.contains(':'));
            assert(!identity_key().contains('\n'));
            assert(!is_ws(identity_key()[0]));
            assert(!is_ws(identity_key().last()));
        }
    }
    assert(all_media_ok(d.media_descriptions));
    lemma_marshal_unmarshal(d);
}

// ---------------------------------------------------------------------
// What every accepted description has.

/// The states before the first `t=` line.
pub open spec fn before_first_timing(st: LexState) -> bool {
    st == LexState::S1 || st == LexState::S2 || st == LexState::S3 || before_timing(st)
}

proof fn lemma_apply_keeps_times(d: SessionView, kind: LineKind, v: Seq<char>)
    requires
        apply_spec(d, kind, v) is Ok,
    ensures
        apply_spec(d, kind, v)->Ok_0.time_descriptions.len() >= d.time_descriptions.len(),
        kind == LineKind::Timing ==> apply_spec(d, kind, v)->Ok_0.time_descriptions.len() > 0,
{
}

#[verifier::spinoff_prover]
proof fn lemma_parse_keeps_times(st: LexState, d: SessionView, s: Seq<char>, i: int)
    requires
        parse_from(st, d, s, i) is Ok,
        d.time_descriptions.len() > 0 || before_first_timing(st),
    ensures
        parse_from(st, d, s, i)->Ok_0.time_descriptions.len() > 0,
    decreases s.len() - i,
{
    let j = skip_breaks(s, i);
    if 0 <= j < s.len() {
        let k = past(s, j, '=');
        if !(k != j + 2 || j + 1 >= s.len() || s[j + 1] != '=') {
            if let Some(kind) = line_for(st, s[j]) {
                let m = past(s, k, '\n');
                let v = trim(s.subrange(k, m));
                if let Ok(d2) = apply_spec(d, kind, v) {
                    if i < m <= s.len() {
                        lemma_apply_keeps_times(d, kind, v);
                        lemma_parse_keeps_times(spec_state_after(kind), d2, s, m);
                    }
                }
            }
        }
    }
}

/// A description that `unmarshal` accepts has at least one time
/// description, as the grammar `v o s i? u? e? p? c? b* (t r*)+ ...`
/// asks.
pub proof fn lemma_accepted_has_timing(s: Seq<char>)
    requires
        unmarshal_spec(s) is Ok,
    ensures
        unmarshal_spec(s)->Ok_0.time_descriptions.len() > 0,
{
    lemma_parse_keeps_times(LexState::S1, empty_view(), s, 0);
}

} // verus!
