//! Write-ahead log of performed sessions: one self-delimited record per
//! line. A truncated final line (from a crash mid-write) is dropped by the
//! reader, and malformed lines are skipped, never fatal.
//!
//! The byte-level file handling (locking, appending, reading) is the
//! surrounding application's business; this module owns the record format
//! and proves that records round-trip.

use crate::numfmt::decimal_chars;
use crate::numfmt::fmt_i32;
use crate::numfmt::fmt_i64_plain;
use crate::numfmt::fmt_u128_id;
use crate::numfmt::fmt_u32;
use crate::numfmt::fmt_u8;
use crate::numfmt::lemma_decimal_plain;
use crate::numfmt::parse_i32;
use crate::numfmt::parse_i64;
use crate::numfmt::parse_u128;
use crate::numfmt::parse_u32;
use crate::numfmt::parse_u8;
use crate::numfmt::spec_parse_i32;
use crate::numfmt::spec_parse_i64;
use crate::numfmt::spec_parse_u128;
use crate::numfmt::spec_parse_u32;
use crate::numfmt::spec_parse_u8;
use crate::strutil::escape_field;
use crate::strutil::escape_spec;
use crate::strutil::free_of;
use crate::strutil::lemma_escape_no_specials;
use crate::strutil::lemma_split_len;
use crate::strutil::lemma_split_push;
use crate::strutil::lemma_split_single;
use crate::strutil::lemma_split_append;
use crate::strutil::lemma_unescape_escape;
use crate::strutil::only_plain;
use crate::strutil::push_char;
use crate::strutil::split_on;
use crate::strutil::split_spec;
use crate::strutil::unescape_field;
use crate::strutil::unescape_spec;
use crate::types::MetricSpec;
use crate::types::MetricSpecView;
use crate::types::MicrodoseSession;
use crate::types::SessionView;
use vstd::prelude::*;

verus! {

/// Reading of a boolean flag character.
pub open spec fn spec_parse_bool(s: Seq<char>) -> Option<bool> {
    if s == seq!['0'] {
        Some(false)
    } else if s == seq!['1'] {
        Some(true)
    } else {
        None
    }
}

/// Reading of an optional signed value: an empty field means absent.
pub open spec fn spec_parse_opt_i64(s: Seq<char>) -> Option<Option<i64>> {
    if s.len() == 0 {
        Some(None)
    } else {
        match spec_parse_i64(s) {
            Some(v) => Some(Some(v)),
            None => None,
        }
    }
}

/// Reading of an optional unsigned value: an empty field means absent.
pub open spec fn spec_parse_opt_u32(s: Seq<char>) -> Option<Option<u32>> {
    if s.len() == 0 {
        Some(None)
    } else {
        match spec_parse_u32(s) {
            Some(v) => Some(Some(v)),
            None => None,
        }
    }
}

/// Reading of an optional unsigned value: an empty field means absent.
pub open spec fn spec_parse_opt_u8(s: Seq<char>) -> Option<Option<u8>> {
    if s.len() == 0 {
        Some(None)
    } else {
        match spec_parse_u8(s) {
            Some(v) => Some(Some(v)),
            None => None,
        }
    }
}

/// Reading of one metric entry: a tagged, comma-separated field list.
pub open spec fn spec_decode_metric(e: Seq<char>) -> Option<MetricSpecView> {
    let f = split_spec(e, ',');
    if f.len() == 7 && f[0] == seq!['r'] {
        match (unescape_spec(f[1]), spec_parse_i32(f[2]), spec_parse_i32(f[3]), spec_parse_i32(
            f[4],
        ), spec_parse_i32(f[5]), spec_parse_bool(f[6])) {
            (Some(key), Some(default), Some(min), Some(max), Some(step), Some(progressable)) => {
                Some(MetricSpecView::Reps { key, default, min, max, step, progressable })
            },
            _ => None,
        }
    } else if f.len() == 4 && f[0] == seq!['b'] {
        match (unescape_spec(f[1]), unescape_spec(f[2]), spec_parse_bool(f[3])) {
            (Some(key), Some(default), Some(progressable)) => {
                Some(MetricSpecView::Band { key, default, progressable })
            },
            _ => None,
        }
    } else {
        None
    }
}

/// Reading of a list of metric entries, all or nothing.
pub open spec fn spec_decode_entries(es: Seq<Seq<char>>) -> Option<Seq<MetricSpecView>>
    decreases es.len(),
{
    if es.len() == 0 {
        Some(Seq::<MetricSpecView>::empty())
    } else {
        match (spec_decode_metric(es[0]), spec_decode_entries(es.drop_first())) {
            (Some(m), Some(rest)) => Some(seq![m] + rest),
            _ => None,
        }
    }
}

/// Reading of the metrics field: empty means no metrics, otherwise
/// semicolon-separated entries.
pub open spec fn spec_decode_metrics(s: Seq<char>) -> Option<Seq<MetricSpecView>> {
    if s.len() == 0 {
        Some(Seq::<MetricSpecView>::empty())
    } else {
        spec_decode_entries(split_spec(s, ';'))
    }
}

/// Reading of one session record: ten pipe-separated fields.
pub open spec fn spec_decode_session(line: Seq<char>) -> Option<SessionView> {
    let f = split_spec(line, '|');
    if f.len() != 10 {
        None
    } else {
        match (spec_parse_u128(f[0]), unescape_spec(f[1]), spec_parse_i64(f[2])) {
            (Some(id), Some(definition_id), Some(performed_at)) => {
                match (spec_parse_opt_i64(f[3]), spec_parse_opt_i64(f[4]), spec_parse_opt_u32(
                    f[5],
                )) {
                    (Some(started_at), Some(completed_at), Some(actual_duration_seconds)) => {
                        match (spec_decode_metrics(f[6]), spec_parse_opt_u8(f[7]),
                        spec_parse_opt_u8(f[8]), spec_parse_opt_u8(f[9])) {
                            (Some(metrics_realized), Some(perceived_rpe), Some(avg_hr), Some(
                                max_hr,
                            )) => {
                                Some(
                                    SessionView {
                                        id,
                                        definition_id,
                                        performed_at,
                                        started_at,
                                        completed_at,
                                        actual_duration_seconds,
                                        metrics_realized,
                                        perceived_rpe,
                                        avg_hr,
                                        max_hr,
                                    },
                                )
                            },
                            _ => None,
                        }
                    },
                    _ => None,
                }
            },
            _ => None,
        }
    }
}

/// An escaped field is free of every structural character.
pub proof fn lemma_plain_free(s: Seq<char>)
    requires
        only_plain(s),
    ensures
        free_of(s, '\n'),
        free_of(s, '|'),
        free_of(s, ';'),
        free_of(s, ','),
{
    assert forall|i: int| 0 <= i < s.len() implies s[i] != '\n' && s[i] != '|' && s[i] != ';'
        && s[i] != ',' by {
        assert(s[i] == '\\' || !crate::strutil::is_special(s[i]));
    }
}

/// Splitting `a + [sep] + b` when `b` is separator-free: `b` becomes one
/// whole segment after the segments of `a`.
pub proof fn lemma_split_field_right(a: Seq<char>, b: Seq<char>, sep: char)
    requires
        free_of(b, sep),
    ensures
        split_spec(a + seq![sep] + b, sep) == split_spec(a, sep).push(b),
{
    lemma_split_len(a, sep);
    lemma_split_single(b, sep);
    lemma_split_push(a, sep, sep);
    assert(a.push(sep) =~= a + seq![sep]);
    lemma_split_append(a + seq![sep], b, sep);
    assert(split_spec(a + seq![sep], sep) == split_spec(a, sep).push(Seq::<char>::empty()));
    assert(split_spec(a + seq![sep] + b, sep) =~~= split_spec(a, sep).push(b)) by {
        assert(Seq::<char>::empty() + b =~= b);
    }
}

/// Joins fields with a separator; splitting recovers exactly the fields.
pub(crate) fn join_fields(parts: &Vec<String>, sep: char) -> (r: String)
    requires
        parts@.len() >= 1,
        forall|i: int| 0 <= i < parts@.len() ==> free_of((#[trigger] parts@[i])@, sep),
    ensures
        split_spec(r@, sep) == parts@.map_values(|p: String| p@),
        '\n' != sep && (forall|i: int|
            0 <= i < parts@.len() ==> free_of((#[trigger] parts@[i])@, '\n')) ==> free_of(
            r@,
            '\n',
        ),
        '|' != sep && (forall|i: int|
            0 <= i < parts@.len() ==> free_of((#[trigger] parts@[i])@, '|')) ==> free_of(r@, '|'),
        ';' != sep && (forall|i: int|
            0 <= i < parts@.len() ==> free_of((#[trigger] parts@[i])@, ';')) ==> free_of(r@, ';'),
{
    let ghost pviews = parts@.map_values(|p: String| p@);
    let n = parts.len();
    let mut out: String = parts[0].clone();
    let mut i: usize = 1;
    proof {
        lemma_split_single(pviews[0], sep);
        assert(split_spec(out@, sep) =~= pviews.take(1));
    }
    while i < n
        invariant
            n == parts@.len(),
            n >= 1,
            1 <= i <= n,
            pviews == parts@.map_values(|p: String| p@),
            forall|k: int| 0 <= k < n ==> free_of(#[trigger] pviews[k], sep),
            split_spec(out@, sep) == pviews.take(i as int),
            forall|k: int| 0 <= k < out@.len() ==> (#[trigger] out@[k] == sep || exists|p: int,
            q: int| 0 <= p < i && 0 <= q < pviews[p].len() && out@[k] == #[trigger] pviews[p][q]),
        decreases n - i,
    {
        let ghost preout = out@;
        push_char(&mut out, sep);
        out.append(parts[i].as_str());
        proof {
            assert(out@ =~= preout + seq![sep] + pviews[i as int]);
            lemma_split_field_right(preout, pviews[i as int], sep);
            assert(split_spec(out@, sep) =~= pviews.take(i + 1));
            assert forall|k: int| 0 <= k < out@.len() implies (#[trigger] out@[k] == sep || exists|
                p: int,
                q: int,
            |
                0 <= p < i + 1 && 0 <= q < pviews[p].len() && out@[k] == #[trigger] pviews[p][q]) by {
                if k < preout.len() {
                    assert(out@[k] == preout[k]);
                } else if k == preout.len() {
                    assert(out@[k] == sep);
                } else {
                    let q = k - preout.len() - 1;
                    assert(out@[k] == pviews[i as int][q]);
                }
            }
        }
        i = i + 1;
    }
    proof {
        assert(pviews.take(n as int) =~= pviews);
        if '\n' != sep && (forall|k: int| 0 <= k < n ==> free_of(#[trigger] pviews[k], '\n')) {
            assert forall|k: int| 0 <= k < out@.len() implies out@[k] != '\n' by {}
        }
        if '|' != sep && (forall|k: int| 0 <= k < n ==> free_of(#[trigger] pviews[k], '|')) {
            assert forall|k: int| 0 <= k < out@.len() implies out@[k] != '|' by {}
        }
        if ';' != sep && (forall|k: int| 0 <= k < n ==> free_of(#[trigger] pviews[k], ';')) {
            assert forall|k: int| 0 <= k < out@.len() implies out@[k] != ';' by {}
        }
    }
    out
}

} // verus!

use vstd::prelude::*;

verus! {

fn fmt_bool(b: bool) -> (r: String)
    ensures
        spec_parse_bool(r@) == Some(b),
        decimal_chars(r@),
{
    let mut s = String::new();
    if b {
        push_char(&mut s, '1');
        proof {
            assert(s@ =~= seq!['1']);
            assert(seq!['1'][0] == '1' && seq!['0'][0] == '0');
            assert(s@ != seq!['0']);
        }
    } else {
        push_char(&mut s, '0');
        proof {
            assert(s@ =~= seq!['0']);
        }
    }
    s
}

fn parse_bool(s: &str) -> (r: Option<bool>)
    ensures
        r == spec_parse_bool(s@),
{
    proof {
        assert(seq!['0'][0] == '0' && seq!['0'].len() == 1);
        assert(seq!['1'][0] == '1' && seq!['1'].len() == 1);
    }
    if s.unicode_len() == 1 {
        let c = s.get_char(0);
        if c == '0' {
            proof {
                assert(s@ =~= seq!['0']);
            }
            Some(false)
        } else if c == '1' {
            proof {
                assert(s@ =~= seq!['1']);
                assert(s@[0] == '1');
                assert(s@ != seq!['0']);
            }
            Some(true)
        } else {
            proof {
                assert(s@[0] != '0' && s@[0] != '1');
                assert(s@ != seq!['0'] && s@ != seq!['1']);
            }
            None
        }
    } else {
        proof {
            assert(s@ != seq!['0'] && s@ != seq!['1']);
        }
        None
    }
}

pub(crate) fn fmt_opt_i64(v: &Option<i64>) -> (r: String)
    ensures
        spec_parse_opt_i64(r@) == Some(*v),
        decimal_chars(r@),
{
    match v {
        Some(n) => {
            let out = fmt_i64_plain(*n);
            proof {
                assert(out@.len() >= 1) by {
                    if out@.len() == 0 {
                        assert(crate::numfmt::sint_of(out@) is None);
                    }
                }
            }
            out
        },
        None => String::new(),
    }
}

pub(crate) fn parse_opt_i64(s: &str) -> (r: Option<Option<i64>>)
    ensures
        r == spec_parse_opt_i64(s@),
{
    if s.unicode_len() == 0 {
        Some(None)
    } else {
        match parse_i64(s) {
            Some(v) => Some(Some(v)),
            None => None,
        }
    }
}

pub(crate) fn fmt_opt_u32(v: &Option<u32>) -> (r: String)
    ensures
        spec_parse_opt_u32(r@) == Some(*v),
        decimal_chars(r@),
{
    match v {
        Some(n) => {
            let out = fmt_u32(*n);
            proof {
                assert(out@.len() >= 1) by {
                    if out@.len() == 0 {
                        assert(spec_parse_u32(out@) is None);
                    }
                }
            }
            out
        },
        None => String::new(),
    }
}

pub(crate) fn parse_opt_u32(s: &str) -> (r: Option<Option<u32>>)
    ensures
        r == spec_parse_opt_u32(s@),
{
    if s.unicode_len() == 0 {
        Some(None)
    } else {
        match parse_u32(s) {
            Some(v) => Some(Some(v)),
            None => None,
        }
    }
}

pub(crate) fn fmt_opt_u8(v: &Option<u8>) -> (r: String)
    ensures
        spec_parse_opt_u8(r@) == Some(*v),
        decimal_chars(r@),
{
    match v {
        Some(n) => {
            let out = fmt_u8(*n);
            proof {
                assert(out@.len() >= 1) by {
                    if out@.len() == 0 {
                        assert(spec_parse_u8(out@) is None);
                    }
                }
            }
            out
        },
        None => String::new(),
    }
}

pub(crate) fn parse_opt_u8(s: &str) -> (r: Option<Option<u8>>)
    ensures
        r == spec_parse_opt_u8(s@),
{
    if s.unicode_len() == 0 {
        Some(None)
    } else {
        match parse_u8(s) {
            Some(v) => Some(Some(v)),
            None => None,
        }
    }
}

/// Encodes one metric entry; decoding recovers it, and the entry stays clear
/// of the record separators.
fn encode_metric(m: &MetricSpec) -> (e: String)
    ensures
        spec_decode_metric(e@) == Some(m@),
        free_of(e@, '\n'),
        free_of(e@, '|'),
        free_of(e@, ';'),
        e@.len() > 0,
{
    let mut parts: Vec<String> = Vec::new();
    match m {
        MetricSpec::Reps { key, default, min, max, step, progressable } => {
            let mut tag = String::new();
            push_char(&mut tag, 'r');
            proof {
                assert(tag@ =~= seq!['r']);
            }
            parts.push(tag);
            parts.push(escape_field(key.as_str()));
            parts.push(fmt_i32(*default));
            parts.push(fmt_i32(*min));
            parts.push(fmt_i32(*max));
            parts.push(fmt_i32(*step));
            parts.push(fmt_bool(*progressable));
            proof {
                lemma_escape_no_specials(key@);
                assert forall|i: int| 0 <= i < parts@.len() implies free_of(
                    (#[trigger] parts@[i])@,
                    ',',
                ) && free_of(parts@[i]@, '\n') && free_of(parts@[i]@, '|') && free_of(
                    parts@[i]@,
                    ';',
                ) by {
                    if i == 0 {
                        assert(parts@[0]@ =~= seq!['r']);
                    } else if i == 1 {
                        lemma_plain_free(parts@[1]@);
                    } else {
                        lemma_decimal_plain(parts@[i]@);
                    }
                }
            }
            let e = join_fields(&parts, ',');
            proof {
                assert(split_spec(e@, ',') =~~= seq![
                    seq!['r'],
                    escape_spec(key@),
                    parts@[2]@,
                    parts@[3]@,
                    parts@[4]@,
                    parts@[5]@,
                    parts@[6]@,
                ]);
                lemma_unescape_escape(key@);
                assert(spec_decode_metric(e@) == Some(m@)) by {
                    assert(spec_decode_metric(e@) matches Some(v) && v =~~= m@);
                }
                assert(e@.len() > 0) by {
                    assert(split_spec(e@, ',')[0] == seq!['r']);
                    if e@.len() == 0 {
                        assert(split_spec(e@, ',') =~~= seq![Seq::<char>::empty()]);
                    }
                }
            }
            e
        },
        MetricSpec::Band { key, default, progressable } => {
            let mut tag = String::new();
            push_char(&mut tag, 'b');
            proof {
                assert(tag@ =~= seq!['b']);
            }
            parts.push(tag);
            parts.push(escape_field(key.as_str()));
            parts.push(escape_field(default.as_str()));
            parts.push(fmt_bool(*progressable));
            proof {
                lemma_escape_no_specials(key@);
                lemma_escape_no_specials(default@);
                assert forall|i: int| 0 <= i < parts@.len() implies free_of(
                    (#[trigger] parts@[i])@,
                    ',',
                ) && free_of(parts@[i]@, '\n') && free_of(parts@[i]@, '|') && free_of(
                    parts@[i]@,
                    ';',
                ) by {
                    if i == 0 {
                        assert(parts@[0]@ =~= seq!['b']);
                    } else if i == 1 || i == 2 {
                        lemma_plain_free(parts@[i]@);
                    } else {
                        lemma_decimal_plain(parts@[i]@);
                    }
                }
            }
            let e = join_fields(&parts, ',');
            proof {
                assert(split_spec(e@, ',') =~~= seq![
                    seq!['b'],
                    escape_spec(key@),
                    escape_spec(default@),
                    parts@[3]@,
                ]);
                lemma_unescape_escape(key@);
                lemma_unescape_escape(default@);
                assert(seq!['b'][0] == 'b' && seq!['r'][0] == 'r');
                assert(split_spec(e@, ',')[0] != seq!['r']);
                assert(spec_decode_metric(e@) == Some(m@)) by {
                    assert(spec_decode_metric(e@) matches Some(v) && v =~~= m@);
                }
                assert(e@.len() > 0) by {
                    assert(split_spec(e@, ',')[0] == seq!['b']);
                    if e@.len() == 0 {
                        assert(split_spec(e@, ',') =~~= seq![Seq::<char>::empty()]);
                    }
                }
            }
            e
        },
    }
}

/// Pointwise decodable entries decode to the pointwise results.
proof fn lemma_decode_entries(es: Seq<Seq<char>>, ms: Seq<MetricSpecView>)
    requires
        es.len() == ms.len(),
        forall|i: int| 0 <= i < es.len() ==> spec_decode_metric(#[trigger] es[i]) == Some(ms[i]),
    ensures
        spec_decode_entries(es) == Some(ms),
    decreases es.len(),
{
    if es.len() == 0 {
        assert(spec_decode_entries(es) matches Some(v) && v =~= ms);
    } else {
        lemma_decode_entries(es.drop_first(), ms.drop_first());
        assert(spec_decode_metric(es[0]) == Some(ms[0]));
        assert(seq![ms[0]] + ms.drop_first() =~= ms);
    }
}

/// Encodes the metrics field; decoding recovers the metric list.
fn encode_metrics(v: &Vec<MetricSpec>) -> (f: String)
    ensures
        spec_decode_metrics(f@) == Some(v@.map_values(|m: MetricSpec| m@)),
        free_of(f@, '\n'),
        free_of(f@, '|'),
{
    let ghost mviews = v@.map_values(|m: MetricSpec| m@);
    if v.len() == 0 {
        let out = String::new();
        proof {
            assert(spec_decode_metrics(out@) matches Some(e) && e =~= mviews);
        }
        return out;
    }
    let mut parts: Vec<String> = Vec::new();
    let n = v.len();
    let mut i: usize = 0;
    while i < n
        invariant
            n == v@.len(),
            i <= n,
            mviews == v@.map_values(|m: MetricSpec| m@),
            parts@.len() == i,
            forall|k: int|
                0 <= k < i ==> spec_decode_metric((#[trigger] parts@[k])@) == Some(mviews[k])
                    && free_of(parts@[k]@, '\n') && free_of(parts@[k]@, '|') && free_of(
                    parts@[k]@,
                    ';',
                ) && parts@[k]@.len() > 0,
        decreases n - i,
    {
        proof {
            assert(mviews[i as int] == v@[i as int]@);
        }
        parts.push(encode_metric(&v[i]));
        i = i + 1;
    }
    let f = join_fields(&parts, ';');
    proof {
        let es = split_spec(f@, ';');
        assert(es == parts@.map_values(|p: String| p@));
        assert forall|k: int| 0 <= k < es.len() implies spec_decode_metric(#[trigger] es[k])
            == Some(mviews[k]) by {
            assert(es[k] == parts@[k]@);
        }
        lemma_decode_entries(es, mviews);
        assert(f@.len() > 0) by {
            if f@.len() == 0 {
                assert(split_spec(f@, ';') =~~= seq![Seq::<char>::empty()]);
                assert(es[0] == parts@[0]@);
                assert(parts@[0]@.len() > 0);
            }
        }
    }
    f
}

/// Decodes one metric entry.
fn decode_metric(e: &str) -> (r: Option<MetricSpec>)
    ensures
        match r {
            Some(m) => spec_decode_metric(e@) == Some(m@),
            None => spec_decode_metric(e@) is None,
        },
{
    let fields = split_on(e, ',');
    let ghost fv = split_spec(e@, ',');
    proof {
        assert(fields@.map_values(|x: String| x@) == fv);
    }
    if fields.len() == 7 {
        proof {
            assert(fv[0] == fields@[0]@);
        }
        let tag = &fields[0];
        if !(tag.unicode_len() == 1 && tag.as_str().get_char(0) == 'r') {
            proof {
                assert(!(fv[0] =~= seq!['r']));
                assert(fv.len() != 4);
            }
            return None;
        }
        proof {
            assert(fv[0] =~= seq!['r']);
            assert(forall|k: int| 1 <= k < 7 ==> #[trigger] fv[k] == fields@[k]@);
        }
        let key = match unescape_field(fields[1].as_str()) {
            Some(k) => k,
            None => {
                return None;
            },
        };
        let default = match parse_i32(fields[2].as_str()) {
            Some(x) => x,
            None => {
                return None;
            },
        };
        let min = match parse_i32(fields[3].as_str()) {
            Some(x) => x,
            None => {
                return None;
            },
        };
        let max = match parse_i32(fields[4].as_str()) {
            Some(x) => x,
            None => {
                return None;
            },
        };
        let step = match parse_i32(fields[5].as_str()) {
            Some(x) => x,
            None => {
                return None;
            },
        };
        let progressable = match parse_bool(fields[6].as_str()) {
            Some(x) => x,
            None => {
                return None;
            },
        };
        let m = MetricSpec::Reps { key, default, min, max, step, progressable };
        proof {
            assert(spec_decode_metric(e@) matches Some(v) && v =~~= m@);
        }
        Some(m)
    } else if fields.len() == 4 {
        proof {
            assert(fv[0] == fields@[0]@);
        }
        let tag = &fields[0];
        if !(tag.unicode_len() == 1 && tag.as_str().get_char(0) == 'b') {
            proof {
                assert(!(fv[0] =~= seq!['b']));
                assert(fv.len() != 7);
            }
            return None;
        }
        proof {
            assert(fv[0] =~= seq!['b']);
            assert(forall|k: int| 1 <= k < 4 ==> #[trigger] fv[k] == fields@[k]@);
        }
        let key = match unescape_field(fields[1].as_str()) {
            Some(k) => k,
            None => {
                return None;
            },
        };
        let default = match unescape_field(fields[2].as_str()) {
            Some(k) => k,
            None => {
                return None;
            },
        };
        let progressable = match parse_bool(fields[3].as_str()) {
            Some(x) => x,
            None => {
                return None;
            },
        };
        let m = MetricSpec::Band { key, default, progressable };
        proof {
            assert(spec_decode_metric(e@) matches Some(v) && v =~~= m@);
        }
        Some(m)
    } else {
        None
    }
}

/// Decodes the metrics field.
fn decode_metrics(s: &str) -> (r: Option<Vec<MetricSpec>>)
    ensures
        match r {
            Some(v) => spec_decode_metrics(s@) == Some(v@.map_values(|m: MetricSpec| m@)),
            None => spec_decode_metrics(s@) is None,
        },
{
    if s.unicode_len() == 0 {
        let out: Vec<MetricSpec> = Vec::new();
        proof {
            assert(out@.map_values(|m: MetricSpec| m@) =~= Seq::<MetricSpecView>::empty());
        }
        return Some(out);
    }
    let entries = split_on(s, ';');
    let ghost es = split_spec(s@, ';');
    proof {
        assert(entries@.map_values(|x: String| x@) == es);
        assert(es.skip(0) =~= es);
    }
    let n = entries.len();
    let mut out: Vec<MetricSpec> = Vec::new();
    let mut i: usize = 0;
    while i < n
        invariant
            n == entries@.len(),
            i <= n,
            es == entries@.map_values(|x: String| x@),
            es == split_spec(s@, ';'),
            s@.len() != 0,
            out@.len() == i,
            spec_decode_entries(es) == (match spec_decode_entries(es.skip(i as int)) {
                Some(rest) => Some(out@.map_values(|m: MetricSpec| m@) + rest),
                None => None::<Seq<MetricSpecView>>,
            }),
        decreases n - i,
    {
        let ghost pre = out@.map_values(|m: MetricSpec| m@);
        proof {
            assert(es.skip(i as int)[0] == es[i as int]);
            assert(es[i as int] == entries@[i as int]@);
            assert(es.skip(i as int).drop_first() =~= es.skip(i + 1));
        }
        match decode_metric(entries[i].as_str()) {
            Some(m) => {
                out.push(m);
                proof {
                    assert(out@.map_values(|x: MetricSpec| x@) =~= pre.push(m@));
                    assert(forall|rest: Seq<MetricSpecView>|
                        pre + (seq![m@] + rest) =~= #[trigger] (pre.push(m@) + rest));
                }
            },
            None => {
                proof {
                    assert(spec_decode_entries(es.skip(i as int)) is None);
                }
                return None;
            },
        }
        i = i + 1;
    }
    proof {
        assert(es.skip(n as int).len() == 0);
        assert(spec_decode_entries(es.skip(n as int)) matches Some(r) && r =~= Seq::<
            MetricSpecView,
        >::empty());
        assert(out@.map_values(|m: MetricSpec| m@) + Seq::<MetricSpecView>::empty()
            =~= out@.map_values(|m: MetricSpec| m@));
    }
    Some(out)
}

} // verus!

use vstd::prelude::*;

verus! {

/// Encodes one session as a record line (without the terminator); decoding
/// recovers the session exactly.
pub fn encode_session(s: &MicrodoseSession) -> (line: String)
    ensures
        spec_decode_session(line@) == Some(s@),
        free_of(line@, '\n'),
{
    let mut parts: Vec<String> = Vec::new();
    parts.push(fmt_u128_id(s.id));
    parts.push(escape_field(s.definition_id.as_str()));
    parts.push(fmt_i64_plain(s.performed_at));
    parts.push(fmt_opt_i64(&s.started_at));
    parts.push(fmt_opt_i64(&s.completed_at));
    parts.push(fmt_opt_u32(&s.actual_duration_seconds));
    parts.push(encode_metrics(&s.metrics_realized));
    parts.push(fmt_opt_u8(&s.perceived_rpe));
    parts.push(fmt_opt_u8(&s.avg_hr));
    parts.push(fmt_opt_u8(&s.max_hr));
    proof {
        lemma_escape_no_specials(s.definition_id@);
        assert forall|i: int| 0 <= i < parts@.len() implies free_of((#[trigger] parts@[i])@, '|')
            && free_of(parts@[i]@, '\n') by {
            if i == 1 {
                lemma_plain_free(parts@[1]@);
            } else if i == 6 {
            } else {
                lemma_decimal_plain(parts@[i]@);
            }
        }
    }
    let line = join_fields(&parts, '|');
    proof {
        let f = split_spec(line@, '|');
        assert(f == parts@.map_values(|p: String| p@));
        assert(f.len() == 10);
        assert(forall|k: int| 0 <= k < 10 ==> #[trigger] f[k] == parts@[k]@);
        lemma_unescape_escape(s.definition_id@);
        assert(spec_decode_session(line@) matches Some(v) && v =~~= s@);
    }
    line
}

/// One durable record for a session: the encoded line with its terminator.
/// Appending such records to a log and reading the log back yields exactly
/// the sessions appended, in order.
pub fn wal_record(s: &MicrodoseSession) -> (r: String)
    ensures
        r@.len() > 0,
        r@.last() == '\n',
        spec_decode_session(r@.drop_last()) == Some(s@),
        free_of(r@.drop_last(), '\n'),
{
    let mut line = encode_session(s);
    let ghost body = line@;
    push_char(&mut line, '\n');
    proof {
        assert(line@.drop_last() =~= body);
    }
    line
}

/// Decodes one record line; `None` on any malformed field.
pub fn decode_session(line: &str) -> (r: Option<MicrodoseSession>)
    ensures
        match r {
            Some(s) => spec_decode_session(line@) == Some(s@),
            None => spec_decode_session(line@) is None,
        },
{
    let fields = split_on(line, '|');
    let ghost fv = split_spec(line@, '|');
    proof {
        assert(fields@.map_values(|x: String| x@) == fv);
    }
    if fields.len() != 10 {
        return None;
    }
    proof {
        assert(forall|k: int| 0 <= k < 10 ==> #[trigger] fv[k] == fields@[k]@);
    }
    let id = match parse_u128(fields[0].as_str()) {
        Some(x) => x,
        None => {
            return None;
        },
    };
    let definition_id = match unescape_field(fields[1].as_str()) {
        Some(x) => x,
        None => {
            return None;
        },
    };
    let performed_at = match parse_i64(fields[2].as_str()) {
        Some(x) => x,
        None => {
            return None;
        },
    };
    let started_at = match parse_opt_i64(fields[3].as_str()) {
        Some(x) => x,
        None => {
            return None;
        },
    };
    let completed_at = match parse_opt_i64(fields[4].as_str()) {
        Some(x) => x,
        None => {
            return None;
        },
    };
    let actual_duration_seconds = match parse_opt_u32(fields[5].as_str()) {
        Some(x) => x,
        None => {
            return None;
        },
    };
    let metrics_realized = match decode_metrics(fields[6].as_str()) {
        Some(x) => x,
        None => {
            return None;
        },
    };
    let perceived_rpe = match parse_opt_u8(fields[7].as_str()) {
        Some(x) => x,
        None => {
            return None;
        },
    };
    let avg_hr = match parse_opt_u8(fields[8].as_str()) {
        Some(x) => x,
        None => {
            return None;
        },
    };
    let max_hr = match parse_opt_u8(fields[9].as_str()) {
        Some(x) => x,
        None => {
            return None;
        },
    };
    let s = MicrodoseSession {
        id,
        definition_id,
        performed_at,
        started_at,
        completed_at,
        actual_duration_seconds,
        metrics_realized,
        perceived_rpe,
        avg_hr,
        max_hr,
    };
    proof {
        assert(spec_decode_session(line@) matches Some(v) && v =~~= s@);
    }
    Some(s)
}

/// Reading of a list of record lines: malformed lines are skipped.
pub open spec fn spec_parse_lines(lines: Seq<Seq<char>>) -> Seq<SessionView>
    decreases lines.len(),
{
    if lines.len() == 0 {
        Seq::<SessionView>::empty()
    } else {
        match spec_decode_session(lines[0]) {
            Some(s) => seq![s] + spec_parse_lines(lines.drop_first()),
            None => spec_parse_lines(lines.drop_first()),
        }
    }
}

/// Reading of a whole log: every terminated line is considered; an
/// unterminated final line (a torn write) is dropped.
pub open spec fn spec_parse_wal(content: Seq<char>) -> Seq<SessionView> {
    spec_parse_lines(split_spec(content, '\n').drop_last())
}

/// A log is terminated when it is empty or ends with a record terminator.
pub open spec fn wal_terminated(content: Seq<char>) -> bool {
    content.len() == 0 || content.last() == '\n'
}

/// Reads every well-formed session record from the log contents; `None`
/// stands for an absent log file and reads as empty.
pub fn read_sessions(content: Option<&str>) -> (r: Vec<MicrodoseSession>)
    ensures
        match content {
            Some(c) => r@.map_values(|s: MicrodoseSession| s@) == spec_parse_wal(c@),
            None => r@.len() == 0,
        },
{
    let c = match content {
        Some(c) => c,
        None => {
            let out: Vec<MicrodoseSession> = Vec::new();
            return out;
        },
    };
    let segments = split_on(c, '\n');
    let ghost segs = split_spec(c@, '\n');
    proof {
        assert(segments@.map_values(|x: String| x@) == segs);
        lemma_split_len(c@, '\n');
    }
    let n = segments.len();
    let mut out: Vec<MicrodoseSession> = Vec::new();
    let mut i: usize = 0;
    proof {
        assert(segs.drop_last() =~= segs.subrange(0, segs.len() - 1));
        assert(segs.subrange(0, n - 1).subrange(0, n - 1) =~= segs.subrange(0, n - 1));
    }
    while i < n - 1
        invariant
            n == segments@.len(),
            n >= 1,
            i <= n - 1,
            segs == segments@.map_values(|x: String| x@),
            segs == split_spec(c@, '\n'),
            spec_parse_wal(c@) == out@.map_values(|s: MicrodoseSession| s@) + spec_parse_lines(
                segs.subrange(i as int, n - 1),
            ),
        decreases n - i,
    {
        let ghost pre = out@.map_values(|s: MicrodoseSession| s@);
        proof {
            assert(segs.subrange(i as int, n - 1)[0] == segs[i as int]);
            assert(segs[i as int] == segments@[i as int]@);
            assert(segs.subrange(i as int, n - 1).drop_first() =~= segs.subrange(i + 1, n - 1));
        }
        match decode_session(segments[i].as_str()) {
            Some(s) => {
                out.push(s);
                proof {
                    assert(out@.map_values(|x: MicrodoseSession| x@) =~= pre.push(s@));
                    assert(forall|rest: Seq<SessionView>|
                        pre + (seq![s@] + rest) =~= #[trigger] (pre.push(s@) + rest));
                }
            },
            None => {},
        }
        i = i + 1;
    }
    proof {
        assert(segs.subrange(n - 1, n - 1).len() == 0);
        assert(spec_parse_lines(segs.subrange(n - 1, n - 1)) =~= Seq::<SessionView>::empty());
        assert(out@.map_values(|s: MicrodoseSession| s@) + Seq::<SessionView>::empty()
            =~= out@.map_values(|s: MicrodoseSession| s@));
    }
    out
}

/// A terminated log splits with an empty final segment.
pub proof fn lemma_split_terminated(content: Seq<char>)
    requires
        wal_terminated(content),
    ensures
        split_spec(content, '\n').last() == Seq::<char>::empty(),
        split_spec(content, '\n').len() >= 1,
{
    lemma_split_len(content, '\n');
    if content.len() == 0 {
        assert(split_spec(content, '\n') =~~= seq![Seq::<char>::empty()]);
    } else {
        let c0 = content.drop_last();
        lemma_split_push(c0, '\n', '\n');
        assert(c0.push('\n') =~= content);
        lemma_split_len(c0, '\n');
    }
}

/// Reading a line list grows by one decoded session when a line is added.
pub proof fn lemma_parse_lines_push(lines: Seq<Seq<char>>, l: Seq<char>)
    ensures
        spec_parse_lines(lines.push(l)) == spec_parse_lines(lines) + (match spec_decode_session(
            l,
        ) {
            Some(s) => seq![s],
            None => Seq::<SessionView>::empty(),
        }),
    decreases lines.len(),
{
    if lines.len() == 0 {
        assert(lines.push(l)[0] == l);
        assert(lines.push(l).drop_first() =~= Seq::<Seq<char>>::empty());
        assert(spec_parse_lines(Seq::<Seq<char>>::empty()) =~= Seq::<SessionView>::empty());
        assert(spec_parse_lines(lines.push(l)) =~= spec_parse_lines(lines) + (
        match spec_decode_session(l) {
            Some(s) => seq![s],
            None => Seq::<SessionView>::empty(),
        }));
    } else {
        lemma_parse_lines_push(lines.drop_first(), l);
        assert(lines.push(l).drop_first() =~= lines.drop_first().push(l));
        assert(lines.push(l)[0] == lines[0]);
        assert(spec_parse_lines(lines.push(l)) =~= spec_parse_lines(lines) + (
        match spec_decode_session(l) {
            Some(s) => seq![s],
            None => Seq::<SessionView>::empty(),
        }));
    }
}

/// Appending one whole record to a terminated log appends exactly its
/// decoding to the log's reading, and keeps the log terminated.
pub proof fn lemma_wal_append(content: Seq<char>, line: Seq<char>)
    requires
        wal_terminated(content),
        free_of(line, '\n'),
    ensures
        spec_parse_wal(content + line + seq!['\n']) == spec_parse_wal(content) + (
        match spec_decode_session(line) {
            Some(s) => seq![s],
            None => Seq::<SessionView>::empty(),
        }),
        wal_terminated(content + line + seq!['\n']),
{
    let c2 = content + line + seq!['\n'];
    lemma_split_terminated(content);
    lemma_split_single(line, '\n');
    lemma_split_append(content, line, '\n');
    assert(split_spec(content + line, '\n') =~~= split_spec(content, '\n').drop_last().push(
        line,
    )) by {
        assert(split_spec(content, '\n').last() + line =~= line);
    }
    lemma_split_push(content + line, '\n', '\n');
    assert((content + line).push('\n') =~= c2);
    lemma_split_len(content + line, '\n');
    assert(split_spec(c2, '\n') == split_spec(content + line, '\n').push(Seq::<char>::empty()));
    assert(split_spec(c2, '\n').drop_last() =~~= split_spec(content, '\n').drop_last().push(line));
    lemma_parse_lines_push(split_spec(content, '\n').drop_last(), line);
    assert(c2.last() == '\n');
}

/// The log contents made of a list of record lines, each terminated.
pub open spec fn spec_wal_content(lines: Seq<Seq<char>>) -> Seq<char>
    decreases lines.len(),
{
    if lines.len() == 0 {
        Seq::<char>::empty()
    } else {
        lines[0] + seq!['\n'] + spec_wal_content(lines.drop_first())
    }
}

proof fn lemma_wal_content_push(lines: Seq<Seq<char>>, l: Seq<char>)
    ensures
        spec_wal_content(lines.push(l)) == spec_wal_content(lines) + l + seq!['\n'],
    decreases lines.len(),
{
    if lines.len() == 0 {
        assert(lines.push(l)[0] == l);
        assert(lines.push(l).drop_first() =~= Seq::<Seq<char>>::empty());
        assert(spec_wal_content(Seq::<Seq<char>>::empty()) =~= Seq::<char>::empty());
        assert(spec_wal_content(lines.push(l)) =~= spec_wal_content(lines) + l + seq!['\n']);
    } else {
        lemma_wal_content_push(lines.drop_first(), l);
        assert(lines.push(l).drop_first() =~= lines.drop_first().push(l));
        assert(lines.push(l)[0] == lines[0]);
        assert(spec_wal_content(lines.push(l)) =~= spec_wal_content(lines) + l + seq!['\n']);
    }
}

/// Round trip of the whole log: a log built by appending any sequence of
/// record lines, each of which decodes to a session, reads back as exactly
/// those sessions, values equal and in append order.
pub proof fn lemma_wal_round_trip(lines: Seq<Seq<char>>, views: Seq<SessionView>)
    requires
        lines.len() == views.len(),
        forall|i: int|
            0 <= i < lines.len() ==> free_of(#[trigger] lines[i], '\n') && spec_decode_session(
                lines[i],
            ) == Some(views[i]),
    ensures
        spec_parse_wal(spec_wal_content(lines)) == views,
        wal_terminated(spec_wal_content(lines)),
    decreases lines.len(),
{
    if lines.len() == 0 {
        assert(split_spec(Seq::<char>::empty(), '\n') =~~= seq![Seq::<char>::empty()]);
        assert(split_spec(Seq::<char>::empty(), '\n').drop_last() =~= Seq::<Seq<char>>::empty());
        assert(spec_parse_wal(spec_wal_content(lines)) =~= views);
    } else {
        let l0 = lines.drop_last();
        let v0 = views.drop_last();
        lemma_wal_round_trip(l0, v0);
        lemma_wal_content_push(l0, lines.last());
        assert(l0.push(lines.last()) =~= lines);
        lemma_wal_append(spec_wal_content(l0), lines.last());
        assert(spec_decode_session(lines.last()) == Some(views.last()));
        assert(spec_parse_wal(spec_wal_content(lines)) =~= views) by {
            assert(v0 + seq![views.last()] =~= views);
        }
    }
}

/// Session sink: persists performed sessions. Only real sessions can reach
/// an implementation; a shown-but-skipped entry has no way in.
pub trait SessionSink {
    /// Durably records one session.
    fn append(&mut self, session: &MicrodoseSession) -> Result<(), crate::error::Error>;
}

/// A line-oriented session sink bound to a log path; the surrounding
/// application performs the locked file append of `wal_record` outputs.
#[derive(Debug)]
pub struct JsonlSink {
    path: String,
}

impl JsonlSink {
    /// The log path this sink is bound to, abstractly.
    pub closed spec fn spec_path(&self) -> Seq<char> {
        self.path@
    }

    /// A sink for the given log path.
    pub fn new(path: String) -> (r: Self)
        ensures
            r.spec_path() == path@,
    {
        JsonlSink { path }
    }

    /// The log path this sink is bound to.
    pub fn path(&self) -> (r: &str)
        ensures
            r@ == self.spec_path(),
    {
        self.path.as_str()
    }
}

} // verus!
