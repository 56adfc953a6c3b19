//! Archival rollup: converts log records into tabular archive rows and
//! decides which retired log files a cleanup removes.
//!
//! The ordering that makes the rollup safe — the archive is durably written
//! before the log is renamed, and the log is renamed, never deleted — is the
//! surrounding application's business; this module owns the row format and
//! proves that the rows appended to an archive read back as exactly the
//! rolled-up sessions.

use crate::numfmt::fmt_i64_plain;
use crate::numfmt::fmt_u128_id;
use crate::numfmt::lemma_decimal_plain;
use crate::numfmt::parse_i64;
use crate::numfmt::parse_u128;
use crate::numfmt::spec_parse_i64;
use crate::numfmt::spec_parse_u128;
use crate::strutil::escape_field;
use crate::strutil::free_of;
use crate::strutil::lemma_escape_no_specials;
use crate::strutil::lemma_split_len;
use crate::strutil::lemma_terminated_append;
use crate::strutil::lemma_terminated_concat;
use crate::strutil::push_char;
use crate::strutil::split_on;
use crate::strutil::split_spec;
use crate::strutil::terminated_by;
use crate::strutil::unescape_field;
use crate::strutil::unescape_spec;
use crate::types::MetricSpecView;
use crate::types::MicrodoseSession;
use crate::types::SessionView;
use crate::wal::join_fields;
use crate::wal::lemma_plain_free;
use crate::wal::parse_opt_i64;
use crate::wal::parse_opt_u32;
use crate::wal::parse_opt_u8;
use crate::wal::spec_parse_opt_i64;
use crate::wal::spec_parse_opt_u32;
use crate::wal::spec_parse_opt_u8;
use vstd::prelude::*;

verus! {

/// A session as the archive stores it: realized metrics are not archived.
pub open spec fn spec_strip(s: SessionView) -> SessionView {
    SessionView { metrics_realized: Seq::<MetricSpecView>::empty(), ..s }
}

/// Reading of one archive row: nine comma-separated columns.
pub open spec fn spec_decode_row(line: Seq<char>) -> Option<SessionView> {
    let f = split_spec(line, ',');
    if f.len() != 9 {
        None
    } else {
        match (spec_parse_u128(f[0]), unescape_spec(f[1]), spec_parse_i64(f[2])) {
            (Some(id), Some(definition_id), Some(performed_at)) => {
                match (spec_parse_opt_i64(f[3]), spec_parse_opt_i64(f[4]),
                crate::wal::spec_parse_opt_u32(f[5]), spec_parse_opt_u8(f[6]), spec_parse_opt_u8(
                    f[7],
                ), spec_parse_opt_u8(f[8])) {
                    (Some(started_at), Some(completed_at), Some(actual_duration_seconds), Some(
                        perceived_rpe,
                    ), Some(avg_hr), Some(max_hr)) => {
                        Some(
                            SessionView {
                                id,
                                definition_id,
                                performed_at,
                                started_at,
                                completed_at,
                                actual_duration_seconds,
                                metrics_realized: Seq::<MetricSpecView>::empty(),
                                perceived_rpe,
                                avg_hr,
                                max_hr,
                            },
                        )
                    },
                    _ => None,
                }
            },
            _ => None,
        }
    }
}

/// Reading of archive rows: malformed rows are skipped.
pub open spec fn spec_parse_rows(lines: Seq<Seq<char>>) -> Seq<SessionView>
    decreases lines.len(),
{
    if lines.len() == 0 {
        Seq::<SessionView>::empty()
    } else {
        match spec_decode_row(lines[0]) {
            Some(s) => seq![s] + spec_parse_rows(lines.drop_first()),
            None => spec_parse_rows(lines.drop_first()),
        }
    }
}

/// Reading of a whole archive: the first line is the header and carries no
/// session; every further terminated line is one row.
pub open spec fn spec_parse_archive(content: Seq<char>) -> Seq<SessionView> {
    let lines = split_spec(content, '\n').drop_last();
    if lines.len() == 0 {
        Seq::<SessionView>::empty()
    } else {
        spec_parse_rows(lines.drop_first())
    }
}

/// Encodes one session as an archive row.
fn encode_row(s: &MicrodoseSession) -> (line: String)
    ensures
        spec_decode_row(line@) == Some(spec_strip(s@)),
        free_of(line@, '\n'),
{
    let mut parts: Vec<String> = Vec::new();
    parts.push(fmt_u128_id(s.id));
    parts.push(escape_field(s.definition_id.as_str()));
    parts.push(fmt_i64_plain(s.performed_at));
    parts.push(crate::wal::fmt_opt_i64(&s.started_at));
    parts.push(crate::wal::fmt_opt_i64(&s.completed_at));
    parts.push(crate::wal::fmt_opt_u32(&s.actual_duration_seconds));
    parts.push(crate::wal::fmt_opt_u8(&s.perceived_rpe));
    parts.push(crate::wal::fmt_opt_u8(&s.avg_hr));
    parts.push(crate::wal::fmt_opt_u8(&s.max_hr));
    proof {
        lemma_escape_no_specials(s.definition_id@);
        assert forall|i: int| 0 <= i < parts@.len() implies free_of((#[trigger] parts@[i])@, ',')
            && free_of(parts@[i]@, '\n') by {
            if i == 1 {
                lemma_plain_free(parts@[1]@);
            } else {
                lemma_decimal_plain(parts@[i]@);
            }
        }
    }
    let line = join_fields(&parts, ',');
    proof {
        let f = split_spec(line@, ',');
        assert(f == parts@.map_values(|p: String| p@));
        assert(f.len() == 9);
        assert(forall|k: int| 0 <= k < 9 ==> #[trigger] f[k] == parts@[k]@);
        crate::strutil::lemma_unescape_escape(s.definition_id@);
        assert(spec_decode_row(line@) matches Some(v) && v =~~= spec_strip(s@));
    }
    line
}

/// Decodes one archive row; `None` on any malformed column.
pub fn decode_row(line: &str) -> (r: Option<MicrodoseSession>)
    ensures
        match r {
            Some(s) => spec_decode_row(line@) == Some(s@),
            None => spec_decode_row(line@) is None,
        },
{
    let fields = split_on(line, ',');
    let ghost fv = split_spec(line@, ',');
    proof {
        assert(fields@.map_values(|x: String| x@) == fv);
    }
    if fields.len() != 9 {
        return None;
    }
    proof {
        assert(forall|k: int| 0 <= k < 9 ==> #[trigger] fv[k] == fields@[k]@);
    }
    let id = match parse_u128(fields[0].as_str()) {
        Some(x) => x,
        None => {
            return None;
        },
    };
    let definition_id = match unescape_field(fields[1].as_str()) {
        Some(x) => x,
        None => {
            return None;
        },
    };
    let performed_at = match parse_i64(fields[2].as_str()) {
        Some(x) => x,
        None => {
            return None;
        },
    };
    let started_at = match parse_opt_i64(fields[3].as_str()) {
        Some(x) => x,
        None => {
            return None;
        },
    };
    let completed_at = match parse_opt_i64(fields[4].as_str()) {
        Some(x) => x,
        None => {
            return None;
        },
    };
    let actual_duration_seconds = match parse_opt_u32(fields[5].as_str()) {
        Some(x) => x,
        None => {
            return None;
        },
    };
    let perceived_rpe = match parse_opt_u8(fields[6].as_str()) {
        Some(x) => x,
        None => {
            return None;
        },
    };
    let avg_hr = match parse_opt_u8(fields[7].as_str()) {
        Some(x) => x,
        None => {
            return None;
        },
    };
    let max_hr = match parse_opt_u8(fields[8].as_str()) {
        Some(x) => x,
        None => {
            return None;
        },
    };
    let s = MicrodoseSession {
        id,
        definition_id,
        performed_at,
        started_at,
        completed_at,
        actual_duration_seconds,
        metrics_realized: Vec::new(),
        perceived_rpe,
        avg_hr,
        max_hr,
    };
    proof {
        assert(s@.metrics_realized =~= Seq::<MetricSpecView>::empty());
        assert(spec_decode_row(line@) matches Some(v) && v =~~= s@);
    }
    Some(s)
}

/// Reads every well-formed row from the archive contents; `None` stands for
/// an absent archive and reads as empty.
pub fn load_sessions_from_csv(content: Option<&str>) -> (r: Vec<MicrodoseSession>)
    ensures
        match content {
            Some(c) => r@.map_values(|s: MicrodoseSession| s@) == spec_parse_archive(c@),
            None => r@.len() == 0,
        },
{
    let c = match content {
        Some(c) => c,
        None => {
            let out: Vec<MicrodoseSession> = Vec::new();
            return out;
        },
    };
    let segments = split_on(c, '\n');
    let ghost segs = split_spec(c@, '\n');
    proof {
        assert(segments@.map_values(|x: String| x@) == segs);
        lemma_split_len(c@, '\n');
    }
    let n = segments.len();
    let mut out: Vec<MicrodoseSession> = Vec::new();
    if n < 2 {
        proof {
            assert(segs.drop_last().len() < 1);
        }
        return out;
    }
    let ghost lines = segs.drop_last().drop_first();
    let mut i: usize = 1;
    proof {
        assert(lines.subrange(0, lines.len() as int) =~= lines);
    }
    while i < n - 1
        invariant
            n == segments@.len(),
            n >= 2,
            1 <= i <= n - 1,
            segs == segments@.map_values(|x: String| x@),
            lines == segs.drop_last().drop_first(),
            spec_parse_rows(lines) == out@.map_values(|s: MicrodoseSession| s@) + spec_parse_rows(
                lines.subrange(i - 1, lines.len() as int),
            ),
        decreases n - i,
    {
        let ghost pre = out@.map_values(|s: MicrodoseSession| s@);
        proof {
            assert(lines.subrange(i - 1, lines.len() as int)[0] == lines[i - 1]);
            assert(lines[i - 1] == segs[i as int]);
            assert(segs[i as int] == segments@[i as int]@);
            assert(lines.subrange(i - 1, lines.len() as int).drop_first() =~= lines.subrange(
                i as int,
                lines.len() as int,
            ));
        }
        match decode_row(segments[i].as_str()) {
            Some(s) => {
                out.push(s);
                proof {
                    assert(out@.map_values(|x: MicrodoseSession| x@) =~= pre.push(s@));
                    assert(forall|rest: Seq<SessionView>|
                        pre + (seq![s@] + rest) =~= #[trigger] (pre.push(s@) + rest));
                }
            },
            None => {},
        }
        i = i + 1;
    }
    proof {
        assert(lines.subrange(n - 2, lines.len() as int).len() == 0);
        assert(spec_parse_rows(lines.subrange(n - 2, lines.len() as int)) =~= Seq::<
            SessionView,
        >::empty());
        assert(out@.map_values(|s: MicrodoseSession| s@) + Seq::<SessionView>::empty()
            =~= out@.map_values(|s: MicrodoseSession| s@));
    }
    out
}

/// The archive rows for a batch of sessions, with the header line when the
/// archive does not exist yet or is empty. Appending the result to the
/// archive and reading the archive back adds exactly the stripped sessions.
pub fn rollup_rows(sessions: &Vec<MicrodoseSession>, include_header: bool) -> (r: String)
    ensures
        terminated_by(r@, '\n'),
        include_header ==> split_spec(r@, '\n').drop_last().len() == sessions@.len() + 1
            && spec_parse_archive(r@) == sessions@.map_values(
            |s: MicrodoseSession| spec_strip(s@),
        ),
        !include_header ==> spec_parse_rows(split_spec(r@, '\n').drop_last()) == sessions@.map_values(
            |s: MicrodoseSession| spec_strip(s@),
        ),
{
    let ghost stripped = sessions@.map_values(|s: MicrodoseSession| spec_strip(s@));
    let mut out = String::new();
    proof {
        assert(split_spec(Seq::<char>::empty(), '\n') =~~= seq![Seq::<char>::empty()]);
        assert(split_spec(out@, '\n').drop_last() =~= Seq::<Seq<char>>::empty());
    }
    if include_header {
        let header = "id,definition_id,performed_at,started_at,completed_at,duration,perceived_rpe,avg_hr,max_hr";
        out.append(header);
        push_char(&mut out, '\n');
        proof {
            reveal_strlit(
                "id,definition_id,performed_at,started_at,completed_at,duration,perceived_rpe,avg_hr,max_hr",
            );
            assert(free_of(header@, '\n'));
            assert(out@ =~= Seq::<char>::empty() + (header@ + seq!['\n']));
            lemma_terminated_append(Seq::<char>::empty(), header@, '\n');
            assert(split_spec(out@, '\n').drop_last() =~= seq![header@]);
        }
    }
    let ghost base = split_spec(out@, '\n').drop_last();
    let n = sessions.len();
    let mut i: usize = 0;
    while i < n
        invariant
            n == sessions@.len(),
            i <= n,
            stripped == sessions@.map_values(|s: MicrodoseSession| spec_strip(s@)),
            terminated_by(out@, '\n'),
            base.len() == (if include_header {
                1int
            } else {
                0int
            }),
            split_spec(out@, '\n').drop_last().len() == base.len() + i,
            forall|k: int|
                0 <= k < base.len() ==> #[trigger] split_spec(out@, '\n').drop_last()[k] == base[k],
            forall|k: int|
                0 <= k < i ==> spec_decode_row(
                    #[trigger] split_spec(out@, '\n').drop_last()[base.len() + k],
                ) == Some(stripped[k]),
        decreases n - i,
    {
        let ghost preout = out@;
        let ghost prelines = split_spec(preout, '\n').drop_last();
        proof {
            assert(stripped[i as int] == spec_strip(sessions@[i as int]@));
        }
        let line = encode_row(&sessions[i]);
        out.append(line.as_str());
        push_char(&mut out, '\n');
        proof {
            assert(out@ =~= preout + (line@ + seq!['\n']));
            lemma_terminated_append(preout, line@, '\n');
            assert(split_spec(out@, '\n').drop_last() == prelines.push(line@));
        }
        i = i + 1;
    }
    proof {
        let lines = split_spec(out@, '\n').drop_last();
        let rows = if include_header {
            lines.drop_first()
        } else {
            lines
        };
        assert(rows.len() == n);
        assert forall|k: int| 0 <= k < n implies spec_decode_row(#[trigger] rows[k]) == Some(
            stripped[k],
        ) by {
            assert(rows[k] == lines[base.len() + k]);
        }
        lemma_rows_pointwise(rows, stripped);
    }
    out
}

/// Pointwise decodable rows read back as the pointwise results.
proof fn lemma_rows_pointwise(lines: Seq<Seq<char>>, views: Seq<SessionView>)
    requires
        lines.len() == views.len(),
        forall|i: int| 0 <= i < lines.len() ==> spec_decode_row(#[trigger] lines[i]) == Some(
            views[i],
        ),
    ensures
        spec_parse_rows(lines) == views,
    decreases lines.len(),
{
    if lines.len() == 0 {
        assert(spec_parse_rows(lines) =~= views);
    } else {
        lemma_rows_pointwise(lines.drop_first(), views.drop_first());
        assert(spec_decode_row(lines[0]) == Some(views[0]));
        assert(seq![views[0]] + views.drop_first() =~= views);
    }
}

/// Row reading distributes over concatenation of row lists.
pub proof fn lemma_parse_rows_concat(l1: Seq<Seq<char>>, l2: Seq<Seq<char>>)
    ensures
        spec_parse_rows(l1 + l2) == spec_parse_rows(l1) + spec_parse_rows(l2),
    decreases l1.len(),
{
    if l1.len() == 0 {
        assert(l1 + l2 =~= l2);
        assert(spec_parse_rows(l1) + spec_parse_rows(l2) =~= spec_parse_rows(l2));
    } else {
        lemma_parse_rows_concat(l1.drop_first(), l2);
        assert((l1 + l2).drop_first() =~= l1.drop_first() + l2);
        assert((l1 + l2)[0] == l1[0]);
        match spec_decode_row(l1[0]) {
            Some(s) => {
                assert(spec_parse_rows(l1 + l2) =~= spec_parse_rows(l1) + spec_parse_rows(l2));
            },
            None => {
                assert(spec_parse_rows(l1 + l2) =~= spec_parse_rows(l1) + spec_parse_rows(l2));
            },
        }
    }
}

/// Rollup safety, archive half: appending a batch of rows to an existing
/// archive (one that already carries its header line) extends the archive's
/// reading by exactly those sessions; nothing already archived is lost.
pub proof fn lemma_rollup_archive(c: Seq<char>, r: Seq<char>, views: Seq<SessionView>)
    requires
        terminated_by(c, '\n'),
        terminated_by(r, '\n'),
        split_spec(c, '\n').drop_last().len() >= 1,
        spec_parse_rows(split_spec(r, '\n').drop_last()) == views,
    ensures
        spec_parse_archive(c + r) == spec_parse_archive(c) + views,
        terminated_by(c + r, '\n'),
{
    lemma_terminated_concat(c, r, '\n');
    let lc = split_spec(c, '\n').drop_last();
    let lr = split_spec(r, '\n').drop_last();
    assert((lc + lr).drop_first() =~= lc.drop_first() + lr);
    lemma_parse_rows_concat(lc.drop_first(), lr);
}

/// A retired log file name: one that ends in the processed suffix.
pub open spec fn spec_is_processed(name: Seq<char>) -> bool {
    name.len() > ".processed"@.len() && name.subrange(
        name.len() - ".processed"@.len(),
        name.len() as int,
    ) == ".processed"@
}

/// The retired log files among a directory's file names.
pub open spec fn spec_select_processed(names: Seq<Seq<char>>) -> Seq<Seq<char>>
    decreases names.len(),
{
    if names.len() == 0 {
        Seq::<Seq<char>>::empty()
    } else if spec_is_processed(names[0]) {
        seq![names[0]] + spec_select_processed(names.drop_first())
    } else {
        spec_select_processed(names.drop_first())
    }
}

/// Does the file name carry the processed suffix?
pub fn is_processed_name(name: &str) -> (r: bool)
    ensures
        r == spec_is_processed(name@),
{
    proof {
        reveal_strlit(".processed");
    }
    let suffix = ".processed";
    let sl = suffix.unicode_len();
    let n = name.unicode_len();
    if n <= sl {
        return false;
    }
    let start = n - sl;
    let mut j: usize = 0;
    while j < sl
        invariant
            suffix@ == ".processed"@,
            sl == ".processed"@.len(),
            n == name@.len(),
            n > sl,
            start == n - sl,
            j <= sl,
            forall|k: int| 0 <= k < j ==> name@[start + k] == ".processed"@[k],
        decreases sl - j,
    {
        proof {
            reveal_strlit(".processed");
        }
        if name.get_char(start + j) != suffix.get_char(j) {
            proof {
                assert(name@.subrange(n - sl, n as int)[j as int] == name@[start + j]);
            }
            return false;
        }
        j = j + 1;
    }
    proof {
        assert(name@.subrange(n - sl, n as int) =~= ".processed"@);
    }
    true
}

/// Picks the retired log files to remove from a directory listing. Removing
/// them and running the selection again selects nothing: cleanup is
/// idempotent.
pub fn cleanup_processed_wals(names: &Vec<String>) -> (r: Vec<String>)
    ensures
        r@.map_values(|s: String| s@) == spec_select_processed(
            names@.map_values(|s: String| s@),
        ),
{
    let ghost all = names@.map_values(|s: String| s@);
    let n = names.len();
    let mut out: Vec<String> = Vec::new();
    let mut i: usize = 0;
    proof {
        assert(all.subrange(0, all.len() as int) =~= all);
    }
    while i < n
        invariant
            n == names@.len(),
            i <= n,
            all == names@.map_values(|s: String| s@),
            spec_select_processed(all) == out@.map_values(|s: String| s@)
                + spec_select_processed(all.subrange(i as int, all.len() as int)),
        decreases n - i,
    {
        let ghost pre = out@.map_values(|s: String| s@);
        proof {
            assert(all.subrange(i as int, all.len() as int)[0] == all[i as int]);
            assert(all[i as int] == names@[i as int]@);
            assert(all.subrange(i as int, all.len() as int).drop_first() =~= all.subrange(
                i + 1,
                all.len() as int,
            ));
        }
        if is_processed_name(names[i].as_str()) {
            out.push(names[i].clone());
            proof {
                assert(out@.map_values(|s: String| s@) =~= pre.push(all[i as int]));
                assert(forall|rest: Seq<Seq<char>>|
                    pre + (seq![all[i as int]] + rest) =~= #[trigger] (pre.push(all[i as int])
                        + rest));
            }
        }
        i = i + 1;
    }
    proof {
        assert(all.subrange(n as int, all.len() as int).len() == 0);
        assert(spec_select_processed(all.subrange(n as int, all.len() as int)) =~= Seq::<
            Seq<char>,
        >::empty());
        assert(out@.map_values(|s: String| s@) + Seq::<Seq<char>>::empty() =~= out@.map_values(
            |s: String| s@,
        ));
    }
    out
}

/// The file names that a cleanup leaves in place.
pub open spec fn spec_remaining_after_cleanup(names: Seq<Seq<char>>) -> Seq<Seq<char>>
    decreases names.len(),
{
    if names.len() == 0 {
        Seq::<Seq<char>>::empty()
    } else if spec_is_processed(names[0]) {
        spec_remaining_after_cleanup(names.drop_first())
    } else {
        seq![names[0]] + spec_remaining_after_cleanup(names.drop_first())
    }
}

/// Cleanup is idempotent: the first pass removes exactly the retired log
/// files, and a second pass over what is left selects nothing.
pub proof fn lemma_cleanup_idempotent(names: Seq<Seq<char>>)
    ensures
        spec_select_processed(spec_remaining_after_cleanup(names)) == Seq::<Seq<char>>::empty(),
    decreases names.len(),
{
    if names.len() == 0 {
        assert(spec_remaining_after_cleanup(names) =~= Seq::<Seq<char>>::empty());
    } else {
        lemma_cleanup_idempotent(names.drop_first());
        if spec_is_processed(names[0]) {
        } else {
            let rest = spec_remaining_after_cleanup(names.drop_first());
            assert((seq![names[0]] + rest)[0] == names[0]);
            assert((seq![names[0]] + rest).drop_first() =~= rest);
        }
    }
}

} // verus!
