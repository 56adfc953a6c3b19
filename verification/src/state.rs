//! Persistent user state: a single-document encoding of the per-definition
//! progressions and the mobility rotation cursor.
//!
//! The atomic write-to-temporary-then-rename and the file locking are the
//! surrounding application's business; this module owns the document format.
//! A missing or garbled document never prevents prescription: loading it
//! yields the fresh default state.

use crate::numfmt::fmt_i32;
use crate::numfmt::fmt_u32;
use crate::numfmt::lemma_decimal_plain;
use crate::numfmt::parse_i32;
use crate::numfmt::parse_u32;
use crate::numfmt::spec_parse_i32;
use crate::numfmt::spec_parse_u32;
use crate::strutil::escape_field;
use crate::strutil::free_of;
use crate::strutil::lemma_escape_no_specials;
use crate::strutil::lemma_split_len;
use crate::strutil::lemma_terminated_append;
use crate::strutil::push_char;
use crate::strutil::split_on;
use crate::strutil::split_spec;
use crate::strutil::terminated_by;
use crate::strutil::unescape_field;
use crate::strutil::unescape_spec;
use crate::types::BandSpec;
use crate::types::BandSpecView;
use crate::types::BurpeeStyle;
use crate::types::MovementStyle;
use crate::types::MovementStyleView;
use crate::types::ProgressionState;
use crate::types::ProgressionStateView;
use crate::types::UserMicrodoseState;
use crate::types::UserStateView;
use crate::wal::lemma_plain_free;
use crate::wal::spec_parse_opt_i64;
use vstd::prelude::*;

verus! {

/// Reading of an encoded movement style.
pub open spec fn spec_parse_style(s: Seq<char>) -> Option<MovementStyleView> {
    if s == seq!['n'] {
        Some(MovementStyleView::Plain)
    } else if s == seq!['b', '4'] {
        Some(MovementStyleView::Burpee(BurpeeStyle::FourCount))
    } else if s == seq!['b', '6'] {
        Some(MovementStyleView::Burpee(BurpeeStyle::SixCount))
    } else if s == seq!['b', 'p'] {
        Some(MovementStyleView::Burpee(BurpeeStyle::SixCountTwoPump))
    } else if s == seq!['b', 's'] {
        Some(MovementStyleView::Burpee(BurpeeStyle::Seal))
    } else if s == seq!['a'] {
        Some(MovementStyleView::Band(BandSpecView::NoBand))
    } else if s.len() >= 1 && s[0] == 'c' {
        match unescape_spec(s.drop_first()) {
            Some(colour) => Some(MovementStyleView::Band(BandSpecView::NamedColour(colour))),
            None => None,
        }
    } else {
        None
    }
}

fn encode_style(style: &MovementStyle) -> (r: String)
    ensures
        spec_parse_style(r@) == Some(style@),
        free_of(r@, '\n'),
        free_of(r@, '|'),
{
    let mut out = String::new();
    match style {
        MovementStyle::Plain => {
            push_char(&mut out, 'n');
            proof {
                assert(out@ =~= seq!['n']);
            }
        },
        MovementStyle::Burpee(b) => {
            push_char(&mut out, 'b');
            match b {
                BurpeeStyle::FourCount => {
                    push_char(&mut out, '4');
                    proof {
                        assert(out@ =~= seq!['b', '4']);
                    }
                },
                BurpeeStyle::SixCount => {
                    push_char(&mut out, '6');
                    proof {
                        assert(out@ =~= seq!['b', '6']);
                    }
                },
                BurpeeStyle::SixCountTwoPump => {
                    push_char(&mut out, 'p');
                    proof {
                        assert(out@ =~= seq!['b', 'p']);
                    }
                },
                BurpeeStyle::Seal => {
                    push_char(&mut out, 's');
                    proof {
                        assert(out@ =~= seq!['b', 's']);
                    }
                },
            }
            proof {
                assert(out@ != seq!['n'] && out@ != seq!['a']) by {
                    assert(out@[0] == 'b');
                }
            }
        },
        MovementStyle::Band(BandSpec::NoBand) => {
            push_char(&mut out, 'a');
            proof {
                assert(out@ =~= seq!['a']);
                assert(out@ != seq!['n']) by {
                    assert(out@[0] == 'a' && seq!['n'][0] == 'n');
                }
            }
        },
        MovementStyle::Band(BandSpec::NamedColour(colour)) => {
            push_char(&mut out, 'c');
            let esc = escape_field(colour.as_str());
            out.append(esc.as_str());
            proof {
                assert(out@[0] == 'c');
                assert(out@.drop_first() =~= crate::strutil::escape_spec(colour@));
                crate::strutil::lemma_unescape_escape(colour@);
                assert(out@ != seq!['n'] && out@ != seq!['b', '4'] && out@ != seq!['b', '6']
                    && out@ != seq!['b', 'p'] && out@ != seq!['b', 's'] && out@ != seq!['a']) by {
                    assert(seq!['n'][0] == 'n' && seq!['b', '4'][0] == 'b' && seq!['b', '6'][0]
                        == 'b' && seq!['b', 'p'][0] == 'b' && seq!['b', 's'][0] == 'b'
                        && seq!['a'][0] == 'a');
                }
            }
        },
    }
    proof {
        assert(free_of(out@, '\n') && free_of(out@, '|')) by {
            match style@ {
                MovementStyleView::Band(BandSpecView::NamedColour(colour)) => {
                    lemma_escape_no_specials(colour);
                    lemma_plain_free(out@.drop_first());
                    assert forall|i: int| 0 <= i < out@.len() implies out@[i] != '\n' && out@[i]
                        != '|' by {
                        if i >= 1 {
                            assert(out@[i] == out@.drop_first()[i - 1]);
                        }
                    }
                },
                _ => {},
            }
        }
    }
    out
}

fn parse_style(s: &str) -> (r: Option<MovementStyle>)
    ensures
        match r {
            Some(v) => spec_parse_style(s@) == Some(v@),
            None => spec_parse_style(s@) is None,
        },
{
    let n = s.unicode_len();
    if n == 0 {
        proof {
            assert(spec_parse_style(s@) is None) by {
                assert(seq!['n'].len() == 1 && seq!['a'].len() == 1 && seq!['b', '4'].len() == 2
                    && seq!['b', '6'].len() == 2 && seq!['b', 'p'].len() == 2 && seq![
                    'b',
                    's',
                ].len() == 2);
            }
        }
        return None;
    }
    let c0 = s.get_char(0);
    proof {
        assert(seq!['n'][0] == 'n' && seq!['a'][0] == 'a' && seq!['b', '4'][0] == 'b' && seq![
            'b',
            '6',
        ][0] == 'b' && seq!['b', 'p'][0] == 'b' && seq!['b', 's'][0] == 'b');
        assert(seq!['b', '4'][1] == '4' && seq!['b', '6'][1] == '6' && seq!['b', 'p'][1] == 'p'
            && seq!['b', 's'][1] == 's');
    }
    if c0 == 'n' && n == 1 {
        proof {
            assert(s@ =~= seq!['n']);
        }
        Some(MovementStyle::Plain)
    } else if c0 == 'a' && n == 1 {
        proof {
            assert(s@ =~= seq!['a']);
            assert(s@ != seq!['n']);
        }
        Some(MovementStyle::Band(BandSpec::NoBand))
    } else if c0 == 'b' && n == 2 {
        let c1 = s.get_char(1);
        proof {
            assert(s@ != seq!['n'] && s@ != seq!['a']);
        }
        if c1 == '4' {
            proof {
                assert(s@ =~= seq!['b', '4']);
            }
            Some(MovementStyle::Burpee(BurpeeStyle::FourCount))
        } else if c1 == '6' {
            proof {
                assert(s@ =~= seq!['b', '6']);
                assert(s@ != seq!['b', '4']);
            }
            Some(MovementStyle::Burpee(BurpeeStyle::SixCount))
        } else if c1 == 'p' {
            proof {
                assert(s@ =~= seq!['b', 'p']);
                assert(s@ != seq!['b', '4'] && s@ != seq!['b', '6']);
            }
            Some(MovementStyle::Burpee(BurpeeStyle::SixCountTwoPump))
        } else if c1 == 's' {
            proof {
                assert(s@ =~= seq!['b', 's']);
                assert(s@ != seq!['b', '4'] && s@ != seq!['b', '6'] && s@ != seq!['b', 'p']);
            }
            Some(MovementStyle::Burpee(BurpeeStyle::Seal))
        } else {
            proof {
                assert(s@[1] != '4' && s@[1] != '6' && s@[1] != 'p' && s@[1] != 's');
                assert(s@ != seq!['b', '4'] && s@ != seq!['b', '6'] && s@ != seq!['b', 'p'] && s@
                    != seq!['b', 's']);
                assert(s@[0] != 'c');
            }
            None
        }
    } else if c0 == 'c' {
        let rest = s.substring_char(1, n);
        proof {
            assert(rest@ =~= s@.drop_first());
            assert(s@ != seq!['n'] && s@ != seq!['a'] && s@ != seq!['b', '4'] && s@ != seq![
                'b',
                '6',
            ] && s@ != seq!['b', 'p'] && s@ != seq!['b', 's']);
        }
        match unescape_field(rest) {
            Some(colour) => Some(MovementStyle::Band(BandSpec::NamedColour(colour))),
            None => None,
        }
    } else {
        proof {
            assert(s@[0] != 'n' && s@[0] != 'a' && s@[0] != 'c' ==> (s@ != seq!['n'] && s@ != seq![
                'a',
            ] && s@ != seq!['b', '4'] && s@ != seq!['b', '6'] && s@ != seq!['b', 'p'] && s@ != seq![
                'b',
                's',
            ] && spec_parse_style(s@) is None));
            if c0 == 'n' || c0 == 'a' {
                assert(s@.len() != 1);
                assert(s@ != seq!['n'] && s@ != seq!['a']);
                assert(s@ != seq!['b', '4'] && s@ != seq!['b', '6'] && s@ != seq!['b', 'p'] && s@
                    != seq!['b', 's']) by {
                    assert(s@[0] != 'b');
                }
            }
            if c0 == 'b' {
                assert(s@.len() != 2);
                assert(s@ != seq!['n'] && s@ != seq!['a'] && s@ != seq!['b', '4'] && s@ != seq![
                    'b',
                    '6',
                ] && s@ != seq!['b', 'p'] && s@ != seq!['b', 's']);
            }
        }
        None
    }
}

/// Reading of one progression entry line: five pipe-separated fields.
pub open spec fn spec_parse_entry(line: Seq<char>) -> Option<(Seq<char>, ProgressionStateView)> {
    let f = split_spec(line, '|');
    if f.len() != 5 {
        None
    } else {
        match (unescape_spec(f[0]), spec_parse_i32(f[1]), spec_parse_style(f[2]), spec_parse_u32(
            f[3],
        ), spec_parse_opt_i64(f[4])) {
            (Some(def_id), Some(reps), Some(style), Some(level), Some(last_upgraded)) => {
                Some((def_id, ProgressionStateView { reps, style, level, last_upgraded }))
            },
            _ => None,
        }
    }
}

/// Reading of the progression entry lines, all or nothing.
pub open spec fn spec_parse_entries(lines: Seq<Seq<char>>) -> Option<
    Seq<(Seq<char>, ProgressionStateView)>,
>
    decreases lines.len(),
{
    if lines.len() == 0 {
        Some(Seq::<(Seq<char>, ProgressionStateView)>::empty())
    } else {
        match (spec_parse_entry(lines[0]), spec_parse_entries(lines.drop_first())) {
            (Some(e), Some(rest)) => Some(seq![e] + rest),
            _ => None,
        }
    }
}

/// Reading of the cursor line: `n` for no cursor, `s` followed by the
/// escaped identifier otherwise.
pub open spec fn spec_parse_cursor(line: Seq<char>) -> Option<Option<Seq<char>>> {
    if line == seq!['n'] {
        Some(None)
    } else if line.len() >= 1 && line[0] == 's' {
        match unescape_spec(line.drop_first()) {
            Some(id) => Some(Some(id)),
            None => None,
        }
    } else {
        None
    }
}

/// Reading of a whole state document: a cursor line followed by one line per
/// progression entry.
pub open spec fn spec_parse_state(content: Seq<char>) -> Option<UserStateView> {
    let lines = split_spec(content, '\n').drop_last();
    if lines.len() < 1 {
        None
    } else {
        match (spec_parse_cursor(lines[0]), spec_parse_entries(lines.drop_first())) {
            (Some(cursor), Some(entries)) => Some(
                UserStateView { progressions: entries, last_mobility_def_id: cursor },
            ),
            _ => None,
        }
    }
}

/// The state read from a document: the parsed value, or the fresh default
/// when the document is absent or garbled.
pub open spec fn spec_load_state(content: Option<Seq<char>>) -> UserStateView {
    match content {
        Some(c) => match spec_parse_state(c) {
            Some(v) => v,
            None => UserStateView {
                progressions: Seq::<(Seq<char>, ProgressionStateView)>::empty(),
                last_mobility_def_id: None,
            },
        },
        None => UserStateView {
            progressions: Seq::<(Seq<char>, ProgressionStateView)>::empty(),
            last_mobility_def_id: None,
        },
    }
}

} // verus!

use vstd::prelude::*;

verus! {

fn encode_entry(def_id: &str, ps: &ProgressionState) -> (line: String)
    ensures
        spec_parse_entry(line@) == Some((def_id@, ps@)),
        free_of(line@, '\n'),
{
    let mut parts: Vec<String> = Vec::new();
    parts.push(escape_field(def_id));
    parts.push(fmt_i32(ps.reps));
    parts.push(encode_style(&ps.style));
    parts.push(fmt_u32(ps.level));
    parts.push(crate::wal::fmt_opt_i64(&ps.last_upgraded));
    proof {
        lemma_escape_no_specials(def_id@);
        assert forall|i: int| 0 <= i < parts@.len() implies free_of((#[trigger] parts@[i])@, '|')
            && free_of(parts@[i]@, '\n') by {
            if i == 0 {
                lemma_plain_free(parts@[0]@);
            } else if i == 2 {
            } else {
                lemma_decimal_plain(parts@[i]@);
            }
        }
    }
    let line = crate::wal::join_fields(&parts, '|');
    proof {
        let f = split_spec(line@, '|');
        assert(f == parts@.map_values(|p: String| p@));
        assert(f.len() == 5);
        assert(forall|k: int| 0 <= k < 5 ==> #[trigger] f[k] == parts@[k]@);
        crate::strutil::lemma_unescape_escape(def_id@);
        assert(spec_parse_entry(line@) matches Some(v) && v == (def_id@, ps@));
    }
    line
}

fn parse_entry(line: &str) -> (r: Option<(String, ProgressionState)>)
    ensures
        match r {
            Some(e) => spec_parse_entry(line@) == Some((e.0@, e.1@)),
            None => spec_parse_entry(line@) is None,
        },
{
    let fields = split_on(line, '|');
    let ghost fv = split_spec(line@, '|');
    proof {
        assert(fields@.map_values(|x: String| x@) == fv);
    }
    if fields.len() != 5 {
        return None;
    }
    proof {
        assert(forall|k: int| 0 <= k < 5 ==> #[trigger] fv[k] == fields@[k]@);
    }
    let def_id = match unescape_field(fields[0].as_str()) {
        Some(x) => x,
        None => {
            return None;
        },
    };
    let reps = match parse_i32(fields[1].as_str()) {
        Some(x) => x,
        None => {
            return None;
        },
    };
    let style = match parse_style(fields[2].as_str()) {
        Some(x) => x,
        None => {
            return None;
        },
    };
    let level = match parse_u32(fields[3].as_str()) {
        Some(x) => x,
        None => {
            return None;
        },
    };
    let last_upgraded = match crate::wal::parse_opt_i64(fields[4].as_str()) {
        Some(x) => x,
        None => {
            return None;
        },
    };
    let ps = ProgressionState { reps, style, level, last_upgraded };
    proof {
        assert(spec_parse_entry(line@) matches Some(v) && v == (def_id@, ps@));
    }
    Some((def_id, ps))
}

/// Pointwise parsable entry lines parse to the pointwise results.
proof fn lemma_parse_entries_pointwise(
    lines: Seq<Seq<char>>,
    entries: Seq<(Seq<char>, ProgressionStateView)>,
)
    requires
        lines.len() == entries.len(),
        forall|i: int| 0 <= i < lines.len() ==> spec_parse_entry(#[trigger] lines[i]) == Some(
            entries[i],
        ),
    ensures
        spec_parse_entries(lines) == Some(entries),
    decreases lines.len(),
{
    if lines.len() == 0 {
        assert(spec_parse_entries(lines) matches Some(v) && v =~= entries);
    } else {
        lemma_parse_entries_pointwise(lines.drop_first(), entries.drop_first());
        assert(spec_parse_entry(lines[0]) == Some(entries[0]));
        assert(seq![entries[0]] + entries.drop_first() =~= entries);
    }
}

impl UserMicrodoseState {
    /// Renders the state as a single document; loading the document yields a
    /// value equal to this one, which is the crash-safe store's half of the
    /// save-then-load round trip.
    pub fn save(&self) -> (r: String)
        ensures
            spec_parse_state(r@) == Some(self@),
            terminated_by(r@, '\n'),
    {
        let mut cursor = String::new();
        match &self.last_mobility_def_id {
            Some(id) => {
                push_char(&mut cursor, 's');
                let esc = escape_field(id.as_str());
                cursor.append(esc.as_str());
                proof {
                    assert(cursor@[0] == 's');
                    assert(cursor@.drop_first() =~= crate::strutil::escape_spec(id@));
                    crate::strutil::lemma_unescape_escape(id@);
                    assert(cursor@ != seq!['n']) by {
                        assert(seq!['n'][0] == 'n');
                    }
                    assert(spec_parse_cursor(cursor@) == Some(self@.last_mobility_def_id));
                    lemma_escape_no_specials(id@);
                    lemma_plain_free(cursor@.drop_first());
                    assert forall|i: int| 0 <= i < cursor@.len() implies cursor@[i] != '\n' by {
                        if i >= 1 {
                            assert(cursor@[i] == cursor@.drop_first()[i - 1]);
                        }
                    }
                }
            },
            None => {
                push_char(&mut cursor, 'n');
                proof {
                    assert(cursor@ =~= seq!['n']);
                    assert(spec_parse_cursor(cursor@) == Some(self@.last_mobility_def_id));
                }
            },
        }
        let ghost cline = cursor@;
        let mut out = cursor;
        push_char(&mut out, '\n');
        proof {
            assert(Seq::<char>::empty() + (cline + seq!['\n']) =~= out@);
            lemma_terminated_append(Seq::<char>::empty(), cline, '\n');
            assert(split_spec(Seq::<char>::empty(), '\n') =~~= seq![Seq::<char>::empty()]);
            assert(split_spec(Seq::<char>::empty(), '\n').drop_last() =~= Seq::<Seq<char>>::empty());
            assert(split_spec(out@, '\n').drop_last() =~= seq![cline]);
        }
        let n = self.progressions.len();
        let mut i: usize = 0;
        while i < n
            invariant
                n == self.progressions@.len(),
                i <= n,
                terminated_by(out@, '\n'),
                spec_parse_cursor(cline) == Some(self@.last_mobility_def_id),
                split_spec(out@, '\n').drop_last().len() == i + 1,
                split_spec(out@, '\n').drop_last()[0] == cline,
                forall|k: int|
                    0 <= k < i ==> spec_parse_entry(
                        #[trigger] split_spec(out@, '\n').drop_last()[k + 1],
                    ) == Some(self@.progressions[k]),
            decreases n - i,
        {
            proof {
                assert(self@.progressions[i as int] == (
                    self.progressions@[i as int].0@,
                    self.progressions@[i as int].1@,
                ));
            }
            let ghost preout = out@;
            let ghost prelines = split_spec(preout, '\n').drop_last();
            let line = encode_entry(self.progressions[i].0.as_str(), &self.progressions[i].1);
            out.append(line.as_str());
            push_char(&mut out, '\n');
            proof {
                assert(out@ =~= preout + (line@ + seq!['\n']));
                lemma_terminated_append(preout, line@, '\n');
                assert(split_spec(out@, '\n').drop_last() == prelines.push(line@));
                assert forall|k: int| 0 <= k < i + 1 implies spec_parse_entry(
                    #[trigger] split_spec(out@, '\n').drop_last()[k + 1],
                ) == Some(self@.progressions[k]) by {
                    if k < i {
                        assert(split_spec(out@, '\n').drop_last()[k + 1] == prelines[k + 1]);
                    } else {
                        assert(split_spec(out@, '\n').drop_last()[k + 1] == line@);
                    }
                }
            }
            i = i + 1;
        }
        proof {
            let lines = split_spec(out@, '\n').drop_last();
            assert(lines.len() == n + 1);
            let elines = lines.drop_first();
            assert forall|k: int| 0 <= k < elines.len() implies spec_parse_entry(
                #[trigger] elines[k],
            ) == Some(self@.progressions[k]) by {
                assert(elines[k] == lines[k + 1]);
            }
            lemma_parse_entries_pointwise(elines, self@.progressions);
            assert(spec_parse_state(out@) matches Some(v) && v =~~= self@);
        }
        out
    }

    /// Loads the state from a document's contents; `None` stands for an
    /// absent document. A garbled document yields the fresh default state
    /// rather than an error, so prescription never fails on it.
    pub fn load(content: Option<&str>) -> (r: UserMicrodoseState)
        ensures
            r@ == spec_load_state(
                match content {
                    Some(c) => Some(c@),
                    None => None,
                },
            ),
    {
        let c = match content {
            Some(c) => c,
            None => {
                return UserMicrodoseState::default();
            },
        };
        let segments = split_on(c, '\n');
        let ghost segs = split_spec(c@, '\n');
        proof {
            assert(segments@.map_values(|x: String| x@) == segs);
            lemma_split_len(c@, '\n');
        }
        let n = segments.len();
        if n < 2 {
            proof {
                assert(segs.drop_last().len() < 1);
                assert(spec_parse_state(c@) is None);
            }
            return UserMicrodoseState::default();
        }
        let ghost lines = segs.drop_last();
        proof {
            assert(lines[0] == segs[0]);
            assert(segs[0] == segments@[0]@);
        }
        let cursor_line = &segments[0];
        let cn = cursor_line.unicode_len();
        let last_mobility_def_id: Option<String>;
        proof {
            assert(seq!['n'][0] == 'n' && seq!['n'].len() == 1);
        }
        if cn == 1 && cursor_line.as_str().get_char(0) == 'n' {
            proof {
                assert(cursor_line@ =~= seq!['n']);
            }
            last_mobility_def_id = None;
        } else if cn >= 1 && cursor_line.as_str().get_char(0) == 's' {
            proof {
                assert(cursor_line@ != seq!['n']);
            }
            let rest = cursor_line.as_str().substring_char(1, cn);
            proof {
                assert(rest@ =~= cursor_line@.drop_first());
            }
            match unescape_field(rest) {
                Some(id) => {
                    last_mobility_def_id = Some(id);
                },
                None => {
                    proof {
                        assert(spec_parse_cursor(lines[0]) is None);
                        assert(spec_parse_state(c@) is None);
                    }
                    return UserMicrodoseState::default();
                },
            }
        } else {
            proof {
                assert(cursor_line@ != seq!['n']) by {
                    if cursor_line@.len() == 1 {
                        assert(cursor_line@[0] != 'n');
                    }
                }
                assert(spec_parse_cursor(lines[0]) is None);
                assert(spec_parse_state(c@) is None);
            }
            return UserMicrodoseState::default();
        }
        let ghost cursorv = match &last_mobility_def_id {
            Some(id) => Some(id@),
            None => None::<Seq<char>>,
        };
        proof {
            assert(spec_parse_cursor(lines[0]) == Some(cursorv));
        }
        let mut progressions: Vec<(String, ProgressionState)> = Vec::new();
        let mut i: usize = 1;
        proof {
            assert(lines.drop_first().subrange(0, lines.len() - 1) =~= lines.drop_first());
        }
        while i < n - 1
            invariant
                content == Some(c),
                n == segments@.len(),
                n >= 2,
                1 <= i <= n - 1,
                segs == segments@.map_values(|x: String| x@),
                segs == split_spec(c@, '\n'),
                lines == segs.drop_last(),
                spec_parse_cursor(lines[0]) == Some(cursorv),
                cursorv == (match &last_mobility_def_id {
                    Some(id) => Some(id@),
                    None => None::<Seq<char>>,
                }),
                progressions@.len() == i - 1,
                spec_parse_entries(lines.drop_first()) == (match spec_parse_entries(
                    lines.drop_first().subrange(i - 1, lines.len() - 1),
                ) {
                    Some(rest) => Some(
                        progressions@.map_values(|e: (String, ProgressionState)| (e.0@, e.1@))
                            + rest,
                    ),
                    None => None::<Seq<(Seq<char>, ProgressionStateView)>>,
                }),
            decreases n - i,
        {
            let ghost pre = progressions@.map_values(|e: (String, ProgressionState)| (e.0@, e.1@));
            let ghost remaining = lines.drop_first().subrange(i - 1, lines.len() - 1);
            proof {
                assert(remaining[0] == lines.drop_first()[i - 1]);
                assert(lines.drop_first()[i - 1] == lines[i as int]);
                assert(lines[i as int] == segs[i as int]);
                assert(segs[i as int] == segments@[i as int]@);
                assert(remaining.drop_first() =~= lines.drop_first().subrange(
                    i as int,
                    lines.len() - 1,
                ));
            }
            match parse_entry(segments[i].as_str()) {
                Some(e) => {
                    let ghost ev = (e.0@, e.1@);
                    progressions.push(e);
                    proof {
                        assert(progressions@.map_values(
                            |x: (String, ProgressionState)| (x.0@, x.1@),
                        ) =~= pre.push(ev));
                        assert(forall|rest: Seq<(Seq<char>, ProgressionStateView)>|
                            pre + (seq![ev] + rest) =~= #[trigger] (pre.push(ev) + rest));
                    }
                },
                None => {
                    proof {
                        assert(spec_parse_entries(remaining) is None);
                        assert(spec_parse_entries(lines.drop_first()) is None);
                        assert(spec_parse_state(c@) is None);
                    }
                    return UserMicrodoseState::default();
                },
            }
            i = i + 1;
        }
        let r = UserMicrodoseState { progressions, last_mobility_def_id };
        proof {
            assert(lines.drop_first().subrange(n - 2, lines.len() - 1).len() == 0);
            assert(spec_parse_entries(lines.drop_first().subrange(n - 2, lines.len() - 1))
                matches Some(v) && v =~= Seq::<(Seq<char>, ProgressionStateView)>::empty());
            assert(r@.progressions + Seq::<(Seq<char>, ProgressionStateView)>::empty()
                =~= r@.progressions);
            assert(spec_parse_state(c@) matches Some(v) && v =~~= r@);
        }
        r
    }
}

/// Law: loading a document produced by a successful save yields a value
/// equal to the one that was saved.
pub proof fn lemma_state_load_after_save(content: Seq<char>, v: UserStateView)
    requires
        spec_parse_state(content) == Some(v),
    ensures
        spec_load_state(Some(content)) == v,
{
}

} // verus!
