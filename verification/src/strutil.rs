//! Verified helpers for working with strings at the character level:
//! equality, lexicographic comparison and substring search.

use vstd::prelude::*;

verus! {

/// Character-wise equality of two string slices.
pub fn str_eq(a: &str, b: &str) -> (r: bool)
    ensures
        r == (a@ == b@),
{
    let alen = a.unicode_len();
    let blen = b.unicode_len();
    if alen != blen {
        assert(a@ != b@) by {
            assert(a@.len() != b@.len());
        }
        return false;
    }
    let mut i: usize = 0;
    while i < alen
        invariant
            alen == a@.len(),
            alen == b@.len(),
            i <= alen,
            forall|j: int| 0 <= j < i ==> a@[j] == b@[j],
        decreases alen - i,
    {
        if a.get_char(i) != b.get_char(i) {
            return false;
        }
        i = i + 1;
    }
    assert(a@ =~= b@);
    true
}

/// Lexicographic order on character sequences, by Unicode scalar value.
pub open spec fn str_le_spec(a: Seq<char>, b: Seq<char>) -> bool
    decreases a.len(),
{
    if a.len() == 0 {
        true
    } else if b.len() == 0 {
        false
    } else if (a[0] as u32) < (b[0] as u32) {
        true
    } else if (a[0] as u32) > (b[0] as u32) {
        false
    } else {
        str_le_spec(a.drop_first(), b.drop_first())
    }
}

/// Lexicographic comparison of two string slices.
pub fn str_le(a: &str, b: &str) -> (r: bool)
    ensures
        r == str_le_spec(a@, b@),
{
    let alen = a.unicode_len();
    let blen = b.unicode_len();
    let mut i: usize = 0;
    proof {
        assert(a@.skip(0) =~= a@);
        assert(b@.skip(0) =~= b@);
    }
    loop
        invariant
            alen == a@.len(),
            blen == b@.len(),
            i <= alen,
            i <= blen,
            str_le_spec(a@, b@) == str_le_spec(a@.skip(i as int), b@.skip(i as int)),
        decreases alen - i,
    {
        if i == alen {
            assert(a@.skip(i as int).len() == 0);
            return true;
        }
        if i == blen {
            assert(b@.skip(i as int).len() == 0);
            assert(a@.skip(i as int).len() > 0);
            return false;
        }
        let ca = a.get_char(i);
        let cb = b.get_char(i);
        assert(a@.skip(i as int)[0] == a@[i as int]);
        assert(b@.skip(i as int)[0] == b@[i as int]);
        if (ca as u32) < (cb as u32) {
            return true;
        }
        if (ca as u32) > (cb as u32) {
            return false;
        }
        assert(a@.skip(i as int).drop_first() =~= a@.skip(i + 1));
        assert(b@.skip(i as int).drop_first() =~= b@.skip(i + 1));
        i = i + 1;
    }
}

/// The needle occurs in the haystack starting at position `i`.
pub open spec fn matches_at(hay: Seq<char>, needle: Seq<char>, i: int) -> bool {
    0 <= i && i + needle.len() <= hay.len() && hay.subrange(i, i + needle.len()) == needle
}

/// The needle occurs somewhere in the haystack.
pub open spec fn str_contains_spec(hay: Seq<char>, needle: Seq<char>) -> bool {
    exists|i: int| matches_at(hay, needle, i)
}

fn match_at(hay: &str, needle: &str, i: usize) -> (r: bool)
    requires
        i + needle@.len() <= hay@.len(),
        hay@.len() <= usize::MAX,
    ensures
        r == matches_at(hay@, needle@, i as int),
{
    let nlen = needle.unicode_len();
    let mut j: usize = 0;
    while j < nlen
        invariant
            nlen == needle@.len(),
            i + nlen <= hay@.len(),
            hay@.len() <= usize::MAX,
            j <= nlen,
            forall|k: int| 0 <= k < j ==> hay@[i + k] == needle@[k],
        decreases nlen - j,
    {
        if hay.get_char(i + j) != needle.get_char(j) {
            assert(hay@.subrange(i as int, i + needle@.len())[j as int] == hay@[i + j]);
            return false;
        }
        j = j + 1;
    }
    assert(hay@.subrange(i as int, i + needle@.len()) =~= needle@);
    true
}

/// Substring search: does `needle` occur anywhere in `hay`?
pub fn str_contains(hay: &str, needle: &str) -> (r: bool)
    ensures
        r == str_contains_spec(hay@, needle@),
{
    let hlen = hay.unicode_len();
    let nlen = needle.unicode_len();
    if nlen > hlen {
        assert(!str_contains_spec(hay@, needle@));
        return false;
    }
    if nlen == 0 {
        assert(hay@.subrange(0, 0) =~= needle@);
        assert(matches_at(hay@, needle@, 0));
        return true;
    }
    let mut i: usize = 0;
    while i <= hlen - nlen
        invariant
            hlen == hay@.len(),
            nlen == needle@.len(),
            0 < nlen <= hlen,
            i <= hlen - nlen + 1,
            forall|k: int| 0 <= k < i ==> !matches_at(hay@, needle@, k),
        decreases hlen - nlen + 1 - i,
    {
        if match_at(hay, needle, i) {
            return true;
        }
        i = i + 1;
    }
    assert(forall|k: int| matches_at(hay@, needle@, k) ==> 0 <= k <= hlen - nlen);
    false
}

/// Relies on `String::push`: appends one character at the end of the string.
#[verifier::external_body]
pub fn push_char(s: &mut String, c: char)
    ensures
        final(s)@ == old(s)@.push(c),
{
    s.push(c)
}

/// Splitting a character sequence at every occurrence of a separator.
/// The result always has at least one (possibly empty) segment.
pub open spec fn split_spec(s: Seq<char>, sep: char) -> Seq<Seq<char>>
    decreases s.len(),
{
    if s.len() == 0 {
        seq![Seq::<char>::empty()]
    } else if s[0] == sep {
        seq![Seq::<char>::empty()] + split_spec(s.drop_first(), sep)
    } else {
        let rest = split_spec(s.drop_first(), sep);
        seq![seq![s[0]] + rest[0]] + rest.skip(1)
    }
}

pub proof fn lemma_split_len(s: Seq<char>, sep: char)
    ensures
        split_spec(s, sep).len() >= 1,
    decreases s.len(),
{
    if s.len() != 0 {
        lemma_split_len(s.drop_first(), sep);
    }
}

/// Appending one character extends the last segment, or starts a fresh one.
pub proof fn lemma_split_push(s: Seq<char>, sep: char, c: char)
    ensures
        c == sep ==> split_spec(s.push(c), sep) == split_spec(s, sep).push(
            Seq::<char>::empty(),
        ),
        c != sep ==> split_spec(s.push(c), sep) == split_spec(s, sep).update(
            split_spec(s, sep).len() - 1,
            split_spec(s, sep).last().push(c),
        ),
    decreases s.len(),
{
    lemma_split_len(s, sep);
    if s.len() == 0 {
        assert(s.push(c).drop_first() =~= Seq::<char>::empty());
        assert(s.push(c).len() == 1);
        assert(s.push(c)[0] == c);
        assert(split_spec(Seq::<char>::empty(), sep) == seq![Seq::<char>::empty()]);
        if c == sep {
            assert(split_spec(s.push(c), sep) =~~= split_spec(s, sep).push(
                Seq::<char>::empty(),
            ));
        } else {
            assert(split_spec(s.push(c), sep) =~~= split_spec(s, sep).update(
                split_spec(s, sep).len() - 1,
                split_spec(s, sep).last().push(c),
            ));
        }
    } else {
        lemma_split_push(s.drop_first(), sep, c);
        lemma_split_len(s.drop_first(), sep);
        assert(s.push(c).drop_first() =~= s.drop_first().push(c));
        assert(s.push(c)[0] == s[0]);
        if c == sep {
            assert(split_spec(s.push(c), sep) =~~= split_spec(s, sep).push(
                Seq::<char>::empty(),
            ));
        } else {
            if s[0] == sep {
                assert(split_spec(s.push(c), sep) =~~= split_spec(s, sep).update(
                    split_spec(s, sep).len() - 1,
                    split_spec(s, sep).last().push(c),
                ));
            } else {
                let rest = split_spec(s.drop_first(), sep);
                if rest.len() == 1 {
                    assert(split_spec(s.push(c), sep) =~~= split_spec(s, sep).update(
                        split_spec(s, sep).len() - 1,
                        split_spec(s, sep).last().push(c),
                    ));
                } else {
                    assert(split_spec(s.push(c), sep) =~~= split_spec(s, sep).update(
                        split_spec(s, sep).len() - 1,
                        split_spec(s, sep).last().push(c),
                    ));
                }
            }
        }
    }
}

/// No character of the sequence equals `sep`.
pub open spec fn free_of(s: Seq<char>, sep: char) -> bool {
    forall|i: int| 0 <= i < s.len() ==> s[i] != sep
}

/// A separator-free sequence splits into itself alone.
pub proof fn lemma_split_single(s: Seq<char>, sep: char)
    requires
        free_of(s, sep),
    ensures
        split_spec(s, sep) == seq![s],
    decreases s.len(),
{
    if s.len() == 0 {
        assert(split_spec(s, sep) =~~= seq![s]);
    } else {
        assert(s[0] != sep);
        lemma_split_single(s.drop_first(), sep);
        assert(split_spec(s, sep) =~~= seq![s]) by {
            assert(seq![s[0]] + s.drop_first() =~= s);
        }
    }
}

/// Splitting a concatenation: the last segment of the left part fuses with
/// the first segment of the right part.
pub proof fn lemma_split_append(a: Seq<char>, b: Seq<char>, sep: char)
    ensures
        split_spec(a + b, sep) == split_spec(a, sep).drop_last() + seq![
            split_spec(a, sep).last() + split_spec(b, sep).first(),
        ] + split_spec(b, sep).drop_first(),
    decreases b.len(),
{
    lemma_split_len(a, sep);
    lemma_split_len(b, sep);
    if b.len() == 0 {
        assert(a + b =~= a);
        assert(split_spec(a, sep).last() + split_spec(b, sep).first() =~= split_spec(
            a,
            sep,
        ).last());
        assert(split_spec(a + b, sep) =~~= split_spec(a, sep).drop_last() + seq![
            split_spec(a, sep).last() + split_spec(b, sep).first(),
        ] + split_spec(b, sep).drop_first());
    } else {
        let b0 = b.drop_last();
        let c = b.last();
        lemma_split_append(a, b0, sep);
        lemma_split_len(b0, sep);
        lemma_split_len(a + b0, sep);
        lemma_split_push(a + b0, sep, c);
        lemma_split_push(b0, sep, c);
        assert((a + b0).push(c) =~= a + b);
        assert(b0.push(c) =~= b);
        if c == sep {
            assert(split_spec(a + b, sep) =~~= split_spec(a, sep).drop_last() + seq![
                split_spec(a, sep).last() + split_spec(b, sep).first(),
            ] + split_spec(b, sep).drop_first());
        } else {
            assert(split_spec(a + b, sep) =~~= split_spec(a, sep).drop_last() + seq![
                split_spec(a, sep).last() + split_spec(b, sep).first(),
            ] + split_spec(b, sep).drop_first());
        }
    }
}

/// Splitting `a + [sep] + b` when `a` is separator-free: `a` becomes one whole
/// segment in front of the segments of `b`.
pub proof fn lemma_split_field(a: Seq<char>, b: Seq<char>, sep: char)
    requires
        free_of(a, sep),
    ensures
        split_spec(a + seq![sep] + b, sep) == seq![a] + split_spec(b, sep),
{
    lemma_split_single(a, sep);
    lemma_split_len(b, sep);
    lemma_split_append(a + seq![sep], b, sep);
    assert(a.push(sep) =~= a + seq![sep]);
    lemma_split_push(a, sep, sep);
    assert(split_spec(a + seq![sep], sep) == split_spec(a, sep).push(Seq::<char>::empty()));
    assert(split_spec(a + seq![sep] + b, sep) =~~= seq![a] + split_spec(b, sep)) by {
        assert(Seq::<char>::empty() + split_spec(b, sep).first() =~= split_spec(
            b,
            sep,
        ).first());
    }
}

/// Splits a string at every occurrence of a separator character.
pub fn split_on(s: &str, sep: char) -> (r: Vec<String>)
    ensures
        r@.map_values(|x: String| x@) == split_spec(s@, sep),
{
    let len = s.unicode_len();
    let mut out: Vec<String> = Vec::new();
    let mut cur: String = String::new();
    let mut i: usize = 0;
    proof {
        assert(s@.take(0) =~= Seq::<char>::empty());
        assert(out@.map_values(|x: String| x@).push(cur@) =~~= split_spec(s@.take(0), sep));
    }
    while i < len
        invariant
            len == s@.len(),
            i <= len,
            out@.map_values(|x: String| x@).push(cur@) =~~= split_spec(s@.take(i as int), sep),
        decreases len - i,
    {
        let c = s.get_char(i);
        proof {
            assert(s@.take(i + 1) =~= s@.take(i as int).push(s@[i as int]));
            lemma_split_push(s@.take(i as int), sep, c);
            lemma_split_len(s@.take(i as int), sep);
        }
        if c == sep {
            out.push(cur);
            cur = String::new();
            proof {
                assert(out@.map_values(|x: String| x@).push(cur@) =~~= split_spec(
                    s@.take(i + 1),
                    sep,
                ));
            }
        } else {
            push_char(&mut cur, c);
            proof {
                assert(out@.map_values(|x: String| x@).push(cur@) =~~= split_spec(
                    s@.take(i + 1),
                    sep,
                ));
            }
        }
        i = i + 1;
    }
    proof {
        assert(s@.take(len as int) =~= s@);
    }
    out.push(cur);
    proof {
        assert(out@.map_values(|x: String| x@) =~~= split_spec(s@, sep));
    }
    out
}

/// Characters with structural meaning in the record formats; they are
/// escaped inside stored text fields.
pub open spec fn is_special(c: char) -> bool {
    c == '\\' || c == '\n' || c == '|' || c == ';' || c == ','
}

/// Escaped form of one character.
pub open spec fn esc_char(c: char) -> Seq<char> {
    if c == '\\' {
        seq!['\\', '\\']
    } else if c == '\n' {
        seq!['\\', 'n']
    } else if c == '|' {
        seq!['\\', 'p']
    } else if c == ';' {
        seq!['\\', 's']
    } else if c == ',' {
        seq!['\\', 'c']
    } else {
        seq![c]
    }
}

/// Escaped form of a text field.
pub open spec fn escape_spec(s: Seq<char>) -> Seq<char>
    decreases s.len(),
{
    if s.len() == 0 {
        Seq::<char>::empty()
    } else {
        esc_char(s[0]) + escape_spec(s.drop_first())
    }
}

/// Decoding of an escaped text field; `None` on a dangling or unknown escape.
pub open spec fn unescape_spec(s: Seq<char>) -> Option<Seq<char>>
    decreases s.len(),
{
    if s.len() == 0 {
        Some(Seq::<char>::empty())
    } else if s[0] == '\\' {
        if s.len() == 1 {
            None
        } else {
            let c = if s[1] == '\\' {
                Some('\\')
            } else if s[1] == 'n' {
                Some('\n')
            } else if s[1] == 'p' {
                Some('|')
            } else if s[1] == 's' {
                Some(';')
            } else if s[1] == 'c' {
                Some(',')
            } else {
                None
            };
            match (c, unescape_spec(s.skip(2))) {
                (Some(c0), Some(rest)) => Some(seq![c0] + rest),
                _ => None,
            }
        }
    } else {
        match unescape_spec(s.drop_first()) {
            Some(rest) => Some(seq![s[0]] + rest),
            None => None,
        }
    }
}

pub proof fn lemma_escape_push(s: Seq<char>, c: char)
    ensures
        escape_spec(s.push(c)) == escape_spec(s) + esc_char(c),
    decreases s.len(),
{
    if s.len() == 0 {
        assert(s.push(c)[0] == c);
        assert(s.push(c).drop_first() =~= Seq::<char>::empty());
        assert(escape_spec(Seq::<char>::empty()) =~= Seq::<char>::empty());
        assert(escape_spec(s.push(c)) == esc_char(c) + escape_spec(Seq::<char>::empty()));
        assert(escape_spec(s.push(c)) =~= escape_spec(s) + esc_char(c));
    } else {
        lemma_escape_push(s.drop_first(), c);
        assert(s.push(c).drop_first() =~= s.drop_first().push(c));
        assert(s.push(c)[0] == s[0]);
        assert(escape_spec(s.push(c)) == esc_char(s[0]) + (escape_spec(s.drop_first())
            + esc_char(c)));
        assert(esc_char(s[0]) + (escape_spec(s.drop_first()) + esc_char(c)) =~= (esc_char(s[0])
            + escape_spec(s.drop_first())) + esc_char(c));
    }
}

/// Every character is either a backslash or carries no structural meaning.
pub open spec fn only_plain(s: Seq<char>) -> bool {
    forall|i: int| 0 <= i < s.len() ==> (#[trigger] s[i] == '\\' || !is_special(s[i]))
}

/// An escaped field contains no structurally meaningful character besides
/// the escape character itself.
pub proof fn lemma_escape_no_specials(s: Seq<char>)
    ensures
        only_plain(escape_spec(s)),
    decreases s.len(),
{
    if s.len() != 0 {
        lemma_escape_no_specials(s.drop_first());
        let a = esc_char(s[0]);
        let b = escape_spec(s.drop_first());
        assert(only_plain(a));
        assert forall|i: int| 0 <= i < (a + b).len() implies (#[trigger] (a + b)[i] == '\\'
            || !is_special((a + b)[i])) by {
            if i < a.len() {
                assert((a + b)[i] == a[i]);
            } else {
                assert((a + b)[i] == b[i - a.len()]);
            }
        }
    }
}

/// Unescaping inverts escaping.
pub proof fn lemma_unescape_escape(s: Seq<char>)
    ensures
        unescape_spec(escape_spec(s)) == Some(s),
    decreases s.len(),
{
    if s.len() == 0 {
        assert(unescape_spec(escape_spec(s)) =~~= Some(s));
    } else {
        lemma_unescape_escape(s.drop_first());
        let e = escape_spec(s);
        assert(e == esc_char(s[0]) + escape_spec(s.drop_first()));
        if is_special(s[0]) {
            assert(e.len() >= 2);
            assert(e[0] == '\\');
            assert(e.skip(2) =~= escape_spec(s.drop_first()));
            assert(unescape_spec(e) matches Some(r) && r =~= s);
        } else {
            assert(e[0] == s[0]);
            assert(!(e[0] == '\\'));
            assert(e.drop_first() =~= escape_spec(s.drop_first()));
            assert(unescape_spec(e) matches Some(r) && r =~= s);
        }
    }
}

/// Escapes every structurally meaningful character of a text field.
pub fn escape_field(s: &str) -> (r: String)
    ensures
        r@ == escape_spec(s@),
{
    let len = s.unicode_len();
    let mut out = String::new();
    let mut i: usize = 0;
    proof {
        assert(s@.take(0) =~= Seq::<char>::empty());
        assert(out@ =~= escape_spec(s@.take(0)));
    }
    while i < len
        invariant
            len == s@.len(),
            i <= len,
            out@ == escape_spec(s@.take(i as int)),
        decreases len - i,
    {
        let c = s.get_char(i);
        proof {
            assert(s@.take(i + 1) =~= s@.take(i as int).push(s@[i as int]));
            lemma_escape_push(s@.take(i as int), c);
        }
        if c == '\\' {
            out.append("\\\\");
            proof {
                reveal_strlit("\\\\");
                assert(out@ =~= escape_spec(s@.take(i + 1)));
            }
        } else if c == '\n' {
            out.append("\\n");
            proof {
                reveal_strlit("\\n");
                assert(out@ =~= escape_spec(s@.take(i + 1)));
            }
        } else if c == '|' {
            out.append("\\p");
            proof {
                reveal_strlit("\\p");
                assert(out@ =~= escape_spec(s@.take(i + 1)));
            }
        } else if c == ';' {
            out.append("\\s");
            proof {
                reveal_strlit("\\s");
                assert(out@ =~= escape_spec(s@.take(i + 1)));
            }
        } else if c == ',' {
            out.append("\\c");
            proof {
                reveal_strlit("\\c");
                assert(out@ =~= escape_spec(s@.take(i + 1)));
            }
        } else {
            push_char(&mut out, c);
            proof {
                assert(out@ =~= escape_spec(s@.take(i + 1)));
            }
        }
        i = i + 1;
    }
    proof {
        assert(s@.take(len as int) =~= s@);
    }
    out
}

/// Decodes an escaped text field; `None` on a dangling or unknown escape.
pub fn unescape_field(s: &str) -> (r: Option<String>)
    ensures
        match r {
            Some(t) => unescape_spec(s@) == Some(t@),
            None => unescape_spec(s@) is None,
        },
{
    let len = s.unicode_len();
    let mut out = String::new();
    let mut i: usize = 0;
    proof {
        assert(s@.skip(0) =~= s@);
    }
    while i < len
        invariant
            len == s@.len(),
            i <= len,
            unescape_spec(s@) == match unescape_spec(s@.skip(i as int)) {
                Some(rest) => Some(out@ + rest),
                None => None::<Seq<char>>,
            },
        decreases len - i,
    {
        let ghost pre = out@;
        let ghost tail = s@.skip(i as int);
        let c = s.get_char(i);
        proof {
            assert(tail[0] == s@[i as int]);
            assert(tail.len() == len - i);
        }
        if c == '\\' {
            if i + 1 == len {
                proof {
                    assert(tail.len() == 1);
                    assert(unescape_spec(tail) is None);
                }
                return None;
            }
            let c2 = s.get_char(i + 1);
            proof {
                assert(tail[1] == s@[i + 1]);
                assert(tail.skip(2) =~= s@.skip(i + 2));
            }
            let decoded: char;
            if c2 == '\\' {
                decoded = '\\';
            } else if c2 == 'n' {
                decoded = '\n';
            } else if c2 == 'p' {
                decoded = '|';
            } else if c2 == 's' {
                decoded = ';';
            } else if c2 == 'c' {
                decoded = ',';
            } else {
                proof {
                    assert(unescape_spec(tail) is None);
                }
                return None;
            }
            push_char(&mut out, decoded);
            proof {
                assert(unescape_spec(tail) == match unescape_spec(s@.skip(i + 2)) {
                    Some(rest) => Some(seq![decoded] + rest),
                    None => None::<Seq<char>>,
                });
                assert(forall|rest: Seq<char>|
                    pre + (seq![decoded] + rest) =~= #[trigger] (pre.push(decoded) + rest));
            }
            i = i + 2;
        } else {
            push_char(&mut out, c);
            proof {
                assert(tail.drop_first() =~= s@.skip(i + 1));
                assert(unescape_spec(tail) == match unescape_spec(s@.skip(i + 1)) {
                    Some(rest) => Some(seq![c] + rest),
                    None => None::<Seq<char>>,
                });
                assert(forall|rest: Seq<char>|
                    pre + (seq![c] + rest) =~= #[trigger] (pre.push(c) + rest));
            }
            i = i + 1;
        }
    }
    proof {
        assert(s@.skip(len as int) =~= Seq::<char>::empty());
        assert(out@ + Seq::<char>::empty() =~= out@);
    }
    Some(out)
}


/// The sequence is empty or ends with the separator.
pub open spec fn terminated_by(s: Seq<char>, sep: char) -> bool {
    s.len() == 0 || s.last() == sep
}

/// Concatenating two terminated sequences concatenates their complete
/// segments.
pub proof fn lemma_terminated_concat(a: Seq<char>, b: Seq<char>, sep: char)
    requires
        terminated_by(a, sep),
        terminated_by(b, sep),
    ensures
        split_spec(a + b, sep).drop_last() == split_spec(a, sep).drop_last() + split_spec(
            b,
            sep,
        ).drop_last(),
        terminated_by(a + b, sep),
{
    lemma_split_len(a, sep);
    lemma_split_len(b, sep);
    assert(split_spec(a, sep).last() == Seq::<char>::empty()) by {
        if a.len() == 0 {
            assert(split_spec(a, sep) =~~= seq![Seq::<char>::empty()]);
        } else {
            lemma_split_push(a.drop_last(), sep, sep);
            assert(a.drop_last().push(sep) =~= a);
            lemma_split_len(a.drop_last(), sep);
        }
    }
    lemma_split_append(a, b, sep);
    assert(split_spec(a, sep).last() + split_spec(b, sep).first() =~= split_spec(b, sep).first());
    assert(split_spec(a + b, sep) =~~= split_spec(a, sep).drop_last() + split_spec(b, sep));
    assert(split_spec(a + b, sep).drop_last() =~~= split_spec(a, sep).drop_last() + split_spec(
        b,
        sep,
    ).drop_last());
    if b.len() == 0 {
        assert(a + b =~= a);
    } else {
        assert((a + b).last() == b.last());
    }
}

/// Appending one separator-free segment with its terminator adds exactly that
/// segment to the complete segments.
pub proof fn lemma_terminated_append(c: Seq<char>, l: Seq<char>, sep: char)
    requires
        terminated_by(c, sep),
        free_of(l, sep),
    ensures
        split_spec(c + (l + seq![sep]), sep).drop_last() == split_spec(c, sep).drop_last().push(l),
        terminated_by(c + (l + seq![sep]), sep),
{
    lemma_terminated_concat(c, l + seq![sep], sep);
    lemma_split_single(l, sep);
    lemma_split_push(l, sep, sep);
    assert(l.push(sep) =~= l + seq![sep]);
    assert(split_spec(l + seq![sep], sep) == split_spec(l, sep).push(Seq::<char>::empty()));
    assert(split_spec(l + seq![sep], sep).drop_last() =~~= seq![l]);
    assert(split_spec(c, sep).drop_last() + seq![l] =~= split_spec(c, sep).drop_last().push(l));
}

} // verus!

use vstd::prelude::*;

verus! {

/// The lexicographic order is total.
pub proof fn lemma_str_le_total(a: Seq<char>, b: Seq<char>)
    ensures
        str_le_spec(a, b) || str_le_spec(b, a),
    decreases a.len(),
{
    if a.len() != 0 && b.len() != 0 && (a[0] as u32) == (b[0] as u32) {
        lemma_str_le_total(a.drop_first(), b.drop_first());
    }
}

} // verus!
