//! Session history: merging the log and the archive into a deduplicated,
//! time-windowed, newest-first view, and looking up recent sessions by
//! category.

use crate::strutil::str_contains;
use crate::strutil::str_contains_spec;
use crate::types::MicrodoseSession;
use crate::types::SessionView;
use vstd::prelude::*;

verus! {

/// First session (in order, newest first) whose definition identifier
/// contains the category marker.
pub open spec fn spec_find_by_category(
    sessions: Seq<SessionView>,
    needle: Seq<char>,
) -> Option<SessionView>
    decreases sessions.len(),
{
    if sessions.len() == 0 {
        None
    } else if str_contains_spec(sessions[0].definition_id, needle) {
        Some(sessions[0])
    } else {
        spec_find_by_category(sessions.drop_first(), needle)
    }
}

/// Finds the most recent session for a category, by definition-identifier
/// substring matching; the sessions are expected newest first.
pub fn find_last_session_by_category<'a>(
    sessions: &'a Vec<MicrodoseSession>,
    category: &str,
) -> (r: Option<&'a MicrodoseSession>)
    ensures
        match r {
            Some(s) => spec_find_by_category(
                sessions@.map_values(|x: MicrodoseSession| x@),
                category@,
            ) == Some(s@),
            None => spec_find_by_category(
                sessions@.map_values(|x: MicrodoseSession| x@),
                category@,
            ) is None,
        },
{
    let ghost all = sessions@.map_values(|x: MicrodoseSession| x@);
    let n = sessions.len();
    let mut i: usize = 0;
    proof {
        assert(all.skip(0) =~= all);
    }
    while i < n
        invariant
            n == sessions@.len(),
            i <= n,
            all == sessions@.map_values(|x: MicrodoseSession| x@),
            spec_find_by_category(all, category@) == spec_find_by_category(
                all.skip(i as int),
                category@,
            ),
        decreases n - i,
    {
        proof {
            assert(all.skip(i as int)[0] == all[i as int]);
            assert(all[i as int] == sessions@[i as int]@);
        }
        if str_contains(sessions[i].definition_id.as_str(), category) {
            return Some(&sessions[i]);
        }
        proof {
            assert(all.skip(i as int).drop_first() =~= all.skip(i + 1));
        }
        i = i + 1;
    }
    proof {
        assert(all.skip(n as int).len() == 0);
    }
    None
}

} // verus!

use vstd::multiset::Multiset;
use vstd::prelude::*;

verus! {

/// The session falls inside the history window.
pub open spec fn in_window(s: SessionView, cutoff: int) -> bool {
    s.performed_at >= cutoff
}

/// Some session in the list carries the identifier.
pub open spec fn id_in(ss: Seq<SessionView>, id: u128) -> bool {
    exists|k: int| 0 <= k < ss.len() && #[trigger] ss[k].id == id
}

/// The log's contribution to the history: its in-window sessions, in order.
pub open spec fn spec_wal_kept(wal: Seq<SessionView>, cutoff: int) -> Seq<SessionView>
    decreases wal.len(),
{
    if wal.len() == 0 {
        Seq::<SessionView>::empty()
    } else if in_window(wal[0], cutoff) {
        seq![wal[0]] + spec_wal_kept(wal.drop_first(), cutoff)
    } else {
        spec_wal_kept(wal.drop_first(), cutoff)
    }
}

/// The archive's contribution: its in-window sessions whose identifier has
/// not been seen, preferring the log's copy of a duplicated session.
pub open spec fn spec_csv_kept(
    csv: Seq<SessionView>,
    cutoff: int,
    seen: Seq<SessionView>,
) -> Seq<SessionView>
    decreases csv.len(),
{
    if csv.len() == 0 {
        Seq::<SessionView>::empty()
    } else if in_window(csv[0], cutoff) && !id_in(seen, csv[0].id) {
        seq![csv[0]] + spec_csv_kept(csv.drop_first(), cutoff, seen.push(csv[0]))
    } else {
        spec_csv_kept(csv.drop_first(), cutoff, seen)
    }
}

/// The deduplicated, windowed history before ordering: the log's sessions
/// followed by the archive's novel ones.
pub open spec fn spec_merge(
    wal: Seq<SessionView>,
    csv: Seq<SessionView>,
    cutoff: int,
) -> Seq<SessionView> {
    spec_wal_kept(wal, cutoff) + spec_csv_kept(csv, cutoff, spec_wal_kept(wal, cutoff))
}

/// Inserts a session before the first strictly older one: a stable
/// newest-first insertion.
pub open spec fn spec_insert_desc(sorted: Seq<SessionView>, s: SessionView) -> Seq<SessionView>
    decreases sorted.len(),
{
    if sorted.len() == 0 {
        seq![s]
    } else if s.performed_at > sorted[0].performed_at {
        seq![s] + sorted
    } else {
        seq![sorted[0]] + spec_insert_desc(sorted.drop_first(), s)
    }
}

/// Newest-first insertion sort, processed left to right.
pub open spec fn spec_sort_desc_from(
    acc: Seq<SessionView>,
    ss: Seq<SessionView>,
) -> Seq<SessionView>
    decreases ss.len(),
{
    if ss.len() == 0 {
        acc
    } else {
        spec_sort_desc_from(spec_insert_desc(acc, ss[0]), ss.drop_first())
    }
}

/// Newest first: timestamps never increase along the list.
pub open spec fn sorted_desc(ss: Seq<SessionView>) -> bool {
    forall|i: int, j: int| 0 <= i < j < ss.len() ==> ss[i].performed_at >= ss[j].performed_at
}

/// The cutoff of a history window ending now.
pub open spec fn spec_cutoff(now: i64, days: i64) -> int {
    now - days * 86400
}

proof fn lemma_insert_desc_sorted(sorted: Seq<SessionView>, s: SessionView)
    requires
        sorted_desc(sorted),
    ensures
        sorted_desc(spec_insert_desc(sorted, s)),
        spec_insert_desc(sorted, s).to_multiset() == sorted.to_multiset().insert(s),
        spec_insert_desc(sorted, s).len() == sorted.len() + 1,
        forall|k: int|
            0 <= k < spec_insert_desc(sorted, s).len() ==> (#[trigger] spec_insert_desc(sorted, s)[k]
                == s || sorted.contains(spec_insert_desc(sorted, s)[k])),
    decreases sorted.len(),
{
    broadcast use vstd::seq_lib::group_to_multiset_ensures;

    if sorted.len() == 0 {
        assert(spec_insert_desc(sorted, s) =~= Seq::<SessionView>::empty().push(s));
        assert(Seq::<SessionView>::empty().push(s).to_multiset() =~= Seq::<
            SessionView,
        >::empty().to_multiset().insert(s));
        assert(spec_insert_desc(sorted, s)[0] == s);
    } else if s.performed_at > sorted[0].performed_at {
        let r = seq![s] + sorted;
        assert(r.to_multiset() == sorted.to_multiset().insert(s)) by {
            vstd::seq_lib::lemma_multiset_commutative(seq![s], sorted);
            assert(seq![s].to_multiset() =~= Multiset::<SessionView>::empty().insert(s));
            assert(Multiset::<SessionView>::empty().insert(s).add(sorted.to_multiset())
                =~= sorted.to_multiset().insert(s));
        }
        assert(sorted_desc(r)) by {
            assert(forall|k: int| 0 <= k < sorted.len() ==> r[k + 1] == sorted[k]);
            assert(r[0] == s);
        }
        assert forall|k: int| 0 <= k < r.len() implies (#[trigger] r[k] == s || sorted.contains(
            r[k],
        )) by {
            if k >= 1 {
                assert(r[k] == sorted[k - 1]);
            }
        }
    } else {
        lemma_insert_desc_sorted(sorted.drop_first(), s);
        assert(sorted_desc(sorted.drop_first())) by {
            assert(forall|k: int|
                0 <= k < sorted.drop_first().len() ==> #[trigger] sorted.drop_first()[k]
                    == sorted[k + 1]);
        }
        let rest = spec_insert_desc(sorted.drop_first(), s);
        let r = seq![sorted[0]] + rest;
        assert(r.to_multiset() == sorted.to_multiset().insert(s)) by {
            vstd::seq_lib::lemma_multiset_commutative(seq![sorted[0]], rest);
            vstd::seq_lib::lemma_multiset_commutative(seq![sorted[0]], sorted.drop_first());
            assert(seq![sorted[0]] + sorted.drop_first() =~= sorted);
            assert(seq![sorted[0]].to_multiset().add(
                sorted.drop_first().to_multiset().insert(s),
            ) =~= (seq![sorted[0]].to_multiset().add(sorted.drop_first().to_multiset())).insert(
                s,
            ));
        }
        assert forall|k: int| 0 <= k < r.len() implies (#[trigger] r[k] == s || sorted.contains(
            r[k],
        )) by {
            if k == 0 {
                assert(sorted[0] == sorted[0]);
                assert(sorted.contains(r[0]));
            } else {
                assert(r[k] == rest[k - 1]);
                if rest[k - 1] == s {
                } else {
                    assert(sorted.drop_first().contains(rest[k - 1]));
                    let w = choose|w: int|
                        0 <= w < sorted.drop_first().len() && sorted.drop_first()[w] == rest[k - 1];
                    assert(sorted[w + 1] == rest[k - 1]);
                }
            }
        }
        assert(sorted_desc(r)) by {
            assert(forall|k: int| 0 <= k < rest.len() ==> r[k + 1] == rest[k]);
            assert(r[0] == sorted[0]);
            assert(forall|k: int|
                0 <= k < sorted.len() ==> sorted[0].performed_at >= (
                #[trigger] sorted[k]).performed_at);
            assert(sorted[0].performed_at >= s.performed_at);
            assert forall|k: int| 0 <= k < rest.len() implies sorted[0].performed_at >= (
            #[trigger] rest[k]).performed_at by {
                if rest[k] == s {
                } else {
                    assert(sorted.drop_first().contains(rest[k]) || rest[k] == s);
                    let w = choose|w: int|
                        0 <= w < sorted.drop_first().len() && sorted.drop_first()[w] == rest[k];
                    assert(sorted[w + 1] == rest[k]);
                }
            }
        }
    }
}

/// Ordering the merged history: the result of the newest-first insertion
/// sort is sorted and is a permutation of its input.
pub proof fn lemma_sort_desc_from(acc: Seq<SessionView>, ss: Seq<SessionView>)
    requires
        sorted_desc(acc),
    ensures
        sorted_desc(spec_sort_desc_from(acc, ss)),
        spec_sort_desc_from(acc, ss).to_multiset() == acc.to_multiset().add(ss.to_multiset()),
    decreases ss.len(),
{
    broadcast use vstd::seq_lib::group_to_multiset_ensures;

    if ss.len() == 0 {
        assert(ss.to_multiset() =~= Multiset::<SessionView>::empty());
        assert(acc.to_multiset().add(ss.to_multiset()) =~= acc.to_multiset());
    } else {
        lemma_insert_desc_sorted(acc, ss[0]);
        lemma_sort_desc_from(spec_insert_desc(acc, ss[0]), ss.drop_first());
        assert(ss.drop_first().push(ss[0]).to_multiset() =~= ss.drop_first().to_multiset().insert(
            ss[0],
        ));
        assert(ss.drop_first().push(ss[0]).to_multiset() =~= ss.to_multiset()) by {
            vstd::seq_lib::lemma_multiset_commutative(seq![ss[0]], ss.drop_first());
            vstd::seq_lib::lemma_multiset_commutative(ss.drop_first(), seq![ss[0]]);
            assert(seq![ss[0]] + ss.drop_first() =~= ss);
            assert(ss.drop_first() + seq![ss[0]] =~= ss.drop_first().push(ss[0]));
        }
        assert(acc.to_multiset().insert(ss[0]).add(ss.drop_first().to_multiset())
            =~= acc.to_multiset().add(ss.to_multiset()));
    }
}

/// History deduplication: the archive's contribution never carries an
/// identifier that was already seen.
proof fn lemma_csv_kept_excludes(csv: Seq<SessionView>, cutoff: int, seen: Seq<SessionView>, id: u128)
    requires
        id_in(seen, id),
    ensures
        forall|k: int|
            0 <= k < spec_csv_kept(csv, cutoff, seen).len() ==> (#[trigger] spec_csv_kept(
                csv,
                cutoff,
                seen,
            )[k]).id != id,
    decreases csv.len(),
{
    if csv.len() != 0 {
        if in_window(csv[0], cutoff) && !id_in(seen, csv[0].id) {
            assert(id_in(seen.push(csv[0]), id)) by {
                let w = choose|k: int| 0 <= k < seen.len() && #[trigger] seen[k].id == id;
                assert(seen.push(csv[0])[w].id == id);
            }
            lemma_csv_kept_excludes(csv.drop_first(), cutoff, seen.push(csv[0]), id);
            let r = spec_csv_kept(csv, cutoff, seen);
            let rest = spec_csv_kept(csv.drop_first(), cutoff, seen.push(csv[0]));
            assert(csv[0].id != id);
            assert(forall|k: int| 0 <= k < rest.len() ==> r[k + 1] == rest[k]);
        } else {
            lemma_csv_kept_excludes(csv.drop_first(), cutoff, seen, id);
        }
    }
}

/// History deduplication: a session identifier present in the log's window
/// appears in the merged history only through the log's copies; the
/// archive's copy of such a session is dropped.
pub proof fn lemma_history_dedup(wal: Seq<SessionView>, csv: Seq<SessionView>, cutoff: int, id: u128)
    requires
        id_in(spec_wal_kept(wal, cutoff), id),
    ensures
        forall|k: int|
            spec_wal_kept(wal, cutoff).len() <= k < spec_merge(wal, csv, cutoff).len()
                ==> (#[trigger] spec_merge(wal, csv, cutoff)[k]).id != id,
        forall|k: int|
            0 <= k < spec_wal_kept(wal, cutoff).len() ==> #[trigger] spec_merge(wal, csv, cutoff)[k]
                == spec_wal_kept(wal, cutoff)[k],
        spec_merge(wal, csv, cutoff).len() == spec_wal_kept(wal, cutoff).len() + spec_csv_kept(
            csv,
            cutoff,
            spec_wal_kept(wal, cutoff),
        ).len(),
{
    let kept = spec_wal_kept(wal, cutoff);
    lemma_csv_kept_excludes(csv, cutoff, kept, id);
    let tail = spec_csv_kept(csv, cutoff, kept);
    assert(forall|k: int|
        kept.len() <= k < (kept + tail).len() ==> (kept + tail)[k] == tail[k - kept.len()]);
}

/// Loads the recent history: merges the log's and the archive's sessions,
/// keeps those inside the window ending now, deduplicates by identifier
/// preferring the log's copy, and orders the result newest first.
pub fn load_recent_sessions(
    wal_sessions: &Vec<MicrodoseSession>,
    csv_sessions: &Vec<MicrodoseSession>,
    now: i64,
    days: i64,
) -> (r: Vec<MicrodoseSession>)
    ensures
        r@.map_values(|s: MicrodoseSession| s@) == spec_sort_desc_from(
            Seq::<SessionView>::empty(),
            spec_merge(
                wal_sessions@.map_values(|s: MicrodoseSession| s@),
                csv_sessions@.map_values(|s: MicrodoseSession| s@),
                spec_cutoff(now, days),
            ),
        ),
{
    let ghost wv = wal_sessions@.map_values(|s: MicrodoseSession| s@);
    let ghost cv = csv_sessions@.map_values(|s: MicrodoseSession| s@);
    let ghost cutoff = spec_cutoff(now, days);
    let mut merged: Vec<MicrodoseSession> = Vec::new();
    let nw = wal_sessions.len();
    let mut i: usize = 0;
    proof {
        assert(wv.skip(0) =~= wv);
        assert(merged@.map_values(|s: MicrodoseSession| s@) + spec_wal_kept(wv.skip(0), cutoff)
            =~= spec_wal_kept(wv, cutoff));
    }
    while i < nw
        invariant
            nw == wal_sessions@.len(),
            i <= nw,
            wv == wal_sessions@.map_values(|s: MicrodoseSession| s@),
            cutoff == spec_cutoff(now, days),
            spec_wal_kept(wv, cutoff) == merged@.map_values(|s: MicrodoseSession| s@)
                + spec_wal_kept(wv.skip(i as int), cutoff),
        decreases nw - i,
    {
        let ghost pre = merged@.map_values(|s: MicrodoseSession| s@);
        proof {
            assert(wv.skip(i as int)[0] == wv[i as int]);
            assert(wv[i as int] == wal_sessions@[i as int]@);
            assert(wv.skip(i as int).drop_first() =~= wv.skip(i + 1));
        }
        if wal_sessions[i].performed_at as i128 >= now as i128 - days as i128 * 86400 {
            merged.push(wal_sessions[i].clone());
            proof {
                assert(merged@.map_values(|s: MicrodoseSession| s@) =~= pre.push(wv[i as int]));
                assert(forall|rest: Seq<SessionView>|
                    pre + (seq![wv[i as int]] + rest) =~= #[trigger] (pre.push(wv[i as int])
                        + rest));
            }
        }
        i = i + 1;
    }
    proof {
        assert(spec_wal_kept(wv.skip(nw as int), cutoff) =~= Seq::<SessionView>::empty());
        assert(merged@.map_values(|s: MicrodoseSession| s@) + Seq::<SessionView>::empty()
            =~= merged@.map_values(|s: MicrodoseSession| s@));
        assert(merged@.map_values(|s: MicrodoseSession| s@) == spec_wal_kept(wv, cutoff));
    }
    let ghost kept = spec_wal_kept(wv, cutoff);
    let nc = csv_sessions.len();
    let mut j: usize = 0;
    proof {
        assert(cv.skip(0) =~= cv);
    }
    while j < nc
        invariant
            nc == csv_sessions@.len(),
            j <= nc,
            cv == csv_sessions@.map_values(|s: MicrodoseSession| s@),
            cutoff == spec_cutoff(now, days),
            spec_merge(wv, cv, cutoff) == merged@.map_values(|s: MicrodoseSession| s@)
                + spec_csv_kept(
                cv.skip(j as int),
                cutoff,
                merged@.map_values(|s: MicrodoseSession| s@),
            ),
        decreases nc - j,
    {
        let ghost pre = merged@.map_values(|s: MicrodoseSession| s@);
        proof {
            assert(cv.skip(j as int)[0] == cv[j as int]);
            assert(cv[j as int] == csv_sessions@[j as int]@);
            assert(cv.skip(j as int).drop_first() =~= cv.skip(j + 1));
        }
        let s = &csv_sessions[j];
        let fresh = s.performed_at as i128 >= now as i128 - days as i128 * 86400;
        let mut dup = false;
        let m = merged.len();
        let mut k: usize = 0;
        while k < m
            invariant
                m == merged@.len(),
                k <= m,
                pre == merged@.map_values(|s2: MicrodoseSession| s2@),
                s == &csv_sessions@[j as int],
                j < csv_sessions@.len(),
                dup ==> id_in(pre, csv_sessions@[j as int]@.id),
                !dup ==> (forall|t: int|
                    0 <= t < k ==> (#[trigger] pre[t]).id != csv_sessions@[j as int]@.id),
            decreases m - k,
        {
            proof {
                assert(pre[k as int] == merged@[k as int]@);
            }
            if merged[k].id == s.id {
                dup = true;
                proof {
                    assert(pre[k as int].id == csv_sessions@[j as int]@.id);
                }
            }
            k = k + 1;
        }
        proof {
            if !dup {
                assert(!id_in(pre, csv_sessions@[j as int]@.id));
            }
        }
        if fresh && !dup {
            merged.push(s.clone());
            proof {
                assert(merged@.map_values(|s2: MicrodoseSession| s2@) =~= pre.push(cv[j as int]));
                assert(forall|rest: Seq<SessionView>|
                    pre + (seq![cv[j as int]] + rest) =~= #[trigger] (pre.push(cv[j as int])
                        + rest));
            }
        }
        j = j + 1;
    }
    proof {
        assert(spec_csv_kept(
            cv.skip(nc as int),
            cutoff,
            merged@.map_values(|s: MicrodoseSession| s@),
        ) =~= Seq::<SessionView>::empty());
        assert(merged@.map_values(|s: MicrodoseSession| s@) + Seq::<SessionView>::empty()
            =~= merged@.map_values(|s: MicrodoseSession| s@));
        assert(merged@.map_values(|s: MicrodoseSession| s@) == spec_merge(wv, cv, cutoff));
    }
    let ghost mergedviews = merged@.map_values(|s: MicrodoseSession| s@);
    let mut out: Vec<MicrodoseSession> = Vec::new();
    let nm = merged.len();
    let mut t: usize = 0;
    proof {
        assert(mergedviews.skip(0) =~= mergedviews);
        assert(out@.map_values(|s: MicrodoseSession| s@) =~= Seq::<SessionView>::empty());
    }
    while t < nm
        invariant
            nm == merged@.len(),
            t <= nm,
            mergedviews == merged@.map_values(|s: MicrodoseSession| s@),
            spec_sort_desc_from(
                out@.map_values(|s: MicrodoseSession| s@),
                mergedviews.skip(t as int),
            ) == spec_sort_desc_from(Seq::<SessionView>::empty(), mergedviews),
        decreases nm - t,
    {
        proof {
            assert(mergedviews.skip(t as int)[0] == mergedviews[t as int]);
            assert(mergedviews[t as int] == merged@[t as int]@);
            assert(mergedviews.skip(t as int).drop_first() =~= mergedviews.skip(t + 1));
        }
        insert_desc(&mut out, merged[t].clone());
        t = t + 1;
    }
    proof {
        assert(mergedviews.skip(nm as int).len() == 0);
    }
    out
}

fn insert_desc(out: &mut Vec<MicrodoseSession>, s: MicrodoseSession)
    ensures
        final(out)@.map_values(|x: MicrodoseSession| x@) == spec_insert_desc(
            old(out)@.map_values(|x: MicrodoseSession| x@),
            s@,
        ),
{
    let ghost all = old(out)@.map_values(|x: MicrodoseSession| x@);
    let ghost sv = s@;
    let n = out.len();
    let mut j: usize = 0;
    loop
        invariant
            *out == *old(out),
            n == out@.len(),
            j <= n,
            sv == s@,
            all == out@.map_values(|x: MicrodoseSession| x@),
            forall|k: int| 0 <= k < j ==> !(sv.performed_at > (#[trigger] all[k]).performed_at),
        ensures
            *out == *old(out),
            n == out@.len(),
            j <= n,
            all == out@.map_values(|x: MicrodoseSession| x@),
            forall|k: int| 0 <= k < j ==> !(sv.performed_at > (#[trigger] all[k]).performed_at),
            j < n ==> sv.performed_at > all[j as int].performed_at,
        decreases n - j,
    {
        if j == n {
            break ;
        }
        proof {
            assert(all[j as int] == out@[j as int]@);
        }
        if s.performed_at > out[j].performed_at {
            break ;
        }
        j = j + 1;
    }
    proof {
        lemma_insert_desc_at(all, sv, j as int);
    }
    out.insert(j, s);
    proof {
        assert(out@.map_values(|x: MicrodoseSession| x@) =~~= all.take(j as int) + seq![sv]
            + all.skip(j as int));
    }
}

proof fn lemma_insert_desc_at(s: Seq<SessionView>, d: SessionView, j: int)
    requires
        0 <= j <= s.len(),
        forall|k: int| 0 <= k < j ==> !(d.performed_at > (#[trigger] s[k]).performed_at),
        j < s.len() ==> d.performed_at > s[j].performed_at,
    ensures
        spec_insert_desc(s, d) == s.take(j) + seq![d] + s.skip(j),
    decreases j,
{
    if j == 0 {
        assert(spec_insert_desc(s, d) =~= s.take(0) + seq![d] + s.skip(0));
    } else {
        lemma_insert_desc_at(s.drop_first(), d, j - 1);
        assert(s.drop_first().take(j - 1) =~= s.take(j).drop_first());
        assert(s.drop_first().skip(j - 1) =~= s.skip(j));
        assert(spec_insert_desc(s, d) == seq![s[0]] + spec_insert_desc(s.drop_first(), d));
        assert(spec_insert_desc(s, d) =~= s.take(j) + seq![d] + s.skip(j));
    }
}

} // verus!

use vstd::prelude::*;

verus! {

/// Number of sessions in the list that carry the identifier.
pub open spec fn count_id(ss: Seq<SessionView>, id: u128) -> nat
    decreases ss.len(),
{
    if ss.len() == 0 {
        0
    } else {
        (if ss[0].id == id {
            1nat
        } else {
            0nat
        }) + count_id(ss.drop_first(), id)
    }
}

proof fn lemma_count_id_concat(a: Seq<SessionView>, b: Seq<SessionView>, id: u128)
    ensures
        count_id(a + b, id) == count_id(a, id) + count_id(b, id),
    decreases a.len(),
{
    if a.len() == 0 {
        assert(a + b =~= b);
        assert(count_id(a, id) == 0);
    } else {
        lemma_count_id_concat(a.drop_first(), b, id);
        assert((a + b).drop_first() =~= a.drop_first() + b);
        assert((a + b)[0] == a[0]);
    }
}

proof fn lemma_count_id_zero(ss: Seq<SessionView>, id: u128)
    requires
        forall|k: int| 0 <= k < ss.len() ==> (#[trigger] ss[k]).id != id,
    ensures
        count_id(ss, id) == 0,
    decreases ss.len(),
{
    if ss.len() != 0 {
        assert(forall|k: int|
            0 <= k < ss.drop_first().len() ==> #[trigger] ss.drop_first()[k] == ss[k + 1]);
        lemma_count_id_zero(ss.drop_first(), id);
    }
}

proof fn lemma_count_id_ge_one(ss: Seq<SessionView>, id: u128)
    requires
        count_id(ss, id) >= 1,
    ensures
        id_in(ss, id),
    decreases ss.len(),
{
    if ss.len() != 0 {
        if ss[0].id == id {
            assert(id_in(ss, id)) by {
                assert(ss[0].id == id);
            }
        } else {
            lemma_count_id_ge_one(ss.drop_first(), id);
            let k = choose|k: int|
                0 <= k < ss.drop_first().len() && #[trigger] ss.drop_first()[k].id == id;
            assert(ss[k + 1].id == id);
        }
    }
}

proof fn lemma_insert_desc_count(sorted: Seq<SessionView>, s: SessionView, id: u128)
    ensures
        count_id(spec_insert_desc(sorted, s), id) == count_id(sorted, id) + (if s.id == id {
            1nat
        } else {
            0nat
        }),
    decreases sorted.len(),
{
    assert(count_id(Seq::<SessionView>::empty(), id) == 0);
    if sorted.len() == 0 {
        assert(spec_insert_desc(sorted, s) =~= seq![s]);
        assert(seq![s].drop_first() =~= Seq::<SessionView>::empty());
        assert(seq![s][0] == s);
        assert(count_id(seq![s], id) == (if s.id == id {
            1nat
        } else {
            0nat
        }));
    } else if s.performed_at > sorted[0].performed_at {
        let r = seq![s] + sorted;
        lemma_count_id_concat(seq![s], sorted, id);
        assert(seq![s].drop_first() =~= Seq::<SessionView>::empty());
        assert(seq![s][0] == s);
        assert(count_id(seq![s], id) == (if s.id == id {
            1nat
        } else {
            0nat
        }));
    } else {
        lemma_insert_desc_count(sorted.drop_first(), s, id);
        let rest = spec_insert_desc(sorted.drop_first(), s);
        lemma_count_id_concat(seq![sorted[0]], rest, id);
        lemma_count_id_concat(seq![sorted[0]], sorted.drop_first(), id);
        assert(seq![sorted[0]] + sorted.drop_first() =~= sorted);
        assert(seq![sorted[0]].drop_first() =~= Seq::<SessionView>::empty());
        assert(seq![sorted[0]][0] == sorted[0]);
        assert(count_id(seq![sorted[0]], id) == (if sorted[0].id == id {
            1nat
        } else {
            0nat
        }));
    }
}

proof fn lemma_sort_desc_count(acc: Seq<SessionView>, ss: Seq<SessionView>, id: u128)
    ensures
        count_id(spec_sort_desc_from(acc, ss), id) == count_id(acc, id) + count_id(ss, id),
    decreases ss.len(),
{
    if ss.len() != 0 {
        lemma_insert_desc_count(acc, ss[0], id);
        lemma_sort_desc_count(spec_insert_desc(acc, ss[0]), ss.drop_first(), id);
    }
}

/// History deduplication, counted through the ordering: when the log's
/// window carries a session identifier exactly once, the loaded history
/// carries it exactly once as well, and the log's copy is the occurrence
/// present — the archive's copy of a duplicated session is dropped.
pub proof fn lemma_history_exactly_once(
    wal: Seq<SessionView>,
    csv: Seq<SessionView>,
    cutoff: int,
    w: SessionView,
)
    requires
        count_id(spec_wal_kept(wal, cutoff), w.id) == 1,
        spec_wal_kept(wal, cutoff).contains(w),
    ensures
        count_id(
            spec_sort_desc_from(Seq::<SessionView>::empty(), spec_merge(wal, csv, cutoff)),
            w.id,
        ) == 1,
        spec_sort_desc_from(Seq::<SessionView>::empty(), spec_merge(wal, csv, cutoff)).contains(w),
{
    broadcast use vstd::seq_lib::group_to_multiset_ensures;

    let kept = spec_wal_kept(wal, cutoff);
    let tail = spec_csv_kept(csv, cutoff, kept);
    let merged = spec_merge(wal, csv, cutoff);
    let empty_acc = Seq::<SessionView>::empty();
    let out = spec_sort_desc_from(empty_acc, merged);
    lemma_count_id_ge_one(kept, w.id);
    lemma_csv_kept_excludes(csv, cutoff, kept, w.id);
    lemma_count_id_zero(tail, w.id);
    lemma_count_id_concat(kept, tail, w.id);
    assert(count_id(merged, w.id) == 1);
    lemma_sort_desc_count(empty_acc, merged, w.id);
    assert(count_id(empty_acc, w.id) == 0);
    assert(merged.contains(w)) by {
        let k = choose|k: int| 0 <= k < kept.len() && kept[k] == w;
        assert(merged[k] == w);
    }
    lemma_sort_desc_from(empty_acc, merged);
    assert(empty_acc.to_multiset() =~= Multiset::<SessionView>::empty());
    assert(out.to_multiset() =~= merged.to_multiset());
    assert(merged.to_multiset().count(w) > 0);
    assert(out.to_multiset().count(w) > 0);
    assert(out.contains(w));
}

} // verus!
