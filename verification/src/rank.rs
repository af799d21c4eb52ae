//! The candidates for a query, best first.

use vstd::hash_set::StringHashSet;
use vstd::prelude::*;

use crate::outside;
use crate::score;
use crate::score::{HistoryRow, Scored, ScoredView, Scorer};
use crate::text;

verus! {

/// A named directory.
#[derive(Clone, Debug, PartialEq, Eq)]
pub struct Bookmark {
    pub alias: String,
    pub path: String,
    pub description: String,
}

// ---------------------------------------------------------------------------
// Order
// ---------------------------------------------------------------------------

/// `list` with `s` behind the last candidate that scores as much.
pub open spec fn inserted(list: Seq<ScoredView>, s: ScoredView) -> Seq<ScoredView>
    decreases list.len(),
{
    if list.len() == 0 || list.last().score >= s.score {
        list.push(s)
    } else {
        inserted(list.drop_last(), s).push(list.last())
    }
}

/// `list` by falling score; candidates of one score keep their order.
pub open spec fn ranked(list: Seq<ScoredView>) -> Seq<ScoredView>
    decreases list.len(),
{
    if list.len() == 0 {
        Seq::empty()
    } else {
        inserted(ranked(list.drop_last()), list.last())
    }
}

/// Two lists made one: the candidate that comes last is the weaker of their last
/// ones, and that of `b` when they score the same.
pub open spec fn merged(a: Seq<ScoredView>, b: Seq<ScoredView>) -> Seq<ScoredView>
    decreases a.len() + b.len(),
{
    if a.len() == 0 {
        b
    } else if b.len() == 0 {
        a
    } else if b.last().score <= a.last().score {
        merged(a, b.drop_last()).push(b.last())
    } else {
        merged(a.drop_last(), b).push(a.last())
    }
}

proof fn lemma_insert_into_merged(a: Seq<ScoredView>, b: Seq<ScoredView>, s: ScoredView)
    ensures
        merged(a, inserted(b, s)) == inserted(merged(a, b), s),
    decreases a.len() + b.len(),
{
    let c = inserted(b, s);
    if a.len() == 0 {
    } else if b.len() == 0 {
        assert(c == b.push(s));
        assert(c.drop_last() =~= b);
        if s.score > a.last().score {
            lemma_insert_into_merged(a.drop_last(), b, s);
            if a.drop_last().len() == 0 {
                assert(merged(a.drop_last(), b) =~= a.drop_last());
            }
        }
    } else if b.last().score >= s.score {
        assert(c == b.push(s));
        assert(c.drop_last() =~= b);
        if s.score > a.last().score {
            lemma_insert_into_merged(a.drop_last(), b, s);
            assert(merged(a, b).drop_last() =~= merged(a.drop_last(), b));
        }
    } else {
        assert(c.drop_last() =~= inserted(b.drop_last(), s));
        if b.last().score <= a.last().score {
            lemma_insert_into_merged(a, b.drop_last(), s);
            assert(merged(a, b).drop_last() =~= merged(a, b.drop_last()));
        } else {
            lemma_insert_into_merged(a.drop_last(), b, s);
            assert(merged(a, b).drop_last() =~= merged(a.drop_last(), b));
        }
    }
}

/// Ranking two halves and merging them ranks the whole.
proof fn lemma_ranked_halves(a: Seq<ScoredView>, b: Seq<ScoredView>)
    ensures
        ranked(a + b) == merged(ranked(a), ranked(b)),
    decreases b.len(),
{
    if b.len() == 0 {
        assert(a + b =~= a);
        if ranked(a).len() == 0 {
            assert(ranked(a) =~= ranked(b));
        }
    } else {
        assert((a + b).drop_last() =~= a + b.drop_last());
        lemma_ranked_halves(a, b.drop_last());
        lemma_insert_into_merged(ranked(a), ranked(b.drop_last()), b.last());
    }
}

/// The candidates of `list`, last one first.
fn reversed(list: Vec<Scored>) -> (r: Vec<Scored>)
    ensures
        score::scored_views(r@) == score::scored_views(list@).reverse(),
{
    let ghost all = list@;
    let mut rest: Vec<Scored> = list;
    let mut r: Vec<Scored> = Vec::new();
    while rest.len() > 0
        invariant
            rest@.len() + r@.len() == all.len(),
            rest@ == all.take(rest@.len() as int),
            forall|i: int| 0 <= i < r@.len() ==> #[trigger] r@[i] == all[all.len() - 1 - i],
        decreases rest@.len(),
    {
        match rest.pop() {
            Some(s) => {
                r.push(s);
            },
            None => {},
        }
    }
    assert(score::scored_views(r@) =~= score::scored_views(all).reverse());
    r
}

/// Two lists made one.
fn merge(a: Vec<Scored>, b: Vec<Scored>) -> (r: Vec<Scored>)
    ensures
        score::scored_views(r@) == merged(score::scored_views(a@), score::scored_views(b@)),
{
    let ghost whole = merged(score::scored_views(a@), score::scored_views(b@));
    let mut a: Vec<Scored> = a;
    let mut b: Vec<Scored> = b;
    let mut back: Vec<Scored> = Vec::new();
    assert(score::scored_views(back@).reverse() =~= Seq::<ScoredView>::empty());
    assert(whole + Seq::<ScoredView>::empty() =~= whole);
    while a.len() > 0 || b.len() > 0
        invariant
            whole == merged(score::scored_views(a@), score::scored_views(b@))
                + score::scored_views(back@).reverse(),
        decreases a@.len() + b@.len(),
    {
        let ghost va = score::scored_views(a@);
        let ghost vb = score::scored_views(b@);
        let ghost vr = score::scored_views(back@);
        let from_b: bool = b.len() > 0 && (a.len() == 0 || b[b.len() - 1].score <= a[a.len()
            - 1].score);
        let last: Option<Scored> = if from_b {
            b.pop()
        } else {
            a.pop()
        };
        match last {
            Some(s) => {
                back.push(s);
                proof {
                    if from_b {
                        assert(score::scored_views(b@) =~= vb.drop_last());
                        if va.len() == 0 {
                            assert(vb =~= vb.drop_last().push(s@));
                        }
                    } else {
                        assert(score::scored_views(a@) =~= va.drop_last());
                        if vb.len() == 0 {
                            assert(va =~= va.drop_last().push(s@));
                            if va.drop_last().len() == 0 {
                                assert(vb =~= va.drop_last());
                            }
                        }
                    }
                    let m = merged(score::scored_views(a@), score::scored_views(b@));
                    assert(merged(va, vb) =~= m.push(s@));
                    assert(score::scored_views(back@) =~= vr.push(s@));
                    assert(m.push(s@) + vr.reverse() =~= m + vr.push(s@).reverse());
                }
            },
            None => {},
        }
    }
    proof {
        assert(merged(score::scored_views(a@), score::scored_views(b@)) =~= Seq::<
            ScoredView,
        >::empty());
        assert(whole =~= score::scored_views(back@).reverse());
    }
    reversed(back)
}

/// The candidates by falling score; those of one score keep their order.
pub fn sort_by_score(list: Vec<Scored>) -> (r: Vec<Scored>)
    ensures
        score::scored_views(r@) == ranked(score::scored_views(list@)),
    decreases list@.len(),
{
    let ghost all = score::scored_views(list@);
    let n: usize = list.len();
    if n <= 1 {
        proof {
            if n == 1 {
                assert(all.drop_last() =~= Seq::<ScoredView>::empty());
                assert(ranked(all.drop_last()) =~= Seq::<ScoredView>::empty());
                assert(ranked(all) =~= all);
            } else {
                assert(all =~= Seq::<ScoredView>::empty());
            }
        }
        return list;
    }
    let mut front: Vec<Scored> = list;
    let tail: Vec<Scored> = front.split_off(n / 2);
    let ghost va = score::scored_views(front@);
    let ghost vb = score::scored_views(tail@);
    proof {
        assert(all =~= va + vb);
        lemma_ranked_halves(va, vb);
    }
    merge(sort_by_score(front), sort_by_score(tail))
}

// ---------------------------------------------------------------------------
// Repetitions
// ---------------------------------------------------------------------------

/// Whether one of the candidates leads to `path`.
pub open spec fn has_path(list: Seq<ScoredView>, path: Seq<char>) -> bool {
    exists|k: int| 0 <= k < list.len() && (#[trigger] list[k]).path == path
}

/// `list` with the first candidate of each path alone.
pub open spec fn deduped(list: Seq<ScoredView>) -> Seq<ScoredView>
    decreases list.len(),
{
    if list.len() == 0 {
        Seq::empty()
    } else if has_path(list.drop_last(), list.last().path) {
        deduped(list.drop_last())
    } else {
        deduped(list.drop_last()).push(list.last())
    }
}

/// One more candidate leads to one more path.
proof fn lemma_has_path_next(list: Seq<ScoredView>, n: int, path: Seq<char>)
    requires
        0 <= n < list.len(),
    ensures
        has_path(list.take(n + 1), path) <==> has_path(list.take(n), path) || path == list[n].path,
{
    let longer = list.take(n + 1);
    let shorter = list.take(n);
    if has_path(shorter, path) {
        let k = choose|k: int| 0 <= k < shorter.len() && (#[trigger] shorter[k]).path == path;
        assert(longer[k] == shorter[k]);
    }
    if path == list[n].path {
        assert(longer[n].path == path);
    }
    if has_path(longer, path) {
        let k = choose|k: int| 0 <= k < longer.len() && (#[trigger] longer[k]).path == path;
        if k < n {
            assert(shorter[k] == longer[k]);
        }
    }
}

/// Taking the last of a reversed rest leaves the reverse of the shorter rest.
proof fn lemma_reverse_rest(all: Seq<ScoredView>, n: int)
    requires
        0 <= n < all.len(),
    ensures
        all.skip(n).reverse().drop_last() == all.skip(n + 1).reverse(),
{
    let a = all.skip(n).reverse().drop_last();
    let b = all.skip(n + 1).reverse();
    assert forall|k: int| 0 <= k < a.len() implies a[k] == b[k] by {
        assert(a[k] == all.skip(n)[all.len() - n - 1 - k]);
        assert(b[k] == all.skip(n + 1)[all.len() - n - 2 - k]);
    }
    assert(a =~= b);
}

/// Keeps the first candidate of each path.
pub fn dedup_paths(list: Vec<Scored>) -> (r: Vec<Scored>)
    ensures
        score::scored_views(r@) == deduped(score::scored_views(list@)),
{
    let ghost all = score::scored_views(list@);
    let mut rest: Vec<Scored> = reversed(list);
    let mut r: Vec<Scored> = Vec::new();
    let mut seen: StringHashSet = StringHashSet::new();
    let ghost mut done: int = 0;
    proof {
        assert(all.take(0) =~= Seq::<ScoredView>::empty());
        assert(score::scored_views(r@) =~= Seq::<ScoredView>::empty());
        assert(score::scored_views(rest@) =~= all.skip(0).reverse());
    }
    while rest.len() > 0
        invariant
            0 <= done <= all.len(),
            score::scored_views(rest@) == all.skip(done).reverse(),
            score::scored_views(r@) == deduped(all.take(done)),
            forall|path: Seq<char>| #[trigger]
                seen@.contains(path) <==> has_path(all.take(done), path),
        decreases rest@.len(),
    {
        let ghost vrest = score::scored_views(rest@);
        let ghost vr = score::scored_views(r@);
        let ghost known = seen@;
        assert(vrest.len() == all.len() - done);
        match rest.pop() {
            Some(s) => {
                proof {
                    assert(vrest.last() == s@);
                    assert(all.skip(done).reverse().last() == all[done]);
                    lemma_reverse_rest(all, done);
                    assert(score::scored_views(rest@) =~= vrest.drop_last());
                    assert(all.take(done + 1).drop_last() =~= all.take(done));
                }
                if seen.insert(s.path.clone()) {
                    r.push(s);
                    assert(score::scored_views(r@) =~= vr.push(s@));
                }
                proof {
                    assert forall|path: Seq<char>| #[trigger] seen@.contains(path) <==> has_path(
                        all.take(done + 1),
                        path,
                    ) by {
                        lemma_has_path_next(all, done, path);
                        assert(known.contains(path) <==> has_path(all.take(done), path));
                    }
                    done = done + 1;
                }
            },
            None => {},
        }
    }
    assert(done == all.len());
    assert(all.take(done) =~= all);
    r
}

// ---------------------------------------------------------------------------
// Candidates
// ---------------------------------------------------------------------------

/// A bookmark scored for a query.
pub open spec fn bookmark_scored(bookmark: Bookmark, query: Seq<char>) -> Option<ScoredView> {
    score::alias_scored(bookmark.path@, score::query_match(bookmark.alias@, query))
}

/// The bookmarks that have a score, in their order.
pub open spec fn bookmarks_scored(bookmarks: Seq<Bookmark>, query: Seq<char>) -> Seq<ScoredView>
    decreases bookmarks.len(),
{
    if bookmarks.len() == 0 {
        Seq::empty()
    } else {
        let before = bookmarks_scored(bookmarks.drop_last(), query);
        match bookmark_scored(bookmarks.last(), query) {
            Some(s) => before.push(s),
            None => before,
        }
    }
}

/// The bookmarks and rows that have a score, before they are ranked.
pub open spec fn all_scored(
    scorer: Scorer,
    bookmarks: Seq<Bookmark>,
    rows: Seq<HistoryRow>,
    query: Seq<char>,
) -> Seq<ScoredView> {
    bookmarks_scored(bookmarks, query) + score::batch_scored(scorer, rows, query)
}

/// Bookmarks and history scored for a query, best first.
pub open spec fn candidates(
    scorer: Scorer,
    bookmarks: Seq<Bookmark>,
    rows: Seq<HistoryRow>,
    query: Seq<char>,
) -> Seq<ScoredView> {
    deduped(ranked(all_scored(scorer, bookmarks, rows, query)))
}

/// Scores bookmarks and history for a query, best first. Of several candidates
/// of one path the best is kept. A row is among them where the query is a
/// fragment of its path. Nothing is looked up on disk.
pub fn score_candidates(
    scorer: &Scorer,
    bookmarks: &Vec<Bookmark>,
    rows: &Vec<HistoryRow>,
    query: &str,
) -> (r: Vec<Scored>)
    requires
        forall|i: int|
            0 <= i < bookmarks@.len() ==> outside::matchable(
                (#[trigger] bookmarks@[i]).alias@.len(),
                query@.len(),
            ),
        forall|i: int|
            0 <= i < rows@.len() ==> outside::matchable(
                (#[trigger] rows@[i]).path@.len(),
                query@.len(),
            ),
    ensures
        score::scored_views(r@) == candidates(*scorer, bookmarks@, rows@, query@),
        forall|i: int|
            0 <= i < rows@.len() && score::is_fragment((#[trigger] rows@[i]).path@, query@)
                ==> has_path(score::scored_views(r@), rows@[i].path@),
        forall|i: int|
            0 <= i < bookmarks@.len() && score::query_matches(
                (#[trigger] bookmarks@[i]).alias@,
                query@,
            ) ==> has_path_for(
                score::scored_views(r@),
                bookmarks@[i].path@,
                bookmark_scored(bookmarks@[i], query@),
            ),
        forall|i: int|
            0 <= i < rows@.len() && score::path_accepted((#[trigger] rows@[i]).path@, query@)
                ==> has_path_for(
                score::scored_views(r@),
                rows@[i].path@,
                score::row_scored(*scorer, rows@[i], query@),
            ),
        forall|k: int|
            0 <= k < r@.len() ==> is_matched((#[trigger] r@[k]).path@, bookmarks@, rows@, query@),
{
    let mut all: Vec<Scored> = Vec::new();
    assert(bookmarks@.take(0) =~= Seq::<Bookmark>::empty());
    assert(score::scored_views(all@) =~= Seq::<ScoredView>::empty());
    for i in 0..bookmarks.len()
        invariant
            forall|j: int|
                0 <= j < bookmarks@.len() ==> outside::matchable(
                    (#[trigger] bookmarks@[j]).alias@.len(),
                    query@.len(),
                ),
            score::scored_views(all@) == bookmarks_scored(bookmarks@.take(i as int), query@),
            forall|j: int|
                0 <= j < i ==> (bookmark_scored(#[trigger] bookmarks@[j], query@) is Some
                    <==> score::query_matches(bookmarks@[j].alias@, query@)),
    {
        proof {
            assert(bookmarks@.take(i + 1).drop_last() =~= bookmarks@.take(i as int));
            assert(bookmarks@.take(i + 1).last() == bookmarks@[i as int]);
        }
        let ghost before = all@;
        match scorer.score_bookmark(
            bookmarks[i].alias.as_str(),
            bookmarks[i].path.as_str(),
            query,
        ) {
            Some(s) => {
                all.push(s);
                assert(score::scored_views(all@) =~= score::scored_views(before).push(s@));
            },
            None => {},
        }
    }
    assert(bookmarks@.take(bookmarks@.len() as int) =~= bookmarks@);
    let (history, _) = score::score_history_batch(scorer, rows, query);
    let mut history: Vec<Scored> = history;
    let ghost va = score::scored_views(all@);
    let ghost vb = score::scored_views(history@);
    all.append(&mut history);
    proof {
        assert(score::scored_views(all@) =~= va + vb);
        assert forall|i: int|
            0 <= i < rows@.len() && score::is_fragment(
                (#[trigger] rows@[i]).path@,
                query@,
            ) implies has_path(candidates(*scorer, bookmarks@, rows@, query@), rows@[i].path@) by {
            let path = rows@[i].path@;
            let listed = score::scored_paths(vb);
            assert(listed.contains(path));
            let k = choose|k: int| 0 <= k < listed.len() && listed[k] == path;
            assert((va + vb)[va.len() + k].path == path);
            assert(has_path(all_scored(*scorer, bookmarks@, rows@, query@), path));
            let at = law_candidates_complete(*scorer, bookmarks@, rows@, query@, path);
            assert(candidates(*scorer, bookmarks@, rows@, query@)[at].path == path);
        }
        lemma_candidates_matched(*scorer, bookmarks@, rows@, query@);
    }
    let r: Vec<Scored> = dedup_paths(sort_by_score(all));
    proof {
        let list = candidates(*scorer, bookmarks@, rows@, query@);
        assert(list == score::scored_views(r@));
        assert forall|k: int| 0 <= k < r@.len() implies is_matched(
            (#[trigger] r@[k]).path@,
            bookmarks@,
            rows@,
            query@,
        ) by {
            assert(list[k].path == r@[k].path@);
        }
    }
    r
}

/// Whether a candidate leads to `path` and scores no less than `scored`, which
/// has a score.
pub open spec fn has_path_for(
    list: Seq<ScoredView>,
    path: Seq<char>,
    scored: Option<ScoredView>,
) -> bool {
    scored is Some && exists|k: int|
        0 <= k < list.len() && (#[trigger] list[k]).path == path && list[k].score
            >= scored->Some_0.score
}

/// Whether a path is that of a bookmark whose alias the query matches, or of a
/// row that the query accepts.
pub open spec fn is_matched(
    path: Seq<char>,
    bookmarks: Seq<Bookmark>,
    rows: Seq<HistoryRow>,
    query: Seq<char>,
) -> bool {
    ||| exists|i: int|
        0 <= i < bookmarks.len() && (#[trigger] bookmarks[i]).path@ == path && score::query_matches(
            bookmarks[i].alias@,
            query,
        )
    ||| exists|i: int|
        0 <= i < rows.len() && (#[trigger] rows[i]).path@ == path && score::path_accepted(
            rows[i].path@,
            query,
        )
}

/// The candidates are those of the bookmarks that match and the rows that are
/// accepted, each with its own score at least.
proof fn lemma_candidates_matched(
    scorer: Scorer,
    bookmarks: Seq<Bookmark>,
    rows: Seq<HistoryRow>,
    query: Seq<char>,
)
    requires
        forall|j: int|
            0 <= j < bookmarks.len() ==> (bookmark_scored(#[trigger] bookmarks[j], query) is Some
                <==> score::query_matches(bookmarks[j].alias@, query)),
        forall|j: int|
            0 <= j < rows.len() ==> (score::row_scored(scorer, #[trigger] rows[j], query) is Some
                <==> score::path_accepted(rows[j].path@, query)),
    ensures
        forall|i: int|
            0 <= i < bookmarks.len() && score::query_matches(
                (#[trigger] bookmarks[i]).alias@,
                query,
            ) ==> has_path_for(
                candidates(scorer, bookmarks, rows, query),
                bookmarks[i].path@,
                bookmark_scored(bookmarks[i], query),
            ),
        forall|i: int|
            0 <= i < rows.len() && score::path_accepted((#[trigger] rows[i]).path@, query)
                ==> has_path_for(
                candidates(scorer, bookmarks, rows, query),
                rows[i].path@,
                score::row_scored(scorer, rows[i], query),
            ),
        forall|k: int|
            0 <= k < candidates(scorer, bookmarks, rows, query).len() ==> is_matched(
                (#[trigger] candidates(scorer, bookmarks, rows, query)[k]).path,
                bookmarks,
                rows,
                query,
            ),
{
    let list = candidates(scorer, bookmarks, rows, query);
    let marked = bookmarks_scored(bookmarks, query);
    let batch = score::batch_scored(scorer, rows, query);
    let all = all_scored(scorer, bookmarks, rows, query);
    assert forall|i: int|
        0 <= i < bookmarks.len() && score::query_matches(
            (#[trigger] bookmarks[i]).alias@,
            query,
        ) implies has_path_for(list, bookmarks[i].path@, bookmark_scored(bookmarks[i], query)) by {
        let s = bookmark_scored(bookmarks[i], query)->Some_0;
        law_bookmark_listed(scorer, bookmarks, rows, query, i);
    }
    assert forall|i: int|
        0 <= i < rows.len() && score::path_accepted(
            (#[trigger] rows[i]).path@,
            query,
        ) implies has_path_for(
        list,
        rows[i].path@,
        score::row_scored(scorer, rows[i], query),
    ) by {
        law_row_listed(scorer, bookmarks, rows, query, i);
    }
    law_candidates_best_first(scorer, bookmarks, rows, query);
    assert forall|k: int| 0 <= k < list.len() implies is_matched(
        (#[trigger] list[k]).path,
        bookmarks,
        rows,
        query,
    ) by {
        let s = list[k];
        assert(all.contains(s));
        let m = choose|m: int| 0 <= m < all.len() && all[m] == s;
        if m < marked.len() {
            assert(marked[m] == s);
            law_bookmarks_complete(bookmarks, query, s);
            let i = choose|i: int|
                0 <= i < bookmarks.len() && bookmark_scored(#[trigger] bookmarks[i], query)
                    == Some(s);
            assert(bookmarks[i].path@ == s.path);
        } else {
            assert(batch[m - marked.len()] == s);
            score::law_batch_is_complete(scorer, rows, query, s);
            let i = choose|i: int|
                0 <= i < rows.len() && score::row_scored(scorer, #[trigger] rows[i], query)
                    == Some(s);
            assert(rows[i].path@ == s.path);
        }
    }
}

/// The candidates whose flag is set.
pub open spec fn flagged(list: Seq<ScoredView>, flags: Seq<bool>) -> Seq<ScoredView>
    decreases list.len(),
{
    if list.len() == 0 {
        Seq::empty()
    } else {
        let before = flagged(list.drop_last(), flags);
        if flags[list.len() - 1] {
            before.push(list.last())
        } else {
            before
        }
    }
}

/// Keeps the candidates whose directory still exists, as `live` tells of each.
pub fn live_candidates(list: Vec<Scored>, live: &Vec<bool>) -> (r: Vec<Scored>)
    requires
        live@.len() == list@.len(),
    ensures
        score::scored_views(r@) == flagged(score::scored_views(list@), live@),
{
    let ghost all = score::scored_views(list@);
    let n: usize = list.len();
    let mut rest: Vec<Scored> = reversed(list);
    let mut r: Vec<Scored> = Vec::new();
    let mut i: usize = 0;
    proof {
        assert(all.take(0) =~= Seq::<ScoredView>::empty());
        assert(score::scored_views(r@) =~= Seq::<ScoredView>::empty());
        assert(score::scored_views(rest@) =~= all.skip(0).reverse());
        assert(score::scored_views(rest@).len() == n);
    }
    while i < n
        invariant
            i <= n == all.len(),
            live@.len() == n,
            score::scored_views(rest@) == all.skip(i as int).reverse(),
            score::scored_views(r@) == flagged(all.take(i as int), live@),
        decreases n - i,
    {
        let ghost vrest = score::scored_views(rest@);
        let ghost vr = score::scored_views(r@);
        assert(vrest.len() == all.len() - i);
        match rest.pop() {
            Some(s) => {
                proof {
                    assert(vrest.last() == s@);
                    assert(all.skip(i as int).reverse().last() == all[i as int]);
                    lemma_reverse_rest(all, i as int);
                    assert(score::scored_views(rest@) =~= vrest.drop_last());
                    assert(all.take(i + 1).drop_last() =~= all.take(i as int));
                }
                if live[i] {
                    r.push(s);
                    assert(score::scored_views(r@) =~= vr.push(s@));
                }
            },
            None => {
                assert(false);
            },
        }
        i += 1;
    }
    assert(all.take(n as int) =~= all);
    r
}

// ---------------------------------------------------------------------------
// Laws
// ---------------------------------------------------------------------------

/// Whether no candidate scores less than one behind it.
pub open spec fn is_sorted(list: Seq<ScoredView>) -> bool {
    forall|i: int, j: int| 0 <= i < j < list.len() ==> list[i].score >= list[j].score
}

/// The candidates of one score, in their order.
pub open spec fn of_score(list: Seq<ScoredView>, score: int) -> Seq<ScoredView>
    decreases list.len(),
{
    if list.len() == 0 {
        Seq::empty()
    } else if list.last().score == score {
        of_score(list.drop_last(), score).push(list.last())
    } else {
        of_score(list.drop_last(), score)
    }
}

/// Inserting keeps a list sorted, and puts nothing but the candidate in.
proof fn lemma_inserted_sorted(list: Seq<ScoredView>, s: ScoredView)
    requires
        is_sorted(list),
    ensures
        is_sorted(inserted(list, s)),
        inserted(list, s).len() == list.len() + 1,
        forall|i: int|
            0 <= i < inserted(list, s).len() ==> (#[trigger] inserted(list, s)[i]) == s
                || list.contains(inserted(list, s)[i]),
    decreases list.len(),
{
    let r = inserted(list, s);
    if list.len() == 0 || list.last().score >= s.score {
        assert forall|i: int| 0 <= i < r.len() implies (#[trigger] r[i]) == s || list.contains(
            r[i],
        ) by {
            if i < list.len() {
                assert(r[i] == list[i]);
            }
        }
    } else {
        let init = list.drop_last();
        lemma_inserted_sorted(init, s);
        let before = inserted(init, s);
        assert forall|i: int| 0 <= i < r.len() implies ((#[trigger] r[i]) == s || list.contains(
            r[i],
        )) && r[i].score >= list.last().score by {
            if i < before.len() {
                assert(r[i] == before[i]);
                if before[i] != s {
                    let k = choose|k: int| 0 <= k < init.len() && init[k] == before[i];
                    assert(list[k] == r[i]);
                }
            } else {
                assert(r[i] == list[list.len() - 1]);
            }
        }
        assert forall|i: int, j: int| 0 <= i < j < r.len() implies r[i].score >= r[j].score by {
            if j < before.len() {
                assert(r[i] == before[i] && r[j] == before[j]);
            }
        }
    }
}

proof fn lemma_of_score_push(list: Seq<ScoredView>, s: ScoredView, score: int)
    ensures
        of_score(list.push(s), score) == if s.score == score {
            of_score(list, score).push(s)
        } else {
            of_score(list, score)
        },
{
    assert(list.push(s).drop_last() =~= list);
}

/// Inserting puts a candidate behind those that score the same.
proof fn lemma_inserted_of_score(list: Seq<ScoredView>, s: ScoredView, score: int)
    requires
        is_sorted(list),
    ensures
        of_score(inserted(list, s), score) == if s.score == score {
            of_score(list, score).push(s)
        } else {
            of_score(list, score)
        },
    decreases list.len(),
{
    if list.len() == 0 || list.last().score >= s.score {
        lemma_of_score_push(list, s, score);
    } else {
        let init = list.drop_last();
        lemma_inserted_of_score(init, s, score);
        lemma_of_score_push(inserted(init, s), list.last(), score);
        if s.score == score {
            assert(list.last().score != score);
        }
    }
}

/// Ranking sorts a list by falling score and keeps its length.
pub proof fn law_ranked_sorted(list: Seq<ScoredView>)
    ensures
        is_sorted(ranked(list)),
        ranked(list).len() == list.len(),
    decreases list.len(),
{
    if list.len() > 0 {
        law_ranked_sorted(list.drop_last());
        lemma_inserted_sorted(ranked(list.drop_last()), list.last());
    }
}

/// Ranking loses no candidate and adds none, and candidates of one score keep
/// their order.
pub proof fn law_ranked_stable(list: Seq<ScoredView>, score: int)
    ensures
        of_score(ranked(list), score) == of_score(list, score),
    decreases list.len(),
{
    if list.len() > 0 {
        law_ranked_sorted(list.drop_last());
        law_ranked_stable(list.drop_last(), score);
        lemma_inserted_of_score(ranked(list.drop_last()), list.last(), score);
    }
}

/// Whether no two candidates lead to one path.
pub open spec fn no_path_repeats(list: Seq<ScoredView>) -> bool {
    forall|i: int, j: int| 0 <= i < j < list.len() ==> list[i].path != list[j].path
}

/// Dropping repeats adds nothing.
pub proof fn law_deduped_within(list: Seq<ScoredView>)
    ensures
        forall|i: int|
            0 <= i < deduped(list).len() ==> list.contains(#[trigger] deduped(list)[i]),
    decreases list.len(),
{
    let r = deduped(list);
    if list.len() > 0 {
        let init = list.drop_last();
        law_deduped_within(init);
        let before = deduped(init);
        assert forall|i: int| 0 <= i < r.len() implies list.contains(#[trigger] r[i]) by {
            if i < before.len() {
                assert(r[i] == before[i]);
                assert(init.contains(before[i]));
                let k = choose|k: int| 0 <= k < init.len() && init[k] == before[i];
                assert(list[k] == r[i]);
            } else {
                assert(r[i] == list[list.len() - 1]);
            }
        }
    }
}

/// Dropping repeats keeps a list sorted.
pub proof fn law_deduped_sorted(list: Seq<ScoredView>)
    requires
        is_sorted(list),
    ensures
        is_sorted(deduped(list)),
    decreases list.len(),
{
    if list.len() > 0 {
        let init = list.drop_last();
        law_deduped_sorted(init);
        law_deduped_within(init);
        let r = deduped(list);
        let before = deduped(init);
        let last = list[list.len() - 1];
        assert forall|i: int| 0 <= i < before.len() implies (#[trigger] before[i]).score
            >= last.score by {
            assert(init.contains(before[i]));
            let k = choose|k: int| 0 <= k < init.len() && init[k] == before[i];
            assert(list[k] == before[i]);
        }
        assert forall|i: int, j: int| 0 <= i < j < r.len() implies r[i].score >= r[j].score by {
            assert(r[i] == before[i]);
            if j < before.len() {
                assert(r[j] == before[j]);
            }
        }
    }
}

/// Dropping repeats leaves no path twice.
pub proof fn law_no_path_repeats(list: Seq<ScoredView>)
    ensures
        no_path_repeats(deduped(list)),
    decreases list.len(),
{
    if list.len() > 0 {
        let init = list.drop_last();
        law_no_path_repeats(init);
        law_deduped_within(init);
        let r = deduped(list);
        let before = deduped(init);
        assert forall|i: int, j: int| 0 <= i < j < r.len() implies r[i].path != r[j].path by {
            assert(r[i] == before[i]);
            if j < before.len() {
                assert(r[j] == before[j]);
            } else {
                assert(init.contains(before[i]));
                let k = choose|k: int| 0 <= k < init.len() && init[k] == before[i];
                assert(init[k].path == before[i].path);
            }
        }
    }
}

/// Every path is left, and with the highest score that it has in a sorted list.
/// The law gives its place.
pub proof fn law_no_path_lost(list: Seq<ScoredView>, k: int) -> (i: int)
    requires
        is_sorted(list),
        0 <= k < list.len(),
    ensures
        0 <= i < deduped(list).len(),
        deduped(list)[i].path == list[k].path,
        deduped(list)[i].score >= list[k].score,
    decreases list.len(),
{
    let init = list.drop_last();
    if k == list.len() - 1 {
        if has_path(init, list[k].path) {
            let m = choose|m: int| 0 <= m < init.len() && (#[trigger] init[m]).path == list[k].path;
            let i = law_no_path_lost(init, m);
            assert(init[m] == list[m]);
            assert(list[m].score >= list[k].score);
            i
        } else {
            deduped(list).len() - 1
        }
    } else {
        let i = law_no_path_lost(init, k);
        assert(init[k] == list[k]);
        assert(deduped(list)[i] == deduped(init)[i]);
        i
    }
}

proof fn lemma_inserted_contains(list: Seq<ScoredView>, s: ScoredView, x: ScoredView)
    ensures
        inserted(list, s).contains(x) <==> x == s || list.contains(x),
    decreases list.len(),
{
    let r = inserted(list, s);
    if list.len() == 0 || list.last().score >= s.score {
        assert(r == list.push(s));
        if list.contains(x) {
            let k = choose|k: int| 0 <= k < list.len() && list[k] == x;
            assert(r[k] == x);
        }
        assert(r[list.len() as int] == s);
        if r.contains(x) {
            let k = choose|k: int| 0 <= k < r.len() && r[k] == x;
            if k < list.len() {
                assert(list[k] == x);
            }
        }
    } else {
        let init = list.drop_last();
        let before = inserted(init, s);
        lemma_inserted_contains(init, s, x);
        assert(r == before.push(list.last()));
        if x == s || list.contains(x) {
            if x == s || init.contains(x) {
                let k = choose|k: int| 0 <= k < before.len() && before[k] == x;
                assert(r[k] == x);
            } else {
                let k = choose|k: int| 0 <= k < list.len() && list[k] == x;
                if k < init.len() {
                    assert(init[k] == x);
                }
                assert(r[before.len() as int] == x);
            }
        }
        if r.contains(x) {
            let k = choose|k: int| 0 <= k < r.len() && r[k] == x;
            if k < before.len() {
                assert(before[k] == x);
                assert(before.contains(x));
                if init.contains(x) {
                    let m = choose|m: int| 0 <= m < init.len() && init[m] == x;
                    assert(list[m] == x);
                }
            } else {
                assert(list[list.len() - 1] == x);
            }
        }
    }
}

/// Ranking keeps exactly the candidates there are.
pub proof fn law_ranked_contains(list: Seq<ScoredView>, x: ScoredView)
    ensures
        ranked(list).contains(x) <==> list.contains(x),
    decreases list.len(),
{
    if list.len() > 0 {
        let init = list.drop_last();
        law_ranked_contains(init, x);
        lemma_inserted_contains(ranked(init), list.last(), x);
        if list.contains(x) {
            let k = choose|k: int| 0 <= k < list.len() && list[k] == x;
            if k < init.len() {
                assert(init[k] == x);
            }
        }
        if init.contains(x) {
            let k = choose|k: int| 0 <= k < init.len() && init[k] == x;
            assert(list[k] == x);
        }
        assert(list[list.len() - 1] == list.last());
    }
}

/// Candidates come best first, no path stands among them twice, and each of them
/// is one that has a score.
pub proof fn law_candidates_best_first(
    scorer: Scorer,
    bookmarks: Seq<Bookmark>,
    rows: Seq<HistoryRow>,
    query: Seq<char>,
)
    ensures
        is_sorted(candidates(scorer, bookmarks, rows, query)),
        no_path_repeats(candidates(scorer, bookmarks, rows, query)),
        forall|i: int|
            0 <= i < candidates(scorer, bookmarks, rows, query).len() ==> all_scored(
                scorer,
                bookmarks,
                rows,
                query,
            ).contains(#[trigger] candidates(scorer, bookmarks, rows, query)[i]),
{
    let all = all_scored(scorer, bookmarks, rows, query);
    let list = candidates(scorer, bookmarks, rows, query);
    law_ranked_sorted(all);
    law_deduped_sorted(ranked(all));
    law_no_path_repeats(ranked(all));
    law_deduped_within(ranked(all));
    assert forall|i: int| 0 <= i < list.len() implies all.contains(#[trigger] list[i]) by {
        assert(ranked(all).contains(list[i]));
        law_ranked_contains(all, list[i]);
    }
}

/// Every path that has a score is among the candidates, with the highest score
/// that it has. The law gives its place.
pub proof fn law_candidates_complete(
    scorer: Scorer,
    bookmarks: Seq<Bookmark>,
    rows: Seq<HistoryRow>,
    query: Seq<char>,
    path: Seq<char>,
) -> (i: int)
    requires
        has_path(all_scored(scorer, bookmarks, rows, query), path),
    ensures
        0 <= i < candidates(scorer, bookmarks, rows, query).len(),
        candidates(scorer, bookmarks, rows, query)[i].path == path,
        forall|k: int|
            0 <= k < all_scored(scorer, bookmarks, rows, query).len() && (#[trigger] all_scored(
                scorer,
                bookmarks,
                rows,
                query,
            )[k]).path == path ==> all_scored(scorer, bookmarks, rows, query)[k].score
                <= candidates(scorer, bookmarks, rows, query)[i].score,
{
    let all = all_scored(scorer, bookmarks, rows, query);
    let sorted = ranked(all);
    let list = deduped(sorted);
    law_ranked_sorted(all);
    law_no_path_repeats(sorted);
    let first = choose|k: int| 0 <= k < all.len() && (#[trigger] all[k]).path == path;
    assert(all.contains(all[first]));
    law_ranked_contains(all, all[first]);
    let at = choose|m: int| 0 <= m < sorted.len() && sorted[m] == all[first];
    let i = law_no_path_lost(sorted, at);
    assert forall|k: int| 0 <= k < all.len() && (#[trigger] all[k]).path == path implies all[k].score
        <= list[i].score by {
        assert(all.contains(all[k]));
        law_ranked_contains(all, all[k]);
        let m = choose|m: int| 0 <= m < sorted.len() && sorted[m] == all[k];
        let j = law_no_path_lost(sorted, m);
        if j < i {
            assert(list[j].path != list[i].path);
        } else if i < j {
            assert(list[i].path != list[j].path);
        }
    }
    i
}

/// The scores of bookmarks in a row are those of the first and those of the
/// others, and a lone bookmark has its own.
pub proof fn law_bookmarks_in_order(
    a: Seq<Bookmark>,
    b: Seq<Bookmark>,
    one: Bookmark,
    query: Seq<char>,
)
    ensures
        bookmarks_scored(a + b, query) == bookmarks_scored(a, query) + bookmarks_scored(b, query),
        bookmarks_scored(seq![one], query) == match score::query_match(one.alias@, query) {
            Some((fuzzy, indices)) => seq![
                score::bookmark_score(one.path@, fuzzy, indices),
            ],
            None => Seq::empty(),
        },
    decreases b.len(),
{
    reveal_with_fuel(bookmarks_scored, 2);
    assert(seq![one].drop_last() =~= Seq::empty());
    match bookmark_scored(one, query) {
        Some(s) => {
            assert(Seq::<ScoredView>::empty().push(s) =~= seq![s]);
        },
        None => {},
    }
    if b.len() == 0 {
        assert(a + b =~= a);
        assert(bookmarks_scored(a, query) + bookmarks_scored(b, query) =~= bookmarks_scored(
            a,
            query,
        ));
    } else {
        law_bookmarks_in_order(a, b.drop_last(), one, query);
        assert((a + b).drop_last() =~= a + b.drop_last());
        assert(bookmarks_scored(a + b, query) =~= bookmarks_scored(a, query) + bookmarks_scored(
            b,
            query,
        ));
    }
}

/// The score of every bookmark that has one is there, and no other.
pub proof fn law_bookmarks_complete(bookmarks: Seq<Bookmark>, query: Seq<char>, s: ScoredView)
    ensures
        bookmarks_scored(bookmarks, query).contains(s) <==> exists|i: int|
            0 <= i < bookmarks.len() && bookmark_scored(#[trigger] bookmarks[i], query) == Some(s),
    decreases bookmarks.len(),
{
    let all = bookmarks_scored(bookmarks, query);
    if bookmarks.len() > 0 {
        let init = bookmarks.drop_last();
        let before = bookmarks_scored(init, query);
        law_bookmarks_complete(init, query, s);
        if all.contains(s) {
            let k = choose|k: int| 0 <= k < all.len() && all[k] == s;
            if k < before.len() {
                assert(before[k] == s);
                assert(before.contains(s));
                let i = choose|i: int|
                    0 <= i < init.len() && bookmark_scored(#[trigger] init[i], query) == Some(s);
                assert(bookmarks[i] == init[i]);
            } else {
                assert(bookmark_scored(bookmarks[bookmarks.len() - 1], query) == Some(s));
            }
        }
        if exists|i: int|
            0 <= i < bookmarks.len() && bookmark_scored(#[trigger] bookmarks[i], query) == Some(
                s,
            ) {
            let i = choose|i: int|
                0 <= i < bookmarks.len() && bookmark_scored(#[trigger] bookmarks[i], query)
                    == Some(s);
            if i < init.len() {
                assert(init[i] == bookmarks[i]);
                assert(before.contains(s));
                let k = choose|k: int| 0 <= k < before.len() && before[k] == s;
                assert(all[k] == s);
            } else {
                assert(all[all.len() - 1] == s);
            }
        }
    }
}

/// Every bookmark whose alias the query is found in is among the candidates: one
/// of them leads to its path and scores at least three times the match and a
/// hundred points.
pub proof fn law_bookmark_listed(
    scorer: Scorer,
    bookmarks: Seq<Bookmark>,
    rows: Seq<HistoryRow>,
    query: Seq<char>,
    i: int,
)
    requires
        0 <= i < bookmarks.len(),
        score::query_match(bookmarks[i].alias@, query) is Some,
    ensures
        exists|k: int|
            0 <= k < candidates(scorer, bookmarks, rows, query).len() && (#[trigger] candidates(
                scorer,
                bookmarks,
                rows,
                query,
            )[k]).path == bookmarks[i].path@ && candidates(scorer, bookmarks, rows, query)[k].score
                >= 3 * score::query_match(bookmarks[i].alias@, query)->Some_0.0 + 100,
{
    let s = bookmark_scored(bookmarks[i], query)->Some_0;
    let marked = bookmarks_scored(bookmarks, query);
    let all = all_scored(scorer, bookmarks, rows, query);
    assert(bookmark_scored(bookmarks[i], query) == Some(s));
    law_bookmarks_complete(bookmarks, query, s);
    let k = choose|k: int| 0 <= k < marked.len() && marked[k] == s;
    assert(all[k] == s);
    let at = law_candidates_complete(scorer, bookmarks, rows, query, s.path);
    assert(candidates(scorer, bookmarks, rows, query)[at].score >= all[k].score);
}

/// Every row that has a score is among the candidates: one of them leads to its
/// path and scores as much at least.
pub proof fn law_row_listed(
    scorer: Scorer,
    bookmarks: Seq<Bookmark>,
    rows: Seq<HistoryRow>,
    query: Seq<char>,
    i: int,
)
    requires
        0 <= i < rows.len(),
        score::row_scored(scorer, rows[i], query) is Some,
    ensures
        exists|k: int|
            0 <= k < candidates(scorer, bookmarks, rows, query).len() && (#[trigger] candidates(
                scorer,
                bookmarks,
                rows,
                query,
            )[k]).path == rows[i].path@ && candidates(scorer, bookmarks, rows, query)[k].score
                >= score::row_scored(scorer, rows[i], query)->Some_0.score,
{
    let s = score::row_scored(scorer, rows[i], query)->Some_0;
    let marked = bookmarks_scored(bookmarks, query);
    let batch = score::batch_scored(scorer, rows, query);
    let all = all_scored(scorer, bookmarks, rows, query);
    score::law_batch_is_complete(scorer, rows, query, s);
    assert(score::row_scored(scorer, rows[i], query) == Some(s));
    let k = choose|k: int| 0 <= k < batch.len() && batch[k] == s;
    assert(all[marked.len() + k] == s);
    assert(s.path == rows[i].path@);
    let at = law_candidates_complete(scorer, bookmarks, rows, query, s.path);
    assert(candidates(scorer, bookmarks, rows, query)[at].score >= all[marked.len() + k].score);
}

/// Which candidates are kept depends on the flag of each alone, and their order
/// stays: those of the first list come before those of the second.
pub proof fn law_flags_in_order(
    a: Seq<ScoredView>,
    flags: Seq<bool>,
    b: Seq<ScoredView>,
    more: Seq<bool>,
    one: ScoredView,
    flag: bool,
)
    requires
        flags.len() == a.len(),
        more.len() == b.len(),
    ensures
        flagged(a + b, flags + more) == flagged(a, flags) + flagged(b, more),
        flagged(seq![one], seq![flag]) == if flag {
            seq![one]
        } else {
            Seq::empty()
        },
    decreases b.len(),
{
    reveal_with_fuel(flagged, 2);
    assert(seq![one].drop_last() =~= Seq::empty());
    assert(Seq::<ScoredView>::empty().push(one) =~= seq![one]);
    if b.len() == 0 {
        assert(a + b =~= a);
        assert(flags + more =~= flags);
        assert(flagged(a, flags) + flagged(b, more) =~= flagged(a, flags));
    } else {
        let init = b.drop_last();
        law_flags_in_order(a, flags, init, more.drop_last(), one, flag);
        assert((a + b).drop_last() =~= a + init);
        lemma_flags_before(a + init, flags + more, flags + more.drop_last());
        lemma_flags_before(init, more, more.drop_last());
        assert((flags + more)[(a + b).len() - 1] == more[b.len() - 1]);
        assert(flagged(a + b, flags + more) =~= flagged(a, flags) + flagged(b, more));
    }
}

proof fn lemma_flags_before(list: Seq<ScoredView>, flags: Seq<bool>, other: Seq<bool>)
    requires
        list.len() <= flags.len(),
        list.len() <= other.len(),
        forall|i: int| 0 <= i < list.len() ==> flags[i] == other[i],
    ensures
        flagged(list, flags) == flagged(list, other),
    decreases list.len(),
{
    if list.len() > 0 {
        lemma_flags_before(list.drop_last(), flags, other);
    }
}

/// A candidate is kept exactly where its flag is set. As many are kept as flags
/// are set, and all of them where all are.
pub proof fn law_flagged(list: Seq<ScoredView>, flags: Seq<bool>, c: ScoredView)
    requires
        flags.len() == list.len(),
    ensures
        flagged(list, flags).contains(c) <==> exists|i: int|
            0 <= i < list.len() && #[trigger] list[i] == c && flags[i],
        flagged(list, flags).len() == flags.filter(|flag: bool| flag).len(),
        (forall|i: int| 0 <= i < flags.len() ==> #[trigger] flags[i]) ==> flagged(list, flags)
            == list,
    decreases list.len(),
{
    let kept = flagged(list, flags);
    reveal(Seq::filter);
    if list.len() == 0 {
        assert(kept =~= list);
    } else {
        let init = list.drop_last();
        let rest = flags.drop_last();
        let before = flagged(init, rest);
        law_flagged(init, rest, c);
        lemma_flags_before(init, flags, rest);
        let n = list.len() - 1;
        assert(flags.last() == flags[n]);
        if kept.contains(c) {
            let k = choose|k: int| 0 <= k < kept.len() && kept[k] == c;
            if k < before.len() {
                assert(before[k] == c);
                assert(before.contains(c));
                let i = choose|i: int| 0 <= i < init.len() && #[trigger] init[i] == c && rest[i];
                assert(list[i] == c && flags[i]);
            } else {
                assert(list[n] == c && flags[n]);
            }
        }
        if exists|i: int| 0 <= i < list.len() && #[trigger] list[i] == c && flags[i] {
            let i = choose|i: int| 0 <= i < list.len() && #[trigger] list[i] == c && flags[i];
            if i < n {
                assert(init[i] == c && rest[i]);
                assert(before.contains(c));
                let k = choose|k: int| 0 <= k < before.len() && before[k] == c;
                assert(kept[k] == c);
            } else {
                assert(kept[kept.len() - 1] == c);
            }
        }
        if forall|i: int| 0 <= i < flags.len() ==> #[trigger] flags[i] {
            assert forall|i: int| 0 <= i < rest.len() implies #[trigger] rest[i] by {
                assert(flags[i]);
            }
            assert(flags[n]);
            assert(kept =~= list);
        }
    }
}

/// The first candidate of a path is the one that is kept of it.
pub proof fn law_first_of_path_kept(list: Seq<ScoredView>, k: int)
    requires
        0 <= k < list.len(),
        forall|j: int| 0 <= j < k ==> (#[trigger] list[j]).path != list[k].path,
    ensures
        deduped(list).contains(list[k]),
    decreases list.len(),
{
    let init = list.drop_last();
    if k < init.len() {
        assert(init[k] == list[k]);
        assert forall|j: int| 0 <= j < k implies (#[trigger] init[j]).path != init[k].path by {
            assert(list[j].path != list[k].path);
        }
        law_first_of_path_kept(init, k);
        let i = choose|i: int| 0 <= i < deduped(init).len() && deduped(init)[i] == list[k];
        assert(deduped(list)[i] == list[k]);
    } else {
        if has_path(init, list[k].path) {
            let j = choose|j: int| 0 <= j < init.len() && (#[trigger] init[j]).path == list[k].path;
            assert(list[j].path != list[k].path);
        }
        assert(deduped(list)[deduped(list).len() - 1] == list[k]);
    }
}

/// Dropping repeats keeps the order: what is kept of the first part of a list
/// stands before what is kept of the rest.
pub proof fn law_deduped_in_order(a: Seq<ScoredView>, b: Seq<ScoredView>)
    ensures
        deduped(a).len() <= deduped(a + b).len(),
        deduped(a + b).take(deduped(a).len() as int) == deduped(a),
    decreases b.len(),
{
    if b.len() == 0 {
        assert(a + b =~= a);
        assert(deduped(a).take(deduped(a).len() as int) =~= deduped(a));
    } else {
        law_deduped_in_order(a, b.drop_last());
        assert((a + b).drop_last() =~= a + b.drop_last());
        assert(deduped(a + b).take(deduped(a).len() as int) =~= deduped(a + b.drop_last()).take(
            deduped(a).len() as int,
        ));
    }
}

/// Whether, of candidates that score the same, bookmarks come first.
pub open spec fn bookmarks_first(list: Seq<ScoredView>) -> bool {
    forall|i: int, j: int|
        0 <= i < j < list.len() && list[i].score == list[j].score && list[j].source is Bookmark
            ==> list[i].source is Bookmark
}

proof fn lemma_bookmark_sources(bookmarks: Seq<Bookmark>, query: Seq<char>)
    ensures
        forall|i: int|
            0 <= i < bookmarks_scored(bookmarks, query).len() ==> (#[trigger] bookmarks_scored(
                bookmarks,
                query,
            )[i]).source is Bookmark,
    decreases bookmarks.len(),
{
    if bookmarks.len() > 0 {
        lemma_bookmark_sources(bookmarks.drop_last(), query);
    }
}

proof fn lemma_row_sources(scorer: Scorer, rows: Seq<HistoryRow>, query: Seq<char>)
    ensures
        forall|i: int|
            0 <= i < score::batch_scored(scorer, rows, query).len() ==> (
            #[trigger] score::batch_scored(scorer, rows, query)[i]).source is History,
    decreases rows.len(),
{
    if rows.len() > 0 {
        lemma_row_sources(scorer, rows.drop_last(), query);
    }
}

proof fn lemma_inserted_bookmarks(list: Seq<ScoredView>, s: ScoredView)
    requires
        is_sorted(list),
        bookmarks_first(list),
        s.source is Bookmark ==> forall|i: int|
            0 <= i < list.len() && (#[trigger] list[i]).score == s.score
                ==> list[i].source is Bookmark,
    ensures
        bookmarks_first(inserted(list, s)),
    decreases list.len(),
{
    let all = inserted(list, s);
    if list.len() > 0 && list.last().score < s.score {
        let init = list.drop_last();
        lemma_inserted_bookmarks(init, s);
        let before = inserted(init, s);
        assert(all == before.push(list.last()));
        assert forall|i: int, j: int|
            0 <= i < j < all.len() && all[i].score == all[j].score
                && all[j].source is Bookmark implies all[i].source is Bookmark by {
            if j == all.len() - 1 {
                lemma_inserted_contains(init, s, before[i]);
                assert(before.contains(before[i]));
                assert(all[i] != s);
                let k = choose|k: int| 0 <= k < init.len() && init[k] == before[i];
                assert(list[k].score == list[list.len() - 1].score);
            } else {
                assert(before[i].score == before[j].score);
            }
        }
    } else {
        assert(all == list.push(s));
    }
}

proof fn lemma_ranked_bookmarks(list: Seq<ScoredView>)
    requires
        bookmarks_first(list),
    ensures
        bookmarks_first(ranked(list)),
    decreases list.len(),
{
    if list.len() > 0 {
        let init = list.drop_last();
        let s = list.last();
        assert(bookmarks_first(init)) by {
            assert forall|i: int, j: int|
                0 <= i < j < init.len() && init[i].score == init[j].score
                    && init[j].source is Bookmark implies init[i].source is Bookmark by {
                assert(list[i].score == list[j].score);
            }
        }
        lemma_ranked_bookmarks(init);
        law_ranked_sorted(init);
        let before = ranked(init);
        assert forall|i: int|
            s.source is Bookmark && 0 <= i < before.len() && (#[trigger] before[i]).score
                == s.score implies before[i].source is Bookmark by {
            law_ranked_contains(init, before[i]);
            assert(before.contains(before[i]));
            let k = choose|k: int| 0 <= k < init.len() && init[k] == before[i];
            assert(list[k].score == list[list.len() - 1].score);
        }
        lemma_inserted_bookmarks(before, s);
    }
}

proof fn lemma_deduped_bookmarks(list: Seq<ScoredView>)
    requires
        bookmarks_first(list),
    ensures
        bookmarks_first(deduped(list)),
    decreases list.len(),
{
    if list.len() > 0 {
        let init = list.drop_last();
        assert(bookmarks_first(init)) by {
            assert forall|i: int, j: int|
                0 <= i < j < init.len() && init[i].score == init[j].score
                    && init[j].source is Bookmark implies init[i].source is Bookmark by {
                assert(list[i].score == list[j].score);
            }
        }
        lemma_deduped_bookmarks(init);
        let before = deduped(init);
        let all = deduped(list);
        assert forall|i: int, j: int|
            0 <= i < j < all.len() && all[i].score == all[j].score
                && all[j].source is Bookmark implies all[i].source is Bookmark by {
            if j < before.len() {
                assert(before[i].score == before[j].score);
            } else {
                law_deduped_within(init);
                assert(init.contains(before[i]));
                let k = choose|k: int| 0 <= k < init.len() && init[k] == before[i];
                assert(list[k].score == list[list.len() - 1].score);
            }
        }
    }
}

/// Of candidates that score the same, bookmarks come before the history.
pub proof fn law_bookmarks_before_rows(
    scorer: Scorer,
    bookmarks: Seq<Bookmark>,
    rows: Seq<HistoryRow>,
    query: Seq<char>,
)
    ensures
        bookmarks_first(candidates(scorer, bookmarks, rows, query)),
{
    let a = bookmarks_scored(bookmarks, query);
    let b = score::batch_scored(scorer, rows, query);
    let all = all_scored(scorer, bookmarks, rows, query);
    lemma_bookmark_sources(bookmarks, query);
    lemma_row_sources(scorer, rows, query);
    assert forall|i: int, j: int|
        0 <= i < j < all.len() && all[i].score == all[j].score
            && all[j].source is Bookmark implies all[i].source is Bookmark by {
        if j >= a.len() {
            assert(all[j] == b[j - a.len()]);
        } else {
            assert(all[i] == a[i]);
        }
    }
    lemma_ranked_bookmarks(all);
    lemma_deduped_bookmarks(ranked(all));
}

} // verus!
