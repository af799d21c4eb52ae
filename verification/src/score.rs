//! Scores of directories for a query.

use vstd::prelude::*;
use vstd::string::StrSliceExecFns;

use crate::outside;
use crate::pattern;
use crate::text;

verus! {

/// The score below which a candidate is not worth jumping to, unless the
/// configuration says otherwise.
pub const MIN_SCORE: i64 = 20;

/// Nanoseconds in a day.
pub const DAY: i64 = 86_400_000_000_000;

/// The most that the components other than the fuzzy score add up to.
pub const MAX_BONUS: i64 = 295;

/// The most tokens whose scores are summed.
pub const MAX_TOKENS: usize = 0x4000_0000;

/// Where a candidate comes from.
#[derive(Clone, Copy, Debug, PartialEq, Eq, Structural)]
pub enum Source {
    Bookmark,
    History,
}

/// A directory of the history.
#[derive(Clone, Debug)]
pub struct HistoryRow {
    pub path: String,
    pub visits: i32,
    /// Time of the last visit, in nanoseconds since the Unix epoch.
    pub last_visited: i64,
    pub is_git_repo: bool,
}

/// A candidate and how its score came about.
#[derive(Clone, Debug)]
pub struct Scored {
    pub path: String,
    /// Total score; of a history row, the sum of the components below.
    pub score: i64,
    pub fuzzy: i64,
    pub visits: i64,
    pub recency: i64,
    pub git: i64,
    pub basename: i64,
    pub shortness: i64,
    /// Bonus for directories visited in the current shell session.
    pub session: i64,
    pub source: Source,
    pub matched_indices: Vec<usize>,
}

/// What a candidate says.
#[verifier::ext_equal]
pub struct ScoredView {
    pub path: Seq<char>,
    pub score: int,
    pub fuzzy: int,
    pub visits: int,
    pub recency: int,
    pub git: int,
    pub basename: int,
    pub shortness: int,
    pub session: int,
    pub source: Source,
    pub matched_indices: Seq<usize>,
}

impl View for Scored {
    type V = ScoredView;

    open spec fn view(&self) -> ScoredView {
        ScoredView {
            path: self.path@,
            score: self.score as int,
            fuzzy: self.fuzzy as int,
            visits: self.visits as int,
            recency: self.recency as int,
            git: self.git as int,
            basename: self.basename as int,
            shortness: self.shortness as int,
            session: self.session as int,
            source: self.source,
            matched_indices: self.matched_indices@,
        }
    }
}

/// What a list of candidates says.
pub open spec fn scored_views(list: Seq<Scored>) -> Seq<ScoredView> {
    Seq::new(list.len(), |i: int| list[i]@)
}

// ---------------------------------------------------------------------------
// Components
// ---------------------------------------------------------------------------

/// Points for a last visit that lies `age` nanoseconds back: within a day, a
/// week, a month, or longer.
pub open spec fn recency_points(age: int) -> int {
    if age < DAY {
        45
    } else if age < 7 * DAY {
        30
    } else if age < 30 * DAY {
        15
    } else {
        7
    }
}

/// The largest number up to `k` whose square is at most `n`.
pub open spec fn root_within(n: int, k: nat) -> nat
    decreases k,
{
    if k == 0 || k * k <= n {
        k
    } else {
        root_within(n, (k - 1) as nat)
    }
}

/// Points for `visits` visits: twenty times their square root, rounded down,
/// and 100 at most. A negative count has no root and gets them all.
pub open spec fn visit_points(visits: int) -> int {
    if visits < 0 {
        100
    } else {
        root_within(400 * visits, 100) as int
    }
}

/// How many `c` stand in `s`.
pub open spec fn occurrences(s: Seq<char>, c: char) -> nat
    decreases s.len(),
{
    if s.len() == 0 {
        0
    } else {
        occurrences(s.drop_last(), c) + if s.last() == c {
            1nat
        } else {
            0nat
        }
    }
}

/// How deep a path lies: the slashes in it, and one at least.
pub open spec fn depth(path: Seq<char>) -> int {
    let n = occurrences(path, '/') as int;
    if n < 1 {
        1
    } else {
        n
    }
}

/// Points for a path that lies `depth` deep: 50 shared by its levels, and 5 at
/// least.
pub open spec fn shortness_points(depth: int) -> int {
    if 50int / depth < 5 {
        5
    } else {
        50int / depth
    }
}

/// How many `c` stand in `s`.
fn count_char(s: &str, c: char) -> (r: usize)
    ensures
        r == occurrences(s@, c),
{
    let chars: Vec<char> = text::chars_of(s);
    let mut n: usize = 0;
    assert(s@.take(0) =~= Seq::<char>::empty());
    for i in 0..chars.len()
        invariant
            chars@ == s@,
            n == occurrences(s@.take(i as int), c),
            n <= i,
    {
        assert(s@.take(i + 1).drop_last() =~= s@.take(i as int));
        if chars[i] == c {
            n += 1;
        }
    }
    assert(s@.take(s@.len() as int) =~= s@);
    n
}

/// The points for `visits` visits.
fn visit_boost(visits: i32) -> (r: i64)
    ensures
        r == visit_points(visits as int),
        0 <= r <= 100,
{
    if visits < 0 {
        return 100;
    }
    let n: i64 = visits as i64 * 400;
    let mut k: i64 = 100;
    while k > 0
        invariant
            0 <= k <= 100,
            n == 400 * visits,
            visits >= 0,
            root_within(n as int, 100) == root_within(n as int, k as nat),
        decreases k,
    {
        assert(k * k <= 10000) by (nonlinear_arith)
            requires
                0 <= k <= 100,
        ;
        assert(k * k >= 0) by (nonlinear_arith);
        if k * k <= n {
            return k;
        }
        k -= 1;
    }
    0
}

// ---------------------------------------------------------------------------
// Names and queries
// ---------------------------------------------------------------------------

/// What follows the last slash of `path`.
pub open spec fn last_segment(path: Seq<char>) -> Seq<char>
    decreases path.len(),
{
    if path.len() == 0 || path.last() == '/' {
        Seq::empty()
    } else {
        last_segment(path.drop_last()).push(path.last())
    }
}

proof fn lemma_last_segment(path: Seq<char>, n: int)
    requires
        0 <= n <= path.len(),
        n > 0 ==> path[n - 1] == '/',
        forall|i: int| n <= i < path.len() ==> #[trigger] path[i] != '/',
    ensures
        last_segment(path) == path.skip(n),
    decreases path.len(),
{
    if n == path.len() {
        assert(path.skip(n) =~= Seq::<char>::empty());
    } else {
        assert(path[path.len() - 1] != '/');
        lemma_last_segment(path.drop_last(), n);
        assert(path.drop_last().skip(n).push(path.last()) =~= path.skip(n));
    }
}

/// The name of the directory that `path` leads to. Slashes at its end and steps
/// to the same directory (`.`) are passed over; the root, the current directory
/// and a path that ends in a step to the parent (`..`) have no name.
pub open spec fn file_name(path: Seq<char>) -> Option<Seq<char>>
    decreases path.len(),
{
    let name = last_segment(path);
    if path.len() == 0 {
        None
    } else if name.len() == 0 {
        file_name(path.drop_last())
    } else if name == seq!['.'] {
        file_name(path.take(path.len() - 1))
    } else if name == seq!['.', '.'] {
        None
    } else {
        Some(name)
    }
}

/// The lowercased name of the directory that `path` leads to, or nothing.
pub open spec fn base_lower(path: Seq<char>) -> Seq<char> {
    match file_name(path) {
        Some(name) => outside::lowercase(name),
        None => Seq::empty(),
    }
}

/// The name of the directory that `path` leads to.
pub fn base_name(path: &str) -> (r: Option<String>)
    ensures
        r is Some == file_name(path@) is Some,
        r matches Some(name) ==> file_name(path@) == Some(name@),
{
    let chars: Vec<char> = text::chars_of(path);
    let mut end: usize = chars.len();
    assert(chars@.take(end as int) =~= path@);
    while end > 0
        invariant
            end <= chars@.len(),
            file_name(path@) == file_name(chars@.take(end as int)),
        decreases end,
    {
        let ghost p = chars@.take(end as int);
        let mut start: usize = end;
        while start > 0 && chars[start - 1] != '/'
            invariant
                start <= end <= chars@.len(),
                p == chars@.take(end as int),
                forall|i: int| start <= i < end ==> #[trigger] p[i] != '/',
            decreases start,
        {
            assert(p[start - 1] == chars@[start - 1]);
            start -= 1;
        }
        proof {
            if start > 0 {
                assert(p[start - 1] == chars@[start - 1]);
            }
            lemma_last_segment(p, start as int);
            assert(p.skip(start as int) =~= chars@.subrange(start as int, end as int));
            assert(p.drop_last() =~= chars@.take(end - 1));
            assert(p.take(p.len() - 1) =~= chars@.take(end - 1));
        }
        let ghost name = chars@.subrange(start as int, end as int);
        if start == end {
            end -= 1;
        } else if end - start == 1 && chars[start] == '.' {
            assert(name =~= seq!['.']);
            end -= 1;
        } else if end - start == 2 && chars[start] == '.' && chars[start + 1] == '.' {
            assert(name =~= seq!['.', '.']);
            return None;
        } else {
            proof {
                if name == seq!['.'] {
                    assert(name[0] == chars@[start as int]);
                }
                if name == seq!['.', '.'] {
                    assert(name[0] == chars@[start as int]);
                    assert(name[1] == chars@[start + 1]);
                }
            }
            return Some(text::text_between(&chars, start, end));
        }
    }
    None
}

/// The lowercased name of the directory that `path` leads to, or an empty text.
pub fn basename_lower(path: &str) -> (r: String)
    ensures
        r@ == base_lower(path@),
{
    match base_name(path) {
        Some(name) => outside::to_lowercase(name.as_str()),
        None => String::new(),
    }
}

/// What a query asks for: the text to look for, whether it is a regular
/// expression, and whether it is to be excluded.
///
/// `/` before a query makes it a regular expression, with or without a `/` after
/// it, and `!` one that excludes. Where nothing, or only a `/`, follows, the
/// query is taken as it stands.
pub open spec fn classified(query: Seq<char>) -> (Seq<char>, bool, bool) {
    let is_regex = query.len() > 0 && query[0] == '/';
    let is_negation = query.len() > 0 && query[0] == '!';
    let stripped = query.skip(1);
    if !(is_regex || is_negation) || stripped.len() == 0 || stripped == seq!['/'] {
        (query, false, false)
    } else if is_regex && stripped.last() == '/' {
        (stripped.drop_last(), true, false)
    } else {
        (stripped, is_regex, is_negation)
    }
}

/// The text that `query` asks for, whether it is a regular expression, and
/// whether it is to be excluded.
pub fn classify_query(query: &str) -> (r: (&str, bool, bool))
    ensures
        (r.0@, r.1, r.2) == classified(query@),
{
    let chars: Vec<char> = text::chars_of(query);
    let n: usize = chars.len();
    let is_regex: bool = n > 0 && chars[0] == '/';
    let is_negation: bool = n > 0 && chars[0] == '!';
    if !is_regex && !is_negation {
        return (query, false, false);
    }
    let ghost stripped = query@.skip(1);
    assert(stripped =~= query@.subrange(1, n as int));
    if n == 1 || (n == 2 && chars[1] == '/') {
        proof {
            if n == 2 {
                assert(stripped =~= seq!['/']);
            }
        }
        return (query, false, false);
    }
    proof {
        if stripped == seq!['/'] {
            assert(stripped.len() == 1 && stripped[0] == '/');
            assert(stripped[0] == query@[1]);
        }
        assert(stripped.last() == query@[n - 1]);
    }
    if is_regex && chars[n - 1] == '/' {
        assert(stripped.drop_last() =~= query@.subrange(1, n - 1));
        (query.substring_char(1, n - 1), true, false)
    } else {
        (query.substring_char(1, n), is_regex, is_negation)
    }
}

// ---------------------------------------------------------------------------
// Scoring one directory
// ---------------------------------------------------------------------------

/// The circumstances under which directories are scored.
#[derive(Clone, Copy, Debug)]
pub struct Scorer {
    /// The present, in nanoseconds since the Unix epoch.
    pub now: i64,
    /// When the shell session began. Directories whose last visit lies at or
    /// after this time get a bonus, so that "just worked here" beats "visited a
    /// lot last month".
    pub session_start: Option<i64>,
}

/// The bonus for a visit within the shell session.
pub open spec fn session_points(session_start: Option<i64>, last_visited: int) -> int {
    match session_start {
        Some(start) if last_visited >= start => 30,
        _ => 0,
    }
}

/// A history row whose fuzzy score, bonus and indices are known.
pub open spec fn history_score(
    scorer: Scorer,
    row: HistoryRow,
    fuzzy: int,
    basename_bonus: bool,
    indices: Seq<usize>,
) -> ScoredView {
    let visits = visit_points(row.visits as int);
    let recency = recency_points(scorer.now - row.last_visited);
    let git: int = if row.is_git_repo {
        30
    } else {
        0
    };
    let basename: int = if basename_bonus {
        40
    } else {
        0
    };
    let shortness = shortness_points(depth(row.path@));
    let session = session_points(scorer.session_start, row.last_visited as int);
    ScoredView {
        path: row.path@,
        score: fuzzy + visits + recency + git + basename + shortness + session,
        fuzzy,
        visits,
        recency,
        git,
        basename,
        shortness,
        session,
        source: Source::History,
        matched_indices: indices,
    }
}

/// Whether the score of a history row fits in an `i64`, as it does wherever the
/// fuzzy score leaves room for every bonus.
pub open spec fn score_fits(
    scorer: Scorer,
    row: HistoryRow,
    fuzzy: int,
    basename_bonus: bool,
) -> bool {
    fuzzy <= i64::MAX - MAX_BONUS || history_score(
        scorer,
        row,
        fuzzy,
        basename_bonus,
        Seq::empty(),
    ).score <= i64::MAX
}

/// A bookmark whose fuzzy score and indices are known.
pub open spec fn bookmark_score(path: Seq<char>, fuzzy: int, indices: Seq<usize>) -> ScoredView {
    ScoredView {
        path,
        score: fuzzy * 3 + 100,
        fuzzy,
        visits: 0,
        recency: 0,
        git: 0,
        basename: 0,
        shortness: 0,
        session: 0,
        source: Source::Bookmark,
        matched_indices: indices,
    }
}

/// What the matches of several tokens come to: nothing unless every token
/// matched, else the sum of their scores and all their indices in turn.
pub open spec fn combined(found: Seq<Option<(i64, Seq<usize>)>>) -> Option<(int, Seq<usize>)>
    decreases found.len(),
{
    if found.len() == 0 {
        Some((0, Seq::empty()))
    } else {
        match (combined(found.drop_last()), found.last()) {
            (Some((score, indices)), Some((next, more))) => Some((score + next, indices + more)),
            _ => None,
        }
    }
}

/// What the matcher finds of each token in `choice`.
pub open spec fn token_matches(choice: Seq<char>, tokens: Seq<Seq<char>>) -> Seq<
    Option<(i64, Seq<usize>)>,
> {
    Seq::new(tokens.len(), |i: int| outside::skim_match(choice, tokens[i]))
}

/// Whether every token matches `choice`.
pub open spec fn all_match(choice: Seq<char>, tokens: Seq<Seq<char>>) -> bool {
    forall|i: int| 0 <= i < tokens.len() ==> outside::is_match(choice, #[trigger] tokens[i])
}

/// Whether a plain query matches `choice`: as one text, or, when it holds
/// several words, by all of them.
pub open spec fn query_matches(choice: Seq<char>, query: Seq<char>) -> bool {
    if text::words(query).len() > 1 {
        all_match(choice, text::words(query))
    } else {
        outside::is_match(choice, query)
    }
}

/// The views of what the matcher returned.
pub open spec fn match_views(found: Seq<Option<(i64, Vec<usize>)>>) -> Seq<
    Option<(i64, Seq<usize>)>,
> {
    Seq::new(found.len(), |i: int| outside::match_view(found[i]))
}

/// Whether every one of the texts stands in the text `base`.
pub open spec fn all_within(base: Seq<char>, list: Seq<Seq<char>>) -> bool {
    forall|i: int| 0 <= i < list.len() ==> text::contains(base, #[trigger] list[i])
}

/// The tokens, lowercased.
pub open spec fn lowered(tokens: Seq<Seq<char>>) -> Seq<Seq<char>> {
    Seq::new(tokens.len(), |i: int| outside::lowercase(tokens[i]))
}

/// A history row given what the matcher found, and whether its name holds all of
/// what was looked for.
pub open spec fn found_scored(
    scorer: Scorer,
    row: HistoryRow,
    name_lower: Seq<char>,
    sought_lower: Seq<Seq<char>>,
    found: Option<(int, Seq<usize>)>,
) -> Option<ScoredView> {
    match found {
        Some((fuzzy, indices)) => Some(
            history_score(scorer, row, fuzzy, all_within(name_lower, sought_lower), indices),
        ),
        None => None,
    }
}

/// A history row scored for one query text, given what the matcher found.
pub open spec fn history_scored(
    scorer: Scorer,
    row: HistoryRow,
    query_lower: Seq<char>,
    found: Option<(i64, Seq<usize>)>,
) -> Option<ScoredView> {
    found_scored(scorer, row, base_lower(row.path@), seq![query_lower], widened(found))
}

/// What the matcher found, its score as a number without limits.
pub open spec fn widened(found: Option<(i64, Seq<usize>)>) -> Option<(int, Seq<usize>)> {
    match found {
        Some((score, indices)) => Some((score as int, indices)),
        None => None,
    }
}

/// A history row scored for several tokens.
pub open spec fn multi_scored(
    scorer: Scorer,
    row: HistoryRow,
    tokens: Seq<Seq<char>>,
) -> Option<ScoredView> {
    found_scored(
        scorer,
        row,
        base_lower(row.path@),
        lowered(tokens),
        combined(token_matches(row.path@, tokens)),
    )
}

/// A history row scored for a plain query: as one text, or, when it holds
/// several words, by all of them.
pub open spec fn plain_scored(scorer: Scorer, row: HistoryRow, query: Seq<char>) -> Option<
    ScoredView,
> {
    let tokens = text::words(query);
    if tokens.len() > 1 {
        multi_scored(scorer, row, tokens)
    } else {
        history_scored(
            scorer,
            row,
            outside::lowercase(query),
            outside::skim_match(row.path@, query),
        )
    }
}

/// What the matcher finds of `query` in `choice`, word by word when there are
/// several.
pub open spec fn query_match(choice: Seq<char>, query: Seq<char>) -> Option<(int, Seq<usize>)> {
    let tokens = text::words(query);
    if tokens.len() > 1 {
        combined(token_matches(choice, tokens))
    } else {
        widened(outside::skim_match(choice, query))
    }
}

/// A bookmark given what the matcher found of the query in its alias.
pub open spec fn alias_scored(path: Seq<char>, found: Option<(int, Seq<usize>)>) -> Option<
    ScoredView,
> {
    match found {
        Some((fuzzy, indices)) => Some(bookmark_score(path, fuzzy, indices)),
        None => None,
    }
}

/// The view of an optional candidate.
pub open spec fn scored_view(s: Option<Scored>) -> Option<ScoredView> {
    match s {
        Some(s) => Some(s@),
        None => None,
    }
}

/// The matches of several tokens taken together.
pub fn combine_matches(found: &Vec<Option<(i64, Vec<usize>)>>) -> (r: Option<(i64, Vec<usize>)>)
    requires
        found@.len() <= MAX_TOKENS,
        forall|i: int|
            0 <= i < found@.len() ==> (#[trigger] found@[i] matches Some((score, _)) ==> i32::MIN
                <= score <= i32::MAX),
    ensures
        match r {
            Some((score, indices)) => combined(match_views(found@)) == Some(
                (score as int, indices@),
            ),
            None => combined(match_views(found@)) is None,
        },
        r matches Some((score, _)) ==> i32::MIN * MAX_TOKENS <= score <= i32::MAX * MAX_TOKENS,
{
    let ghost all = match_views(found@);
    let mut score: i64 = 0;
    let mut indices: Vec<usize> = Vec::new();
    assert(all.take(0) =~= Seq::<Option<(i64, Seq<usize>)>>::empty());
    for i in 0..found.len()
        invariant
            all == match_views(found@),
            found@.len() <= MAX_TOKENS,
            forall|j: int|
                0 <= j < found@.len() ==> (#[trigger] found@[j] matches Some((s, _)) ==> i32::MIN
                    <= s <= i32::MAX),
            combined(all.take(i as int)) == Some((score as int, indices@)),
            i32::MIN * i <= score <= i32::MAX * i,
    {
        proof {
            assert(all.take(i + 1).drop_last() =~= all.take(i as int));
            assert(all.take(i + 1).last() == outside::match_view(found@[i as int]));
        }
        match &found[i] {
            Some((next, more)) => {
                assert(found@[i as int] matches Some((s, _)) && s == *next);
                score = score + *next;
                let ghost before = indices@;
                for j in 0..more.len()
                    invariant
                        indices@ == before + more@.take(j as int),
                {
                    indices.push(more[j]);
                    assert(indices@ =~= before + more@.take(j + 1));
                }
                assert(more@.take(more@.len() as int) =~= more@);
            },
            None => {
                proof {
                    lemma_combined_stops(all, i + 1);
                }
                return None;
            },
        }
    }
    assert(all.take(found@.len() as int) =~= all);
    Some((score, indices))
}

/// Once a token did not match, the tokens after it do not matter.
proof fn lemma_combined_stops(found: Seq<Option<(i64, Seq<usize>)>>, n: int)
    requires
        0 <= n <= found.len(),
        combined(found.take(n)) is None,
    ensures
        combined(found) is None,
    decreases found.len(),
{
    if n < found.len() {
        assert(found.drop_last().take(n) =~= found.take(n));
        lemma_combined_stops(found.drop_last(), n);
    } else {
        assert(found.take(n) =~= found);
    }
}

/// What the matcher finds of the tokens in `choice`, taken together.
fn match_tokens(choice: &str, tokens: &Vec<String>) -> (r: Option<(i64, Vec<usize>)>)
    requires
        tokens@.len() <= MAX_TOKENS,
        forall|i: int|
            0 <= i < tokens@.len() ==> outside::matchable(
                choice@.len(),
                (#[trigger] tokens@[i])@.len(),
            ),
    ensures
        match r {
            Some((score, indices)) => combined(
                token_matches(choice@, text::views(tokens@)),
            ) == Some((score as int, indices@)),
            None => combined(token_matches(choice@, text::views(tokens@))) is None,
        },
        r is Some <==> all_match(choice@, text::views(tokens@)),
        r matches Some((score, _)) ==> i32::MIN * MAX_TOKENS <= score <= i32::MAX * MAX_TOKENS,
{
    let mut found: Vec<Option<(i64, Vec<usize>)>> = Vec::new();
    for i in 0..tokens.len()
        invariant
            tokens@.len() <= MAX_TOKENS,
            forall|j: int|
                0 <= j < tokens@.len() ==> outside::matchable(
                    choice@.len(),
                    (#[trigger] tokens@[j])@.len(),
                ),
            found@.len() == i,
            forall|j: int|
                0 <= j < i ==> outside::match_view(#[trigger] found@[j]) == outside::skim_match(
                    choice@,
                    tokens@[j]@,
                ),
            forall|j: int|
                0 <= j < i ==> (#[trigger] found@[j] matches Some((s, _)) ==> i32::MIN <= s
                    <= i32::MAX),
            forall|j: int|
                0 <= j < i ==> ((#[trigger] found@[j]) is Some <==> outside::is_match(
                    choice@,
                    tokens@[j]@,
                )),
    {
        let one: Option<(i64, Vec<usize>)> = outside::fuzzy_indices(choice, tokens[i].as_str());
        found.push(one);
    }
    assert(match_views(found@) =~= token_matches(choice@, text::views(tokens@)));
    proof {
        let all = match_views(found@);
        let views = text::views(tokens@);
        law_combined(all);
        assert forall|j: int| 0 <= j < all.len() implies ((#[trigger] all[j]) is Some
            <==> outside::is_match(choice@, views[j])) by {
            assert(found@[j] is Some <==> outside::is_match(choice@, tokens@[j]@));
        }
        if all_match(choice@, views) {
            assert forall|j: int| 0 <= j < all.len() implies (#[trigger] all[j]) is Some by {
                assert(outside::is_match(choice@, views[j]));
            }
        }
        if combined(all) is Some {
            assert forall|j: int| 0 <= j < views.len() implies outside::is_match(
                choice@,
                #[trigger] views[j],
            ) by {
                assert(all[j] is Some);
            }
        }
    }
    combine_matches(&found)
}

/// Words of a matchable query are matchable, and few enough.
proof fn lemma_words_matchable(choice: nat, query: Seq<char>)
    requires
        outside::matchable(choice, query.len()),
    ensures
        text::words(query).len() <= MAX_TOKENS,
        forall|i: int|
            0 <= i < text::words(query).len() ==> outside::matchable(
                choice,
                (#[trigger] text::words(query)[i]).len(),
            ),
{
    text::lemma_words_within(query, Seq::empty());
    assert forall|i: int| 0 <= i < text::words(query).len() implies outside::matchable(
        choice,
        (#[trigger] text::words(query)[i]).len(),
    ) by {
        outside::lemma_matchable_shorter(choice, query.len(), text::words(query)[i].len());
    }
}

/// The tokens, lowercased.
fn lower_all(tokens: &Vec<String>) -> (r: Vec<String>)
    ensures
        text::views(r@) == lowered(text::views(tokens@)),
{
    let ghost all = lowered(text::views(tokens@));
    let mut r: Vec<String> = Vec::new();
    assert(text::views(r@) =~= all.take(0));
    for i in 0..tokens.len()
        invariant
            all == lowered(text::views(tokens@)),
            text::views(r@) == all.take(i as int),
    {
        let ghost before = r@;
        r.push(outside::to_lowercase(tokens[i].as_str()));
        proof {
            text::lemma_views_push(before, r@.last());
            assert(all.take(i + 1) =~= all.take(i as int).push(all[i as int]));
        }
    }
    assert(all.take(tokens@.len() as int) =~= all);
    r
}

/// Whether every one of the texts stands in the text `base`.
fn holds_all(base: &str, list: &Vec<String>) -> (r: bool)
    ensures
        r == all_within(base@, text::views(list@)),
{
    let ghost all = text::views(list@);
    for i in 0..list.len()
        invariant
            all == text::views(list@),
            forall|j: int| 0 <= j < i ==> text::contains(base@, #[trigger] all[j]),
    {
        if !text::has_text(base, list[i].as_str()) {
            assert(!text::contains(base@, all[i as int]));
            return false;
        }
    }
    true
}

/// A bookmark given what the matcher found of the query in its alias.
pub fn score_alias(path: &str, found: Option<(i64, Vec<usize>)>) -> (r: Option<Scored>)
    requires
        found matches Some((fuzzy, _)) ==> i64::MIN <= fuzzy * 3 + 100 <= i64::MAX && i64::MIN
            <= fuzzy * 3 <= i64::MAX,
    ensures
        scored_view(r) == alias_scored(path@, widened(outside::match_view(found))),
{
    match found {
        Some((fuzzy, indices)) => Some(
            Scored {
                path: path.to_string(),
                score: fuzzy * 3 + 100,
                fuzzy,
                visits: 0,
                recency: 0,
                git: 0,
                basename: 0,
                shortness: 0,
                session: 0,
                source: Source::Bookmark,
                matched_indices: indices,
            },
        ),
        None => None,
    }
}

/// The points for how few directories deep a path lies.
fn shortness_boost(path: &str) -> (r: i64)
    ensures
        r == shortness_points(depth(path@)),
{
    let slashes: usize = count_char(path, '/');
    let ghost d = depth(path@);
    if slashes <= 1 {
        assert(d == 1);
        50
    } else if slashes >= 10 {
        assert(50int / d <= 5) by (nonlinear_arith)
            requires
                d >= 10,
        ;
        5
    } else {
        assert(d == slashes);
        assert(5 <= 50int / d) by (nonlinear_arith)
            requires
                1 <= d < 10,
        ;
        let r: i64 = 50 / slashes as i64;
        assert(r == 50int / d);
        r
    }
}

impl Scorer {
    /// A scorer for the present `now` in a shell session that began at
    /// `session_start`, if there is one.
    pub fn new(now: i64, session_start: Option<i64>) -> (r: Self)
        ensures
            r.now == now,
            r.session_start == session_start,
    {
        Scorer { now, session_start }
    }

    /// A history row whose fuzzy score, bonus and indices are known.
    pub fn score_parts(
        &self,
        row: &HistoryRow,
        fuzzy: i64,
        basename_bonus: bool,
        indices: Vec<usize>,
    ) -> (r: Scored)
        requires
            score_fits(*self, *row, fuzzy as int, basename_bonus),
        ensures
            r@ == history_score(*self, *row, fuzzy as int, basename_bonus, indices@),
    {
        proof {
            law_score_is_sum(*self, *row, fuzzy as int, basename_bonus, indices@);
        }
        let age: i128 = self.now as i128 - row.last_visited as i128;
        let recency: i64 = if age < DAY as i128 {
            45
        } else if age < 7 * DAY as i128 {
            30
        } else if age < 30 * DAY as i128 {
            15
        } else {
            7
        };
        let visits: i64 = visit_boost(row.visits);
        let shortness: i64 = shortness_boost(row.path.as_str());
        let git: i64 = if row.is_git_repo {
            30
        } else {
            0
        };
        let basename: i64 = if basename_bonus {
            40
        } else {
            0
        };
        let session: i64 = match self.session_start {
            Some(start) => if row.last_visited >= start {
                30
            } else {
                0
            },
            None => 0,
        };
        Scored {
            path: row.path.clone(),
            score: fuzzy + (visits + recency + git + basename + shortness + session),
            fuzzy,
            visits,
            recency,
            git,
            basename,
            shortness,
            session,
            source: Source::History,
            matched_indices: indices,
        }
    }

    /// A history row given its lowercased name, what is looked for, lowercased,
    /// and what the matcher found.
    pub fn score_found(
        &self,
        row: &HistoryRow,
        name_lower: &str,
        sought_lower: &Vec<String>,
        found: Option<(i64, Vec<usize>)>,
    ) -> (r: Option<Scored>)
        requires
            found matches Some((fuzzy, _)) ==> score_fits(
                *self,
                *row,
                fuzzy as int,
                all_within(name_lower@, text::views(sought_lower@)),
            ),
        ensures
            scored_view(r) == found_scored(
                *self,
                *row,
                name_lower@,
                text::views(sought_lower@),
                widened(outside::match_view(found)),
            ),
    {
        match found {
            Some((fuzzy, indices)) => {
                let bonus: bool = holds_all(name_lower, sought_lower);
                Some(self.score_parts(row, fuzzy, bonus, indices))
            },
            None => None,
        }
    }

    /// Scores a history row for one query text.
    ///
    /// `query_lower` is the lowercased query, where the caller has it already.
    /// `fuzzy_score` stands in for the matcher's score where the row was matched
    /// by other means; without it the matcher decides.
    pub fn score_history(
        &self,
        row: &HistoryRow,
        query: &str,
        query_lower: Option<&str>,
        fuzzy_score: Option<i64>,
    ) -> (r: Option<Scored>)
        requires
            fuzzy_score is None ==> outside::matchable(row.path@.len(), query@.len()),
            fuzzy_score matches Some(fuzzy) ==> score_fits(
                *self,
                *row,
                fuzzy as int,
                all_within(
                    base_lower(row.path@),
                    seq![
                        match query_lower {
                            Some(lower) => lower@,
                            None => outside::lowercase(query@),
                        },
                    ],
                ),
            ),
        ensures
            scored_view(r) == history_scored(
                *self,
                *row,
                match query_lower {
                    Some(lower) => lower@,
                    None => outside::lowercase(query@),
                },
                match fuzzy_score {
                    Some(fuzzy) => Some((fuzzy, Seq::empty())),
                    None => outside::skim_match(row.path@, query@),
                },
            ),
            r is Some <==> fuzzy_score is Some || outside::is_match(row.path@, query@),
    {
        let found: Option<(i64, Vec<usize>)> = match fuzzy_score {
            Some(fuzzy) => Some((fuzzy, Vec::new())),
            None => outside::fuzzy_indices(row.path.as_str(), query),
        };
        let lower: String = match query_lower {
            Some(lower) => lower.to_string(),
            None => outside::to_lowercase(query),
        };
        let name: String = basename_lower(row.path.as_str());
        let mut sought: Vec<String> = Vec::new();
        sought.push(lower);
        assert(text::views(sought@) =~= seq![lower@]);
        self.score_found(row, name.as_str(), &sought, found)
    }

    /// Scores a row for a query of several tokens (`"foo bar"`): every token
    /// must match the path, and their scores are summed.
    pub fn score_multi_token(&self, row: &HistoryRow, tokens: &Vec<String>) -> (r: Option<Scored>)
        requires
            tokens@.len() <= MAX_TOKENS,
            forall|i: int|
                0 <= i < tokens@.len() ==> outside::matchable(
                    row.path@.len(),
                    (#[trigger] tokens@[i])@.len(),
                ),
        ensures
            scored_view(r) == multi_scored(*self, *row, text::views(tokens@)),
            r is Some <==> all_match(row.path@, text::views(tokens@)),
    {
        let found: Option<(i64, Vec<usize>)> = match_tokens(row.path.as_str(), tokens);
        let name: String = basename_lower(row.path.as_str());
        let sought: Vec<String> = lower_all(tokens);
        self.score_found(row, name.as_str(), &sought, found)
    }

    /// Scores a row for a plain query, as one text or by its words.
    pub fn score_row(&self, row: &HistoryRow, query: &str) -> (r: Option<Scored>)
        requires
            outside::matchable(row.path@.len(), query@.len()),
        ensures
            scored_view(r) == plain_scored(*self, *row, query@),
            r is Some <==> query_matches(row.path@, query@),
    {
        let tokens: Vec<String> = text::split_words(query);
        if tokens.len() > 1 {
            proof {
                lemma_tokens_matchable(row.path@.len(), query@, tokens@);
            }
            self.score_multi_token(row, &tokens)
        } else {
            self.score_history(row, query, None, None)
        }
    }

    /// Scores a bookmark: the query, or every word of it, must match the alias.
    pub fn score_bookmark(&self, alias: &str, path: &str, query: &str) -> (r: Option<Scored>)
        requires
            outside::matchable(alias@.len(), query@.len()),
        ensures
            scored_view(r) == alias_scored(path@, query_match(alias@, query@)),
            r is Some <==> query_matches(alias@, query@),
    {
        let tokens: Vec<String> = text::split_words(query);
        let found: Option<(i64, Vec<usize>)> = if tokens.len() > 1 {
            proof {
                lemma_tokens_matchable(alias@.len(), query@, tokens@);
            }
            match_tokens(alias, &tokens)
        } else {
            outside::fuzzy_indices(alias, query)
        };
        score_alias(path, found)
    }
}

proof fn lemma_tokens_matchable(choice: nat, query: Seq<char>, tokens: Seq<String>)
    requires
        outside::matchable(choice, query.len()),
        text::views(tokens) == text::words(query),
    ensures
        tokens.len() <= MAX_TOKENS,
        forall|i: int|
            0 <= i < tokens.len() ==> outside::matchable(choice, (#[trigger] tokens[i])@.len()),
{
    lemma_words_matchable(choice, query);
    assert forall|i: int| 0 <= i < tokens.len() implies outside::matchable(
        choice,
        (#[trigger] tokens[i])@.len(),
    ) by {
        assert(text::views(tokens)[i] == tokens[i]@);
    }
}

// ---------------------------------------------------------------------------
// Scoring the history
// ---------------------------------------------------------------------------

/// Whether a path is what a query looks for: it matches the regular expression,
/// as it stands or in lowercase, or else holds its text, both in lowercase.
pub open spec fn path_found(
    path_lower: Seq<char>,
    hit: bool,
    hit_lower: bool,
    pattern_lower: Seq<char>,
) -> bool {
    hit || hit_lower || text::contains(path_lower, pattern_lower)
}

/// Whether the filter of a query lets `path` pass.
pub open spec fn path_kept(query: Seq<char>, path: Seq<char>) -> bool {
    let (sought, is_regex, is_negation) = classified(query);
    let lower = outside::lowercase(path);
    path_found(
        lower,
        is_regex && pattern::regex_hits(sought, path),
        is_regex && pattern::regex_hits(sought, lower),
        outside::lowercase(sought),
    ) != is_negation
}

/// Whether a query filters rows rather than matching them.
pub open spec fn is_filter(query: Seq<char>) -> bool {
    classified(query).1 || classified(query).2
}

/// A history row scored for any query. A row that passes a filter has a fuzzy
/// score of zero.
pub open spec fn row_scored(scorer: Scorer, row: HistoryRow, query: Seq<char>) -> Option<
    ScoredView,
> {
    if !is_filter(query) {
        plain_scored(scorer, row, query)
    } else if path_kept(query, row.path@) {
        history_scored(
            scorer,
            row,
            outside::lowercase(classified(query).0),
            Some((0, Seq::empty())),
        )
    } else {
        None
    }
}

/// The rows that have a score, in the order of the history.
pub open spec fn batch_scored(scorer: Scorer, rows: Seq<HistoryRow>, query: Seq<char>) -> Seq<
    ScoredView,
>
    decreases rows.len(),
{
    if rows.len() == 0 {
        Seq::empty()
    } else {
        let before = batch_scored(scorer, rows.drop_last(), query);
        match row_scored(scorer, rows.last(), query) {
            Some(s) => before.push(s),
            None => before,
        }
    }
}

/// Whether a query, of whatever form, matches a path.
pub open spec fn path_accepted(path: Seq<char>, query: Seq<char>) -> bool {
    if is_filter(query) {
        path_kept(query, path)
    } else {
        query_matches(path, query)
    }
}

/// The paths of the rows that a query matches, in their order.
pub open spec fn accepted_paths(rows: Seq<HistoryRow>, query: Seq<char>) -> Seq<Seq<char>>
    decreases rows.len(),
{
    if rows.len() == 0 {
        Seq::empty()
    } else if path_accepted(rows.last().path@, query) {
        accepted_paths(rows.drop_last(), query).push(rows.last().path@)
    } else {
        accepted_paths(rows.drop_last(), query)
    }
}

/// The paths of candidates.
pub open spec fn scored_paths(list: Seq<ScoredView>) -> Seq<Seq<char>> {
    Seq::new(list.len(), |i: int| list[i].path)
}

/// Whether a path is what a query looks for, given what its regular expression
/// says of it as it stands and in lowercase; the path and the text of the query
/// in lowercase.
pub fn path_matches(path_lower: &str, hit: bool, hit_lower: bool, pattern_lower: &str) -> (r: bool)
    ensures
        r == path_found(path_lower@, hit, hit_lower, pattern_lower@),
{
    hit || hit_lower || text::has_text(path_lower, pattern_lower)
}

/// The lowercased paths of the rows.
fn lowered_paths(rows: &Vec<HistoryRow>) -> (r: Vec<String>)
    ensures
        r@.len() == rows@.len(),
        forall|i: int|
            0 <= i < r@.len() ==> (#[trigger] r@[i])@ == outside::lowercase(rows@[i].path@),
        forall|i: int|
            0 <= i < r@.len() ==> outside::is_lowered(rows@[i].path@, (#[trigger] r@[i])@),
{
    let mut r: Vec<String> = Vec::new();
    for i in 0..rows.len()
        invariant
            r@.len() == i,
            forall|j: int|
                0 <= j < i ==> (#[trigger] r@[j])@ == outside::lowercase(rows@[j].path@),
            forall|j: int|
                0 <= j < i ==> outside::is_lowered(rows@[j].path@, (#[trigger] r@[j])@),
    {
        r.push(outside::to_lowercase(rows[i].path.as_str()));
    }
    r
}

/// What a regular expression says of the path of each row, as it stands and in
/// lowercase.
fn row_hits(sought: &str, rows: &Vec<HistoryRow>, lowered: &Vec<String>) -> (r: Vec<(bool, bool)>)
    requires
        lowered@.len() == rows@.len(),
    ensures
        r@.len() == rows@.len(),
        forall|i: int|
            0 <= i < r@.len() ==> #[trigger] r@[i] == (
                pattern::regex_hits(sought@, rows@[i].path@),
                pattern::regex_hits(sought@, lowered@[i]@),
            ),
        forall|i: int|
            0 <= i < r@.len() && pattern::is_literal(sought@) ==> (((#[trigger] r@[i]).0
                ==> text::contains(rows@[i].path@, sought@)) && (r@[i].1 ==> text::contains(
                lowered@[i]@,
                sought@,
            ))),
{
    let mut texts: Vec<(&str, &str)> = Vec::new();
    for i in 0..rows.len()
        invariant
            lowered@.len() == rows@.len(),
            texts@.len() == i,
            forall|j: int|
                0 <= j < i ==> (#[trigger] texts@[j]).0@ == rows@[j].path@ && texts@[j].1@
                    == lowered@[j]@,
    {
        texts.push((rows[i].path.as_str(), lowered[i].as_str()));
    }
    let r: Vec<(bool, bool)> = pattern::find_hits(sought, &texts);
    assert(forall|i: int|
        0 <= i < texts@.len() ==> (#[trigger] texts@[i]).0@ == rows@[i].path@);
    r
}

/// Whether a path holds a text, whatever the case of the letters.
pub open spec fn holds_text(path: Seq<char>, sought: Seq<char>) -> bool {
    text::contains(outside::lowercase(path), outside::lowercase(sought))
}

/// The paths of the rows that hold a text, or of those that lack it, in their
/// order.
pub open spec fn paths_with(rows: Seq<HistoryRow>, sought: Seq<char>, held: bool) -> Seq<Seq<char>>
    decreases rows.len(),
{
    if rows.len() == 0 {
        Seq::empty()
    } else if holds_text(rows.last().path@, sought) == held {
        paths_with(rows.drop_last(), sought, held).push(rows.last().path@)
    } else {
        paths_with(rows.drop_last(), sought, held)
    }
}

/// Whether a query is a fragment of a path: it stands there as it is. What is
/// sought by a regular expression has to be ASCII, and a negation seeks nothing.
pub open spec fn is_fragment(path: Seq<char>, query: Seq<char>) -> bool {
    let (sought, is_regex, is_negation) = classified(query);
    &&& !is_negation
    &&& text::contains(path, sought)
    &&& is_regex ==> outside::is_ascii_text(sought)
}

/// A plain query matches the paths that it is a fragment of, as one text and
/// word by word.
pub proof fn law_fragment_found(path: Seq<char>, query: Seq<char>)
    requires
        is_fragment(path, query),
        !is_filter(query),
    ensures
        query_matches(path, query),
{
    law_classified(query);
    let words = text::words(query);
    if words.len() > 1 {
        assert forall|i: int| 0 <= i < words.len() implies outside::is_match(
            path,
            #[trigger] words[i],
        ) by {
            text::lemma_words_contained(query, Seq::empty(), i);
            assert(Seq::<char>::empty() + query =~= query);
            text::lemma_contains_within(path, query, words[i]);
            lemma_contained_matches(path, words[i]);
        }
    } else {
        lemma_contained_matches(path, query);
    }
}

proof fn lemma_contained_matches(path: Seq<char>, fragment: Seq<char>)
    requires
        text::contains(path, fragment),
    ensures
        outside::is_match(path, fragment),
{
    let i = choose|i: int| text::occurs_at(path, fragment, i);
    let pre = path.take(i);
    let post = path.skip(i + fragment.len());
    assert(path =~= pre + fragment + post);
    law_fragment_matches(pre, fragment, post);
}

proof fn lemma_accepted_listed(rows: Seq<HistoryRow>, query: Seq<char>, i: int)
    requires
        0 <= i < rows.len(),
        path_accepted(rows[i].path@, query),
    ensures
        accepted_paths(rows, query).contains(rows[i].path@),
    decreases rows.len(),
{
    let all = accepted_paths(rows, query);
    if i == rows.len() - 1 {
        assert(all[all.len() - 1] == rows[i].path@);
    } else {
        let init = rows.drop_last();
        lemma_accepted_listed(init, query, i);
        let before = accepted_paths(init, query);
        let k = choose|k: int| 0 <= k < before.len() && before[k] == init[i].path@;
        assert(all[k] == rows[i].path@);
    }
}

/// A word that stands in a path, or in the lowercased path, stands there in
/// lowercase.
proof fn lemma_literal_found(path: Seq<char>, sought: Seq<char>)
    requires
        pattern::is_literal(sought),
        outside::is_lowered(path, outside::lowercase(path)),
        outside::is_lowered(sought, outside::lowercase(sought)),
        text::contains(path, sought) || text::contains(outside::lowercase(path), sought),
    ensures
        holds_text(path, sought),
{
    let lower = outside::lowercase(path);
    assert(outside::is_ascii_text(sought));
    assert(outside::lowercase(sought) == outside::uncapitalized_text(sought));
    if !text::contains(path, sought) {
        let at = choose|i: int| text::occurs_at(lower, sought, i);
        assert forall|k: int| 0 <= k < sought.len() implies sought[k]
            == outside::uncapitalized_text(sought)[k] by {
            assert(lower.subrange(at, at + sought.len())[k] == lower[at + k]);
            assert(!outside::is_capital(lower[at + k]));
        }
        assert(sought =~= outside::uncapitalized_text(sought));
    }
}

/// Scores the rows of the history that match a query, and tells whether the
/// query was a filter.
pub fn score_history_batch(scorer: &Scorer, rows: &Vec<HistoryRow>, query: &str) -> (r: (
    Vec<Scored>,
    bool,
))
    requires
        forall|i: int|
            0 <= i < rows@.len() ==> outside::matchable(
                (#[trigger] rows@[i]).path@.len(),
                query@.len(),
            ),
    ensures
        scored_views(r.0@) == batch_scored(*scorer, rows@, query@),
        scored_paths(scored_views(r.0@)) == accepted_paths(rows@, query@),
        forall|i: int|
            0 <= i < rows@.len() ==> (row_scored(*scorer, #[trigger] rows@[i], query@) is Some
                <==> path_accepted(rows@[i].path@, query@)),
        forall|i: int|
            0 <= i < rows@.len() && is_fragment((#[trigger] rows@[i]).path@, query@)
                ==> scored_paths(scored_views(r.0@)).contains(rows@[i].path@),
        classified(query@).1 && pattern::is_literal(classified(query@).0) ==> scored_paths(
            scored_views(r.0@),
        ) == paths_with(rows@, classified(query@).0, true),
        classified(query@).2 ==> scored_paths(scored_views(r.0@)) == paths_with(
            rows@,
            classified(query@).0,
            false,
        ),
        r.1 == is_filter(query@),
{
    let (effective, is_regex, is_negation) = classify_query(query);
    let filter: bool = is_regex || is_negation;
    let query_lower: String = outside::to_lowercase(query);
    let effective_lower: String = outside::to_lowercase(effective);
    let tokens: Vec<String> = text::split_words(query);
    let lowered_rows: Vec<String> = if filter {
        lowered_paths(rows)
    } else {
        Vec::new()
    };
    let hits: Vec<(bool, bool)> = if is_regex {
        row_hits(effective, rows, &lowered_rows)
    } else {
        Vec::new()
    };
    let mut scored: Vec<Scored> = Vec::new();
    assert(rows@.take(0) =~= Seq::<HistoryRow>::empty());
    assert(scored_views(scored@) =~= Seq::<ScoredView>::empty());
    assert(scored_paths(scored_views(scored@)) =~= Seq::<Seq<char>>::empty());
    for i in 0..rows.len()
        invariant
            forall|j: int|
                0 <= j < rows@.len() ==> outside::matchable(
                    (#[trigger] rows@[j]).path@.len(),
                    query@.len(),
                ),
            (effective@, is_regex, is_negation) == classified(query@),
            filter == (is_regex || is_negation),
            query_lower@ == outside::lowercase(query@),
            effective_lower@ == outside::lowercase(effective@),
            text::views(tokens@) == text::words(query@),
            filter ==> lowered_rows@.len() == rows@.len(),
            forall|j: int|
                0 <= j < lowered_rows@.len() ==> (#[trigger] lowered_rows@[j])@ == outside::lowercase(
                    rows@[j].path@,
                ),
            forall|j: int|
                0 <= j < lowered_rows@.len() ==> outside::is_lowered(
                    rows@[j].path@,
                    (#[trigger] lowered_rows@[j])@,
                ),
            outside::is_lowered(effective@, effective_lower@),
            is_regex ==> hits@.len() == rows@.len(),
            forall|j: int|
                0 <= j < hits@.len() ==> #[trigger] hits@[j] == (
                    pattern::regex_hits(effective@, rows@[j].path@),
                    pattern::regex_hits(effective@, lowered_rows@[j]@),
                ),
            forall|j: int|
                0 <= j < hits@.len() && pattern::is_literal(effective@) ==> (((
                #[trigger] hits@[j]).0 ==> text::contains(rows@[j].path@, effective@)) && (
                hits@[j].1 ==> text::contains(lowered_rows@[j]@, effective@))),
            scored_views(scored@) == batch_scored(*scorer, rows@.take(i as int), query@),
            scored_paths(scored_views(scored@)) == accepted_paths(rows@.take(i as int), query@),
            forall|j: int|
                0 <= j < i ==> (row_scored(*scorer, #[trigger] rows@[j], query@) is Some
                    <==> path_accepted(rows@[j].path@, query@)),
            is_regex && pattern::is_literal(effective@) ==> scored_paths(scored_views(scored@))
                == paths_with(rows@.take(i as int), effective@, true),
            is_negation ==> scored_paths(scored_views(scored@)) == paths_with(
                rows@.take(i as int),
                effective@,
                false,
            ),
    {
        let row: &HistoryRow = &rows[i];
        proof {
            assert(rows@.take(i + 1).drop_last() =~= rows@.take(i as int));
            assert(rows@.take(i + 1).last() == rows@[i as int]);
        }
        let one: Option<Scored> = if filter {
            let hit: bool = is_regex && hits[i].0;
            let hit_lower: bool = is_regex && hits[i].1;
            proof {
                assert(lowered_rows@[i as int]@ == outside::lowercase(row.path@));
                if pattern::is_literal(effective@) && (hit || hit_lower) {
                    assert(hits@[i as int].0 == hit);
                    lemma_literal_found(row.path@, effective@);
                }
            }
            if path_matches(
                lowered_rows[i].as_str(),
                hit,
                hit_lower,
                effective_lower.as_str(),
            ) != is_negation {
                scorer.score_history(row, effective, Some(effective_lower.as_str()), Some(0))
            } else {
                None
            }
        } else if tokens.len() > 1 {
            proof {
                lemma_tokens_matchable(row.path@.len(), query@, tokens@);
            }
            scorer.score_multi_token(row, &tokens)
        } else {
            scorer.score_history(row, query, Some(query_lower.as_str()), None)
        };
        let ghost before = scored@;
        match one {
            Some(s) => {
                scored.push(s);
                proof {
                    assert(scored_views(scored@) =~= scored_views(before).push(s@));
                    assert(scored_paths(scored_views(scored@)) =~= scored_paths(
                        scored_views(before),
                    ).push(row.path@));
                }
            },
            None => {},
        }
    }
    proof {
        assert(rows@.take(rows@.len() as int) =~= rows@);
        assert forall|i: int|
            0 <= i < rows@.len() && is_fragment(
                (#[trigger] rows@[i]).path@,
                query@,
            ) implies scored_paths(scored_views(scored@)).contains(rows@[i].path@) by {
            let path = rows@[i].path@;
            if filter {
                assert(lowered_rows@[i]@ == outside::lowercase(path));
                assert(outside::is_lowered(path, lowered_rows@[i]@));
                assert(text::contains(path, effective@));
                assert(effective_lower@ == outside::uncapitalized_text(effective@));
            } else {
                law_fragment_found(path, query@);
            }
            lemma_accepted_listed(rows@, query@, i);
        }
    }
    (scored, filter)
}

// ---------------------------------------------------------------------------
// Laws
// ---------------------------------------------------------------------------

/// The points for visits are twenty times their square root, rounded down, and
/// never more than 100.
pub proof fn law_visit_points(visits: int)
    requires
        visits >= 0,
    ensures
        0 <= visit_points(visits) <= 100,
        visit_points(visits) * visit_points(visits) <= 400 * visits,
        visit_points(visits) < 100 ==> (visit_points(visits) + 1) * (visit_points(visits) + 1)
            > 400 * visits,
{
    lemma_root_within(400 * visits, 100);
}

proof fn lemma_root_within(n: int, k: nat)
    requires
        n >= 0,
    ensures
        root_within(n, k) <= k,
        root_within(n, k) * root_within(n, k) <= n,
        root_within(n, k) < k ==> (root_within(n, k) + 1) * (root_within(n, k) + 1) > n,
    decreases k,
{
    if k == 0 {
        assert(k * k == 0) by (nonlinear_arith)
            requires
                k == 0,
        ;
    } else if k * k > n {
        lemma_root_within(n, (k - 1) as nat);
    }
}

/// More visits never bring fewer points.
pub proof fn law_visits_ordered(fewer: int, more: int)
    requires
        0 <= fewer <= more,
    ensures
        visit_points(fewer) <= visit_points(more),
{
    law_visit_points(fewer);
    law_visit_points(more);
    let a = visit_points(fewer);
    let b = visit_points(more);
    if b < a {
        assert((b + 1) * (b + 1) <= a * a) by (nonlinear_arith)
            requires
                0 <= b < a,
        ;
    }
}

/// A later visit never brings fewer points.
pub proof fn law_recency_ordered(younger: int, older: int)
    requires
        younger <= older,
    ensures
        recency_points(younger) >= recency_points(older),
{
}

/// A path that lies deeper never brings more points.
pub proof fn law_shortness_ordered(shallow: int, deep: int)
    requires
        1 <= shallow <= deep,
    ensures
        shortness_points(shallow) >= shortness_points(deep),
{
    assert(50int / shallow >= 50int / deep) by (nonlinear_arith)
        requires
            1 <= shallow <= deep,
    ;
}

/// The score of a history row is the sum of its components, each of which keeps
/// to its range; the path and the matched indices are those that were given.
pub proof fn law_score_is_sum(
    scorer: Scorer,
    row: HistoryRow,
    fuzzy: int,
    basename_bonus: bool,
    indices: Seq<usize>,
)
    ensures
        ({
            let s = history_score(scorer, row, fuzzy, basename_bonus, indices);
            &&& s.score == s.fuzzy + s.visits + s.recency + s.git + s.basename + s.shortness
                + s.session
            &&& s.fuzzy == fuzzy
            &&& 0 <= s.visits <= 100
            &&& s.recency == 45 || s.recency == 30 || s.recency == 15 || s.recency == 7
            &&& s.git == if row.is_git_repo {
                30int
            } else {
                0int
            }
            &&& s.basename == if basename_bonus {
                40int
            } else {
                0int
            }
            &&& 5 <= s.shortness <= 50
            &&& s.session == 0 || s.session == 30
            &&& fuzzy + 12 <= s.score <= fuzzy + MAX_BONUS
            &&& s.path == row.path@
            &&& s.matched_indices == indices
        }),
{
    if row.visits >= 0 {
        law_visit_points(row.visits as int);
    }
    let d = depth(row.path@);
    assert(50int / d <= 50) by (nonlinear_arith)
        requires
            d >= 1,
    ;
}

/// A score fits in an `i64` exactly where it is no more than the greatest one.
pub proof fn law_score_fits(
    scorer: Scorer,
    row: HistoryRow,
    fuzzy: int,
    basename_bonus: bool,
    indices: Seq<usize>,
)
    ensures
        score_fits(scorer, row, fuzzy, basename_bonus) <==> history_score(
            scorer,
            row,
            fuzzy,
            basename_bonus,
            indices,
        ).score <= i64::MAX,
{
    law_score_is_sum(scorer, row, fuzzy, basename_bonus, indices);
}

/// Of two rows that match a query equally well, one that was visited later and
/// more often, lies no deeper and is a repository if the other is, never ranks
/// below the other.
pub proof fn law_better_row_scores_higher(
    scorer: Scorer,
    better: HistoryRow,
    worse: HistoryRow,
    fuzzy: int,
    basename_bonus: bool,
    indices: Seq<usize>,
)
    requires
        better.last_visited >= worse.last_visited,
        better.visits >= worse.visits >= 0,
        depth(better.path@) <= depth(worse.path@),
        worse.is_git_repo ==> better.is_git_repo,
    ensures
        history_score(scorer, better, fuzzy, basename_bonus, indices).score >= history_score(
            scorer,
            worse,
            fuzzy,
            basename_bonus,
            indices,
        ).score,
{
    law_visits_ordered(worse.visits as int, better.visits as int);
    law_recency_ordered(scorer.now - better.last_visited, scorer.now - worse.last_visited);
    law_shortness_ordered(depth(better.path@), depth(worse.path@));
}

/// A visit in the present session is worth exactly 30 points.
pub proof fn law_session_bonus(
    scorer: Scorer,
    start: i64,
    row: HistoryRow,
    fuzzy: int,
    basename_bonus: bool,
    indices: Seq<usize>,
)
    ensures
        ({
            let inside = Scorer { now: scorer.now, session_start: Some(start) };
            let outside = Scorer { now: scorer.now, session_start: None };
            history_score(inside, row, fuzzy, basename_bonus, indices).score == history_score(
                outside,
                row,
                fuzzy,
                basename_bonus,
                indices,
            ).score + if row.last_visited >= start {
                30int
            } else {
                0int
            }
        }),
{
}

/// Matches combine exactly where each of them is there.
pub proof fn law_combined(found: Seq<Option<(i64, Seq<usize>)>>)
    ensures
        combined(found) is Some <==> forall|i: int|
            0 <= i < found.len() ==> (#[trigger] found[i]) is Some,
    decreases found.len(),
{
    if found.len() > 0 {
        let init = found.drop_last();
        law_combined(init);
        if combined(found) is Some {
            assert forall|i: int| 0 <= i < found.len() implies (#[trigger] found[i]) is Some by {
                if i < init.len() {
                    assert(init[i] == found[i]);
                }
            }
        }
        if forall|i: int| 0 <= i < found.len() ==> (#[trigger] found[i]) is Some {
            assert forall|i: int| 0 <= i < init.len() implies (#[trigger] init[i]) is Some by {
                assert(init[i] == found[i]);
            }
            assert(found[found.len() - 1] is Some);
        }
    }
}

/// All words must match: a query of several words matches a row exactly where
/// each of the words does.
pub proof fn law_all_words_must_match(scorer: Scorer, row: HistoryRow, query: Seq<char>)
    requires
        text::words(query).len() > 1,
    ensures
        plain_scored(scorer, row, query) is Some <==> forall|i: int|
            0 <= i < text::words(query).len() ==> outside::skim_match(
                row.path@,
                #[trigger] text::words(query)[i],
            ) is Some,
{
    let words = text::words(query);
    let found = token_matches(row.path@, words);
    law_combined(found);
    if plain_scored(scorer, row, query) is Some {
        assert forall|i: int| 0 <= i < words.len() implies outside::skim_match(
            row.path@,
            #[trigger] words[i],
        ) is Some by {
            assert(found[i] is Some);
        }
    }
}

/// A history row scored for one token alone.
pub open spec fn token_scored(scorer: Scorer, row: HistoryRow, token: Seq<char>) -> Option<
    ScoredView,
> {
    history_scored(
        scorer,
        row,
        outside::lowercase(token),
        outside::skim_match(row.path@, token),
    )
}

/// The fuzzy scores of a row for each of the tokens alone, added up.
pub open spec fn fuzzy_sum(scorer: Scorer, row: HistoryRow, tokens: Seq<Seq<char>>) -> int
    decreases tokens.len(),
{
    if tokens.len() == 0 {
        0
    } else {
        fuzzy_sum(scorer, row, tokens.drop_last()) + match token_scored(
            scorer,
            row,
            tokens.last(),
        ) {
            Some(s) => s.fuzzy,
            None => 0,
        }
    }
}

proof fn lemma_combined_sum(scorer: Scorer, row: HistoryRow, tokens: Seq<Seq<char>>)
    ensures
        combined(token_matches(row.path@, tokens)) matches Some((score, _)) ==> score == fuzzy_sum(
            scorer,
            row,
            tokens,
        ),
    decreases tokens.len(),
{
    if tokens.len() > 0 {
        let init = tokens.drop_last();
        lemma_combined_sum(scorer, row, init);
        assert(token_matches(row.path@, tokens).drop_last() =~= token_matches(row.path@, init));
    }
}

/// A row has a score for several tokens exactly where it has one for each of
/// them. Its fuzzy score is the sum of theirs, and its name has the bonus where
/// it holds every token, whatever the case of the letters.
pub proof fn law_tokens_add_up(scorer: Scorer, row: HistoryRow, tokens: Seq<Seq<char>>)
    ensures
        multi_scored(scorer, row, tokens) is Some <==> forall|i: int|
            0 <= i < tokens.len() ==> token_scored(scorer, row, #[trigger] tokens[i]) is Some,
        multi_scored(scorer, row, tokens) matches Some(s) ==> s.fuzzy == fuzzy_sum(
            scorer,
            row,
            tokens,
        ),
        multi_scored(scorer, row, tokens) matches Some(s) ==> s.basename == (if (forall|i: int|
            0 <= i < tokens.len() ==> text::contains(
                base_lower(row.path@),
                outside::lowercase(#[trigger] tokens[i]),
            )) {
            40int
        } else {
            0int
        }),
{
    let found = token_matches(row.path@, tokens);
    law_combined(found);
    lemma_combined_sum(scorer, row, tokens);
    if multi_scored(scorer, row, tokens) is Some {
        assert forall|i: int| 0 <= i < tokens.len() implies token_scored(
            scorer,
            row,
            #[trigger] tokens[i],
        ) is Some by {
            assert(found[i] is Some);
        }
    }
    if forall|i: int|
        0 <= i < tokens.len() ==> token_scored(scorer, row, #[trigger] tokens[i]) is Some {
        assert forall|i: int| 0 <= i < found.len() implies (#[trigger] found[i]) is Some by {
            assert(token_scored(scorer, row, tokens[i]) is Some);
        }
    }
    let lower = lowered(tokens);
    let base = base_lower(row.path@);
    if all_within(base, lower) {
        assert forall|i: int| 0 <= i < tokens.len() implies text::contains(
            base,
            outside::lowercase(#[trigger] tokens[i]),
        ) by {
            assert(text::contains(base, lower[i]));
        }
    }
    if forall|i: int|
        0 <= i < tokens.len() ==> text::contains(base, outside::lowercase(#[trigger] tokens[i])) {
        assert forall|i: int| 0 <= i < lower.len() implies text::contains(
            base,
            #[trigger] lower[i],
        ) by {
            assert(text::contains(base, outside::lowercase(tokens[i])));
        }
    }
}

/// A token's fuzzy score can be taken out of the sum, wherever it stands.
proof fn lemma_sum_without(scorer: Scorer, row: HistoryRow, tokens: Seq<Seq<char>>, at: int)
    requires
        0 <= at < tokens.len(),
    ensures
        fuzzy_sum(scorer, row, tokens) == fuzzy_sum(scorer, row, tokens.remove(at)) + fuzzy_sum(
            scorer,
            row,
            seq![tokens[at]],
        ),
    decreases tokens.len(),
{
    reveal_with_fuel(fuzzy_sum, 2);
    let init = tokens.drop_last();
    assert(seq![tokens[at]].drop_last() =~= Seq::<Seq<char>>::empty());
    if at == tokens.len() - 1 {
        assert(tokens.remove(at) =~= init);
    } else {
        lemma_sum_without(scorer, row, init, at);
        assert(tokens.remove(at).drop_last() =~= init.remove(at));
        assert(tokens.remove(at).last() == tokens.last());
    }
}

proof fn lemma_sum_any_order(
    scorer: Scorer,
    row: HistoryRow,
    tokens: Seq<Seq<char>>,
    other: Seq<Seq<char>>,
)
    requires
        tokens.to_multiset() == other.to_multiset(),
    ensures
        fuzzy_sum(scorer, row, tokens) == fuzzy_sum(scorer, row, other),
    decreases tokens.len(),
{
    tokens.to_multiset_ensures();
    other.to_multiset_ensures();
    if tokens.len() > 0 {
        let last = tokens.len() - 1;
        let token = tokens[last];
        assert(tokens.contains(token));
        assert(other.to_multiset().count(token) > 0);
        assert(other.contains(token));
        let at = choose|i: int| 0 <= i < other.len() && other[i] == token;
        lemma_sum_without(scorer, row, tokens, last);
        lemma_sum_without(scorer, row, other, at);
        assert(tokens.remove(last).to_multiset() =~= other.remove(at).to_multiset());
        lemma_sum_any_order(scorer, row, tokens.remove(last), other.remove(at));
    }
}

/// The order of the tokens is of no account: the same tokens in another order
/// find the same rows, with the same score and components. The matched
/// characters come in the order of the tokens.
pub proof fn law_token_order(
    scorer: Scorer,
    row: HistoryRow,
    tokens: Seq<Seq<char>>,
    other: Seq<Seq<char>>,
)
    requires
        tokens.to_multiset() == other.to_multiset(),
    ensures
        match (multi_scored(scorer, row, tokens), multi_scored(scorer, row, other)) {
            (Some(s), Some(t)) => s.score == t.score && t == (ScoredView {
                matched_indices: t.matched_indices,
                ..s
            }),
            (None, None) => true,
            _ => false,
        },
{
    law_tokens_add_up(scorer, row, tokens);
    law_tokens_add_up(scorer, row, other);
    lemma_sum_any_order(scorer, row, tokens, other);
    tokens.to_multiset_ensures();
    other.to_multiset_ensures();
    assert forall|i: int| 0 <= i < tokens.len() implies other.contains(#[trigger] tokens[i]) by {
        assert(tokens.contains(tokens[i]));
        assert(tokens.to_multiset().count(tokens[i]) > 0);
        assert(other.to_multiset().count(tokens[i]) > 0);
    }
    assert forall|i: int| 0 <= i < other.len() implies tokens.contains(#[trigger] other[i]) by {
        assert(other.contains(other[i]));
        assert(other.to_multiset().count(other[i]) > 0);
        assert(tokens.to_multiset().count(other[i]) > 0);
    }
}

/// A pattern between slashes is a regular expression.
pub proof fn law_slashes_make_regex(pattern: Seq<char>)
    requires
        pattern.len() > 0,
    ensures
        classified(seq!['/'] + pattern + seq!['/']) == (pattern, true, false),
{
    let query = seq!['/'] + pattern + seq!['/'];
    let stripped = query.skip(1);
    assert(stripped =~= pattern + seq!['/']);
    assert(stripped.len() != seq!['/'].len());
    assert(stripped.drop_last() =~= pattern);
}

/// A pattern behind an exclamation mark is excluded, unless it is a lone slash.
pub proof fn law_bang_negates(pattern: Seq<char>)
    requires
        pattern.len() > 0,
        pattern != seq!['/'],
    ensures
        classified(seq!['!'] + pattern) == (pattern, false, true),
{
    assert((seq!['!'] + pattern).skip(1) =~= pattern);
}

/// A query is a regular expression, a negation or plain; in the first two cases
/// there is a pattern, and in the last the query is searched for as it stands.
pub proof fn law_classified(query: Seq<char>)
    ensures
        ({
            let (sought, is_regex, is_negation) = classified(query);
            &&& !(is_regex && is_negation)
            &&& (is_regex || is_negation) ==> sought.len() > 0
            &&& !is_regex && !is_negation ==> sought == query
        }),
{
    let stripped = query.skip(1);
    if query.len() > 0 && stripped.len() == 1 && stripped.last() == '/' {
        assert(stripped =~= seq!['/']);
    }
}

/// A negation keeps exactly the paths that do not hold its pattern, whatever the
/// case of the letters.
pub proof fn law_negation_excludes(pattern: Seq<char>, path: Seq<char>)
    requires
        pattern.len() > 0,
        pattern != seq!['/'],
    ensures
        path_kept(seq!['!'] + pattern, path) <==> !text::contains(
            outside::lowercase(path),
            outside::lowercase(pattern),
        ),
{
    law_bang_negates(pattern);
}

/// A regular expression keeps every path that it matches, as it stands or in
/// lowercase.
pub proof fn law_regex_keeps_hits(pattern: Seq<char>, path: Seq<char>)
    requires
        pattern.len() > 0,
        pattern::regex_hits(pattern, path) || pattern::regex_hits(
            pattern,
            outside::lowercase(path),
        ),
    ensures
        path_kept(seq!['/'] + pattern + seq!['/'], path),
{
    law_slashes_make_regex(pattern);
}

/// A plain word behind a slash is a regular expression, and behind an exclamation
/// mark a negation.
pub proof fn law_literal_filters(pattern: Seq<char>)
    requires
        pattern::is_literal(pattern),
    ensures
        classified(seq!['/'] + pattern) == (pattern, true, false),
        classified(seq!['!'] + pattern) == (pattern, false, true),
{
    let query = seq!['/'] + pattern;
    assert(query.skip(1) =~= pattern);
    assert(pattern::is_alphanumeric(pattern[pattern.len() - 1]));
    assert(pattern::is_alphanumeric(pattern[0]));
    assert(pattern != seq!['/']);
    law_bang_negates(pattern);
}

/// The rows that hold a text and those that lack it are all the rows.
pub proof fn law_rows_parted(rows: Seq<HistoryRow>, sought: Seq<char>)
    ensures
        paths_with(rows, sought, true).len() + paths_with(rows, sought, false).len() == rows.len(),
    decreases rows.len(),
{
    if rows.len() > 0 {
        law_rows_parted(rows.drop_last(), sought);
    }
}

/// A filter only lets rows pass: none has a fuzzy score or matched characters.
pub proof fn law_filter_is_neutral(scorer: Scorer, rows: Seq<HistoryRow>, query: Seq<char>)
    requires
        is_filter(query),
    ensures
        forall|i: int|
            0 <= i < batch_scored(scorer, rows, query).len() ==> (#[trigger] batch_scored(
                scorer,
                rows,
                query,
            )[i]).fuzzy == 0,
        forall|i: int|
            0 <= i < batch_scored(scorer, rows, query).len() ==> (#[trigger] batch_scored(
                scorer,
                rows,
                query,
            )[i]).matched_indices.len() == 0,
    decreases rows.len(),
{
    if rows.len() > 0 {
        law_filter_is_neutral(scorer, rows.drop_last(), query);
    }
}

/// A batch holds the score of every row that has one, and no other.
pub proof fn law_batch_is_complete(
    scorer: Scorer,
    rows: Seq<HistoryRow>,
    query: Seq<char>,
    s: ScoredView,
)
    ensures
        batch_scored(scorer, rows, query).len() <= rows.len(),
        batch_scored(scorer, rows, query).contains(s) <==> exists|i: int|
            0 <= i < rows.len() && row_scored(scorer, #[trigger] rows[i], query) == Some(s),
    decreases rows.len(),
{
    let all = batch_scored(scorer, rows, query);
    if rows.len() > 0 {
        let init = rows.drop_last();
        let before = batch_scored(scorer, init, query);
        law_batch_is_complete(scorer, init, query, s);
        if all.contains(s) {
            let k = choose|k: int| 0 <= k < all.len() && all[k] == s;
            if k < before.len() {
                assert(before[k] == s);
                assert(before.contains(s));
                let i = choose|i: int|
                    0 <= i < init.len() && row_scored(scorer, #[trigger] init[i], query) == Some(s);
                assert(rows[i] == init[i]);
            } else {
                assert(row_scored(scorer, rows[rows.len() - 1], query) == Some(s));
            }
        }
        if exists|i: int|
            0 <= i < rows.len() && row_scored(scorer, #[trigger] rows[i], query) == Some(s) {
            let i = choose|i: int|
                0 <= i < rows.len() && row_scored(scorer, #[trigger] rows[i], query) == Some(s);
            if i < init.len() {
                assert(init[i] == rows[i]);
                assert(before.contains(s));
                let k = choose|k: int| 0 <= k < before.len() && before[k] == s;
                assert(all[k] == s);
            } else {
                assert(all[all.len() - 1] == s);
            }
        }
    }
}

/// Batches of rows in a row are the batches of each, in the same order.
pub proof fn law_batch_keeps_order(
    scorer: Scorer,
    a: Seq<HistoryRow>,
    b: Seq<HistoryRow>,
    query: Seq<char>,
)
    ensures
        batch_scored(scorer, a + b, query) == batch_scored(scorer, a, query) + batch_scored(
            scorer,
            b,
            query,
        ),
    decreases b.len(),
{
    if b.len() == 0 {
        assert(a + b =~= a);
        assert(batch_scored(scorer, b, query) =~= Seq::empty());
    } else {
        law_batch_keeps_order(scorer, a, b.drop_last(), query);
        assert((a + b).drop_last() =~= a + b.drop_last());
        assert((a + b).last() == b.last());
    }
    assert(batch_scored(scorer, a + b, query) =~= batch_scored(scorer, a, query) + batch_scored(
        scorer,
        b,
        query,
    ));
}

/// In a batch for a plain query a row scores as it does on its own.
pub proof fn law_batch_scores_alone(scorer: Scorer, row: HistoryRow, query: Seq<char>)
    requires
        !is_filter(query),
    ensures
        row_scored(scorer, row, query) == plain_scored(scorer, row, query),
{
}

/// A match is not lost by a character before it.
proof fn lemma_longer_choice(c: char, choice: Seq<char>, pattern: Seq<char>, exact: bool)
    requires
        outside::stands_in(choice, pattern, exact),
    ensures
        outside::stands_in(seq![c] + choice, pattern, exact),
    decreases choice.len(), 1nat,
{
    let longer = seq![c] + choice;
    assert(longer.drop_first() =~= choice);
    if pattern.len() > 0 {
        lemma_shorter_pattern(choice, pattern, exact);
    }
}

/// What matches does so without its first character.
proof fn lemma_shorter_pattern(choice: Seq<char>, pattern: Seq<char>, exact: bool)
    requires
        pattern.len() > 0,
        outside::stands_in(choice, pattern, exact),
    ensures
        outside::stands_in(choice, pattern.drop_first(), exact),
    decreases choice.len(), 0nat,
{
    if choice.len() > 0 {
        let rest = choice.drop_first();
        assert(seq![choice[0]] + rest =~= choice);
        if outside::stands_in(rest, pattern.drop_first(), exact) {
            lemma_longer_choice(choice[0], rest, pattern.drop_first(), exact);
        } else {
            lemma_shorter_pattern(rest, pattern, exact);
        }
    }
}

/// A text matches what begins with it.
proof fn lemma_prefix_matches(pattern: Seq<char>, post: Seq<char>, exact: bool)
    ensures
        outside::stands_in(pattern + post, pattern, exact),
    decreases pattern.len(),
{
    if pattern.len() > 0 {
        lemma_prefix_matches(pattern.drop_first(), post, exact);
        assert((pattern + post).drop_first() =~= pattern.drop_first() + post);
    }
}

proof fn lemma_suffix_matches(pre: Seq<char>, choice: Seq<char>, pattern: Seq<char>, exact: bool)
    requires
        outside::stands_in(choice, pattern, exact),
    ensures
        outside::stands_in(pre + choice, pattern, exact),
    decreases pre.len(),
{
    if pre.len() == 0 {
        assert(pre + choice =~= choice);
    } else {
        lemma_suffix_matches(pre.drop_first(), choice, pattern, exact);
        lemma_longer_choice(pre[0], pre.drop_first() + choice, pattern, exact);
        assert(seq![pre[0]] + (pre.drop_first() + choice) =~= pre + choice);
    }
}

/// A fragment of a path matches it, wherever it stands there.
pub proof fn law_fragment_matches(pre: Seq<char>, fragment: Seq<char>, post: Seq<char>)
    ensures
        outside::is_match(pre + fragment + post, fragment),
{
    let exact = exists|i: int|
        0 <= i < fragment.len() && outside::is_capital(#[trigger] fragment[i]);
    lemma_prefix_matches(fragment, post, exact);
    lemma_suffix_matches(pre, fragment + post, fragment, exact);
    assert(pre + fragment + post =~= pre + (fragment + post));
}

/// An empty query matches every path.
pub proof fn law_empty_query_matches(path: Seq<char>)
    ensures
        query_matches(path, Seq::empty()),
{
    assert(text::words(Seq::empty()).len() == 0);
}

/// A visit within the last day brings 45 points, one within a week 30, within a
/// month of thirty days 15, and an older one 7.
pub proof fn law_recency_points(age: int)
    ensures
        age < 86_400_000_000_000 ==> recency_points(age) == 45,
        86_400_000_000_000 <= age < 604_800_000_000_000 ==> recency_points(age) == 30,
        604_800_000_000_000 <= age < 2_592_000_000_000_000 ==> recency_points(age) == 15,
        age >= 2_592_000_000_000_000 ==> recency_points(age) == 7,
{
}

/// Every slash of a path makes it one deeper, and the least depth is one.
pub proof fn law_depth_counts(a: Seq<char>, b: Seq<char>)
    ensures
        occurrences(a + b, '/') == occurrences(a, '/') + occurrences(b, '/'),
        occurrences(seq!['/'], '/') == 1,
        !b.contains('/') ==> occurrences(b, '/') == 0,
        occurrences(a, '/') >= 1 ==> depth(a) == occurrences(a, '/'),
        occurrences(a, '/') == 0 ==> depth(a) == 1,
    decreases b.len(),
{
    reveal_with_fuel(occurrences, 2);
    assert(seq!['/'].drop_last() =~= Seq::empty());
    if b.len() == 0 {
        assert(a + b =~= a);
    } else {
        law_depth_counts(a, b.drop_last());
        assert((a + b).drop_last() =~= a + b.drop_last());
        if !b.contains('/') {
            assert(b.contains(b[b.len() - 1]));
            assert forall|c: char| b.drop_last().contains(c) implies b.contains(c) by {
                let k = choose|k: int| 0 <= k < b.drop_last().len() && b.drop_last()[k] == c;
                assert(b[k] == c);
            }
        }
    }
}

/// Fifty points are shared by the levels of a path, rounded down, as long as it
/// is no deeper than ten, and five are left to a deeper one.
pub proof fn law_shortness_points(depth: int)
    requires
        depth >= 1,
    ensures
        depth <= 10 ==> shortness_points(depth) * depth <= 50 < (shortness_points(depth) + 1)
            * depth,
        depth >= 10 ==> shortness_points(depth) == 5,
{
    let q = 50int / depth;
    assert(q * depth <= 50 < (q + 1) * depth) by (nonlinear_arith)
        requires
            depth >= 1,
            q == 50int / depth,
    ;
    if depth <= 10 {
        assert(q >= 5) by (nonlinear_arith)
            requires
                1 <= depth <= 10,
                50 < (q + 1) * depth,
        ;
    }
    if depth >= 10 {
        assert(q <= 5) by (nonlinear_arith)
            requires
                depth >= 10,
                q * depth <= 50,
        ;
    }
}

/// Whether a text can be the name of a directory.
pub open spec fn is_name(name: Seq<char>) -> bool {
    &&& name.len() > 0
    &&& !name.contains('/')
    &&& name != seq!['.']
    &&& name != seq!['.', '.']
}

proof fn lemma_named(path: Seq<char>, n: int, name: Seq<char>)
    requires
        is_name(name),
        0 <= n <= path.len(),
        n == 0 || path[n - 1] == '/',
        path.skip(n) == name,
    ensures
        file_name(path) == Some(name),
{
    assert forall|i: int| n <= i < path.len() implies #[trigger] path[i] != '/' by {
        assert(path.skip(n)[i - n] == path[i]);
        assert(name.contains(name[i - n]));
    }
    lemma_last_segment(path, n);
    assert(path.len() > 0);
}

/// The name of a directory is all that follows the last slash of its path.
pub proof fn law_name_of_path(parent: Seq<char>, name: Seq<char>)
    requires
        is_name(name),
    ensures
        file_name(parent + seq!['/'] + name) == Some(name),
        file_name(name) == Some(name),
        base_lower(parent + seq!['/'] + name) == outside::lowercase(name),
        base_lower(name) == outside::lowercase(name),
{
    let path = parent + seq!['/'] + name;
    let n = parent.len() as int + 1;
    assert(path.skip(n) =~= name);
    assert(path[n - 1] == '/');
    assert(name.skip(0) =~= name);
    lemma_named(path, n, name);
    lemma_named(name, 0, name);
}

/// A slash at the end of a path, or a step to the same directory, does not
/// change the name; a step to the parent leaves none, and the root has none.
pub proof fn law_steps_in_path(path: Seq<char>)
    ensures
        file_name(path + seq!['/']) == file_name(path),
        file_name(path + seq!['/', '.']) == file_name(path),
        file_name(path + seq!['/', '.', '.']) is None,
        file_name(Seq::empty()) is None,
        base_lower(path + seq!['/']) == base_lower(path),
        file_name(path) is None ==> base_lower(path) == Seq::<char>::empty(),
{
    let slash = path + seq!['/'];
    assert(slash.drop_last() =~= path);
    assert(last_segment(slash) =~= Seq::empty());
    assert(file_name(slash) == file_name(path));
    let n = path.len() as int + 1;
    let dot = path + seq!['/', '.'];
    lemma_last_segment(dot, n);
    assert(dot.skip(n) =~= seq!['.']);
    assert(dot.take(dot.len() - 1) =~= slash);
    let dots = path + seq!['/', '.', '.'];
    lemma_last_segment(dots, n);
    assert(dots.skip(n) =~= seq!['.', '.']);
    assert(seq!['.', '.'].len() == 2);
}

/// What a query asks for follows from how it begins: with a slash a regular
/// expression, up to a slash at its end; with an exclamation mark a negation; any
/// other way itself. Nothing but a slash, or nothing at all, behind the mark
/// leaves the query as it is.
pub proof fn law_query_forms(query: Seq<char>)
    ensures
        query.len() == 0 || (query[0] != '/' && query[0] != '!') ==> classified(query) == (
            query,
            false,
            false,
        ),
        query.len() == 1 ==> classified(query) == (query, false, false),
        query.len() == 2 && query[1] == '/' ==> classified(query) == (query, false, false),
        query.len() > 2 && query[0] == '/' && query.last() == '/' ==> classified(query) == (
            query.subrange(1, query.len() - 1),
            true,
            false,
        ),
        query.len() > 1 && query[0] == '/' && query.last() != '/' ==> classified(query) == (
            query.skip(1),
            true,
            false,
        ),
        query.len() > 1 && query[0] == '!' && !(query.len() == 2 && query[1] == '/')
            ==> classified(query) == (query.skip(1), false, true),
{
    if query.len() > 0 {
        let stripped = query.skip(1);
        if query.len() == 2 && query[1] == '/' {
            assert(stripped =~= seq!['/']);
        }
        if stripped == seq!['/'] {
            assert(stripped.len() == 1 && stripped[0] == query[1]);
        }
        if query.len() > 2 {
            assert(stripped.drop_last() =~= query.subrange(1, query.len() - 1));
        }
    }
}

/// The points for visits are the whole part of twenty times their root, and 100
/// from 25 visits on.
pub proof fn law_many_visits(visits: int)
    requires
        visits >= 25,
    ensures
        visit_points(visits) == 100,
{
    law_visit_points(visits);
    let p = visit_points(visits);
    if p < 100 {
        assert((p + 1) * (p + 1) <= 10000) by (nonlinear_arith)
            requires
                0 <= p < 100,
        ;
    }
}

/// Each component of a row's score comes from the row alone: visits, age, depth
/// and session.
pub proof fn law_row_components(
    scorer: Scorer,
    row: HistoryRow,
    fuzzy: int,
    basename_bonus: bool,
    indices: Seq<usize>,
)
    ensures
        ({
            let s = history_score(scorer, row, fuzzy, basename_bonus, indices);
            &&& s.visits == visit_points(row.visits as int)
            &&& s.recency == recency_points(scorer.now - row.last_visited)
            &&& s.shortness == shortness_points(depth(row.path@))
            &&& s.session == if scorer.session_start matches Some(start) && row.last_visited
                >= start {
                30int
            } else {
                0int
            }
            &&& s.source == Source::History
        }),
{
}

/// A bookmark scores three times its match and a hundred points, and nothing
/// else; it leads to its path.
pub proof fn law_bookmark_points(path: Seq<char>, found: Option<(int, Seq<usize>)>)
    ensures
        alias_scored(path, found) is Some <==> found is Some,
        alias_scored(path, found) matches Some(s) ==> {
            &&& s.path == path
            &&& s.score == s.fuzzy + s.fuzzy + s.fuzzy + 100
            &&& found == Some((s.fuzzy, s.matched_indices))
            &&& s.visits == 0 && s.recency == 0 && s.git == 0 && s.basename == 0
            &&& s.shortness == 0 && s.session == 0
            &&& s.source == Source::Bookmark
        },
{
}

/// Matches taken together are those of the first and those of the others: their
/// scores add up, and their characters come in turn.
pub proof fn law_matches_add_up(
    a: Seq<Option<(i64, Seq<usize>)>>,
    b: Seq<Option<(i64, Seq<usize>)>>,
    one: Option<(i64, Seq<usize>)>,
)
    ensures
        combined(Seq::empty()) == Some((0int, Seq::<usize>::empty())),
        combined(seq![one]) == widened(one),
        combined(a + b) == match (combined(a), combined(b)) {
            (Some((s, x)), Some((t, y))) => Some((s + t, x + y)),
            _ => None,
        },
    decreases b.len(),
{
    reveal_with_fuel(combined, 2);
    assert(seq![one].drop_last() =~= Seq::empty());
    match one {
        Some((_, more)) => {
            assert(Seq::<usize>::empty() + more =~= more);
        },
        None => {},
    }
    if b.len() == 0 {
        assert(a + b =~= a);
        match combined(a) {
            Some((_, x)) => {
                assert(x + Seq::<usize>::empty() =~= x);
            },
            None => {},
        }
    } else {
        law_matches_add_up(a, b.drop_last(), one);
        assert((a + b).drop_last() =~= a + b.drop_last());
        match (combined(a), combined(b.drop_last()), b.last()) {
            (Some((_, x)), Some((_, y)), Some((_, z))) => {
                assert(x + (y + z) =~= (x + y) + z);
            },
            _ => {},
        }
    }
}

/// A query of one word, or of none, is matched as it stands, and one of several
/// words where each of them matches.
pub proof fn law_words_match(choice: Seq<char>, query: Seq<char>)
    ensures
        text::words(query).len() <= 1 ==> query_matches(choice, query) == outside::is_match(
            choice,
            query,
        ),
        text::words(query).len() > 1 ==> (query_matches(choice, query) <==> forall|i: int|
            0 <= i < text::words(query).len() ==> outside::is_match(
                choice,
                #[trigger] text::words(query)[i],
            )),
{
}

/// A row scored for one text has the matcher's score and characters, and the
/// bonus exactly where the lowercased text stands in its lowercased name.
pub proof fn law_one_text_scored(
    scorer: Scorer,
    row: HistoryRow,
    query_lower: Seq<char>,
    found: Option<(i64, Seq<usize>)>,
)
    ensures
        history_scored(scorer, row, query_lower, found) is Some <==> found is Some,
        (history_scored(scorer, row, query_lower, found) matches Some(s) ==> {
            &&& found == Some((s.fuzzy as i64, s.matched_indices))
            &&& s.fuzzy == found->Some_0.0
            &&& s.basename == if text::contains(base_lower(row.path@), query_lower) {
                40int
            } else {
                0int
            }
            &&& s == history_score(scorer, row, s.fuzzy, s.basename == 40, s.matched_indices)
        }),
{
    let list = seq![query_lower];
    if text::contains(base_lower(row.path@), query_lower) {
        assert forall|i: int| 0 <= i < list.len() implies text::contains(
            base_lower(row.path@),
            #[trigger] list[i],
        ) by {}
    } else {
        assert(!text::contains(base_lower(row.path@), list[0]));
    }
}

/// A plain query is scored as one text where it is one word, else by its words.
pub proof fn law_plain_query_scored(scorer: Scorer, row: HistoryRow, query: Seq<char>)
    ensures
        text::words(query).len() <= 1 ==> plain_scored(scorer, row, query) == token_scored(
            scorer,
            row,
            query,
        ),
        text::words(query).len() > 1 ==> plain_scored(scorer, row, query) == multi_scored(
            scorer,
            row,
            text::words(query),
        ),
        multi_scored(scorer, row, text::words(query)) matches Some(s) ==> s == history_score(
            scorer,
            row,
            s.fuzzy,
            s.basename == 40,
            s.matched_indices,
        ),
{
}

/// The name of a directory brings its bonus wherever the query stands in it.
pub proof fn law_name_bonus(
    scorer: Scorer,
    row: HistoryRow,
    parent: Seq<char>,
    name: Seq<char>,
    query: Seq<char>,
)
    requires
        row.path@ == parent + seq!['/'] + name,
        is_name(name),
        text::words(query).len() <= 1,
    ensures
        plain_scored(scorer, row, query) matches Some(s) ==> (s.basename == 40 <==> text::contains(
            outside::lowercase(name),
            outside::lowercase(query),
        )),
{
    law_name_of_path(parent, name);
    law_one_text_scored(
        scorer,
        row,
        outside::lowercase(query),
        outside::skim_match(row.path@, query),
    );
}

/// A regular expression keeps a path exactly where it matches the path, as it
/// stands or in lowercase, or the lowercased path holds its lowercased text.
pub proof fn law_regex_keeps(pattern: Seq<char>, path: Seq<char>)
    requires
        pattern.len() > 0,
    ensures
        path_kept(seq!['/'] + pattern + seq!['/'], path) <==> pattern::regex_hits(pattern, path)
            || pattern::regex_hits(pattern, outside::lowercase(path)) || text::contains(
            outside::lowercase(path),
            outside::lowercase(pattern),
        ),
        pattern.last() != '/' ==> path_kept(seq!['/'] + pattern, path) == path_kept(
            seq!['/'] + pattern + seq!['/'],
            path,
        ),
        is_filter(seq!['/'] + pattern + seq!['/']),
{
    law_slashes_make_regex(pattern);
    if pattern.last() != '/' {
        law_query_forms(seq!['/'] + pattern);
        assert((seq!['/'] + pattern).skip(1) =~= pattern);
    }
}

/// A filter gives every row that passes it a score without a match, with the
/// bonus where the name holds what is sought, and no other row.
pub proof fn law_filtered_row(scorer: Scorer, row: HistoryRow, query: Seq<char>)
    requires
        is_filter(query),
    ensures
        row_scored(scorer, row, query) is Some <==> path_kept(query, row.path@),
        row_scored(scorer, row, query) matches Some(s) ==> {
            &&& s.fuzzy == 0 && s.matched_indices.len() == 0
            &&& s.basename == if text::contains(
                base_lower(row.path@),
                outside::lowercase(classified(query).0),
            ) {
                40int
            } else {
                0int
            }
            &&& s == history_score(scorer, row, 0, s.basename == 40, s.matched_indices)
        },
{
    law_one_text_scored(
        scorer,
        row,
        outside::lowercase(classified(query).0),
        Some((0, Seq::empty())),
    );
}

/// A batch of one row holds its score, if it has one.
pub proof fn law_batch_of_one(scorer: Scorer, row: HistoryRow, query: Seq<char>)
    ensures
        batch_scored(scorer, Seq::empty(), query) == Seq::<ScoredView>::empty(),
        batch_scored(scorer, seq![row], query) == match row_scored(scorer, row, query) {
            Some(s) => seq![s],
            None => Seq::empty(),
        },
{
    reveal_with_fuel(batch_scored, 2);
    assert(seq![row].drop_last() =~= Seq::empty());
    match row_scored(scorer, row, query) {
        Some(s) => {
            assert(Seq::<ScoredView>::empty().push(s) =~= seq![s]);
        },
        None => {},
    }
}

/// The rows that a query accepts are those of the first and those of the others,
/// in their order.
pub proof fn law_accepted_rows(
    a: Seq<HistoryRow>,
    b: Seq<HistoryRow>,
    row: HistoryRow,
    query: Seq<char>,
)
    ensures
        accepted_paths(a + b, query) == accepted_paths(a, query) + accepted_paths(b, query),
        accepted_paths(seq![row], query) == if path_accepted(row.path@, query) {
            seq![row.path@]
        } else {
            Seq::empty()
        },
        is_filter(query) ==> path_accepted(row.path@, query) == path_kept(query, row.path@),
        !is_filter(query) ==> path_accepted(row.path@, query) == query_matches(row.path@, query),
    decreases b.len(),
{
    reveal_with_fuel(accepted_paths, 2);
    assert(seq![row].drop_last() =~= Seq::empty());
    assert(Seq::<Seq<char>>::empty().push(row.path@) =~= seq![row.path@]);
    if b.len() == 0 {
        assert(a + b =~= a);
        assert(accepted_paths(a, query) + accepted_paths(b, query) =~= accepted_paths(a, query));
    } else {
        law_accepted_rows(a, b.drop_last(), row, query);
        assert((a + b).drop_last() =~= a + b.drop_last());
        assert(accepted_paths(a + b, query) =~= accepted_paths(a, query) + accepted_paths(b, query));
    }
}

/// What is found of a query of one word is what the matcher finds; of several
/// words, something is found where each is, and their scores add up.
pub proof fn law_query_match(choice: Seq<char>, query: Seq<char>)
    ensures
        text::words(query).len() <= 1 ==> query_match(choice, query) == widened(
            outside::skim_match(choice, query),
        ),
        text::words(query).len() > 1 ==> (query_match(choice, query) is Some <==> forall|i: int|
            0 <= i < text::words(query).len() ==> outside::skim_match(
                choice,
                #[trigger] text::words(query)[i],
            ) is Some),
        text::words(query).len() > 1 ==> query_match(choice, query) == combined(
            Seq::new(
                text::words(query).len(),
                |i: int| outside::skim_match(choice, text::words(query)[i]),
            ),
        ),
{
    let words = text::words(query);
    let found = token_matches(choice, words);
    law_combined(found);
    if words.len() > 1 && query_match(choice, query) is Some {
        assert forall|i: int| 0 <= i < words.len() implies outside::skim_match(
            choice,
            #[trigger] words[i],
        ) is Some by {
            assert(found[i] is Some);
        }
    }
}

/// A query filters exactly where it begins with a slash or an exclamation mark
/// and more than a lone slash follows.
pub proof fn law_filters(query: Seq<char>)
    ensures
        is_filter(query) <==> query.len() > 1 && (query[0] == '/' || query[0] == '!') && !(
        query.len() == 2 && query[1] == '/'),
{
    law_query_forms(query);
}

/// A row has a score for a negation exactly where its path lacks the text,
/// whatever the case of the letters, and for a text between slashes exactly where
/// the path matches it or holds it.
pub proof fn law_filters_score(scorer: Scorer, row: HistoryRow, sought: Seq<char>)
    requires
        sought.len() > 0,
        sought != seq!['/'],
    ensures
        row_scored(scorer, row, seq!['!'] + sought) is Some <==> !text::contains(
            outside::lowercase(row.path@),
            outside::lowercase(sought),
        ),
        row_scored(scorer, row, seq!['/'] + sought + seq!['/']) is Some <==> pattern::regex_hits(
            sought,
            row.path@,
        ) || pattern::regex_hits(sought, outside::lowercase(row.path@)) || text::contains(
            outside::lowercase(row.path@),
            outside::lowercase(sought),
        ),
{
    let negated = seq!['!'] + sought;
    assert(negated.len() == 2 && negated[1] == '/' ==> sought =~= seq!['/']);
    assert(negated.skip(1) =~= sought);
    law_query_forms(negated);
    law_regex_keeps(sought, row.path@);
}

/// A count below zero, which no root can be taken of, gets all the points that
/// visits can bring.
pub proof fn law_negative_visits(visits: int)
    requires
        visits < 0,
    ensures
        visit_points(visits) == visit_points(25),
        visit_points(visits) == 100,
{
    assert(100 * 100 <= 400 * 25);
}

/// A row has a score for a query that is no filter exactly where the matcher
/// finds the query in its path. The score is the sum of the match and of all
/// bonuses: for a repository, for a visit within the session, and, of forty
/// points, for a name that holds what was looked for.
pub proof fn law_row_in_full(scorer: Scorer, row: HistoryRow, query: Seq<char>)
    requires
        !is_filter(query),
    ensures
        row_scored(scorer, row, query) is Some <==> query_match(row.path@, query) is Some,
        (row_scored(scorer, row, query) matches Some(s) ==> {
            &&& s.path == row.path@
            &&& s.source == Source::History
            &&& query_match(row.path@, query) == Some((s.fuzzy, s.matched_indices))
            &&& s.score == s.fuzzy + s.visits + s.recency + s.git + s.basename + s.shortness
                + s.session
            &&& s.git == (if row.is_git_repo {
                30int
            } else {
                0int
            })
            &&& s.session == (if scorer.session_start matches Some(start) && start
                <= row.last_visited {
                30int
            } else {
                0int
            })
            &&& s.basename == 40 || s.basename == 0
            &&& text::words(query).len() <= 1 ==> (s.basename == 40 <==> text::contains(
                base_lower(row.path@),
                outside::lowercase(query),
            ))
            &&& text::words(query).len() > 1 ==> (s.basename == 40 <==> forall|i: int|
                0 <= i < text::words(query).len() ==> text::contains(
                    base_lower(row.path@),
                    outside::lowercase(#[trigger] text::words(query)[i]),
                ))
        }),
{
    if text::words(query).len() > 1 {
        law_tokens_add_up(scorer, row, text::words(query));
    } else {
        law_one_text_scored(
            scorer,
            row,
            outside::lowercase(query),
            outside::skim_match(row.path@, query),
        );
    }
}

/// The points of a row for its visits, its age and its depth are what the row
/// says: twenty times the root of the visits and a hundred at most; by the day,
/// the week and the month since the last visit; and fifty shared by the levels.
pub proof fn law_row_points(scorer: Scorer, row: HistoryRow, query: Seq<char>)
    ensures
        (row_scored(scorer, row, query) matches Some(s) ==> {
            let age = scorer.now - row.last_visited;
            let day = 24 * 60 * 60 * 1_000_000_000;
            &&& row.visits >= 0 ==> 0 <= s.visits <= 100 && s.visits * s.visits <= 400
                * row.visits && (s.visits < 100 ==> (s.visits + 1) * (s.visits + 1) > 400
                * row.visits)
            &&& row.visits < 0 ==> s.visits == 100
            &&& s.recency == (if age < day {
                45int
            } else if age < 7 * day {
                30int
            } else if age < 30 * day {
                15int
            } else {
                7int
            })
            &&& depth(row.path@) <= 10 ==> s.shortness * depth(row.path@) <= 50 < (s.shortness + 1)
                * depth(row.path@)
            &&& depth(row.path@) >= 10 ==> s.shortness == 5
        }),
{
    law_shortness_points(depth(row.path@));
    if row.visits >= 0 {
        law_visit_points(row.visits as int);
    }
}

/// A score fits wherever the match leaves room for the most that each bonus can
/// bring.
pub proof fn law_room_for_bonuses(
    scorer: Scorer,
    row: HistoryRow,
    fuzzy: int,
    basename_bonus: bool,
)
    requires
        fuzzy + 100 + 45 + 30 + 40 + 50 + 30 <= i64::MAX,
    ensures
        score_fits(scorer, row, fuzzy, basename_bonus),
{
}

} // verus!
