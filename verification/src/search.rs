//! The search for the directory to jump to.
//!
//! What has to be looked up, on disk or in the store, the search asks for one
//! piece at a time; `find_best` takes the answer and goes on.

use vstd::prelude::*;

use crate::rank;
use crate::rank::Bookmark;
use crate::score;
use crate::score::{HistoryRow, Scored, ScoredView, Scorer};
use crate::text;

verus! {

// ---------------------------------------------------------------------------
// Subdirectories of the current directory
// ---------------------------------------------------------------------------

/// The prefix that a query of the form `foo /` asks for.
pub open spec fn subdir_query(query: Seq<char>) -> Option<Seq<char>> {
    let i = text::first_index(query, ' ');
    if i < query.len() && text::trim(query.skip(i + 1)) == seq!['/'] && text::trim(
        query.take(i),
    ).len() > 0 {
        Some(text::trim(query.take(i)))
    } else {
        None
    }
}

/// The prefix that a query of the form `foo /` asks for.
pub fn subdir_prefix(query: &str) -> (r: Option<String>)
    ensures
        r is Some == subdir_query(query@) is Some,
        r matches Some(prefix) ==> subdir_query(query@) == Some(prefix@),
{
    let chars: Vec<char> = text::chars_of(query);
    let n: usize = chars.len();
    let i: usize = text::index_of(&chars, 0, n, ' ');
    assert(chars@.subrange(0, n as int) =~= query@);
    if i == n {
        return None;
    }
    let (a, b) = text::trim_bounds(&chars, 0, i);
    let (c, d) = text::trim_bounds(&chars, i + 1, n);
    assert(chars@.subrange(0, i as int) =~= query@.take(i as int));
    assert(chars@.subrange(i + 1, n as int) =~= query@.skip(i + 1));
    let ghost rest = chars@.subrange(c as int, d as int);
    if d - c == 1 && chars[c] == '/' && a < b {
        assert(rest =~= seq!['/']);
        Some(text::text_between(&chars, a, b))
    } else {
        proof {
            if rest == seq!['/'] {
                assert(rest.len() == 1 && rest[0] == chars@[c as int]);
            }
        }
        None
    }
}

/// An entry of the current directory.
#[derive(Clone, Debug)]
pub struct DirEntry {
    pub name: String,
    pub is_dir: bool,
    /// When the entry was last modified, in nanoseconds since the Unix epoch.
    pub modified: i128,
}

/// Whether an entry is a directory whose name begins with `prefix`.
pub open spec fn eligible(entry: DirEntry, prefix: Seq<char>) -> bool {
    entry.is_dir && text::starts_with(entry.name@, prefix)
}

/// Whether entry `i` is the directory that was modified last among those whose
/// name begins with `prefix`, and of several such the one listed last.
pub open spec fn is_newest(entries: Seq<DirEntry>, prefix: Seq<char>, i: int) -> bool {
    &&& 0 <= i < entries.len()
    &&& eligible(entries[i], prefix)
    &&& forall|j: int|
        0 <= j < i && eligible(#[trigger] entries[j], prefix) ==> entries[j].modified
            <= entries[i].modified
    &&& forall|j: int|
        i < j < entries.len() && eligible(#[trigger] entries[j], prefix) ==> entries[j].modified
            < entries[i].modified
}

/// The index of the directory that was modified last among those whose name
/// begins with `prefix`, and of several such the one listed last.
pub fn subdir_match(entries: &Vec<DirEntry>, prefix: &str) -> (r: Option<usize>)
    ensures
        match r {
            Some(i) => {
                &&& i < entries@.len()
                &&& eligible(entries@[i as int], prefix@)
                &&& forall|j: int|
                    0 <= j < entries@.len() && eligible(#[trigger] entries@[j], prefix@)
                        ==> entries@[j].modified <= entries@[i as int].modified && (j > i
                        ==> entries@[j].modified < entries@[i as int].modified)
            },
            None => forall|j: int|
                0 <= j < entries@.len() ==> !eligible(#[trigger] entries@[j], prefix@),
        },
        r matches Some(i) ==> is_newest(entries@, prefix@, i as int),
{
    let mut best: Option<usize> = None;
    for k in 0..entries.len()
        invariant
            match best {
                Some(i) => {
                    &&& i < k <= entries@.len()
                    &&& eligible(entries@[i as int], prefix@)
                    &&& forall|j: int|
                        0 <= j < k && eligible(#[trigger] entries@[j], prefix@)
                            ==> entries@[j].modified <= entries@[i as int].modified && (j > i
                            ==> entries@[j].modified < entries@[i as int].modified)
                },
                None => forall|j: int| 0 <= j < k ==> !eligible(#[trigger] entries@[j], prefix@),
            },
    {
        if entries[k].is_dir && text::begins_with(entries[k].name.as_str(), prefix) {
            let newer: bool = match best {
                Some(i) => entries[k].modified >= entries[i].modified,
                None => true,
            };
            if newer {
                best = Some(k);
            }
        }
    }
    best
}

// ---------------------------------------------------------------------------
// Strong candidates
// ---------------------------------------------------------------------------

/// How many candidates stand before the first that scores below `min_score`.
pub open spec fn cutoff(list: Seq<ScoredView>, min_score: int) -> nat
    decreases list.len(),
{
    if list.len() == 0 || list[0].score < min_score {
        0
    } else {
        1 + cutoff(list.drop_first(), min_score)
    }
}

/// The paths of the candidates before the first that scores below `min_score`.
pub open spec fn strong_paths(list: Seq<ScoredView>, min_score: int) -> Seq<Seq<char>> {
    Seq::new(cutoff(list, min_score), |i: int| list[i].path)
}

/// The candidates before the cutoff score enough, and the one at it does not.
pub proof fn lemma_cutoff(list: Seq<ScoredView>, min_score: int)
    ensures
        cutoff(list, min_score) <= list.len(),
        forall|i: int| 0 <= i < cutoff(list, min_score) ==> (#[trigger] list[i]).score >= min_score,
        cutoff(list, min_score) < list.len() ==> list[cutoff(list, min_score) as int].score
            < min_score,
    decreases list.len(),
{
    if list.len() > 0 && list[0].score >= min_score {
        let rest = list.drop_first();
        lemma_cutoff(rest, min_score);
        assert forall|i: int| 0 <= i < cutoff(list, min_score) implies (#[trigger] list[i]).score
            >= min_score by {
            if i > 0 {
                assert(list[i] == rest[i - 1]);
            }
        }
    }
}

/// The paths of the candidates before the first that scores below `min_score`.
fn take_strong(list: &Vec<Scored>, min_score: i64) -> (r: Vec<String>)
    ensures
        text::views(r@) == strong_paths(score::scored_views(list@), min_score as int),
{
    let ghost all = score::scored_views(list@);
    let mut r: Vec<String> = Vec::new();
    let mut i: usize = 0;
    proof {
        lemma_cutoff(all, min_score as int);
    }
    while i < list.len() && list[i].score >= min_score
        invariant
            i <= list@.len(),
            all == score::scored_views(list@),
            r@.len() == i,
            forall|j: int| 0 <= j < i ==> (#[trigger] all[j]).score >= min_score,
            forall|j: int| 0 <= j < i ==> (#[trigger] r@[j])@ == all[j].path,
        decreases list@.len() - i,
    {
        assert(all[i as int].score == list@[i as int].score);
        r.push(list[i].path.clone());
        i += 1;
    }
    proof {
        let k = cutoff(all, min_score as int) as int;
        if i < list@.len() {
            assert(all[i as int].score == list@[i as int].score);
        }
        if k < i {
            assert(all[k].score >= min_score);
        } else if i < k {
            assert(all[i as int].score >= min_score);
        }
        assert(text::views(r@) =~= strong_paths(all, min_score as int));
    }
    r
}

// ---------------------------------------------------------------------------
// The search
// ---------------------------------------------------------------------------

/// How far a search has come.
#[derive(Debug)]
pub enum Stage<T> {
    /// Looking for a subdirectory of the current one with this prefix.
    Subdir(T),
    /// Reading the query as a path.
    Literal,
    /// The query is this path, spelled canonically; is it a directory?
    Directory(T),
    /// Looking for a bookmark of this name.
    Bookmark,
    /// The bookmark leads to this path; is it a directory?
    Bookmarked(T),
    /// Scoring bookmarks and history.
    Candidates,
    /// Looking for the first candidate that still exists.
    Live(usize),
    /// The directory was found, or there is none.
    Done(Option<T>),
}

/// What a search needs to know next.
#[derive(Debug)]
pub enum Ask<T> {
    /// The subdirectory of the current directory, among those that begin with
    /// this prefix, that was modified last.
    Subdir(T),
    /// The canonical spelling of this path, if it leads anywhere.
    Canonical(T),
    /// Whether this path is a directory.
    IsDir(T),
    /// The path of the bookmark with this alias.
    Bookmark(T),
    /// The candidates for this query, best first.
    Candidates(T),
    /// Nothing more: this is the directory, if there is one.
    Done(Option<T>),
}

/// What a search is told.
#[derive(Debug)]
pub enum Answer {
    Path(Option<String>),
    Flag(bool),
    Candidates(Vec<Scored>),
}

/// What an answer says.
pub enum AnswerView {
    Path(Option<Seq<char>>),
    Flag(bool),
    Candidates(Seq<ScoredView>),
}

impl View for Answer {
    type V = AnswerView;

    open spec fn view(&self) -> AnswerView {
        match self {
            Answer::Path(p) => AnswerView::Path(text::maybe(*p)),
            Answer::Flag(b) => AnswerView::Flag(*b),
            Answer::Candidates(list) => AnswerView::Candidates(score::scored_views(list@)),
        }
    }
}

impl View for Stage<String> {
    type V = Stage<Seq<char>>;

    open spec fn view(&self) -> Stage<Seq<char>> {
        match self {
            Stage::Subdir(p) => Stage::Subdir(p@),
            Stage::Literal => Stage::Literal,
            Stage::Directory(p) => Stage::Directory(p@),
            Stage::Bookmark => Stage::Bookmark,
            Stage::Bookmarked(p) => Stage::Bookmarked(p@),
            Stage::Candidates => Stage::Candidates,
            Stage::Live(i) => Stage::Live(*i),
            Stage::Done(p) => Stage::Done(text::maybe(*p)),
        }
    }
}

impl View for Ask<String> {
    type V = Ask<Seq<char>>;

    open spec fn view(&self) -> Ask<Seq<char>> {
        match self {
            Ask::Subdir(p) => Ask::Subdir(p@),
            Ask::Canonical(p) => Ask::Canonical(p@),
            Ask::IsDir(p) => Ask::IsDir(p@),
            Ask::Bookmark(p) => Ask::Bookmark(p@),
            Ask::Candidates(p) => Ask::Candidates(p@),
            Ask::Done(p) => Ask::Done(text::maybe(*p)),
        }
    }
}

/// A search under way.
#[derive(Debug)]
pub struct Search {
    pub query: String,
    /// The least score that a candidate is jumped to with.
    pub min_score: i64,
    pub stage: Stage<String>,
    /// The paths of the candidates worth jumping to, best first.
    pub paths: Vec<String>,
}

/// What a search under way says.
#[verifier::ext_equal]
pub struct SearchView {
    pub query: Seq<char>,
    pub min_score: int,
    pub stage: Stage<Seq<char>>,
    pub paths: Seq<Seq<char>>,
}

impl View for Search {
    type V = SearchView;

    open spec fn view(&self) -> SearchView {
        SearchView {
            query: self.query@,
            min_score: self.min_score as int,
            stage: self.stage@,
            paths: text::views(self.paths@),
        }
    }
}

impl SearchView {
    /// The paths can be counted, and while they are tried, there is one to try.
    pub open spec fn wf(self) -> bool {
        &&& self.paths.len() <= usize::MAX
        &&& self.stage matches Stage::Live(i) ==> i < self.paths.len()
    }

    /// The same search at another stage.
    pub open spec fn at(self, stage: Stage<Seq<char>>) -> SearchView {
        SearchView { stage, ..self }
    }

    /// What the search needs to know next.
    pub open spec fn ask(self) -> Ask<Seq<char>> {
        match self.stage {
            Stage::Subdir(prefix) => Ask::Subdir(prefix),
            Stage::Literal => Ask::Canonical(self.query),
            Stage::Directory(path) => Ask::IsDir(path),
            Stage::Bookmark => Ask::Bookmark(self.query),
            Stage::Bookmarked(path) => Ask::IsDir(path),
            Stage::Candidates => Ask::Candidates(self.query),
            Stage::Live(i) => Ask::IsDir(self.paths[i as int]),
            Stage::Done(found) => Ask::Done(found),
        }
    }

    /// Whether an answer is of the kind that is asked for.
    pub open spec fn fits(self, answer: AnswerView) -> bool {
        match self.ask() {
            Ask::Subdir(_) => answer is Path,
            Ask::Canonical(_) => answer is Path,
            Ask::IsDir(_) => answer is Flag,
            Ask::Bookmark(_) => answer is Path,
            Ask::Candidates(_) => answer is Candidates,
            Ask::Done(_) => false,
        }
    }

    /// The search once it has its answer.
    pub open spec fn next(self, answer: AnswerView) -> SearchView {
        match (self.stage, answer) {
            (Stage::Subdir(_), AnswerView::Path(Some(path))) => self.at(Stage::Done(Some(path))),
            (Stage::Subdir(_), _) => self.at(Stage::Literal),
            (Stage::Literal, AnswerView::Path(Some(path))) => self.at(Stage::Directory(path)),
            (Stage::Literal, _) => self.at(Stage::Bookmark),
            (Stage::Directory(path), AnswerView::Flag(true)) => self.at(Stage::Done(Some(path))),
            (Stage::Directory(_), _) => self.at(Stage::Bookmark),
            (Stage::Bookmark, AnswerView::Path(Some(path))) => self.at(Stage::Bookmarked(path)),
            (Stage::Bookmark, _) => self.at(Stage::Candidates),
            (Stage::Bookmarked(path), AnswerView::Flag(true)) => self.at(Stage::Done(Some(path))),
            (Stage::Bookmarked(_), _) => self.at(Stage::Candidates),
            (Stage::Candidates, AnswerView::Candidates(list)) => {
                let paths = strong_paths(list, self.min_score);
                SearchView {
                    paths,
                    stage: if paths.len() > 0 {
                        Stage::Live(0)
                    } else {
                        Stage::Done(None)
                    },
                    ..self
                }
            },
            (Stage::Live(i), AnswerView::Flag(true)) => self.at(
                Stage::Done(Some(self.paths[i as int])),
            ),
            (Stage::Live(i), _) => if i + 1 < self.paths.len() {
                self.at(Stage::Live((i + 1) as usize))
            } else {
                self.at(Stage::Done(None))
            },
            (_, _) => self,
        }
    }
}

/// The search for `query` at its beginning.
pub open spec fn begun(query: Seq<char>, min_score: int) -> SearchView {
    SearchView {
        query,
        min_score,
        stage: match subdir_query(query) {
            Some(prefix) => Stage::Subdir(prefix),
            None => Stage::Literal,
        },
        paths: Seq::empty(),
    }
}

impl Search {
    /// Begins the search for `query`.
    pub fn begin(query: &str, min_score: i64) -> (r: Search)
        ensures
            r@ == begun(query@, min_score as int),
            r@.wf(),
    {
        let stage: Stage<String> = match subdir_prefix(query) {
            Some(prefix) => Stage::Subdir(prefix),
            None => Stage::Literal,
        };
        let paths: Vec<String> = Vec::new();
        assert(text::views(paths@) =~= Seq::<Seq<char>>::empty());
        Search { query: query.to_string(), min_score, stage, paths }
    }

    /// What the search needs to know next.
    pub fn ask(&self) -> (r: Ask<String>)
        requires
            self@.wf(),
        ensures
            r@ == self@.ask(),
    {
        match &self.stage {
            Stage::Subdir(prefix) => Ask::Subdir(prefix.clone()),
            Stage::Literal => Ask::Canonical(self.query.clone()),
            Stage::Directory(path) => Ask::IsDir(path.clone()),
            Stage::Bookmark => Ask::Bookmark(self.query.clone()),
            Stage::Bookmarked(path) => Ask::IsDir(path.clone()),
            Stage::Candidates => Ask::Candidates(self.query.clone()),
            Stage::Live(i) => Ask::IsDir(self.paths[*i].clone()),
            Stage::Done(found) => match found {
                Some(path) => Ask::Done(Some(path.clone())),
                None => Ask::Done(None),
            },
        }
    }
}

/// Takes the search for the directory to jump to one answer further.
///
/// A subdirectory that the query asks for comes first, then the directory that
/// the query spells out, then the bookmark that it names, and last the best
/// candidate that scores enough and still exists.
pub fn find_best(search: Search, answer: Answer) -> (r: Search)
    requires
        search@.wf(),
        search@.fits(answer@),
    ensures
        r@ == search@.next(answer@),
        r@.wf(),
{
    let Search { query, min_score, stage, paths } = search;
    match (stage, answer) {
        (Stage::Subdir(_), Answer::Path(Some(path))) => Search {
            query,
            min_score,
            stage: Stage::Done(Some(path)),
            paths,
        },
        (Stage::Subdir(_), _) => Search { query, min_score, stage: Stage::Literal, paths },
        (Stage::Literal, Answer::Path(Some(path))) => Search {
            query,
            min_score,
            stage: Stage::Directory(path),
            paths,
        },
        (Stage::Literal, _) => Search { query, min_score, stage: Stage::Bookmark, paths },
        (Stage::Directory(path), Answer::Flag(true)) => Search {
            query,
            min_score,
            stage: Stage::Done(Some(path)),
            paths,
        },
        (Stage::Directory(_), _) => Search { query, min_score, stage: Stage::Bookmark, paths },
        (Stage::Bookmark, Answer::Path(Some(path))) => Search {
            query,
            min_score,
            stage: Stage::Bookmarked(path),
            paths,
        },
        (Stage::Bookmark, _) => Search { query, min_score, stage: Stage::Candidates, paths },
        (Stage::Bookmarked(path), Answer::Flag(true)) => Search {
            query,
            min_score,
            stage: Stage::Done(Some(path)),
            paths,
        },
        (Stage::Bookmarked(_), _) => Search { query, min_score, stage: Stage::Candidates, paths },
        (Stage::Candidates, Answer::Candidates(list)) => {
            let paths: Vec<String> = take_strong(&list, min_score);
            let stage: Stage<String> = if paths.len() > 0 {
                Stage::Live(0)
            } else {
                Stage::Done(None)
            };
            Search { query, min_score, stage, paths }
        },
        (Stage::Live(i), Answer::Flag(true)) => {
            let found: String = paths[i].clone();
            Search { query, min_score, stage: Stage::Done(Some(found)), paths }
        },
        (Stage::Live(i), _) => {
            let stage: Stage<String> = if i < paths.len() - 1 {
                Stage::Live(i + 1)
            } else {
                Stage::Done(None)
            };
            Search { query, min_score, stage, paths }
        },
        (stage, _) => Search { query, min_score, stage, paths },
    }
}

// ---------------------------------------------------------------------------
// Where a search leads
// ---------------------------------------------------------------------------

/// The facts that a search asks for.
pub struct World {
    /// The subdirectory of the current directory, among those that begin with a
    /// prefix, that was modified last.
    pub subdir: spec_fn(Seq<char>) -> Option<Seq<char>>,
    /// The canonical spelling of a path.
    pub canonical: spec_fn(Seq<char>) -> Option<Seq<char>>,
    /// Whether a path is a directory.
    pub is_dir: spec_fn(Seq<char>) -> bool,
    /// The path of a bookmark.
    pub bookmark: spec_fn(Seq<char>) -> Option<Seq<char>>,
    /// The candidates for the query.
    pub candidates: Seq<ScoredView>,
}

impl World {
    /// The true answer to what a search asks.
    pub open spec fn answer(self, ask: Ask<Seq<char>>) -> AnswerView {
        match ask {
            Ask::Subdir(prefix) => AnswerView::Path((self.subdir)(prefix)),
            Ask::Canonical(path) => AnswerView::Path((self.canonical)(path)),
            Ask::IsDir(path) => AnswerView::Flag((self.is_dir)(path)),
            Ask::Bookmark(alias) => AnswerView::Path((self.bookmark)(alias)),
            Ask::Candidates(_) => AnswerView::Candidates(self.candidates),
            Ask::Done(_) => AnswerView::Flag(false),
        }
    }
}

/// The first of the paths, from index `i` on, that is a directory.
pub open spec fn first_live(paths: Seq<Seq<char>>, is_dir: spec_fn(Seq<char>) -> bool, i: int) -> Option<
    Seq<char>,
>
    decreases paths.len() - i,
{
    if i < 0 || i >= paths.len() {
        None
    } else if is_dir(paths[i]) {
        Some(paths[i])
    } else {
        first_live(paths, is_dir, i + 1)
    }
}

/// The subdirectory that the query asks for, if it asks for one that exists.
pub open spec fn subdir_target(query: Seq<char>, world: World) -> Option<Seq<char>> {
    match subdir_query(query) {
        Some(prefix) => (world.subdir)(prefix),
        None => None,
    }
}

/// The directory that the query spells out.
pub open spec fn literal_target(query: Seq<char>, world: World) -> Option<Seq<char>> {
    match (world.canonical)(query) {
        Some(path) if (world.is_dir)(path) => Some(path),
        _ => None,
    }
}

/// The directory that the query names as a bookmark.
pub open spec fn bookmark_target(query: Seq<char>, world: World) -> Option<Seq<char>> {
    match (world.bookmark)(query) {
        Some(path) if (world.is_dir)(path) => Some(path),
        _ => None,
    }
}

/// The best candidate that scores at least `min_score` and still exists.
pub open spec fn candidate_target(min_score: int, world: World) -> Option<Seq<char>> {
    first_live(strong_paths(world.candidates, min_score), world.is_dir, 0)
}

/// The directory to jump to.
pub open spec fn best_directory(query: Seq<char>, min_score: int, world: World) -> Option<
    Seq<char>,
> {
    if subdir_target(query, world) is Some {
        subdir_target(query, world)
    } else if literal_target(query, world) is Some {
        literal_target(query, world)
    } else if bookmark_target(query, world) is Some {
        bookmark_target(query, world)
    } else {
        candidate_target(min_score, world)
    }
}

/// How many stages lie before the end.
pub open spec fn stages_left(stage: Stage<Seq<char>>) -> nat {
    match stage {
        Stage::Subdir(_) => 7,
        Stage::Literal => 6,
        Stage::Directory(_) => 5,
        Stage::Bookmark => 4,
        Stage::Bookmarked(_) => 3,
        Stage::Candidates => 2,
        Stage::Live(_) => 1,
        Stage::Done(_) => 0,
    }
}

/// How many candidates are still to be tried.
pub open spec fn candidates_left(search: SearchView) -> nat {
    match search.stage {
        Stage::Live(i) if i < search.paths.len() => (search.paths.len() - i) as nat,
        _ => 0,
    }
}

/// What a search comes to when every question is answered truly.
pub open spec fn settled(search: SearchView, world: World) -> Option<Seq<char>>
    decreases stages_left(search.stage), candidates_left(search),
    when search.wf() && world.candidates.len() <= usize::MAX
{
    proof {
        lemma_cutoff(world.candidates, search.min_score);
    }
    match search.stage {
        Stage::Done(found) => found,
        _ => settled(search.next(world.answer(search.ask())), world),
    }
}

/// What is still to be found from a stage on.
spec fn outcome(search: SearchView, world: World) -> Option<Seq<char>> {
    let last = candidate_target(search.min_score, world);
    let named = if bookmark_target(search.query, world) is Some {
        bookmark_target(search.query, world)
    } else {
        last
    };
    match search.stage {
        Stage::Subdir(prefix) => if (world.subdir)(prefix) is Some {
            (world.subdir)(prefix)
        } else if literal_target(search.query, world) is Some {
            literal_target(search.query, world)
        } else {
            named
        },
        Stage::Literal => if literal_target(search.query, world) is Some {
            literal_target(search.query, world)
        } else {
            named
        },
        Stage::Directory(path) => if (world.is_dir)(path) {
            Some(path)
        } else {
            named
        },
        Stage::Bookmark => named,
        Stage::Bookmarked(path) => if (world.is_dir)(path) {
            Some(path)
        } else {
            last
        },
        Stage::Candidates => last,
        Stage::Live(i) => first_live(search.paths, world.is_dir, i as int),
        Stage::Done(found) => found,
    }
}

proof fn lemma_settled(search: SearchView, world: World)
    requires
        search.wf(),
        world.candidates.len() <= usize::MAX,
    ensures
        settled(search, world) == outcome(search, world),
    decreases stages_left(search.stage), candidates_left(search),
{
    let next = search.next(world.answer(search.ask()));
    lemma_cutoff(world.candidates, search.min_score);
    match search.stage {
        Stage::Done(_) => {},
        _ => {
            lemma_settled(next, world);
            match search.stage {
                Stage::Live(i) => {
                    if i + 1 >= search.paths.len() {
                        assert(first_live(search.paths, world.is_dir, i + 1) is None);
                    }
                },
                _ => {},
            }
        },
    }
}

/// A search whose questions are answered truly ends, and finds the directory to
/// jump to: the subdirectory that the query asks for, else the directory that it
/// spells out, else the bookmark that it names, else the best candidate that
/// scores enough and still exists.
pub proof fn law_search_finds_best(query: Seq<char>, min_score: int, world: World)
    requires
        world.candidates.len() <= usize::MAX,
    ensures
        begun(query, min_score).wf(),
        settled(begun(query, min_score), world) == best_directory(query, min_score, world),
{
    lemma_settled(begun(query, min_score), world);
}

/// Every answer that fits brings a search nearer to its end.
pub proof fn law_search_ends(search: SearchView, answer: AnswerView)
    requires
        search.wf(),
        search.fits(answer),
        answer matches AnswerView::Candidates(list) ==> list.len() <= usize::MAX,
    ensures
        search.next(answer).wf(),
        decreases_to!(
            stages_left(search.stage),
            candidates_left(search) => stages_left(search.next(answer).stage),
            candidates_left(search.next(answer))
        ),
{
    match answer {
        AnswerView::Candidates(list) => {
            lemma_cutoff(list, search.min_score);
        },
        _ => {},
    }
}

proof fn lemma_first_live(paths: Seq<Seq<char>>, is_dir: spec_fn(Seq<char>) -> bool, i: int)
    requires
        0 <= i,
    ensures
        match first_live(paths, is_dir, i) {
            Some(path) => exists|k: int|
                i <= k < paths.len() && #[trigger] paths[k] == path && is_dir(path) && forall|j: int|
                    i <= j < k ==> !is_dir(#[trigger] paths[j]),
            None => forall|j: int| i <= j < paths.len() ==> !is_dir(#[trigger] paths[j]),
        },
    decreases paths.len() - i,
{
    if i < paths.len() && !is_dir(paths[i]) {
        lemma_first_live(paths, is_dir, i + 1);
        match first_live(paths, is_dir, i + 1) {
            Some(path) => {
                let k = choose|k: int|
                    i + 1 <= k < paths.len() && #[trigger] paths[k] == path && is_dir(path)
                        && forall|j: int| i + 1 <= j < k ==> !is_dir(#[trigger] paths[j]);
                assert(paths[k] == path);
            },
            None => {},
        }
    }
}

/// A search never leads to a directory that is gone, whatever the query: what it
/// finds exists. What the current directory lists as its subdirectories are
/// directories.
pub proof fn law_found_exists(query: Seq<char>, min_score: int, world: World)
    requires
        forall|prefix: Seq<char>|
            #![trigger (world.subdir)(prefix)]
            (world.subdir)(prefix) matches Some(path) ==> (world.is_dir)(path),
    ensures
        best_directory(query, min_score, world) matches Some(path) ==> (world.is_dir)(path),
{
    lemma_first_live(strong_paths(world.candidates, min_score), world.is_dir, 0);
}

/// A candidate is jumped to only when it scores `min_score` or more; when the
/// candidates come best first, none that exists scores better. The law gives its
/// place among the candidates.
pub proof fn law_candidate_is_best(min_score: int, world: World) -> (k: int)
    requires
        candidate_target(min_score, world) is Some,
        rank::is_sorted(world.candidates),
    ensures
        0 <= k < world.candidates.len(),
        candidate_target(min_score, world) == Some(world.candidates[k].path),
        world.candidates[k].score >= min_score,
        forall|j: int|
            0 <= j < world.candidates.len() && (world.is_dir)(
                (#[trigger] world.candidates[j]).path,
            ) ==> world.candidates[j].score <= world.candidates[k].score,
{
    let list = world.candidates;
    let paths = strong_paths(list, min_score);
    let path = candidate_target(min_score, world).unwrap();
    lemma_cutoff(list, min_score);
    lemma_first_live(paths, world.is_dir, 0);
    let k = choose|k: int|
        0 <= k < paths.len() && #[trigger] paths[k] == path && (world.is_dir)(path) && forall|j: int|
            0 <= j < k ==> !(world.is_dir)(#[trigger] paths[j]);
    assert(list[k].path == path);
    assert forall|j: int| 0 <= j < list.len() && (world.is_dir)(
        (#[trigger] list[j]).path,
    ) implies list[j].score <= list[k].score by {
        if j < k {
            assert(paths[j] == list[j].path);
        }
    }
    k
}

/// A search finds nothing among the candidates only when none that scores
/// `min_score` or more exists, given that they come best first.
pub proof fn law_no_candidate(min_score: int, world: World)
    requires
        candidate_target(min_score, world) is None,
        rank::is_sorted(world.candidates),
    ensures
        forall|j: int|
            0 <= j < world.candidates.len() && (world.is_dir)(
                (#[trigger] world.candidates[j]).path,
            ) ==> world.candidates[j].score < min_score,
{
    let list = world.candidates;
    let paths = strong_paths(list, min_score);
    lemma_first_live(paths, world.is_dir, 0);
    lemma_cutoff(list, min_score);
    let n = cutoff(list, min_score) as int;
    assert forall|j: int| 0 <= j < list.len() && (world.is_dir)(
        (#[trigger] list[j]).path,
    ) implies list[j].score < min_score by {
        if j < n {
            assert(paths[j] == list[j].path);
        } else {
            assert(list[n].score >= list[j].score);
        }
    }
}

/// A jump to one of the candidates that were scored leads to the best of them
/// that exists, and to none that scores less than `min_score`. The law gives its
/// place among the candidates.
pub proof fn law_jump_is_best(
    scorer: Scorer,
    bookmarks: Seq<Bookmark>,
    rows: Seq<HistoryRow>,
    query: Seq<char>,
    min_score: int,
    world: World,
) -> (k: int)
    requires
        world.candidates == rank::candidates(scorer, bookmarks, rows, query),
        subdir_target(query, world) is None,
        literal_target(query, world) is None,
        bookmark_target(query, world) is None,
        best_directory(query, min_score, world) is Some,
    ensures
        0 <= k < world.candidates.len(),
        best_directory(query, min_score, world) == Some(world.candidates[k].path),
        (world.is_dir)(world.candidates[k].path),
        world.candidates[k].score >= min_score,
        forall|j: int|
            0 <= j < world.candidates.len() && (world.is_dir)(
                (#[trigger] world.candidates[j]).path,
            ) ==> world.candidates[j].score <= world.candidates[k].score,
{
    rank::law_candidates_best_first(scorer, bookmarks, rows, query);
    lemma_first_live(strong_paths(world.candidates, min_score), world.is_dir, 0);
    law_candidate_is_best(min_score, world)
}

/// A query of a word, a blank and a slash asks for a subdirectory that begins
/// with the word; more blanks do not matter. Any other query asks for none.
pub proof fn law_subdir_queries(word: Seq<char>, rest: Seq<char>, query: Seq<char>)
    requires
        !word.contains(' '),
    ensures
        subdir_query(word + seq![' '] + rest) == (if text::trim(rest) == seq!['/'] && text::trim(
            word,
        ).len() > 0 {
            Some(text::trim(word))
        } else {
            None
        }),
        !query.contains(' ') ==> subdir_query(query) is None,
{
    let all = word + seq![' '] + rest;
    let n = word.len() as int;
    assert forall|i: int| 0 <= i < n implies all[i] != ' ' by {
        assert(all[i] == word[i]);
        assert(word.contains(word[i]));
    }
    text::lemma_first_index_is(all, ' ', n);
    assert(all.take(n) =~= word);
    assert(all.skip(n + 1) =~= rest);
    if !query.contains(' ') {
        assert forall|i: int| 0 <= i < query.len() implies query[i] != ' ' by {
            assert(query.contains(query[i]));
        }
        text::lemma_first_index_is(query, ' ', query.len() as int);
    }
}

/// A search prefers what the query says most plainly: the subdirectory that it
/// asks for, then the directory that it spells, then the bookmark that it names.
/// Only where there is none of these do the scores decide.
pub proof fn law_search_order(query: Seq<char>, min_score: int, world: World)
    ensures
        ({
            let asked = match subdir_query(query) {
                Some(prefix) => (world.subdir)(prefix),
                None => None,
            };
            let best = best_directory(query, min_score, world);
            let spelled = (world.canonical)(query);
            let named = (world.bookmark)(query);
            let is_spelled = spelled is Some && (world.is_dir)(spelled->Some_0);
            let is_named = named is Some && (world.is_dir)(named->Some_0);
            &&& asked is Some ==> best == asked
            &&& asked is None && is_spelled ==> best == spelled
            &&& asked is None && !is_spelled && is_named ==> best == named
            &&& asked is None && !is_spelled && !is_named ==> best == candidate_target(
                min_score,
                world,
            )
        }),
{
}

/// The scores decide for the first candidate that exists, if it scores enough.
/// The law gives its place where there is one.
pub proof fn law_first_that_exists(min_score: int, world: World) -> (k: int)
    requires
        rank::is_sorted(world.candidates),
        exists|j: int|
            0 <= j < world.candidates.len() && (world.is_dir)(
                (#[trigger] world.candidates[j]).path,
            ) && world.candidates[j].score >= min_score,
    ensures
        0 <= k < world.candidates.len(),
        candidate_target(min_score, world) == Some(world.candidates[k].path),
        (world.is_dir)(world.candidates[k].path),
        world.candidates[k].score >= min_score,
        forall|j: int| 0 <= j < k ==> !(world.is_dir)((#[trigger] world.candidates[j]).path),
{
    let list = world.candidates;
    let paths = strong_paths(list, min_score);
    lemma_cutoff(list, min_score);
    lemma_first_live(paths, world.is_dir, 0);
    if candidate_target(min_score, world) is None {
        law_no_candidate(min_score, world);
        let j = choose|j: int|
            0 <= j < list.len() && (world.is_dir)((#[trigger] list[j]).path) && list[j].score
                >= min_score;
        assert(list[j].score < min_score);
    }
    let path = candidate_target(min_score, world)->Some_0;
    let k = choose|k: int|
        0 <= k < paths.len() && #[trigger] paths[k] == path && (world.is_dir)(path) && forall|j: int|
            0 <= j < k ==> !(world.is_dir)(#[trigger] paths[j]);
    assert(list[k].path == path);
    assert forall|j: int| 0 <= j < k implies !(world.is_dir)((#[trigger] list[j]).path) by {
        assert(paths[j] == list[j].path);
    }
    k
}

/// An entry qualifies exactly where it is a directory and its name is the prefix
/// with something, or nothing, behind it.
pub proof fn law_eligible(entry: DirEntry, prefix: Seq<char>, rest: Seq<char>)
    ensures
        entry.name@ == prefix + rest && entry.is_dir ==> eligible(entry, prefix),
        eligible(entry, prefix) ==> entry.is_dir && entry.name@ == prefix + entry.name@.skip(
            prefix.len() as int,
        ),
{
    let name = entry.name@;
    let n = prefix.len() as int;
    if name == prefix + rest {
        assert(name.subrange(0, n) =~= prefix);
    }
    if eligible(entry, prefix) {
        assert(name.subrange(0, n) == prefix);
        assert(name =~= name.subrange(0, n) + name.skip(n));
    }
}

/// An entry that is listed last and was not modified before any other that
/// qualifies is the newest; one that does not qualify, or is older, changes
/// nothing; and there is one newest at most.
pub proof fn law_newest_subdir(
    entries: Seq<DirEntry>,
    prefix: Seq<char>,
    entry: DirEntry,
    i: int,
    j: int,
)
    ensures
        eligible(entry, prefix) && (forall|k: int|
            0 <= k < entries.len() && eligible(#[trigger] entries[k], prefix)
                ==> entries[k].modified <= entry.modified) ==> is_newest(
            entries.push(entry),
            prefix,
            entries.len() as int,
        ),
        is_newest(entries, prefix, i) && (!eligible(entry, prefix) || entry.modified
            < entries[i].modified) ==> is_newest(entries.push(entry), prefix, i),
        is_newest(entries, prefix, i) && is_newest(entries, prefix, j) ==> i == j,
{
    let all = entries.push(entry);
    if eligible(entry, prefix) && (forall|k: int|
        0 <= k < entries.len() && eligible(#[trigger] entries[k], prefix) ==> entries[k].modified
            <= entry.modified) {
        assert forall|k: int|
            0 <= k < entries.len() && eligible(#[trigger] all[k], prefix) implies all[k].modified
            <= entry.modified by {
            assert(eligible(entries[k], prefix));
        }
    }
    if is_newest(entries, prefix, i) && (!eligible(entry, prefix) || entry.modified
        < entries[i].modified) {
        assert forall|k: int| 0 <= k < i && eligible(#[trigger] all[k], prefix) implies all[k].modified
            <= all[i].modified by {
            assert(eligible(entries[k], prefix));
        }
        assert forall|k: int|
            i < k < all.len() && eligible(#[trigger] all[k], prefix) implies all[k].modified
            < all[i].modified by {
            if k < entries.len() {
                assert(eligible(entries[k], prefix));
            }
        }
    }
    if is_newest(entries, prefix, i) && is_newest(entries, prefix, j) {
        assert(eligible(entries[i], prefix) && eligible(entries[j], prefix));
    }
}

} // verus!
