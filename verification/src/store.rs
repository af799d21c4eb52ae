//! What runs do to a store of history and bookmarks.

use vstd::prelude::*;

use crate::cli;
use crate::cli::Command;
use crate::flow;
use crate::flow::{Action, Event, RunView, Stage};
use crate::import;
use crate::import::{EntryView, ImportError, ImportFile, ProbeView, VisitView};
use crate::report;
use crate::report::ReplyView;
use crate::score;
use crate::score::HistoryRow;
use crate::text;

verus! {

// ---------------------------------------------------------------------------
// Stores
// ---------------------------------------------------------------------------

/// What lies around a store, as runs see it.
pub struct Surroundings {
    /// What a path is expanded to.
    pub expand: spec_fn(Seq<char>) -> Seq<char>,
    /// The canonical spelling of a path, if it leads anywhere.
    pub canonical: spec_fn(Seq<char>) -> Option<Seq<char>>,
    /// The directories that exist.
    pub dirs: Set<Seq<char>>,
    /// How large a file is.
    pub sizes: spec_fn(Seq<char>) -> u64,
    /// What a file holds.
    pub files: spec_fn(Seq<char>) -> ImportFile,
    /// The whole part of the number that a text stands for.
    pub weigh: spec_fn(Option<Seq<char>>) -> Option<i64>,
    /// Whether the stale rows are removed before each command.
    pub prunes: bool,
}

impl Surroundings {
    /// A canonical spelling is that of the same path.
    pub open spec fn wf(self) -> bool {
        forall|path: Seq<char>|
            #![trigger (self.canonical)(path)]
            (self.canonical)(path) matches Some(spelling) ==> (self.canonical)(spelling) == Some(
                spelling,
            )
    }

    /// The canonical spelling of a path, or the path as it stands.
    pub open spec fn spelled(self, path: Seq<char>) -> Seq<char> {
        match (self.canonical)(path) {
            Some(spelling) => spelling,
            None => path,
        }
    }

    /// What is found of an entry of an import file.
    pub open spec fn probe(self, entry: EntryView) -> ProbeView {
        let path = (self.expand)(entry.path);
        ProbeView {
            path,
            is_dir: self.dirs.contains(path),
            weight: (self.weigh)(entry.weight),
        }
    }

    /// What is found of the entries of an import file.
    pub open spec fn probes(self, entries: Seq<EntryView>) -> Seq<ProbeView> {
        Seq::new(entries.len(), |i: int| self.probe(entries[i]))
    }
}

/// A store, as runs see it.
pub struct Store {
    /// The paths of the bookmarks, by their aliases.
    pub bookmarks: Map<Seq<char>, Seq<char>>,
    /// The visits of the directories of the history, by their paths.
    pub visits: Map<Seq<char>, int>,
    pub around: Surroundings,
}

impl Store {
    /// The path of a bookmark, if there is one of that alias.
    pub open spec fn path_of(self, alias: Seq<char>) -> Option<Seq<char>> {
        if self.bookmarks.contains_key(alias) {
            Some(self.bookmarks[alias])
        } else {
            None
        }
    }

    /// How often a directory was visited.
    pub open spec fn count(self, path: Seq<char>) -> int {
        if self.visits.contains_key(path) {
            self.visits[path]
        } else {
            0
        }
    }

    /// The store once `n` visits of a directory were recorded, under its
    /// canonical path.
    pub open spec fn visited(self, path: Seq<char>, n: int) -> Store {
        let key = self.around.spelled(path);
        Store { visits: self.visits.insert(key, self.count(key) + n), ..self }
    }

    /// The store once visits were recorded one after the other.
    pub open spec fn recorded(self, list: Seq<VisitView>) -> Store
        decreases list.len(),
    {
        if list.len() == 0 {
            self
        } else {
            self.recorded(list.drop_last()).visited(list.last().path, list.last().count)
        }
    }

    /// The store once a path was removed from the history.
    pub open spec fn forgotten(self, path: Seq<char>) -> Store {
        Store { visits: self.visits.remove(path), ..self }
    }

    /// The store once the rows whose directories are gone were removed.
    pub open spec fn pruned(self) -> Store {
        Store { visits: self.visits.restrict(self.around.dirs), ..self }
    }

    /// The store that a command finds once it is open.
    pub open spec fn opened(self) -> Store {
        if self.around.prunes {
            self.pruned()
        } else {
            self
        }
    }

    /// Whether rows are those of the history, in whatever order.
    pub open spec fn lists(self, rows: Seq<HistoryRow>) -> bool {
        &&& forall|i: int|
            0 <= i < rows.len() ==> self.visits.contains_key((#[trigger] rows[i]).path@)
                && self.visits[rows[i].path@] == rows[i].visits
        &&& forall|path: Seq<char>| #[trigger]
            self.visits.contains_key(path) ==> exists|i: int|
                0 <= i < rows.len() && (#[trigger] rows[i]).path@ == path
    }

    /// Whether an event can come of an action on a store that does not fail. Of
    /// actions that neither look up a path or a bookmark nor change the store
    /// anything can come. Runs that edit a bookmark are left out: whether a new
    /// alias may be one that is taken is up to the store.
    pub open spec fn answers(
        self,
        action: Action<Seq<char>, ReplyView, Seq<VisitView>, Seq<EntryView>>,
        event: Event,
    ) -> bool {
        match action {
            Action::Open => event matches Event::Opened(Ok(_)),
            Action::AutoPrune => event is Changed,
            Action::Tell(_) => event is Done,
            Action::Locate(path) => event matches Event::Place(place) && place.path@ == (
            self.around.expand)(path) && place.is_dir == self.around.dirs.contains(place.path@)
                && text::maybe(place.canonical) == (self.around.canonical)(place.path@),
            Action::Bookmark(alias) => event matches Event::Text(found) && text::maybe(found)
                == self.path_of(alias),
            Action::SetBookmark { .. } => event is Done,
            Action::RemoveBookmark(alias) => event matches Event::Changed(Ok(n)) && n == (
            if self.bookmarks.contains_key(alias) {
                1int
            } else {
                0int
            }),
            Action::EditBookmark { .. } => false,
            Action::Forget(path) => event matches Event::Changed(Ok(n)) && n == (
            if self.visits.contains_key(path) {
                1int
            } else {
                0int
            }),
            Action::FileSize(file) => event matches Event::Size(Ok(size)) && size == (
            self.around.sizes)(file),
            Action::ReadFile { file, .. } => event matches Event::File(Ok(contents)) && contents
                == (self.around.files)(file),
            Action::Probe(entries) => event matches Event::Probes(probes) && import::probe_views(
                probes@,
            ) == self.around.probes(entries),
            Action::RecordVisits(_) => event is Done,
            Action::ClearHistory => event matches Event::Failure(None),
            Action::FindBest(_) => event is Text,
            Action::Confirm => event is Text,
            _ => true,
        }
    }

    /// The store once an action was performed.
    pub open spec fn after(
        self,
        action: Action<Seq<char>, ReplyView, Seq<VisitView>, Seq<EntryView>>,
    ) -> Store {
        match action {
            Action::SetBookmark { alias, path } => Store {
                bookmarks: self.bookmarks.insert(alias, path),
                ..self
            },
            Action::RemoveBookmark(alias) => Store {
                bookmarks: self.bookmarks.remove(alias),
                ..self
            },
            Action::AutoPrune => self.opened(),
            Action::Prune { .. } => self.pruned(),
            Action::Forget(path) => self.forgotten(path),
            Action::RecordVisits(list) => self.recorded(list),
            Action::ClearHistory => Store { visits: Map::empty(), ..self },
            Action::Finish { visit: Some(path), .. } => self.visited(path, 1),
            _ => self,
        }
    }

    /// What comes of a run whose actions are performed on this store, one event
    /// for each of them but the last: the store it leaves and its reply. Nothing,
    /// if the events are not those of a whole run.
    pub open spec fn performed(self, run: RunView, events: Seq<Event>) -> Option<
        (Store, ReplyView),
    >
        decreases events.len(),
    {
        match run.stage {
            Stage::Finished { reply, .. } => if events.len() == 0 {
                Some((self.after(run.action()), reply))
            } else {
                None
            },
            _ => if events.len() > 0 && self.answers(run.action(), events[0]) {
                self.after(run.action()).performed(run.next(events[0]), events.drop_first())
            } else {
                None
            },
        }
    }
}

impl Store {
    /// What comes of a command line that is run on this store with these events.
    #[verifier::opaque]
    pub open spec fn ran(self, line: Seq<Seq<char>>, events: Seq<Event>) -> Option<
        (Store, ReplyView),
    > {
        self.performed(flow::begun(line), events)
    }

    /// What comes of command lines that are run on this store one after the
    /// other, each with its events: the store that is left, and their replies.
    pub open spec fn ran_all(
        self,
        lines: Seq<Seq<Seq<char>>>,
        events: Seq<Seq<Event>>,
    ) -> Option<(Store, Seq<ReplyView>)>
        decreases lines.len(),
    {
        if lines.len() == 0 {
            Some((self, Seq::empty()))
        } else {
            match self.ran(lines[0], events[0]) {
                Some((store, reply)) => match store.ran_all(
                    lines.drop_first(),
                    events.drop_first(),
                ) {
                    Some((last, replies)) => Some((last, seq![reply] + replies)),
                    None => None,
                },
                None => None,
            }
        }
    }
}

/// Where a run on an open store has come to its command, and how many events it
/// took.
proof fn lemma_command_started(store: Store, list: Seq<Seq<char>>, events: Seq<Event>) -> (k: int)
    requires
        list.len() > 1,
        !cli::is_standalone(list),
        store.performed(flow::begun(list), events) is Some,
    ensures
        0 <= k <= events.len(),
        store.performed(flow::begun(list), events) == store.opened().performed(
            flow::started(cli::parsed(list)),
            events.skip(k),
        ),
{
    let opening = flow::begun(list);
    let pruning = opening.next(events[0]);
    let one = events.drop_first();
    assert(store.performed(opening, events) == store.performed(pruning, one));
    assert(pruning.stage is AutoPruning);
    let open = store.opened();
    let next = pruning.next(one[0]);
    let two = one.drop_first();
    assert(store.performed(pruning, one) == open.performed(next, two));
    assert(two =~= events.skip(2));
    if next.stage is Telling {
        let three = two.drop_first();
        assert(open.performed(next, two) == open.performed(next.next(two[0]), three));
        assert(three =~= events.skip(3));
        3
    } else {
        2
    }
}

// ---------------------------------------------------------------------------
// Bookmarks
// ---------------------------------------------------------------------------

/// Setting a bookmark to a directory says nothing and stores it, expanded, under
/// its alias; a path that is no directory is refused, and no bookmark changes.
pub proof fn law_bookmark_set(
    store: Store,
    program: Seq<char>,
    alias: Seq<char>,
    path: Seq<char>,
    events: Seq<Event>,
)
    requires
        cli::is_alias(alias),
        !cli::is_json_flag(path),
        store.ran(seq![program, "book"@, alias, path], events) is Some,
    ensures
        store.ran(seq![program, "book"@, alias, path], events) == Some(
            if store.around.dirs.contains((store.around.expand)(path)) {
                (
                    Store {
                        bookmarks: store.bookmarks.insert(alias, (store.around.expand)(path)),
                        ..store.opened()
                    },
                    report::silence(0),
                )
            } else {
                (
                    store.opened(),
                    report::complaint("not a directory: "@ + (store.around.expand)(path), 1),
                )
            },
        ),
{
    reveal(Store::ran);
    let list = seq![program, "book"@, alias, path];
    cli::law_book_forms(program, alias, path);
    let k = lemma_command_started(store, list, events);
    let rest = events.skip(k);
    let open = store.opened();
    let placing = flow::started(Command::BookSet { alias, path });
    let next = placing.next(rest[0]);
    let one = rest.drop_first();
    assert(open.performed(placing, rest) == open.performed(next, one));
    if open.around.dirs.contains((open.around.expand)(path)) {
        let action = next.action();
        assert(open.performed(next, one) == open.after(action).performed(
            next.next(one[0]),
            one.drop_first(),
        ));
    }
}

/// Resolving a bookmark prints its path; it fails in silence where there is
/// none. No bookmark changes.
pub proof fn law_bookmark_resolved(
    store: Store,
    program: Seq<char>,
    alias: Seq<char>,
    events: Seq<Event>,
)
    requires
        cli::is_alias(alias),
        store.ran(seq![program, "book"@, alias], events) is Some,
    ensures
        store.ran(seq![program, "book"@, alias], events) == Some(
            (
                store.opened(),
                match store.path_of(alias) {
                    Some(path) => report::line(path, 0),
                    None => report::silence(1),
                },
            ),
        ),
{
    reveal(Store::ran);
    let list = seq![program, "book"@, alias];
    cli::law_book_forms(program, alias, alias);
    let k = lemma_command_started(store, list, events);
    let rest = events.skip(k);
    let resolving = flow::started(Command::BookResolve { alias });
    let open = store.opened();
    assert(open.performed(resolving, rest) == open.performed(
        resolving.next(rest[0]),
        rest.drop_first(),
    ));
}

/// Removing a bookmark succeeds exactly where there is one, and none is left.
pub proof fn law_bookmark_removed(
    store: Store,
    program: Seq<char>,
    alias: Seq<char>,
    events: Seq<Event>,
)
    requires
        cli::is_alias(alias),
        store.ran(seq![program, "book"@, "rm"@, alias], events) is Some,
    ensures
        store.ran(seq![program, "book"@, "rm"@, alias], events) == Some(
            (
                Store { bookmarks: store.bookmarks.remove(alias), ..store.opened() },
                if store.bookmarks.contains_key(alias) {
                    report::silence(0)
                } else {
                    report::complaint("no such bookmark: "@ + alias, 1)
                },
            ),
        ),
{
    reveal(Store::ran);
    let list = seq![program, "book"@, "rm"@, alias];
    cli::law_book_forms(program, alias, alias);
    let k = lemma_command_started(store, list, events);
    let rest = events.skip(k);
    let removing = flow::started(Command::BookRemove { alias });
    let open = store.opened();
    assert(open.performed(removing, rest) == open.after(removing.action()).performed(
        removing.next(rest[0]),
        rest.drop_first(),
    ));
}

/// A bookmark that was set is resolved to its directory. It can be removed once:
/// after that neither resolving nor removing it succeeds.
pub proof fn law_bookmark_kept(
    store: Store,
    program: Seq<char>,
    alias: Seq<char>,
    path: Seq<char>,
    events: Seq<Seq<Event>>,
)
    requires
        cli::is_alias(alias),
        !cli::is_json_flag(path),
    ensures
        ({
            let set = seq![program, "book"@, alias, path];
            let resolve = seq![program, "book"@, alias];
            let remove = seq![program, "book"@, "rm"@, alias];
            store.ran_all(seq![set, resolve, remove, resolve, remove], events) matches Some(
                (_, replies),
            ) ==> {
                &&& replies.len() == 5
                &&& replies[0].code == 0 ==> {
                    &&& replies[1] == report::line((store.around.expand)(path), 0)
                    &&& replies[2].code == 0
                    &&& replies[3] == report::silence(1)
                    &&& replies[4] == report::complaint("no such bookmark: "@ + alias, 1)
                }
            }
        }),
{
    let set = seq![program, "book"@, alias, path];
    let resolve = seq![program, "book"@, alias];
    let remove = seq![program, "book"@, "rm"@, alias];
    let five = seq![set, resolve, remove, resolve, remove];
    let four = seq![resolve, remove, resolve, remove];
    let three = seq![remove, resolve, remove];
    let two = seq![resolve, remove];
    let one = seq![remove];
    assert(five.drop_first() =~= four);
    assert(four.drop_first() =~= three);
    assert(three.drop_first() =~= two);
    assert(two.drop_first() =~= one);
    assert(one.drop_first() =~= Seq::empty());
    if store.ran_all(five, events) is Some {
        law_bookmark_set(store, program, alias, path, events[0]);
        let (kept, _) = store.ran(set, events[0])->Some_0;
        let events = events.drop_first();
        assert(kept.ran_all(four, events) is Some);
        law_bookmark_resolved(kept, program, alias, events[0]);
        let (seen, _) = kept.ran(resolve, events[0])->Some_0;
        let events = events.drop_first();
        assert(seen.ran_all(three, events) is Some);
        law_bookmark_removed(seen, program, alias, events[0]);
        let (emptied, _) = seen.ran(remove, events[0])->Some_0;
        let events = events.drop_first();
        assert(emptied.ran_all(two, events) is Some);
        law_bookmark_resolved(emptied, program, alias, events[0]);
        let (missed, _) = emptied.ran(resolve, events[0])->Some_0;
        let events = events.drop_first();
        assert(missed.ran_all(one, events) is Some);
        law_bookmark_removed(missed, program, alias, events[0]);
        let (last, _) = missed.ran(remove, events[0])->Some_0;
        assert(last.ran_all(Seq::empty(), events.drop_first()) is Some);
    }
}

// ---------------------------------------------------------------------------
// The history
// ---------------------------------------------------------------------------

/// Recording visits adds to the visits of one directory, and to no others.
pub proof fn law_visits_counted(store: Store, path: Seq<char>, n: int, other: Seq<char>)
    ensures
        store.visited(path, n).count(other) == store.count(other) + if other
            == store.around.spelled(path) {
            n
        } else {
            0
        },
        store.visited(path, n).visits.contains_key(other) <==> store.visits.contains_key(other)
            || other == store.around.spelled(path),
        store.visited(path, n).bookmarks == store.bookmarks,
{
}

/// How many of the visits are of one directory.
pub open spec fn visits_to(around: Surroundings, list: Seq<VisitView>, path: Seq<char>) -> int
    decreases list.len(),
{
    if list.len() == 0 {
        0
    } else {
        visits_to(around, list.drop_last(), path) + if around.spelled(list.last().path) == path {
            list.last().count
        } else {
            0
        }
    }
}

/// Recording a list of visits adds to each directory what the list holds of it.
/// Nothing is removed.
pub proof fn law_recorded_counts(store: Store, list: Seq<VisitView>, path: Seq<char>)
    ensures
        store.recorded(list).count(path) == store.count(path) + visits_to(
            store.around,
            list,
            path,
        ),
        store.recorded(list).visits.contains_key(path) <==> store.visits.contains_key(path)
            || exists|i: int|
            0 <= i < list.len() && store.around.spelled((#[trigger] list[i]).path) == path,
        store.recorded(list).bookmarks == store.bookmarks,
        store.recorded(list).around == store.around,
    decreases list.len(),
{
    if list.len() > 0 {
        let init = list.drop_last();
        law_recorded_counts(store, init, path);
        let around = store.around;
        if exists|i: int| 0 <= i < list.len() && around.spelled((#[trigger] list[i]).path) == path {
            let i = choose|i: int|
                0 <= i < list.len() && around.spelled((#[trigger] list[i]).path) == path;
            if i < init.len() {
                assert(around.spelled(init[i].path) == path);
            }
        }
        if exists|i: int| 0 <= i < init.len() && around.spelled((#[trigger] init[i]).path) == path {
            let i = choose|i: int|
                0 <= i < init.len() && around.spelled((#[trigger] init[i]).path) == path;
            assert(around.spelled(list[i].path) == path);
        }
        assert(list[list.len() - 1] == list.last());
    }
}

/// Adding a directory says nothing and records one visit of its canonical path;
/// a path that is no directory is refused, and nothing is recorded.
pub proof fn law_directory_added(
    store: Store,
    program: Seq<char>,
    path: Seq<char>,
    events: Seq<Event>,
)
    requires
        path.len() > 0,
        path != "--"@,
        path != "--dry-run"@,
        store.around.wf(),
        store.ran(seq![program, "add"@, path], events) is Some,
    ensures
        ({
            let expanded = (store.around.expand)(path);
            let canonical = store.around.spelled(expanded);
            let (next, reply) = store.ran(seq![program, "add"@, path], events)->Some_0;
            if store.around.dirs.contains(expanded) {
                &&& next == store.opened().visited(canonical, 1)
                &&& next.count(canonical) == store.opened().count(canonical) + 1
                &&& forall|other: Seq<char>|
                    other != canonical ==> #[trigger] next.count(other) == store.opened().count(
                        other,
                    )
                &&& reply == report::silence(0)
            } else {
                &&& next == store.opened()
                &&& reply == report::complaint("not a directory: "@ + expanded, 1)
            }
        }),
{
    reveal(Store::ran);
    let list = seq![program, "add"@, path];
    cli::law_add_form(program, path);
    let k = lemma_command_started(store, list, events);
    let rest = events.skip(k);
    let open = store.opened();
    let adding = flow::started(Command::Add { path, dry_run: false });
    assert(open.performed(adding, rest) == open.performed(
        adding.next(rest[0]),
        rest.drop_first(),
    ));
}

/// A directory that was just added is found by any fragment of its canonical
/// path: in whatever order the rows of the history are read, one of them is its
/// own, and such a query scores it. The law gives the row.
pub proof fn law_added_is_found(
    store: Store,
    program: Seq<char>,
    path: Seq<char>,
    events: Seq<Event>,
    rows: Seq<HistoryRow>,
    fragment: Seq<char>,
) -> (i: int)
    requires
        path.len() > 0,
        path != "--"@,
        path != "--dry-run"@,
        store.around.wf(),
        store.around.dirs.contains((store.around.expand)(path)),
        store.ran(seq![program, "add"@, path], events) matches Some((next, _)) && next.lists(rows),
        score::is_fragment(store.around.spelled((store.around.expand)(path)), fragment),
    ensures
        0 <= i < rows.len(),
        rows[i].path@ == store.around.spelled((store.around.expand)(path)),
        score::is_fragment(rows[i].path@, fragment),
        !score::is_filter(fragment) ==> score::query_matches(rows[i].path@, fragment),
{
    law_directory_added(store, program, path, events);
    let canonical = store.around.spelled((store.around.expand)(path));
    let (next, _) = store.ran(seq![program, "add"@, path], events)->Some_0;
    assert(next.visits.contains_key(canonical));
    let i = choose|i: int| 0 <= i < rows.len() && (#[trigger] rows[i]).path@ == canonical;
    if !score::is_filter(fragment) {
        score::law_fragment_found(canonical, fragment);
    }
    i
}

/// Removing a path takes its canonical path out of the history. It says whether
/// it was there.
pub proof fn law_path_removed(
    store: Store,
    program: Seq<char>,
    path: Seq<char>,
    events: Seq<Event>,
)
    requires
        path != "--"@,
        store.ran(seq![program, "rm"@, path], events) is Some,
    ensures
        ({
            let canonical = store.around.spelled((store.around.expand)(path));
            let (next, reply) = store.ran(seq![program, "rm"@, path], events)->Some_0;
            &&& next == store.opened().forgotten(canonical)
            &&& !next.visits.contains_key(canonical)
            &&& reply == if store.opened().visits.contains_key(canonical) {
                report::line("removed: "@ + canonical, 0)
            } else {
                report::line("not found in history: "@ + canonical, 1)
            }
        }),
{
    reveal(Store::ran);
    let list = seq![program, "rm"@, path];
    cli::law_rm_form(program, path);
    let k = lemma_command_started(store, list, events);
    let rest = events.skip(k);
    let open = store.opened();
    let removing = flow::started(Command::Remove { path });
    let removed = removing.next(rest[0]);
    let one = rest.drop_first();
    assert(open.performed(removing, rest) == open.performed(removed, one));
    assert(open.performed(removed, one) == open.after(removed.action()).performed(
        removed.next(one[0]),
        one.drop_first(),
    ));
}

/// Forgetting what a query finds takes that out of the history. The law gives
/// what was found, if anything was.
pub proof fn law_match_forgotten(
    store: Store,
    program: Seq<char>,
    query: Seq<char>,
    events: Seq<Event>,
) -> (found: Option<Seq<char>>)
    requires
        query.len() > 0,
        query != "--dry-run"@,
        store.ran(seq![program, "forget"@, query], events) is Some,
    ensures
        ({
            let (next, reply) = store.ran(seq![program, "forget"@, query], events)->Some_0;
            match found {
                Some(path) => {
                    &&& next == store.opened().forgotten(path)
                    &&& !next.visits.contains_key(path)
                    &&& reply == if store.opened().visits.contains_key(path) {
                        report::line("forgot: "@ + path, 0)
                    } else {
                        report::line("not found in history: "@ + path, 0)
                    }
                },
                None => {
                    &&& next == store.opened()
                    &&& reply == report::complaint("no match for: "@ + query, 1)
                },
            }
        }),
{
    reveal(Store::ran);
    let list = seq![program, "forget"@, query];
    cli::law_forget_form(program, query);
    let k = lemma_command_started(store, list, events);
    let rest = events.skip(k);
    let open = store.opened();
    let forgetting = flow::started(Command::Forget { query, dry_run: false });
    let forgotten = forgetting.next(rest[0]);
    let one = rest.drop_first();
    assert(open.performed(forgetting, rest) == open.performed(forgotten, one));
    match forgotten.stage {
        Stage::Forgotten { path } => {
            assert(open.performed(forgotten, one) == open.after(forgotten.action()).performed(
                forgotten.next(one[0]),
                one.drop_first(),
            ));
            Some(path)
        },
        _ => None,
    }
}

/// Clearing by force leaves no history. The bookmarks stay.
pub proof fn law_history_cleared(store: Store, program: Seq<char>, events: Seq<Event>)
    requires
        store.ran(seq![program, "clear"@, "--force"@], events) is Some,
    ensures
        ({
            let (next, reply) = store.ran(seq![program, "clear"@, "--force"@], events)->Some_0;
            &&& next.visits == Map::<Seq<char>, int>::empty()
            &&& next.bookmarks == store.bookmarks
            &&& reply == report::line("history cleared"@, 0)
        }),
{
    reveal(Store::ran);
    let list = seq![program, "clear"@, "--force"@];
    cli::law_clear_forms(program);
    let k = lemma_command_started(store, list, events);
    let rest = events.skip(k);
    let open = store.opened();
    let clearing = flow::started(Command::Clear { force: true });
    assert(open.performed(clearing, rest) == open.after(clearing.action()).performed(
        clearing.next(rest[0]),
        rest.drop_first(),
    ));
}

/// Clearing without force leaves no history or leaves it as it is, as the user
/// consents or not.
pub proof fn law_clearing_asks(store: Store, program: Seq<char>, events: Seq<Event>)
    requires
        store.ran(seq![program, "clear"@], events) is Some,
    ensures
        ({
            let (next, reply) = store.ran(seq![program, "clear"@], events)->Some_0;
            ||| next.visits == Map::<Seq<char>, int>::empty() && next.bookmarks == store.bookmarks
                && reply == report::line("history cleared"@, 0)
            ||| next == store.opened() && reply == report::line("aborted"@, 1)
        }),
{
    reveal(Store::ran);
    let list = seq![program, "clear"@];
    cli::law_clear_forms(program);
    let k = lemma_command_started(store, list, events);
    let rest = events.skip(k);
    let open = store.opened();
    let confirming = flow::started(Command::Clear { force: false });
    let next = confirming.next(rest[0]);
    let one = rest.drop_first();
    assert(open.performed(confirming, rest) == open.performed(next, one));
    if next.stage is Clearing {
        assert(open.performed(next, one) == open.after(next.action()).performed(
            next.next(one[0]),
            one.drop_first(),
        ));
    }
}

/// What the entries of the file of a tool come to.
pub open spec fn imported_outcomes(
    around: Surroundings,
    source: Seq<char>,
    file: Seq<char>,
) -> Seq<Option<VisitView>> {
    let contents = (around.files)(file);
    import::source_outcomes(
        source,
        contents,
        around.probes(import::source_entries(source, contents)),
    )
}

/// The visits that the file of a tool comes to.
pub open spec fn imported_visits(
    around: Surroundings,
    source: Seq<char>,
    file: Seq<char>,
) -> Seq<VisitView> {
    import::visits_of(imported_outcomes(around, source, file))
}

/// The answer to the import of the file of a tool.
pub open spec fn imported_reply(
    around: Surroundings,
    source: Seq<char>,
    file: Seq<char>,
) -> ReplyView {
    let visits = imported_visits(around, source, file);
    report::import_answer(
        visits.len() as int,
        imported_outcomes(around, source, file).len() - visits.len(),
    )
}

proof fn lemma_visits_recorded(
    store: Store,
    visits: Seq<VisitView>,
    reply: ReplyView,
    events: Seq<Event>,
)
    requires
        store.performed(RunView { stage: Stage::Importing { visits, reply } }, events) is Some,
    ensures
        store.performed(RunView { stage: Stage::Importing { visits, reply } }, events) == Some(
            (store.recorded(visits), reply),
        ),
{
    let importing = RunView { stage: Stage::Importing { visits, reply } };
    let end = importing.next(events[0]);
    assert(end == flow::over(reply));
    assert(store.performed(importing, events) == store.recorded(visits).performed(
        end,
        events.drop_first(),
    ));
}

proof fn lemma_entries_probed(
    store: Store,
    source: Seq<char>,
    file: Seq<char>,
    events: Seq<Event>,
)
    requires
        import::is_source(source),
        store.performed(
            RunView {
                stage: Stage::Probing {
                    source,
                    contents: (store.around.files)(file),
                    dry_run: false,
                },
            },
            events,
        ) is Some,
    ensures
        store.performed(
            RunView {
                stage: Stage::Probing {
                    source,
                    contents: (store.around.files)(file),
                    dry_run: false,
                },
            },
            events,
        ) == Some(
            (
                store.recorded(imported_visits(store.around, source, file)),
                imported_reply(store.around, source, file),
            ),
        ),
{
    let contents = (store.around.files)(file);
    let probing = RunView { stage: Stage::Probing { source, contents, dry_run: false } };
    let visits = imported_visits(store.around, source, file);
    let reply = imported_reply(store.around, source, file);
    assert(probing.action() == Action::<
        Seq<char>,
        ReplyView,
        Seq<VisitView>,
        Seq<EntryView>,
    >::Probe(import::source_entries(source, contents)));
    assert(store.answers(probing.action(), events[0]));
    match events[0] {
        Event::Probes(probes) => {
            let views = import::probe_views(probes@);
            assert(views.len() == import::source_entries(source, contents).len());
            assert(probing.next(events[0]) == flow::imported(source, contents, false, views));
        },
        _ => {},
    }
    let importing = RunView { stage: Stage::Importing { visits, reply } };
    assert(probing.next(events[0]) == importing);
    assert(store.performed(probing, events) == store.performed(importing, events.drop_first()));
    lemma_visits_recorded(store, visits, reply, events.drop_first());
}

proof fn lemma_import_performed(
    store: Store,
    source: Seq<char>,
    file: Seq<char>,
    events: Seq<Event>,
)
    requires
        import::is_source(source),
        (store.around.sizes)(file) <= import::MAX_FILE_SIZE,
        store.performed(
            RunView { stage: Stage::Sizing { source, file, dry_run: false } },
            events,
        ) is Some,
    ensures
        store.performed(RunView { stage: Stage::Sizing { source, file, dry_run: false } }, events)
            == Some(
            (
                store.recorded(imported_visits(store.around, source, file)),
                imported_reply(store.around, source, file),
            ),
        ),
{
    let sizing = RunView { stage: Stage::Sizing { source, file, dry_run: false } };
    let reading = RunView { stage: Stage::Reading { source, file, dry_run: false } };
    let contents = (store.around.files)(file);
    let probing = RunView { stage: Stage::Probing { source, contents, dry_run: false } };
    let one = events.drop_first();
    assert(sizing.next(events[0]) == reading);
    assert(store.performed(sizing, events) == store.performed(reading, one));
    assert(reading.next(one[0]) == probing);
    assert(store.performed(reading, one) == store.performed(probing, one.drop_first()));
    lemma_entries_probed(store, source, file, one.drop_first());
}

/// Importing a file adds the visits it comes to, and says how many entries were
/// imported and how many skipped. One that is too large is refused.
pub proof fn law_file_imported(
    store: Store,
    program: Seq<char>,
    source: Seq<char>,
    file: Seq<char>,
    events: Seq<Event>,
)
    requires
        import::is_source(source),
        file != "--dry-run"@,
        store.ran(seq![program, "import"@, source, file], events) is Some,
    ensures
        ({
            let visits = imported_visits(store.around, source, file);
            let size = (store.around.sizes)(file);
            let (next, reply) = store.ran(seq![program, "import"@, source, file], events)->Some_0;
            if size <= import::MAX_FILE_SIZE {
                &&& next == store.opened().recorded(visits)
                &&& forall|path: Seq<char>| #[trigger]
                    next.count(path) == store.opened().count(path) + visits_to(
                        store.around,
                        visits,
                        path,
                    )
                &&& reply == imported_reply(store.around, source, file)
            } else {
                &&& next == store.opened()
                &&& reply == report::import_failed(
                    (ImportError::FileTooLarge { size, max: import::MAX_FILE_SIZE }).text(),
                    false,
                )
            }
        }),
{
    reveal(Store::ran);
    let list = seq![program, "import"@, source, file];
    cli::law_import_form(program, source, file);
    let k = lemma_command_started(store, list, events);
    let open = store.opened();
    let rest = events.skip(k);
    let sizing = RunView { stage: Stage::Sizing { source, file, dry_run: false } };
    assert(flow::started(cli::parsed(list)) == sizing);
    if (store.around.sizes)(file) <= import::MAX_FILE_SIZE {
        lemma_import_performed(open, source, file, rest);
    } else {
        assert(open.performed(sizing, rest) == open.performed(
            sizing.next(rest[0]),
            rest.drop_first(),
        ));
    }
    let visits = imported_visits(store.around, source, file);
    assert forall|path: Seq<char>| #[trigger]
        open.recorded(visits).count(path) == open.count(path) + visits_to(
            store.around,
            visits,
            path,
        ) by {
        law_recorded_counts(open, visits, path);
    }
}

} // verus!
