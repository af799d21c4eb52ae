//! How a command is carried out.
//!
//! A run names one action at a time: something to look up, to change or to
//! print. The caller performs it and hands what came of it to [`run`], which
//! decides how to go on.

use vstd::prelude::*;

use crate::cli;
use crate::cli::{Changes, Command};
use crate::export;
use crate::export::ExportRow;
use crate::import;
use crate::import::{Entry, ImportError, ImportFile, Probe, Visit};
use crate::init;
use crate::rank;
use crate::rank::Bookmark;
use crate::render;
use crate::report;
use crate::report::{Reply, ReplyView};
use crate::score;
use crate::score::{HistoryRow, Scored};
use crate::stats;
use crate::stats::{Counts, Detail};
use crate::text;

verus! {

// ---------------------------------------------------------------------------
// Actions and events
// ---------------------------------------------------------------------------

/// What has to be done next.
#[derive(Debug)]
pub enum Action<T, R, V, E> {
    /// Open the store.
    Open,
    /// Remove the stale rows, if the configuration says so.
    AutoPrune,
    /// Print a line on standard error.
    Tell(T),
    /// Let the user pick a directory.
    Pick,
    /// Search the best directory for a query.
    FindBest(T),
    /// Count the rows of the history.
    HistoryCount,
    /// Read all rows of the history.
    HistoryRows,
    /// Read this many rows, or all if there are fewer, those with the most visits
    /// first.
    Top(usize),
    /// Read this many rows, or all if there are fewer, the latest visited first.
    Recent(usize),
    /// Expand a path, and see what it leads to.
    Locate(T),
    /// Remove a path from the history.
    Forget(T),
    /// Read the bookmarks.
    Bookmarks,
    /// Read the path of a bookmark.
    Bookmark(T),
    SetBookmark { alias: T, path: T },
    EditBookmark { alias: T, changes: Changes<T> },
    RemoveBookmark(T),
    /// Score bookmarks and history for a query, and see which still exist.
    Candidates(T),
    /// Read what is to be exported.
    Export,
    /// Write what is to be exported as JSON.
    ExportJson,
    /// See how large a file is.
    FileSize(T),
    /// Read an import file of a tool.
    ReadFile { source: T, file: T },
    /// Probe the paths of entries.
    Probe(E),
    /// Record visits.
    RecordVisits(V),
    /// Find the stale rows.
    Stale,
    /// Print a line on standard error, if there is one, and remove the stale
    /// rows, telling how far that has come unless it is to be quiet.
    Prune { start: Option<T>, quiet: bool },
    /// Ask the user whether the history may be wiped.
    Confirm,
    /// Wipe the history.
    ClearHistory,
    /// Count what the store holds.
    Counts,
    /// Write numbers with fractions out: the share of stale rows, and in detail
    /// the size of the store, the ages of the first and the last visit and that
    /// of the row not visited for longest; and read the rows with the most
    /// visits.
    Describe {
        verbose: bool,
        stale: usize,
        total: usize,
        range: Option<(i64, i64)>,
        oldest: Option<i64>,
    },
    /// Diagnose the setup.
    Doctor,
    /// Read the value of `$SHELL`.
    ShellVariable,
    /// Find the completion script of a shell.
    CompletionScript(T),
    /// Find the version of the program.
    Version,
    /// Print the reply, and record a visit where one is due. The run is over.
    Finish { reply: R, visit: Option<T> },
}

/// What a path leads to.
pub struct Place {
    /// The path with `~` expanded.
    pub path: String,
    pub is_dir: bool,
    /// Its canonical spelling, if it leads anywhere.
    pub canonical: Option<String>,
}

/// Numbers written out, and the rows with the most visits.
pub struct Description {
    pub percent: String,
    pub size: Option<(String, String)>,
    pub ages: Option<(String, String)>,
    pub oldest_age: Option<String>,
    pub top: Result<Vec<HistoryRow>, String>,
    pub live: Vec<bool>,
}

/// What came of an action.
pub enum Event {
    /// Nothing more than that it was done, or tried.
    Done,
    Opened(Result<(), String>),
    /// How many rows were changed.
    Changed(Result<usize, String>),
    Number(usize),
    /// A path, or a text, if there is one.
    Text(Option<String>),
    Place(Place),
    /// Rows, and which of them still exist.
    Rows(Result<Vec<HistoryRow>, String>, Vec<bool>),
    Bookmarks(Result<Vec<Bookmark>, String>),
    /// Candidates, and which of them still exist.
    Candidates(Vec<Scored>, Vec<bool>),
    Export(Result<Vec<ExportRow>, String>, Result<Vec<Bookmark>, String>),
    Size(Result<u64, String>),
    File(Result<ImportFile, String>),
    Probes(Vec<Probe>),
    Paths(Result<Vec<String>, String>),
    /// Why it failed, if it did.
    Failure(Option<String>),
    Counts(Result<Counts, String>),
    Described(Description),
    /// Whether all is well, and what was found.
    Diagnosis(bool, Vec<String>),
}

// ---------------------------------------------------------------------------
// Runs
// ---------------------------------------------------------------------------

/// How far a run has come: what it waits for, and what it needs to go on.
#[derive(Debug)]
pub enum Stage<T, R, V, F> {
    Opening { bare: bool, verbose: bool, command: Command<T> },
    AutoPruning { verbose: bool, command: Command<T> },
    Telling { message: T, command: Command<T> },
    Picking,
    Jumping { query: T },
    Missing,
    GoingBack,
    Adding { path: T, dry_run: bool },
    Previewing { path: T },
    Removing { path: T },
    Removed { path: T },
    Forgetting { query: T, dry_run: bool },
    Forgotten { path: T },
    ForgetPicking,
    PickForgotten { path: T },
    BookListing { json: bool },
    BookRemoving { alias: T },
    BookShowing { alias: T },
    BookLocating { alias: T, path: T, changes: Changes<T> },
    BookEditing { alias: T, changes: Changes<T> },
    BookPlacing { alias: T, path: T },
    BookSetting { alias: T, path: T },
    BookResolving { alias: T },
    Topping { count: usize },
    Recalling { count: usize },
    Scoring { query: T, json: bool },
    Listing { query: T, limit: usize, json: bool },
    Exporting { format: T },
    ExportingJson,
    Sizing { source: T, file: T, dry_run: bool },
    Reading { source: T, file: T, dry_run: bool },
    Probing { source: T, contents: F, dry_run: bool },
    Importing { visits: V, reply: R },
    FindingStale,
    Counting { quiet: bool },
    Pruning { start: Option<T>, quiet: bool },
    Confirming,
    Clearing,
    Summing { verbose: bool },
    Surveying { verbose: bool, counts: Counts },
    Describing {
        verbose: bool,
        counts: Counts,
        stale: usize,
        rows: usize,
        range: Option<(i64, i64)>,
        oldest: Option<(T, i64)>,
    },
    Diagnosing,
    Initializing { shell: Option<T>, verify: bool },
    Completing { shell: Option<T> },
    Scripting { shell: T },
    Naming,
    Finished { reply: R, visit: Option<T> },
}

/// A run under way.
pub struct Run {
    pub stage: Stage<String, Reply, Vec<Visit>, ImportFile>,
}

/// The view of a run.
pub struct RunView {
    pub stage: Stage<Seq<char>, ReplyView, Seq<import::VisitView>, ImportFile>,
}

/// The view of a path and a time.
pub open spec fn oldest_view(oldest: Option<(String, i64)>) -> Option<(Seq<char>, i64)> {
    match oldest {
        Some((path, time)) => Some((path@, time)),
        None => None,
    }
}

impl View for Run {
    type V = RunView;

    open spec fn view(&self) -> RunView {
        let stage = match self.stage {
            Stage::Opening { bare, verbose, command } => Stage::Opening {
                bare,
                verbose,
                command: command@,
            },
            Stage::AutoPruning { verbose, command } => Stage::AutoPruning {
                verbose,
                command: command@,
            },
            Stage::Telling { message, command } => Stage::Telling {
                message: message@,
                command: command@,
            },
            Stage::Picking => Stage::Picking,
            Stage::Jumping { query } => Stage::Jumping { query: query@ },
            Stage::Missing => Stage::Missing,
            Stage::GoingBack => Stage::GoingBack,
            Stage::Adding { path, dry_run } => Stage::Adding { path: path@, dry_run },
            Stage::Previewing { path } => Stage::Previewing { path: path@ },
            Stage::Removing { path } => Stage::Removing { path: path@ },
            Stage::Removed { path } => Stage::Removed { path: path@ },
            Stage::Forgetting { query, dry_run } => Stage::Forgetting { query: query@, dry_run },
            Stage::Forgotten { path } => Stage::Forgotten { path: path@ },
            Stage::ForgetPicking => Stage::ForgetPicking,
            Stage::PickForgotten { path } => Stage::PickForgotten { path: path@ },
            Stage::BookListing { json } => Stage::BookListing { json },
            Stage::BookRemoving { alias } => Stage::BookRemoving { alias: alias@ },
            Stage::BookShowing { alias } => Stage::BookShowing { alias: alias@ },
            Stage::BookLocating { alias, path, changes } => Stage::BookLocating {
                alias: alias@,
                path: path@,
                changes: changes@,
            },
            Stage::BookEditing { alias, changes } => Stage::BookEditing {
                alias: alias@,
                changes: changes@,
            },
            Stage::BookPlacing { alias, path } => Stage::BookPlacing {
                alias: alias@,
                path: path@,
            },
            Stage::BookSetting { alias, path } => Stage::BookSetting {
                alias: alias@,
                path: path@,
            },
            Stage::BookResolving { alias } => Stage::BookResolving { alias: alias@ },
            Stage::Topping { count } => Stage::Topping { count },
            Stage::Recalling { count } => Stage::Recalling { count },
            Stage::Scoring { query, json } => Stage::Scoring { query: query@, json },
            Stage::Listing { query, limit, json } => Stage::Listing { query: query@, limit, json },
            Stage::Exporting { format } => Stage::Exporting { format: format@ },
            Stage::ExportingJson => Stage::ExportingJson,
            Stage::Sizing { source, file, dry_run } => Stage::Sizing {
                source: source@,
                file: file@,
                dry_run,
            },
            Stage::Reading { source, file, dry_run } => Stage::Reading {
                source: source@,
                file: file@,
                dry_run,
            },
            Stage::Probing { source, contents, dry_run } => Stage::Probing {
                source: source@,
                contents,
                dry_run,
            },
            Stage::Importing { visits, reply } => Stage::Importing {
                visits: import::visit_views(visits@),
                reply: reply@,
            },
            Stage::FindingStale => Stage::FindingStale,
            Stage::Counting { quiet } => Stage::Counting { quiet },
            Stage::Pruning { start, quiet } => Stage::Pruning { start: text::maybe(start), quiet },
            Stage::Confirming => Stage::Confirming,
            Stage::Clearing => Stage::Clearing,
            Stage::Summing { verbose } => Stage::Summing { verbose },
            Stage::Surveying { verbose, counts } => Stage::Surveying { verbose, counts },
            Stage::Describing { verbose, counts, stale, rows, range, oldest } => Stage::Describing {
                verbose,
                counts,
                stale,
                rows,
                range,
                oldest: oldest_view(oldest),
            },
            Stage::Diagnosing => Stage::Diagnosing,
            Stage::Initializing { shell, verify } => Stage::Initializing {
                shell: text::maybe(shell),
                verify,
            },
            Stage::Completing { shell } => Stage::Completing { shell: text::maybe(shell) },
            Stage::Scripting { shell } => Stage::Scripting { shell: shell@ },
            Stage::Naming => Stage::Naming,
            Stage::Finished { reply, visit } => Stage::Finished {
                reply: reply@,
                visit: text::maybe(visit),
            },
        };
        RunView { stage }
    }
}

// ---------------------------------------------------------------------------
// How a run goes on
// ---------------------------------------------------------------------------

/// A run that is over.
pub open spec fn over(reply: ReplyView) -> RunView {
    RunView { stage: Stage::Finished { reply, visit: None } }
}

/// A run that is over and led to a directory: the path is printed, and the
/// directory visited.
pub open spec fn led_to(path: Seq<char>) -> RunView {
    RunView { stage: Stage::Finished { reply: report::line(path, 0), visit: Some(path) } }
}

/// A run that failed: what failed, and why.
pub open spec fn failed(what: Seq<char>, why: Seq<char>, code: u8) -> RunView {
    over(report::complaint(what + ": "@ + why, code))
}

/// A run at the start of a command.
pub open spec fn started(command: Command<Seq<char>>) -> RunView {
    match command {
        Command::Init { shell, verify } => RunView { stage: Stage::Initializing { shell, verify } },
        Command::Completions { shell } => RunView { stage: Stage::Completing { shell } },
        Command::Help => over(ReplyView { out: cli::HELP@, err: Seq::empty(), code: 0 }),
        Command::Version => RunView { stage: Stage::Naming },
        Command::Pick => RunView { stage: Stage::Picking },
        Command::Jump { query } => RunView { stage: Stage::Jumping { query } },
        Command::Previous => RunView { stage: Stage::GoingBack },
        Command::Add { path, dry_run } => RunView { stage: Stage::Adding { path, dry_run } },
        Command::Remove { path } => RunView { stage: Stage::Removing { path } },
        Command::Forget { query, dry_run } => RunView {
            stage: Stage::Forgetting { query, dry_run },
        },
        Command::ForgetPick => RunView { stage: Stage::ForgetPicking },
        Command::BookList { json } => RunView { stage: Stage::BookListing { json } },
        Command::BookRemove { alias } => RunView { stage: Stage::BookRemoving { alias } },
        Command::BookShow { alias } => RunView { stage: Stage::BookShowing { alias } },
        Command::BookEdit { alias, changes } => match changes.path {
            Some(path) => RunView { stage: Stage::BookLocating { alias, path, changes } },
            None => RunView { stage: Stage::BookEditing { alias, changes } },
        },
        Command::BookSet { alias, path } => RunView { stage: Stage::BookPlacing { alias, path } },
        Command::BookResolve { alias } => RunView { stage: Stage::BookResolving { alias } },
        Command::History { count } => RunView { stage: Stage::Topping { count } },
        Command::Recent { count } => RunView { stage: Stage::Recalling { count } },
        Command::Score { query, json } => RunView { stage: Stage::Scoring { query, json } },
        Command::List { query, limit, json } => RunView {
            stage: Stage::Listing { query, limit, json },
        },
        Command::Export { format } => RunView { stage: Stage::Exporting { format } },
        Command::Import { source, file, dry_run } => if import::is_source(source) {
            RunView { stage: Stage::Sizing { source, file, dry_run } }
        } else {
            over(report::import_failed("unknown source: "@ + source, dry_run))
        },
        Command::Prune { dry_run, quiet } => if dry_run {
            RunView { stage: Stage::FindingStale }
        } else {
            RunView { stage: Stage::Counting { quiet } }
        },
        Command::Clear { force } => if force {
            RunView { stage: Stage::Clearing }
        } else {
            RunView { stage: Stage::Confirming }
        },
        Command::Stats { verbose } => RunView { stage: Stage::Summing { verbose } },
        Command::Doctor => RunView { stage: Stage::Diagnosing },
        Command::Refused { message, code } => over(report::complaint(message, code)),
    }
}

/// A run at its beginning. What needs no store is started at once.
pub open spec fn begun(list: Seq<Seq<char>>) -> RunView {
    if cli::is_standalone(list) {
        started(cli::parsed(list))
    } else {
        RunView {
            stage: Stage::Opening {
                bare: list.len() == 1,
                verbose: cli::is_verbose(list),
                command: cli::parsed(list),
            },
        }
    }
}

impl Run {
    /// A run that is over.
    fn end(reply: Reply) -> (r: Run)
        ensures
            r@ == over(reply@),
    {
        Run { stage: Stage::Finished { reply, visit: None } }
    }

    /// A run that is over and led to a directory.
    fn lead(path: String) -> (r: Run)
        ensures
            r@ == led_to(path@),
    {
        let copy: String = path.clone();
        Run { stage: Stage::Finished { reply: report::say(copy, 0), visit: Some(path) } }
    }

    /// A run that failed.
    fn fail(what: &str, why: &str, code: u8) -> (r: Run)
        ensures
            r@ == failed(what@, why@, code),
    {
        Run::end(report::failure(what, why, code))
    }

    /// A run at the start of a command.
    fn start(command: Command<String>) -> (r: Run)
        ensures
            r@ == started(command@),
    {
        match command {
            Command::Init { shell, verify } => Run { stage: Stage::Initializing { shell, verify } },
            Command::Completions { shell } => Run { stage: Stage::Completing { shell } },
            Command::Help => Run::end(
                Reply { out: cli::HELP.to_string(), err: String::new(), code: 0 },
            ),
            Command::Version => Run { stage: Stage::Naming },
            Command::Pick => Run { stage: Stage::Picking },
            Command::Jump { query } => Run { stage: Stage::Jumping { query } },
            Command::Previous => Run { stage: Stage::GoingBack },
            Command::Add { path, dry_run } => Run { stage: Stage::Adding { path, dry_run } },
            Command::Remove { path } => Run { stage: Stage::Removing { path } },
            Command::Forget { query, dry_run } => Run {
                stage: Stage::Forgetting { query, dry_run },
            },
            Command::ForgetPick => Run { stage: Stage::ForgetPicking },
            Command::BookList { json } => Run { stage: Stage::BookListing { json } },
            Command::BookRemove { alias } => Run { stage: Stage::BookRemoving { alias } },
            Command::BookShow { alias } => Run { stage: Stage::BookShowing { alias } },
            Command::BookEdit { alias, changes } => {
                let path: Option<String> = match &changes.path {
                    Some(path) => Some(path.clone()),
                    None => None,
                };
                match path {
                    Some(path) => Run { stage: Stage::BookLocating { alias, path, changes } },
                    None => Run { stage: Stage::BookEditing { alias, changes } },
                }
            },
            Command::BookSet { alias, path } => Run { stage: Stage::BookPlacing { alias, path } },
            Command::BookResolve { alias } => Run { stage: Stage::BookResolving { alias } },
            Command::History { count } => Run { stage: Stage::Topping { count } },
            Command::Recent { count } => Run { stage: Stage::Recalling { count } },
            Command::Score { query, json } => Run { stage: Stage::Scoring { query, json } },
            Command::List { query, limit, json } => Run {
                stage: Stage::Listing { query, limit, json },
            },
            Command::Export { format } => Run { stage: Stage::Exporting { format } },
            Command::Import { source, file, dry_run } => {
                if import::known_source(source.as_str()) {
                    Run { stage: Stage::Sizing { source, file, dry_run } }
                } else {
                    let error: ImportError = import::unknown_source(source.as_str());
                    Run::end(report::import_failure(&error, dry_run))
                }
            },
            Command::Prune { dry_run, quiet } => {
                if dry_run {
                    Run { stage: Stage::FindingStale }
                } else {
                    Run { stage: Stage::Counting { quiet } }
                }
            },
            Command::Clear { force } => {
                if force {
                    Run { stage: Stage::Clearing }
                } else {
                    Run { stage: Stage::Confirming }
                }
            },
            Command::Stats { verbose } => Run { stage: Stage::Summing { verbose } },
            Command::Doctor => Run { stage: Stage::Diagnosing },
            Command::Refused { message, code } => Run::end(report::complain(message, code)),
        }
    }

    /// Begins the run of a command line.
    pub fn begin(list: &Vec<String>) -> (r: Run)
        requires
            list@.len() >= 1,
        ensures
            r@ == begun(text::views(list@)),
    {
        let command: Command<String> = cli::parse_command(list);
        assert(text::views(list@).len() == list@.len());
        if cli::needs_no_database(list) {
            Run::start(command)
        } else {
            Run {
                stage: Stage::Opening {
                    bare: list.len() == 1,
                    verbose: cli::wants_detail(list),
                    command,
                },
            }
        }
    }
}

/// The time of the row that was not visited for longest.
pub open spec fn oldest_time(oldest: Option<(Seq<char>, i64)>) -> Option<i64> {
    match oldest {
        Some((_, time)) => Some(time),
        None => None,
    }
}

impl RunView {
    /// What has to be done next.
    pub open spec fn action(self) -> Action<
        Seq<char>,
        ReplyView,
        Seq<import::VisitView>,
        Seq<import::EntryView>,
    > {
        match self.stage {
            Stage::Opening { .. } => Action::Open,
            Stage::AutoPruning { .. } => Action::AutoPrune,
            Stage::Telling { message, .. } => Action::Tell(message),
            Stage::Picking => Action::Pick,
            Stage::Jumping { query } => Action::FindBest(query),
            Stage::Missing => Action::HistoryCount,
            Stage::GoingBack => Action::Recent(usize::MAX),
            Stage::Adding { path, .. } => Action::Locate(path),
            Stage::Previewing { .. } => Action::HistoryRows,
            Stage::Removing { path } => Action::Locate(path),
            Stage::Removed { path } => Action::Forget(path),
            Stage::Forgetting { query, .. } => Action::FindBest(query),
            Stage::Forgotten { path } => Action::Forget(path),
            Stage::ForgetPicking => Action::Pick,
            Stage::PickForgotten { path } => Action::Forget(path),
            Stage::BookListing { .. } => Action::Bookmarks,
            Stage::BookRemoving { alias } => Action::RemoveBookmark(alias),
            Stage::BookShowing { .. } => Action::Bookmarks,
            Stage::BookLocating { path, .. } => Action::Locate(path),
            Stage::BookEditing { alias, changes } => Action::EditBookmark { alias, changes },
            Stage::BookPlacing { path, .. } => Action::Locate(path),
            Stage::BookSetting { alias, path } => Action::SetBookmark { alias, path },
            Stage::BookResolving { alias } => Action::Bookmark(alias),
            Stage::Topping { count } => Action::Top(count),
            Stage::Recalling { count } => Action::Recent(count),
            Stage::Scoring { query, .. } => Action::Candidates(query),
            Stage::Listing { query, .. } => Action::Candidates(query),
            Stage::Exporting { .. } => Action::Export,
            Stage::ExportingJson => Action::ExportJson,
            Stage::Sizing { file, .. } => Action::FileSize(file),
            Stage::Reading { source, file, .. } => Action::ReadFile { source, file },
            Stage::Probing { source, contents, .. } => Action::Probe(
                import::source_entries(source, contents),
            ),
            Stage::Importing { visits, .. } => Action::RecordVisits(visits),
            Stage::FindingStale => Action::Stale,
            Stage::Counting { .. } => Action::HistoryCount,
            Stage::Pruning { start, quiet } => Action::Prune { start, quiet },
            Stage::Confirming => Action::Confirm,
            Stage::Clearing => Action::ClearHistory,
            Stage::Summing { .. } => Action::Counts,
            Stage::Surveying { .. } => Action::HistoryRows,
            Stage::Describing { verbose, counts, stale, range, oldest, .. } => Action::Describe {
                verbose,
                stale,
                total: counts.total,
                range,
                oldest: oldest_time(oldest),
            },
            Stage::Diagnosing => Action::Doctor,
            Stage::Initializing { .. } => Action::ShellVariable,
            Stage::Completing { .. } => Action::ShellVariable,
            Stage::Scripting { shell } => Action::CompletionScript(shell),
            Stage::Naming => Action::Version,
            Stage::Finished { reply, visit } => Action::Finish { reply, visit },
        }
    }
}

impl View for Action<String, Reply, Vec<Visit>, Vec<Entry>> {
    type V = Action<Seq<char>, ReplyView, Seq<import::VisitView>, Seq<import::EntryView>>;

    open spec fn view(&self) -> Self::V {
        match *self {
            Action::Open => Action::Open,
            Action::AutoPrune => Action::AutoPrune,
            Action::Tell(message) => Action::Tell(message@),
            Action::Pick => Action::Pick,
            Action::FindBest(query) => Action::FindBest(query@),
            Action::HistoryCount => Action::HistoryCount,
            Action::HistoryRows => Action::HistoryRows,
            Action::Top(n) => Action::Top(n),
            Action::Recent(n) => Action::Recent(n),
            Action::Locate(path) => Action::Locate(path@),
            Action::Forget(path) => Action::Forget(path@),
            Action::Bookmarks => Action::Bookmarks,
            Action::Bookmark(alias) => Action::Bookmark(alias@),
            Action::SetBookmark { alias, path } => Action::SetBookmark {
                alias: alias@,
                path: path@,
            },
            Action::EditBookmark { alias, changes } => Action::EditBookmark {
                alias: alias@,
                changes: changes@,
            },
            Action::RemoveBookmark(alias) => Action::RemoveBookmark(alias@),
            Action::Candidates(query) => Action::Candidates(query@),
            Action::Export => Action::Export,
            Action::ExportJson => Action::ExportJson,
            Action::FileSize(file) => Action::FileSize(file@),
            Action::ReadFile { source, file } => Action::ReadFile { source: source@, file: file@ },
            Action::Probe(entries) => Action::Probe(import::entry_views(entries@)),
            Action::RecordVisits(visits) => Action::RecordVisits(import::visit_views(visits@)),
            Action::Stale => Action::Stale,
            Action::Prune { start, quiet } => Action::Prune { start: text::maybe(start), quiet },
            Action::Confirm => Action::Confirm,
            Action::ClearHistory => Action::ClearHistory,
            Action::Counts => Action::Counts,
            Action::Describe { verbose, stale, total, range, oldest } => Action::Describe {
                verbose,
                stale,
                total,
                range,
                oldest,
            },
            Action::Doctor => Action::Doctor,
            Action::ShellVariable => Action::ShellVariable,
            Action::CompletionScript(shell) => Action::CompletionScript(shell@),
            Action::Version => Action::Version,
            Action::Finish { reply, visit } => Action::Finish {
                reply: reply@,
                visit: text::maybe(visit),
            },
        }
    }
}

/// A copy of a text that may not be there.
fn copy_of(s: &Option<String>) -> (r: Option<String>)
    ensures
        text::maybe(r) == text::maybe(*s),
{
    match s {
        Some(s) => Some(s.clone()),
        None => None,
    }
}

/// A copy of changes.
fn copy_of_changes(changes: &Changes<String>) -> (r: Changes<String>)
    ensures
        r@ == changes@,
{
    Changes {
        alias: copy_of(&changes.alias),
        path: copy_of(&changes.path),
        description: copy_of(&changes.description),
    }
}

/// A copy of visits.
fn copy_of_visits(visits: &Vec<Visit>) -> (r: Vec<Visit>)
    ensures
        import::visit_views(r@) == import::visit_views(visits@),
{
    let ghost all = import::visit_views(visits@);
    let mut r: Vec<Visit> = Vec::new();
    assert(import::visit_views(r@) =~= all.take(0));
    for i in 0..visits.len()
        invariant
            all == import::visit_views(visits@),
            import::visit_views(r@) == all.take(i as int),
    {
        let ghost before = r@;
        r.push(Visit { path: visits[i].path.clone(), count: visits[i].count });
        proof {
            assert(import::visit_views(r@) =~= import::visit_views(before).push(r@.last()@));
            assert(r@.last()@ =~= all[i as int]);
            assert(all.take(i + 1) =~= all.take(i as int).push(all[i as int]));
        }
    }
    assert(all.take(visits@.len() as int) =~= all);
    r
}

impl Run {
    /// What has to be done next.
    pub fn action(&self) -> (r: Action<String, Reply, Vec<Visit>, Vec<Entry>>)
        ensures
            r@ == self@.action(),
    {
        match &self.stage {
            Stage::Opening { .. } => Action::Open,
            Stage::AutoPruning { .. } => Action::AutoPrune,
            Stage::Telling { message, .. } => Action::Tell(message.clone()),
            Stage::Picking => Action::Pick,
            Stage::Jumping { query } => Action::FindBest(query.clone()),
            Stage::Missing => Action::HistoryCount,
            Stage::GoingBack => Action::Recent(usize::MAX),
            Stage::Adding { path, .. } => Action::Locate(path.clone()),
            Stage::Previewing { .. } => Action::HistoryRows,
            Stage::Removing { path } => Action::Locate(path.clone()),
            Stage::Removed { path } => Action::Forget(path.clone()),
            Stage::Forgetting { query, .. } => Action::FindBest(query.clone()),
            Stage::Forgotten { path } => Action::Forget(path.clone()),
            Stage::ForgetPicking => Action::Pick,
            Stage::PickForgotten { path } => Action::Forget(path.clone()),
            Stage::BookListing { .. } => Action::Bookmarks,
            Stage::BookRemoving { alias } => Action::RemoveBookmark(alias.clone()),
            Stage::BookShowing { .. } => Action::Bookmarks,
            Stage::BookLocating { path, .. } => Action::Locate(path.clone()),
            Stage::BookEditing { alias, changes } => Action::EditBookmark {
                alias: alias.clone(),
                changes: copy_of_changes(changes),
            },
            Stage::BookPlacing { path, .. } => Action::Locate(path.clone()),
            Stage::BookSetting { alias, path } => Action::SetBookmark {
                alias: alias.clone(),
                path: path.clone(),
            },
            Stage::BookResolving { alias } => Action::Bookmark(alias.clone()),
            Stage::Topping { count } => Action::Top(*count),
            Stage::Recalling { count } => Action::Recent(*count),
            Stage::Scoring { query, .. } => Action::Candidates(query.clone()),
            Stage::Listing { query, .. } => Action::Candidates(query.clone()),
            Stage::Exporting { .. } => Action::Export,
            Stage::ExportingJson => Action::ExportJson,
            Stage::Sizing { file, .. } => Action::FileSize(file.clone()),
            Stage::Reading { source, file, .. } => Action::ReadFile {
                source: source.clone(),
                file: file.clone(),
            },
            Stage::Probing { source, contents, .. } => {
                let entries: Vec<Entry> = match import::import_entries(source.as_str(), contents) {
                    Ok(entries) => entries,
                    Err(_) => Vec::new(),
                };
                assert(import::entry_views(entries@) =~= import::source_entries(
                    source@,
                    *contents,
                ));
                Action::Probe(entries)
            },
            Stage::Importing { visits, .. } => Action::RecordVisits(copy_of_visits(visits)),
            Stage::FindingStale => Action::Stale,
            Stage::Counting { .. } => Action::HistoryCount,
            Stage::Pruning { start, quiet } => Action::Prune {
                start: copy_of(start),
                quiet: *quiet,
            },
            Stage::Confirming => Action::Confirm,
            Stage::Clearing => Action::ClearHistory,
            Stage::Summing { .. } => Action::Counts,
            Stage::Surveying { .. } => Action::HistoryRows,
            Stage::Describing { verbose, counts, stale, range, oldest, .. } => Action::Describe {
                verbose: *verbose,
                stale: *stale,
                total: counts.total,
                range: *range,
                oldest: match oldest {
                    Some((_, time)) => Some(*time),
                    None => None,
                },
            },
            Stage::Diagnosing => Action::Doctor,
            Stage::Initializing { .. } => Action::ShellVariable,
            Stage::Completing { .. } => Action::ShellVariable,
            Stage::Scripting { shell } => Action::CompletionScript(shell.clone()),
            Stage::Naming => Action::Version,
            Stage::Finished { reply, visit } => Action::Finish {
                reply: Reply { out: reply.out.clone(), err: reply.err.clone(), code: reply.code },
                visit: copy_of(visit),
            },
        }
    }
}

/// The canonical spelling of a place, or its path as it stands.
pub open spec fn canon(place: Place) -> Seq<char> {
    match place.canonical {
        Some(path) => path@,
        None => place.path@,
    }
}

/// The answer where a path should have been a directory.
pub open spec fn no_directory(place: Place) -> RunView {
    over(report::complaint("not a directory: "@ + place.path@, 1))
}

/// The survey of the rows: how many are stale, how many there are, the range of
/// their visits, and the one not visited for longest.
pub open spec fn surveyed(
    verbose: bool,
    counts: Counts,
    rows: Seq<HistoryRow>,
    live: Seq<bool>,
) -> RunView {
    RunView {
        stage: Stage::Describing {
            verbose,
            counts,
            stale: stats::stale_rows(live) as usize,
            rows: rows.len() as usize,
            range: stats::range_of(rows),
            oldest: match stats::oldest_of(rows) {
                Some(i) => Some((rows[i].path@, rows[i].last_visited)),
                None => None,
            },
        },
    }
}

/// What is shown in detail, once numbers are written out.
pub open spec fn detailed(
    rows: usize,
    range: Option<(i64, i64)>,
    oldest: Option<(Seq<char>, i64)>,
    d: Description,
) -> stats::DetailView {
    stats::DetailView {
        size: stats::pair_view(d.size),
        range: match (range, d.ages) {
            (Some(_), Some((first, last))) => Some((first@, last@, rows)),
            _ => None,
        },
        top: stats::rows_view(d.top),
        longest: match (oldest, d.oldest_age) {
            (Some((path, _)), Some(age)) => Some((path, age@)),
            _ => None,
        },
    }
}

/// What an import comes to: it ends with a preview or goes on to record the
/// visits.
pub open spec fn imported(
    source: Seq<char>,
    contents: ImportFile,
    dry_run: bool,
    probes: Seq<import::ProbeView>,
) -> RunView {
    let outcomes = import::source_outcomes(source, contents, probes);
    let visits = import::visits_of(outcomes);
    if dry_run {
        over(report::preview_answer(import::visit_paths(visits)))
    } else {
        RunView {
            stage: Stage::Importing {
                visits,
                reply: report::import_answer(
                    visits.len() as int,
                    outcomes.len() - visits.len(),
                ),
            },
        }
    }
}

impl RunView {
    /// Whether an event can be taken: a preview cannot count beyond the visits
    /// that a row can hold.
    pub open spec fn accepts(self, event: Event) -> bool {
        match (self.stage, event) {
            (Stage::Previewing { path }, Event::Rows(Ok(rows), _)) => report::row_of(
                rows@,
                path,
            ) matches Some(row) ==> row.visits < i32::MAX,
            _ => true,
        }
    }

    /// The run once it has the event. One that does not answer the action leaves
    /// the run as it is.
    pub open spec fn next(self, event: Event) -> RunView {
        match (self.stage, event) {
            (Stage::Opening { bare, verbose, command }, Event::Opened(opened)) => match opened {
                Ok(_) => if bare {
                    started(command)
                } else {
                    RunView { stage: Stage::AutoPruning { verbose, command } }
                },
                Err(e) => if bare {
                    over(report::silence(2))
                } else {
                    failed("db open failed"@, e@, 2)
                },
            },
            (Stage::AutoPruning { verbose, command }, Event::Changed(changed)) => match changed {
                Ok(n) if verbose && n > 0 => RunView {
                    stage: Stage::Telling {
                        message: "auto-pruned "@ + render::decimal(n as int) + " stale entries"@,
                        command,
                    },
                },
                _ => started(command),
            },
            (Stage::Telling { command, .. }, Event::Done) => started(command),
            (Stage::Picking, Event::Text(found)) => match found {
                Some(path) => led_to(path@),
                None => over(report::silence(1)),
            },
            (Stage::Jumping { .. }, Event::Text(found)) => match found {
                Some(path) => led_to(path@),
                None => RunView { stage: Stage::Missing },
            },
            (Stage::Missing, Event::Number(n)) => over(report::jump_answer(None, n == 0)),
            (Stage::GoingBack, Event::Rows(rows, live)) => match rows {
                Ok(rows) => if live@.len() == rows@.len() {
                    match report::previous_path(rows@, live@) {
                        Some(path) => led_to(path),
                        None => over(report::previous_answer(None)),
                    }
                } else {
                    self
                },
                Err(e) => failed("history query failed"@, e@, 1),
            },
            (Stage::Adding { dry_run, .. }, Event::Place(place)) => if !place.is_dir {
                no_directory(place)
            } else if dry_run {
                RunView { stage: Stage::Previewing { path: canon(place) } }
            } else {
                RunView {
                    stage: Stage::Finished {
                        reply: report::silence(0),
                        visit: Some(canon(place)),
                    },
                }
            },
            (Stage::Previewing { path }, Event::Rows(rows, _)) => match rows {
                Ok(rows) => over(report::add_answer(path, rows@)),
                Err(_) => over(report::add_answer(path, Seq::empty())),
            },
            (Stage::Removing { .. }, Event::Place(place)) => RunView {
                stage: Stage::Removed { path: canon(place) },
            },
            (Stage::Removed { path }, Event::Changed(n)) => over(
                report::remove_answer(path, report::outcome(n)),
            ),
            (Stage::Forgetting { query, dry_run }, Event::Text(found)) => match found {
                Some(path) => if dry_run {
                    over(report::line("would forget: "@ + path@, 0))
                } else {
                    RunView { stage: Stage::Forgotten { path: path@ } }
                },
                None => over(report::complaint("no match for: "@ + query, 1)),
            },
            (Stage::Forgotten { path }, Event::Changed(n)) => over(
                report::forget_answer(path, report::outcome(n)),
            ),
            (Stage::ForgetPicking, Event::Text(found)) => match found {
                Some(path) => RunView { stage: Stage::PickForgotten { path: path@ } },
                None => over(report::silence(1)),
            },
            (Stage::PickForgotten { path }, Event::Changed(n)) => over(
                report::forget_pick_answer(Some(path), report::outcome(n)),
            ),
            (Stage::BookListing { json }, Event::Bookmarks(list)) => match list {
                Ok(list) => over(report::book_list_answer(list@, json)),
                Err(_) => over(report::silence(1)),
            },
            (Stage::BookRemoving { alias }, Event::Changed(n)) => over(
                report::book_remove_answer(alias, report::outcome(n)),
            ),
            (Stage::BookShowing { alias }, Event::Bookmarks(list)) => match list {
                Ok(list) => over(report::book_show_answer(alias, list@)),
                Err(e) => failed("db error"@, e@, 1),
            },
            (Stage::BookLocating { alias, changes, .. }, Event::Place(place)) => if place.is_dir {
                RunView {
                    stage: Stage::BookEditing {
                        alias,
                        changes: Changes { path: Some(place.path@), ..changes },
                    },
                }
            } else {
                no_directory(place)
            },
            (Stage::BookEditing { alias, .. }, Event::Changed(n)) => over(
                report::book_edit_answer(alias, report::outcome(n)),
            ),
            (Stage::BookPlacing { alias, .. }, Event::Place(place)) => if place.is_dir {
                RunView { stage: Stage::BookSetting { alias, path: place.path@ } }
            } else {
                no_directory(place)
            },
            (Stage::BookSetting { .. }, Event::Done) => over(report::silence(0)),
            (Stage::BookResolving { .. }, Event::Text(found)) => over(
                report::resolve_answer(text::maybe(found)),
            ),
            (Stage::Topping { .. }, Event::Rows(rows, live)) => match rows {
                Ok(rows) => if live@.len() == rows@.len() {
                    over(report::rows_answer(rows@, live@))
                } else {
                    self
                },
                Err(e) => failed("history query failed"@, e@, 1),
            },
            (Stage::Recalling { .. }, Event::Rows(rows, live)) => match rows {
                Ok(rows) => if live@.len() == rows@.len() {
                    over(report::rows_answer(rows@, live@))
                } else {
                    self
                },
                Err(e) => failed("recent query failed"@, e@, 1),
            },
            (Stage::Scoring { query, json }, Event::Candidates(list, live)) => if live@.len()
                == list@.len() {
                over(
                    report::score_answer(
                        query,
                        rank::flagged(score::scored_views(list@), live@),
                        json,
                    ),
                )
            } else {
                self
            },
            (Stage::Listing { limit, json, .. }, Event::Candidates(list, live)) => if live@.len()
                == list@.len() {
                over(
                    report::list_answer(
                        rank::flagged(score::scored_views(list@), live@),
                        limit as int,
                        json,
                    ),
                )
            } else {
                self
            },
            (Stage::Exporting { format }, Event::Export(rows, list)) => match (rows, list) {
                (Err(e), _) => failed("export history failed"@, e@, 1),
                (Ok(_), Err(e)) => failed("export bookmarks failed"@, e@, 1),
                (Ok(rows), Ok(list)) => match export::export_answer(format, rows@, list@) {
                    Some(reply) => over(reply),
                    None => RunView { stage: Stage::ExportingJson },
                },
            },
            (Stage::ExportingJson, Event::Text(Some(json))) => over(report::line(json@, 0)),
            (Stage::Sizing { source, file, dry_run }, Event::Size(size)) => match size {
                Ok(size) => if size <= import::MAX_FILE_SIZE {
                    RunView { stage: Stage::Reading { source, file, dry_run } }
                } else {
                    over(
                        report::import_failed(
                            (ImportError::FileTooLarge {
                                size,
                                max: import::MAX_FILE_SIZE,
                            }).text(),
                            dry_run,
                        ),
                    )
                },
                Err(e) => over(report::import_failed(e@, dry_run)),
            },
            (Stage::Reading { source, dry_run, .. }, Event::File(file)) => match file {
                Ok(contents) => RunView { stage: Stage::Probing { source, contents, dry_run } },
                Err(e) => over(report::import_failed(e@, dry_run)),
            },
            (Stage::Probing { source, contents, dry_run }, Event::Probes(probes)) => if !import::is_source(
                source,
            ) {
                over(report::import_failed("unknown source: "@ + source, dry_run))
            } else if probes@.len() == import::source_entries(source, contents).len() {
                imported(source, contents, dry_run, import::probe_views(probes@))
            } else {
                self
            },
            (Stage::Importing { reply, .. }, Event::Done) => over(reply),
            (Stage::FindingStale, Event::Paths(paths)) => match paths {
                Ok(paths) => over(report::prune_answer(text::views(paths@))),
                Err(e) => failed("prune dry-run failed"@, e@, 1),
            },
            (Stage::Counting { quiet }, Event::Number(total)) => RunView {
                stage: Stage::Pruning { start: report::prune_announced(total as int, quiet), quiet },
            },
            (Stage::Pruning { quiet, .. }, Event::Changed(n)) => over(
                report::pruned_answer(report::outcome(n), quiet),
            ),
            (Stage::Confirming, Event::Text(answer)) => if report::is_confirmed(
                false,
                text::maybe(answer),
            ) {
                RunView { stage: Stage::Clearing }
            } else {
                over(report::clear_answer(false, None))
            },
            (Stage::Clearing, Event::Failure(failure)) => over(
                report::clear_answer(true, text::maybe(failure)),
            ),
            (Stage::Summing { verbose }, Event::Counts(counts)) => match counts {
                Ok(counts) => RunView { stage: Stage::Surveying { verbose, counts } },
                Err(e) => failed("stats failed"@, e@, 1),
            },
            (Stage::Surveying { verbose, counts }, Event::Rows(rows, live)) => match rows {
                Ok(rows) => if live@.len() == rows@.len() {
                    surveyed(verbose, counts, rows@, live@)
                } else {
                    self
                },
                Err(_) => surveyed(verbose, counts, Seq::empty(), Seq::empty()),
            },
            (
                Stage::Describing { verbose, counts, stale, rows, range, oldest },
                Event::Described(d),
            ) => if verbose && (d.top matches Ok(top) && top@.len() != d.live@.len()) {
                self
            } else {
                over(
                    stats::stats_answer(
                        counts,
                        stale as int,
                        d.percent@,
                        if verbose {
                            Some(detailed(rows, range, oldest, d))
                        } else {
                            None
                        },
                        d.live@,
                    ),
                )
            },
            (Stage::Diagnosing, Event::Diagnosis(ok, lines)) => over(
                ReplyView {
                    out: render::stacked(text::views(lines@)),
                    err: Seq::empty(),
                    code: if ok {
                        0
                    } else {
                        1
                    },
                },
            ),
            (Stage::Initializing { shell, verify }, Event::Text(variable)) => over(
                report::init_answer(shell, verify, text::maybe(variable)),
            ),
            (Stage::Completing { shell }, Event::Text(variable)) => match init::chosen(
                shell,
                text::maybe(variable),
            ) {
                Some(shell) => RunView { stage: Stage::Scripting { shell } },
                None => over(report::completions_answer(None)),
            },
            (Stage::Scripting { .. }, Event::Text(script)) => over(
                report::completions_answer(text::maybe(script)),
            ),
            (Stage::Naming, Event::Text(Some(version))) => over(
                report::line("hop "@ + version@, 0),
            ),
            _ => self,
        }
    }
}

/// The canonical spelling of a place, or its path as it stands.
fn canon_of(place: Place) -> (r: String)
    ensures
        r@ == canon(place),
{
    match place.canonical {
        Some(path) => path,
        None => place.path,
    }
}

/// The answer where a path should have been a directory.
fn refuse_place(place: &Place) -> (r: Run)
    ensures
        r@ == no_directory(*place),
{
    Run::end(report::not_a_directory(place.path.as_str()))
}

/// Rows that are listed, or why they cannot be. Without a flag for each of them
/// there is nothing to show.
fn list_rows(what: &str, rows: Result<Vec<HistoryRow>, String>, live: Vec<bool>) -> (r: Option<Run>)
    ensures
        match rows {
            Ok(rows) => if live@.len() == rows@.len() {
                r matches Some(run) && run@ == over(report::rows_answer(rows@, live@))
            } else {
                r is None
            },
            Err(e) => r matches Some(run) && run@ == failed(what@, e@, 1),
        },
{
    match rows {
        Ok(rows) => {
            if live.len() == rows.len() {
                Some(Run::end(report::rows_reply(&rows, &live)))
            } else {
                None
            }
        },
        Err(e) => Some(Run::fail(what, e.as_str(), 1)),
    }
}

/// The survey of the rows.
fn survey(verbose: bool, counts: Counts, rows: &Vec<HistoryRow>, live: &Vec<bool>) -> (r: Run)
    ensures
        r@ == surveyed(verbose, counts, rows@, live@),
{
    let stale: usize = stats::count_stale(live);
    let range: Option<(i64, i64)> = stats::visit_range(rows);
    let oldest: Option<(String, i64)> = match stats::longest_unvisited(rows) {
        Some(i) => Some((rows[i].path.clone(), rows[i].last_visited)),
        None => None,
    };
    Run { stage: Stage::Describing { verbose, counts, stale, rows: rows.len(), range, oldest } }
}

/// What is shown in detail, and which of the rows with the most visits still
/// exist.
fn detail_of(
    rows: usize,
    range: Option<(i64, i64)>,
    oldest: Option<(String, i64)>,
    d: Description,
) -> (r: (Detail, Vec<bool>))
    ensures
        r.0@ == detailed(rows, range, oldest_view(oldest), d),
        r.0.top == d.top,
        r.1 == d.live,
{
    let detail: Detail = Detail {
        size: d.size,
        range: match (range, d.ages) {
            (Some(_), Some((first, last))) => Some((first, last, rows)),
            _ => None,
        },
        top: d.top,
        longest: match (oldest, d.oldest_age) {
            (Some((path, _)), Some(age)) => Some((path, age)),
            _ => None,
        },
    };
    assert(detail@ =~= detailed(rows, range, oldest_view(oldest), d));
    (detail, d.live)
}

/// The answer to `stats`, or the run as it was where the flags do not fit.
fn describe(
    verbose: bool,
    counts: Counts,
    stale: usize,
    rows: usize,
    range: Option<(i64, i64)>,
    oldest: Option<(String, i64)>,
    d: Description,
) -> (r: Run)
    ensures
        r@ == (RunView {
            stage: Stage::Describing {
                verbose,
                counts,
                stale,
                rows,
                range,
                oldest: oldest_view(oldest),
            },
        }).next(Event::Described(d)),
{
    if !verbose {
        return Run::end(stats::stats_reply(&counts, stale, d.percent.as_str(), &None, &d.live));
    }
    let fits: bool = match &d.top {
        Ok(top) => top.len() == d.live.len(),
        Err(_) => true,
    };
    if !fits {
        return Run { stage: Stage::Describing { verbose, counts, stale, rows, range, oldest } };
    }
    let percent: String = d.percent.clone();
    let (detail, live) = detail_of(rows, range, oldest, d);
    let shown: Option<Detail> = Some(detail);
    Run::end(stats::stats_reply(&counts, stale, percent.as_str(), &shown, &live))
}

/// What an import comes to, or the run as it was where the probes do not fit.
fn import_probed(source: String, contents: ImportFile, dry_run: bool, probes: Vec<Probe>) -> (r:
    Run)
    ensures
        r@ == (RunView { stage: Stage::Probing { source: source@, contents, dry_run } }).next(
            Event::Probes(probes),
        ),
{
    if dry_run {
        match import::preview_file(source.as_str(), &contents, &probes) {
            Ok(Some(paths)) => Run::end(report::import_preview(&paths)),
            Ok(None) => Run { stage: Stage::Probing { source, contents, dry_run } },
            Err(e) => Run::end(report::import_failure(&e, dry_run)),
        }
    } else {
        match import::import_file(source.as_str(), &contents, &probes) {
            Ok(Some(done)) => Run {
                stage: Stage::Importing {
                    visits: done.visits,
                    reply: report::import_reply(done.stats),
                },
            },
            Ok(None) => Run { stage: Stage::Probing { source, contents, dry_run } },
            Err(e) => Run::end(report::import_failure(&e, dry_run)),
        }
    }
}

/// What an export comes to.
fn export_read(
    format: String,
    rows: Result<Vec<ExportRow>, String>,
    list: Result<Vec<Bookmark>, String>,
) -> (r: Run)
    ensures
        r@ == (RunView { stage: Stage::Exporting { format: format@ } }).next(
            Event::Export(rows, list),
        ),
{
    match (rows, list) {
        (Err(e), _) => Run::fail("export history failed", e.as_str(), 1),
        (Ok(_), Err(e)) => Run::fail("export bookmarks failed", e.as_str(), 1),
        (Ok(rows), Ok(list)) => match export::export_reply(format.as_str(), &rows, &list) {
            Some(reply) => Run::end(reply),
            None => Run { stage: Stage::ExportingJson },
        },
    }
}

/// Takes a run one event further: what has to be done next, and in the end what
/// is printed, recorded and returned.
pub fn run(progress: Run, event: Event) -> (r: Run)
    requires
        progress@.accepts(event),
    ensures
        r@ == progress@.next(event),
{
    match (progress.stage, event) {
        (Stage::Opening { bare, verbose, command }, Event::Opened(opened)) => match opened {
            Ok(_) => if bare {
                Run::start(command)
            } else {
                Run { stage: Stage::AutoPruning { verbose, command } }
            },
            Err(e) => if bare {
                Run::end(report::keep_silent(2))
            } else {
                Run::fail("db open failed", e.as_str(), 2)
            },
        },
        (Stage::AutoPruning { verbose, command }, Event::Changed(changed)) => {
            let n: usize = match changed {
                Ok(n) => n,
                Err(_) => 0,
            };
            if verbose && n > 0 {
                let count: String = render::count_text(n);
                let start: String = render::glue("auto-pruned ", count.as_str());
                let message: String = render::glue(start.as_str(), " stale entries");
                Run { stage: Stage::Telling { message, command } }
            } else {
                Run::start(command)
            }
        },
        (Stage::Telling { command, .. }, Event::Done) => Run::start(command),
        (Stage::Picking, Event::Text(found)) => match found {
            Some(path) => Run::lead(path),
            None => Run::end(report::keep_silent(1)),
        },
        (Stage::Jumping { .. }, Event::Text(found)) => match found {
            Some(path) => Run::lead(path),
            None => Run { stage: Stage::Missing },
        },
        (Stage::Missing, Event::Number(n)) => Run::end(report::jump_reply(&None, n == 0)),
        (Stage::GoingBack, Event::Rows(rows, live)) => match rows {
            Ok(rows) => if live.len() == rows.len() {
                match report::previous(&rows, &live) {
                    Some(path) => Run::lead(path),
                    None => Run::end(report::previous_reply(&None)),
                }
            } else {
                Run { stage: Stage::GoingBack }
            },
            Err(e) => Run::fail("history query failed", e.as_str(), 1),
        },
        (Stage::Adding { dry_run, .. }, Event::Place(place)) => {
            if !place.is_dir {
                refuse_place(&place)
            } else if dry_run {
                Run { stage: Stage::Previewing { path: canon_of(place) } }
            } else {
                Run {
                    stage: Stage::Finished {
                        reply: report::keep_silent(0),
                        visit: Some(canon_of(place)),
                    },
                }
            }
        },
        (Stage::Previewing { path }, Event::Rows(rows, _)) => {
            let rows: Vec<HistoryRow> = match rows {
                Ok(rows) => rows,
                Err(_) => Vec::new(),
            };
            Run::end(report::add_preview(path.as_str(), &rows))
        },
        (Stage::Removing { .. }, Event::Place(place)) => Run {
            stage: Stage::Removed { path: canon_of(place) },
        },
        (Stage::Removed { path }, Event::Changed(n)) => Run::end(
            report::remove_reply(path.as_str(), &n),
        ),
        (Stage::Forgetting { query, dry_run }, Event::Text(found)) => match found {
            Some(path) => if dry_run {
                Run::end(report::forget_preview(path.as_str()))
            } else {
                Run { stage: Stage::Forgotten { path } }
            },
            None => Run::end(report::no_match(query.as_str())),
        },
        (Stage::Forgotten { path }, Event::Changed(n)) => Run::end(
            report::forget_reply(path.as_str(), &n),
        ),
        (Stage::ForgetPicking, Event::Text(found)) => match found {
            Some(path) => Run { stage: Stage::PickForgotten { path } },
            None => Run::end(report::keep_silent(1)),
        },
        (Stage::PickForgotten { path }, Event::Changed(n)) => Run::end(
            report::forget_pick_reply(&Some(path), &n),
        ),
        (Stage::BookListing { json }, Event::Bookmarks(list)) => match list {
            Ok(list) => Run::end(report::book_list_reply(&list, json)),
            Err(_) => Run::end(report::keep_silent(1)),
        },
        (Stage::BookRemoving { alias }, Event::Changed(n)) => Run::end(
            report::book_remove_reply(alias.as_str(), &n),
        ),
        (Stage::BookShowing { alias }, Event::Bookmarks(list)) => match list {
            Ok(list) => Run::end(report::book_show_reply(alias.as_str(), &list)),
            Err(e) => Run::fail("db error", e.as_str(), 1),
        },
        (Stage::BookLocating { alias, changes, .. }, Event::Place(place)) => {
            if place.is_dir {
                let changes: Changes<String> = Changes {
                    alias: changes.alias,
                    path: Some(place.path),
                    description: changes.description,
                };
                Run { stage: Stage::BookEditing { alias, changes } }
            } else {
                refuse_place(&place)
            }
        },
        (Stage::BookEditing { alias, .. }, Event::Changed(n)) => Run::end(
            report::book_edit_reply(alias.as_str(), &n),
        ),
        (Stage::BookPlacing { alias, .. }, Event::Place(place)) => {
            if place.is_dir {
                Run { stage: Stage::BookSetting { alias, path: place.path } }
            } else {
                refuse_place(&place)
            }
        },
        (Stage::BookSetting { .. }, Event::Done) => Run::end(report::keep_silent(0)),
        (Stage::BookResolving { .. }, Event::Text(found)) => Run::end(
            report::resolve_reply(&found),
        ),
        (Stage::Topping { count }, Event::Rows(rows, live)) => match list_rows(
            "history query failed",
            rows,
            live,
        ) {
            Some(done) => done,
            None => Run { stage: Stage::Topping { count } },
        },
        (Stage::Recalling { count }, Event::Rows(rows, live)) => match list_rows(
            "recent query failed",
            rows,
            live,
        ) {
            Some(done) => done,
            None => Run { stage: Stage::Recalling { count } },
        },
        (Stage::Scoring { query, json }, Event::Candidates(list, live)) => {
            if live.len() == list.len() {
                let shown: Vec<Scored> = rank::live_candidates(list, &live);
                Run::end(report::score_reply(query.as_str(), &shown, json))
            } else {
                Run { stage: Stage::Scoring { query, json } }
            }
        },
        (Stage::Listing { query, limit, json }, Event::Candidates(list, live)) => {
            if live.len() == list.len() {
                let shown: Vec<Scored> = rank::live_candidates(list, &live);
                Run::end(report::list_reply(&shown, limit, json))
            } else {
                Run { stage: Stage::Listing { query, limit, json } }
            }
        },
        (Stage::Exporting { format }, Event::Export(rows, list)) => export_read(
            format,
            rows,
            list,
        ),
        (Stage::ExportingJson, Event::Text(Some(json))) => Run::end(report::say(json, 0)),
        (Stage::Sizing { source, file, dry_run }, Event::Size(size)) => match size {
            Ok(size) => match import::check_file_size(size) {
                Ok(_) => Run { stage: Stage::Reading { source, file, dry_run } },
                Err(e) => Run::end(report::import_failure(&e, dry_run)),
            },
            Err(e) => Run::end(report::import_failure(&ImportError::Io(e), dry_run)),
        },
        (Stage::Reading { source, dry_run, .. }, Event::File(file)) => match file {
            Ok(contents) => Run { stage: Stage::Probing { source, contents, dry_run } },
            Err(e) => Run::end(report::import_failure(&ImportError::Io(e), dry_run)),
        },
        (Stage::Probing { source, contents, dry_run }, Event::Probes(probes)) => import_probed(
            source,
            contents,
            dry_run,
            probes,
        ),
        (Stage::Importing { reply, .. }, Event::Done) => Run::end(reply),
        (Stage::FindingStale, Event::Paths(paths)) => match paths {
            Ok(paths) => Run::end(report::prune_preview(&paths)),
            Err(e) => Run::fail("prune dry-run failed", e.as_str(), 1),
        },
        (Stage::Counting { quiet }, Event::Number(total)) => Run {
            stage: Stage::Pruning { start: report::prune_start(total, quiet), quiet },
        },
        (Stage::Pruning { quiet, .. }, Event::Changed(n)) => Run::end(
            report::pruned_reply(&n, quiet),
        ),
        (Stage::Confirming, Event::Text(answer)) => {
            let said: Option<&str> = match &answer {
                Some(s) => Some(s.as_str()),
                None => None,
            };
            if report::confirmed(false, said) {
                Run { stage: Stage::Clearing }
            } else {
                Run::end(report::clear_reply(false, &None))
            }
        },
        (Stage::Clearing, Event::Failure(failure)) => Run::end(
            report::clear_reply(true, &failure),
        ),
        (Stage::Summing { verbose }, Event::Counts(counts)) => match counts {
            Ok(counts) => Run { stage: Stage::Surveying { verbose, counts } },
            Err(e) => Run::fail("stats failed", e.as_str(), 1),
        },
        (Stage::Surveying { verbose, counts }, Event::Rows(rows, live)) => match rows {
            Ok(rows) => if live.len() == rows.len() {
                survey(verbose, counts, &rows, &live)
            } else {
                Run { stage: Stage::Surveying { verbose, counts } }
            },
            Err(_) => survey(verbose, counts, &Vec::new(), &Vec::new()),
        },
        (
            Stage::Describing { verbose, counts, stale, rows, range, oldest },
            Event::Described(d),
        ) => describe(verbose, counts, stale, rows, range, oldest, d),
        (Stage::Diagnosing, Event::Diagnosis(ok, lines)) => {
            let code: u8 = if ok {
                0
            } else {
                1
            };
            Run::end(Reply { out: render::stack(&lines), err: String::new(), code })
        },
        (Stage::Initializing { shell, verify }, Event::Text(variable)) => {
            let value: Option<&str> = match &variable {
                Some(s) => Some(s.as_str()),
                None => None,
            };
            Run::end(report::init_reply(&shell, verify, value))
        },
        (Stage::Completing { shell }, Event::Text(variable)) => {
            let value: Option<&str> = match &variable {
                Some(s) => Some(s.as_str()),
                None => None,
            };
            match init::choose_shell(&shell, value) {
                Some(shell) => Run { stage: Stage::Scripting { shell } },
                None => Run::end(report::completions_reply(None)),
            }
        },
        (Stage::Scripting { .. }, Event::Text(script)) => Run::end(
            report::completions_reply(script),
        ),
        (Stage::Naming, Event::Text(Some(version))) => {
            let name: String = render::glue("hop ", version.as_str());
            Run::end(report::say(name, 0))
        },
        (stage, _) => Run { stage },
    }
}

// ---------------------------------------------------------------------------
// Laws
// ---------------------------------------------------------------------------

/// Whether an action changes the history or the bookmarks.
pub open spec fn changes_store<T, R, V, E>(action: Action<T, R, V, E>) -> bool {
    match action {
        Action::AutoPrune => true,
        Action::Forget(_) => true,
        Action::SetBookmark { .. } => true,
        Action::EditBookmark { .. } => true,
        Action::RemoveBookmark(_) => true,
        Action::RecordVisits(_) => true,
        Action::Prune { .. } => true,
        Action::ClearHistory => true,
        Action::Finish { visit, .. } => visit is Some,
        _ => false,
    }
}

/// Whether a command is a dry run.
pub open spec fn is_dry_run(command: Command<Seq<char>>) -> bool {
    match command {
        Command::Add { dry_run, .. } => dry_run,
        Command::Forget { dry_run, .. } => dry_run,
        Command::Import { dry_run, .. } => dry_run,
        Command::Prune { dry_run, .. } => dry_run,
        _ => false,
    }
}

impl RunView {
    /// Whether a run that has started is a dry one.
    pub open spec fn is_dry(self) -> bool {
        match self.stage {
            Stage::Adding { dry_run, .. } => dry_run,
            Stage::Previewing { .. } => true,
            Stage::Forgetting { dry_run, .. } => dry_run,
            Stage::Sizing { dry_run, .. } => dry_run,
            Stage::Reading { dry_run, .. } => dry_run,
            Stage::Probing { dry_run, .. } => dry_run,
            Stage::FindingStale => true,
            Stage::Finished { visit, .. } => visit is None,
            _ => false,
        }
    }

    /// Whether a visit is recorded only of a run that succeeded.
    pub open spec fn visits_on_success(self) -> bool {
        self.stage matches Stage::Finished { reply, visit: Some(_) } ==> reply.code == 0
    }

    /// Whether the command is still to be started.
    pub open spec fn waits_with(self, command: Command<Seq<char>>) -> bool {
        match self.stage {
            Stage::Opening { command: waiting, .. } => waiting == command,
            Stage::AutoPruning { command: waiting, .. } => waiting == command,
            Stage::Telling { command: waiting, .. } => waiting == command,
            _ => false,
        }
    }

    /// How many steps lie before the end, at most.
    pub open spec fn steps_left(self) -> nat {
        match self.stage {
            Stage::Opening { .. } => 8,
            Stage::AutoPruning { .. } => 7,
            Stage::Telling { .. } => 6,
            Stage::Sizing { .. } => 5,
            Stage::Summing { .. } => 5,
            Stage::Reading { .. } => 4,
            Stage::Surveying { .. } => 4,
            Stage::Importing { .. } => 2,
            Stage::Previewing { .. } => 2,
            Stage::Removed { .. } => 2,
            Stage::Forgotten { .. } => 2,
            Stage::PickForgotten { .. } => 2,
            Stage::Missing => 2,
            Stage::BookEditing { .. } => 2,
            Stage::BookSetting { .. } => 2,
            Stage::ExportingJson => 2,
            Stage::Pruning { .. } => 2,
            Stage::Clearing => 2,
            Stage::Scripting { .. } => 2,
            Stage::Finished { .. } => 0,
            _ => 3,
        }
    }
}

/// A dry run starts without a change.
pub proof fn law_dry_run_starts(command: Command<Seq<char>>)
    requires
        is_dry_run(command),
    ensures
        started(command).is_dry(),
{
}

/// A dry run never changes the history or the bookmarks, whatever comes of its
/// actions.
pub proof fn law_dry_run_changes_nothing(run: RunView, event: Event)
    requires
        run.is_dry(),
    ensures
        !changes_store(run.action()),
        run.next(event).is_dry(),
{
}

/// A command line that is refused changes nothing and says why.
pub proof fn law_refusal_changes_nothing(message: Seq<char>, code: u8)
    ensures
        started(Command::Refused { message, code }) == over(report::complaint(message, code)),
        !changes_store(started(Command::Refused { message, code }).action()),
{
}

/// Whether the user typed `yes`.
pub open spec fn consents(event: Event) -> bool {
    event matches Event::Text(Some(answer)) && text::trim(answer@) == "yes"@
}

/// The history is wiped only by force or where the user typed `yes`.
pub proof fn law_clear_needs_consent(run: RunView, event: Event)
    requires
        run.next(event).action() is ClearHistory,
    ensures
        run.action() is ClearHistory || run.action() is Confirm && consents(event)
            || run.waits_with(Command::Clear { force: true }),
{
}

/// A visit is recorded at the end of a run only where it succeeded.
pub proof fn law_visits_on_success(run: RunView, event: Event)
    requires
        run.visits_on_success(),
    ensures
        run.next(event).visits_on_success(),
{
}

/// No command has a visit to record before anything was looked up.
pub proof fn law_start_visits_nothing(command: Command<Seq<char>>)
    ensures
        started(command).visits_on_success(),
        started(command).action() matches Action::Finish { visit, .. } ==> visit is None,
{
}

/// The first `count` rows of a history, or all if there are fewer.
pub open spec fn first_rows(history: Seq<HistoryRow>, count: usize) -> Seq<HistoryRow> {
    if count < history.len() {
        history.take(count as int)
    } else {
        history
    }
}

/// Going back looks at the whole history, the latest visit first. If at least two
/// of its directories still exist, the run prints the second of them and visits
/// it, wherever deleted ones stand; else it ends with code 1 and a hint, and
/// visits nothing.
pub proof fn law_going_back(history: Seq<HistoryRow>, rows: Vec<HistoryRow>, live: Vec<bool>)
    requires
        history.len() <= usize::MAX,
        started(Command::Previous).action() matches Action::Recent(count) ==> rows@ == first_rows(
            history,
            count,
        ),
        live@.len() == rows@.len(),
    ensures
        started(Command::Previous).action() is Recent,
        ({
            let end = started(Command::Previous).next(Event::Rows(Ok(rows), live));
            let living = report::live_rows(history, live@);
            if living.len() >= 2 {
                end == led_to(living[1].path@)
            } else {
                end == over(
                    report::complaint(
                        "no previous directory yet — visit a couple of dirs first"@,
                        1,
                    ),
                )
            }
        }),
{
}

/// Every event either leaves a run as it is or brings it nearer to its end.
pub proof fn law_run_ends(run: RunView, event: Event)
    ensures
        run.next(event) == run || run.next(event).steps_left() < run.steps_left(),
        run.steps_left() == 0 <==> run.action() is Finish,
{
}

/// What needs no store opens none.
pub proof fn law_standalone_opens_nothing(list: Seq<Seq<char>>)
    requires
        cli::is_standalone(list),
    ensures
        !(begun(list).action() is Open),
        !changes_store(begun(list).action()),
{
    cli::law_standalone(list);
}

/// The end of a run that tells something and visits nothing.
pub open spec fn ends_with(run: RunView, reply: ReplyView) -> bool {
    run.action() == Action::<
        Seq<char>,
        ReplyView,
        Seq<import::VisitView>,
        Seq<import::EntryView>,
    >::Finish { reply, visit: None }
}

/// The end of a run that prints a path, and nothing else, and visits it.
pub open spec fn ends_at(run: RunView, path: Seq<char>) -> bool {
    run.action() == Action::<
        Seq<char>,
        ReplyView,
        Seq<import::VisitView>,
        Seq<import::EntryView>,
    >::Finish {
        reply: ReplyView { out: path.push('\n'), err: Seq::empty(), code: 0 },
        visit: Some(path),
    }
}

/// The end of a run that fails: it prints nothing, tells what failed and why on
/// standard error, and visits nothing.
pub open spec fn ends_failed(run: RunView, what: Seq<char>, why: Seq<char>, code: u8) -> bool {
    ends_with(
        run,
        ReplyView { out: Seq::empty(), err: (what + ": "@ + why).push('\n'), code },
    )
}

/// A query is searched as it stands. What is found is printed and visited; where
/// nothing is found nothing is printed, the run fails, and only an empty history
/// brings a hint.
pub proof fn law_jump_run(query: Seq<char>, path: String, n: usize)
    ensures
        started(Command::Jump { query }).action() matches Action::FindBest(q) && q == query,
        ends_at(started(Command::Jump { query }).next(Event::Text(Some(path))), path@),
        started(Command::Jump { query }).next(Event::Text(None)).action() is HistoryCount,
        started(Command::Jump { query }).next(Event::Text(None)).next(
            Event::Number(n),
        ).action() matches Action::Finish { reply, visit } && visit is None && reply.code == 1
            && reply.out.len() == 0 && (reply.err.len() > 0 <==> n == 0),
{
}

/// What the user picks is printed and visited; where nothing is picked the run
/// fails in silence.
pub proof fn law_pick_run(path: String)
    ensures
        started(Command::Pick).action() is Pick,
        ends_at(started(Command::Pick).next(Event::Text(Some(path))), path@),
        ends_with(started(Command::Pick).next(Event::Text(None)), report::silence(1)),
{
}

/// What is added is a directory, and is visited under its canonical spelling,
/// where it has one. A dry run only tells what it would do, and what is no
/// directory is refused.
pub proof fn law_add_run(
    path: Seq<char>,
    dry_run: bool,
    place: Place,
    rows: Result<Vec<HistoryRow>, String>,
    live: Vec<bool>,
)
    ensures
        started(Command::Add { path, dry_run }).action() matches Action::Locate(p) && p == path,
        ({
            let placed = started(Command::Add { path, dry_run }).next(Event::Place(place));
            let spelt = match place.canonical {
                Some(canonical) => canonical@,
                None => place.path@,
            };
            &&& !place.is_dir ==> ends_failed(placed, "not a directory"@, place.path@, 1)
            &&& place.is_dir && !dry_run ==> (placed.action() matches Action::Finish {
                reply,
                visit,
            } && visit == Some(spelt) && reply == report::silence(0))
            &&& place.is_dir && dry_run ==> placed.action() is HistoryRows
            &&& place.is_dir && dry_run ==> ends_with(
                placed.next(Event::Rows(rows, live)),
                report::add_answer(
                    spelt,
                    match rows {
                        Ok(rows) => rows@,
                        Err(_) => Seq::empty(),
                    },
                ),
            )
        }),
{
    reveal_strlit("not a directory: ");
    reveal_strlit("not a directory");
    reveal_strlit(": ");
    assert("not a directory: "@ =~= "not a directory"@ + ": "@);
}

/// What is removed is the path under its canonical spelling, where it has one,
/// else as it stands.
pub proof fn law_remove_run(path: Seq<char>, place: Place, changed: Result<usize, String>)
    ensures
        started(Command::Remove { path }).action() matches Action::Locate(p) && p == path,
        ({
            let placed = started(Command::Remove { path }).next(Event::Place(place));
            let spelt = match place.canonical {
                Some(canonical) => canonical@,
                None => place.path@,
            };
            &&& placed.action() matches Action::Forget(p) && p == spelt
            &&& ends_with(
                placed.next(Event::Changed(changed)),
                report::remove_answer(spelt, report::outcome(changed)),
            )
        }),
{
}

/// What is forgotten by a query is what it leads to, and only that. A dry run
/// only names it, and a query that leads nowhere fails.
pub proof fn law_forget_run(
    query: Seq<char>,
    dry_run: bool,
    path: String,
    changed: Result<usize, String>,
)
    ensures
        started(Command::Forget { query, dry_run }).action() matches Action::FindBest(q) && q
            == query,
        ({
            let found = started(Command::Forget { query, dry_run }).next(
                Event::Text(Some(path)),
            );
            &&& dry_run ==> ends_with(found, report::line("would forget: "@ + path@, 0))
            &&& !dry_run ==> (found.action() matches Action::Forget(p) && p == path@)
            &&& !dry_run ==> ends_with(
                found.next(Event::Changed(changed)),
                report::forget_answer(path@, report::outcome(changed)),
            )
        }),
        ends_failed(
            started(Command::Forget { query, dry_run }).next(Event::Text(None)),
            "no match for"@,
            query,
            1,
        ),
{
    reveal_strlit("no match for: ");
    reveal_strlit("no match for");
    reveal_strlit(": ");
    assert("no match for: "@ =~= "no match for"@ + ": "@);
}

/// What is forgotten by the picker is what was picked, and only that.
pub proof fn law_forget_pick_run(path: String, changed: Result<usize, String>)
    ensures
        started(Command::ForgetPick).action() is Pick,
        started(Command::ForgetPick).next(
            Event::Text(Some(path)),
        ).action() matches Action::Forget(p) && p == path@,
        ends_with(
            started(Command::ForgetPick).next(Event::Text(Some(path))).next(
                Event::Changed(changed),
            ),
            report::forget_pick_answer(Some(path@), report::outcome(changed)),
        ),
        ends_with(started(Command::ForgetPick).next(Event::Text(None)), report::silence(1)),
{
}

/// Bookmarks are listed, shown and looked up as they are stored.
pub proof fn law_book_reads(
    alias: Seq<char>,
    json: bool,
    list: Vec<Bookmark>,
    reason: String,
    path: String,
)
    ensures
        started(Command::BookList { json }).action() is Bookmarks,
        ends_with(
            started(Command::BookList { json }).next(Event::Bookmarks(Ok(list))),
            report::book_list_answer(list@, json),
        ),
        ends_with(
            started(Command::BookList { json }).next(Event::Bookmarks(Err(reason))),
            report::silence(1),
        ),
        started(Command::BookShow { alias }).action() is Bookmarks,
        ends_with(
            started(Command::BookShow { alias }).next(Event::Bookmarks(Ok(list))),
            report::book_show_answer(alias, list@),
        ),
        ends_failed(
            started(Command::BookShow { alias }).next(Event::Bookmarks(Err(reason))),
            "db error"@,
            reason@,
            1,
        ),
        started(Command::BookResolve { alias }).action() matches Action::Bookmark(a) && a == alias,
        ends_with(
            started(Command::BookResolve { alias }).next(Event::Text(Some(path))),
            ReplyView { out: path@.push('\n'), err: Seq::empty(), code: 0 },
        ),
        ends_with(
            started(Command::BookResolve { alias }).next(Event::Text(None)),
            report::silence(1),
        ),
{
}

/// A bookmark is set to a directory only, under the path with `~` expanded, and
/// is removed under its name.
pub proof fn law_book_writes(
    alias: Seq<char>,
    path: Seq<char>,
    place: Place,
    changed: Result<usize, String>,
)
    ensures
        started(Command::BookSet { alias, path }).action() matches Action::Locate(p) && p == path,
        ({
            let placed = started(Command::BookSet { alias, path }).next(Event::Place(place));
            &&& !place.is_dir ==> ends_failed(placed, "not a directory"@, place.path@, 1)
            &&& place.is_dir ==> (placed.action() matches Action::SetBookmark {
                alias: a,
                path: p,
            } && a == alias && p == place.path@)
            &&& place.is_dir ==> ends_with(placed.next(Event::Done), report::silence(0))
        }),
        started(Command::BookRemove { alias }).action() matches Action::RemoveBookmark(a) && a
            == alias,
        ends_with(
            started(Command::BookRemove { alias }).next(Event::Changed(changed)),
            report::book_remove_answer(alias, report::outcome(changed)),
        ),
{
    reveal_strlit("not a directory: ");
    reveal_strlit("not a directory");
    reveal_strlit(": ");
    assert("not a directory: "@ =~= "not a directory"@ + ": "@);
}

/// A bookmark is edited at once where its path stays, and else once the new path
/// has proved to be a directory. The name and the description change as asked.
pub proof fn law_book_edit_run(
    alias: Seq<char>,
    changes: Changes<Seq<char>>,
    place: Place,
    changed: Result<usize, String>,
)
    ensures
        ({
            let first = started(Command::BookEdit { alias, changes });
            &&& changes.path is None ==> (first.action() matches Action::EditBookmark {
                alias: a,
                changes: c,
            } && a == alias && c == changes)
            &&& changes.path is None ==> ends_with(
                first.next(Event::Changed(changed)),
                report::book_edit_answer(alias, report::outcome(changed)),
            )
            &&& changes.path matches Some(path) ==> (first.action() matches Action::Locate(p) && p
                == path)
            &&& changes.path is Some && !place.is_dir ==> ends_failed(
                first.next(Event::Place(place)),
                "not a directory"@,
                place.path@,
                1,
            )
            &&& changes.path is Some && place.is_dir ==> (first.next(
                Event::Place(place),
            ).action() matches Action::EditBookmark { alias: a, changes: c } && a == alias
                && c.path == Some(place.path@) && c == (Changes {
                path: Some(place.path@),
                ..changes
            }))
            &&& changes.path is Some && place.is_dir ==> ends_with(
                first.next(Event::Place(place)).next(Event::Changed(changed)),
                report::book_edit_answer(alias, report::outcome(changed)),
            )
        }),
{
    reveal_strlit("not a directory: ");
    reveal_strlit("not a directory");
    reveal_strlit(": ");
    assert("not a directory: "@ =~= "not a directory"@ + ": "@);
}

/// `history` reads as many rows with the most visits as were asked for, and
/// `recent` as many of the latest; both show those that exist.
pub proof fn law_rows_run(count: usize, rows: Vec<HistoryRow>, live: Vec<bool>, reason: String)
    requires
        live@.len() == rows@.len(),
    ensures
        started(Command::History { count }).action() matches Action::Top(n) && n == count,
        started(Command::Recent { count }).action() matches Action::Recent(n) && n == count,
        ends_with(
            started(Command::History { count }).next(Event::Rows(Ok(rows), live)),
            report::rows_answer(rows@, live@),
        ),
        ends_with(
            started(Command::Recent { count }).next(Event::Rows(Ok(rows), live)),
            report::rows_answer(rows@, live@),
        ),
        ends_failed(
            started(Command::History { count }).next(Event::Rows(Err(reason), live)),
            "history query failed"@,
            reason@,
            1,
        ),
        ends_failed(
            started(Command::Recent { count }).next(Event::Rows(Err(reason), live)),
            "recent query failed"@,
            reason@,
            1,
        ),
{
}

/// `score` and `list` show the candidates for the query as it stands, those that
/// exist, and `list` no more than asked for.
pub proof fn law_candidates_run(
    query: Seq<char>,
    limit: usize,
    json: bool,
    list: Vec<Scored>,
    live: Vec<bool>,
)
    requires
        live@.len() == list@.len(),
    ensures
        started(Command::Score { query, json }).action() matches Action::Candidates(q) && q
            == query,
        started(Command::List { query, limit, json }).action() matches Action::Candidates(q) && q
            == query,
        ends_with(
            started(Command::Score { query, json }).next(Event::Candidates(list, live)),
            report::score_answer(query, rank::flagged(score::scored_views(list@), live@), json),
        ),
        ends_with(
            started(Command::List { query, limit, json }).next(Event::Candidates(list, live)),
            report::list_answer(
                rank::flagged(score::scored_views(list@), live@),
                limit as int,
                json,
            ),
        ),
{
}

/// Where all candidates exist, `list` shows as many as there are or as it is
/// limited to, and fails where that is none.
pub proof fn law_list_shows_all(
    query: Seq<char>,
    limit: usize,
    list: Vec<Scored>,
    live: Vec<bool>,
)
    requires
        live@.len() == list@.len(),
        forall|i: int| 0 <= i < live@.len() ==> #[trigger] live@[i],
        forall|i: int| 0 <= i < list@.len() ==> report::is_one_line((#[trigger] list@[i]).path@),
    ensures
        started(Command::List { query, limit, json: false }).next(
            Event::Candidates(list, live),
        ).action() matches Action::Finish { reply, visit } && visit is None && text::lines(
            reply.out,
        ).len() == (if list@.len() <= limit {
            list@.len() as int
        } else {
            limit as int
        }),
{
    let views = score::scored_views(list@);
    rank::law_flagged(views, live@, views[0]);
    law_candidates_run(query, limit, false, list, live);
    report::law_list_lines(rank::flagged(views, live@), limit as int);
}

/// An export reads history and bookmarks and fails where one of them does; JSON
/// is written out by what the store hands back, on one line, and the rest at once.
pub proof fn law_export_run(
    format: Seq<char>,
    rows: Vec<ExportRow>,
    list: Vec<Bookmark>,
    reason: String,
    other: Result<Vec<Bookmark>, String>,
    json: String,
)
    ensures
        started(Command::Export { format }).action() is Export,
        ends_failed(
            started(Command::Export { format }).next(Event::Export(Err(reason), other)),
            "export history failed"@,
            reason@,
            1,
        ),
        ends_failed(
            started(Command::Export { format }).next(Event::Export(Ok(rows), Err(reason))),
            "export bookmarks failed"@,
            reason@,
            1,
        ),
        export::export_answer(format, rows@, list@) matches Some(reply) ==> ends_with(
            started(Command::Export { format }).next(Event::Export(Ok(rows), Ok(list))),
            reply,
        ),
        started(Command::Export { format: "json"@ }).next(
            Event::Export(Ok(rows), Ok(list)),
        ).action() is ExportJson,
        ends_with(
            started(Command::Export { format: "json"@ }).next(
                Event::Export(Ok(rows), Ok(list)),
            ).next(Event::Text(Some(json))),
            ReplyView { out: json@.push('\n'), err: Seq::empty(), code: 0 },
        ),
{
}

/// The run once it has an event, as one step of a longer way.
#[verifier::opaque]
pub open spec fn after(run: RunView, event: Event) -> RunView {
    run.next(event)
}

proof fn lemma_sized(source: Seq<char>, file: Seq<char>, dry_run: bool, size: u64)
    ensures
        size <= 52428800 ==> after(
            RunView { stage: Stage::Sizing { source, file, dry_run } },
            Event::Size(Ok(size)),
        ) == (RunView { stage: Stage::Reading { source, file, dry_run } }),
        size > 52428800 ==> (after(
            RunView { stage: Stage::Sizing { source, file, dry_run } },
            Event::Size(Ok(size)),
        ).action() matches Action::Finish { reply, visit } && visit is None && reply.code == 1
            && reply.out.len() == 0),
{
    reveal(after);
}

proof fn lemma_not_sized(source: Seq<char>, file: Seq<char>, dry_run: bool, reason: String)
    ensures
        after(
            RunView { stage: Stage::Sizing { source, file, dry_run } },
            Event::Size(Err(reason)),
        ) == over(report::import_failed(reason@, dry_run)),
{
    reveal(after);
}

proof fn lemma_read(
    source: Seq<char>,
    file: Seq<char>,
    dry_run: bool,
    contents: ImportFile,
    reason: String,
)
    ensures
        after(
            RunView { stage: Stage::Reading { source, file, dry_run } },
            Event::File(Ok(contents)),
        ) == (RunView { stage: Stage::Probing { source, contents, dry_run } }),
        after(
            RunView { stage: Stage::Reading { source, file, dry_run } },
            Event::File(Err(reason)),
        ) == over(report::import_failed(reason@, dry_run)),
{
    reveal(after);
}

proof fn lemma_probed(
    source: Seq<char>,
    contents: ImportFile,
    dry_run: bool,
    probes: Vec<Probe>,
)
    requires
        import::is_source(source),
        probes@.len() == import::source_entries(source, contents).len(),
    ensures
        after(
            RunView { stage: Stage::Probing { source, contents, dry_run } },
            Event::Probes(probes),
        ) == imported(source, contents, dry_run, import::probe_views(probes@)),
{
    reveal(after);
}

proof fn lemma_recorded(visits: Seq<import::VisitView>, reply: ReplyView)
    ensures
        after(RunView { stage: Stage::Importing { visits, reply } }, Event::Done) == over(reply),
{
    reveal(after);
}

/// An import of a known tool sizes the file and reads it where it is not larger
/// than fifty megabytes; else it fails.
pub proof fn law_import_reads(
    source: Seq<char>,
    file: Seq<char>,
    dry_run: bool,
    size: u64,
    reason: String,
)
    ensures
        !import::is_source(source) ==> ends_with(
            started(Command::Import { source, file, dry_run }),
            report::import_failed("unknown source: "@ + source, dry_run),
        ),
        import::is_source(source) ==> ({
            let first = started(Command::Import { source, file, dry_run });
            let sized = after(first, Event::Size(Ok(size)));
            &&& first.action() matches Action::FileSize(f) && f == file
            &&& ends_with(
                after(first, Event::Size(Err(reason))),
                report::import_failed(reason@, dry_run),
            )
            &&& size <= 50 * 1024 * 1024 ==> (sized.action() matches Action::ReadFile {
                source: s,
                file: f,
            } && s == source && f == file)
            &&& size > 50 * 1024 * 1024 ==> (sized.action() matches Action::Finish { reply, visit }
                && visit is None && reply.code == 1 && reply.out.len() == 0)
            &&& size <= 50 * 1024 * 1024 ==> ends_with(
                after(sized, Event::File(Err(reason))),
                report::import_failed(reason@, dry_run),
            )
        }),
{
    lemma_sized(source, file, dry_run, size);
    lemma_not_sized(source, file, dry_run, reason);
    lemma_read(source, file, dry_run, arbitrary(), reason);
}

/// An import probes every entry of the file that it read. It records the visits
/// of those that lead to a directory and tells how many it recorded and how many
/// it skipped; a dry run only names their paths.
pub proof fn law_import_records(
    source: Seq<char>,
    file: Seq<char>,
    dry_run: bool,
    size: u64,
    contents: ImportFile,
    probes: Vec<Probe>,
)
    requires
        import::is_source(source),
        size <= 50 * 1024 * 1024,
        probes@.len() == import::source_entries(source, contents).len(),
    ensures
        ({
            let outcomes = import::source_outcomes(
                source,
                contents,
                import::probe_views(probes@),
            );
            let visits = import::visits_of(outcomes);
            let read = after(
                after(
                    started(Command::Import { source, file, dry_run }),
                    Event::Size(Ok(size)),
                ),
                Event::File(Ok(contents)),
            );
            let probed = after(read, Event::Probes(probes));
            &&& read.action() matches Action::Probe(entries) && entries
                == import::source_entries(source, contents)
            &&& dry_run ==> ends_with(
                probed,
                report::preview_answer(import::visit_paths(visits)),
            )
            &&& !dry_run ==> (probed.action() matches Action::RecordVisits(v) && v == visits)
            &&& !dry_run ==> ends_with(
                after(probed, Event::Done),
                report::import_answer(visits.len() as int, outcomes.len() - visits.len()),
            )
        }),
{
    let outcomes = import::source_outcomes(source, contents, import::probe_views(probes@));
    let visits = import::visits_of(outcomes);
    lemma_sized(source, file, dry_run, size);
    lemma_read(source, file, dry_run, contents, arbitrary());
    lemma_probed(source, contents, dry_run, probes);
    lemma_recorded(
        visits,
        report::import_answer(visits.len() as int, outcomes.len() - visits.len()),
    );
}

/// `prune` counts the rows, announces how many it checks unless it is to be
/// quiet, and tells what came of it. A dry run only names the stale ones.
pub proof fn law_prune_run(
    quiet: bool,
    total: usize,
    changed: Result<usize, String>,
    paths: Vec<String>,
    reason: String,
)
    ensures
        ({
            let first = started(Command::Prune { dry_run: false, quiet });
            let counted = first.next(Event::Number(total));
            &&& first.action() is HistoryCount
            &&& counted.action() matches Action::Prune { start, quiet: q } && q == quiet && start
                == report::prune_announced(total as int, quiet)
            &&& ends_with(
                counted.next(Event::Changed(changed)),
                report::pruned_answer(report::outcome(changed), quiet),
            )
        }),
        started(Command::Prune { dry_run: true, quiet }).action() is Stale,
        ends_with(
            started(Command::Prune { dry_run: true, quiet }).next(Event::Paths(Ok(paths))),
            report::prune_answer(text::views(paths@)),
        ),
        ends_failed(
            started(Command::Prune { dry_run: true, quiet }).next(Event::Paths(Err(reason))),
            "prune dry-run failed"@,
            reason@,
            1,
        ),
{
}

/// `clear` asks first unless it is forced, wipes the history where the user
/// typed `yes`, and else does not.
pub proof fn law_clear_run(answer: Option<String>, failure: Option<String>)
    ensures
        started(Command::Clear { force: true }).action() is ClearHistory,
        started(Command::Clear { force: false }).action() is Confirm,
        consents(Event::Text(answer)) ==> started(Command::Clear { force: false }).next(
            Event::Text(answer),
        ) == started(Command::Clear { force: true }),
        !consents(Event::Text(answer)) ==> ends_with(
            started(Command::Clear { force: false }).next(Event::Text(answer)),
            report::line("aborted"@, 1),
        ),
        ends_with(
            started(Command::Clear { force: true }).next(Event::Failure(failure)),
            report::clear_answer(true, text::maybe(failure)),
        ),
{
}

proof fn lemma_counted(verbose: bool, counts: Counts, reason: String)
    ensures
        after(RunView { stage: Stage::Summing { verbose } }, Event::Counts(Ok(counts))) == (
        RunView { stage: Stage::Surveying { verbose, counts } }),
        after(RunView { stage: Stage::Summing { verbose } }, Event::Counts(Err(reason))) == failed(
            "stats failed"@,
            reason@,
            1,
        ),
{
    reveal(after);
}

proof fn lemma_surveyed(verbose: bool, counts: Counts, rows: Vec<HistoryRow>, live: Vec<bool>)
    requires
        live@.len() == rows@.len(),
    ensures
        after(
            RunView { stage: Stage::Surveying { verbose, counts } },
            Event::Rows(Ok(rows), live),
        ) == surveyed(verbose, counts, rows@, live@),
{
    reveal(after);
}

proof fn lemma_described(
    verbose: bool,
    counts: Counts,
    rows: Seq<HistoryRow>,
    live: Seq<bool>,
    d: Description,
)
    requires
        verbose ==> (d.top matches Ok(top) ==> top@.len() == d.live@.len()),
    ensures
        after(surveyed(verbose, counts, rows, live), Event::Described(d)) == over(
            stats::stats_answer(
                counts,
                stats::stale_rows(live) as usize as int,
                d.percent@,
                if verbose {
                    Some(
                        detailed(
                            rows.len() as usize,
                            stats::range_of(rows),
                            match stats::oldest_of(rows) {
                                Some(i) => Some((rows[i].path@, rows[i].last_visited)),
                                None => None,
                            },
                            d,
                        ),
                    )
                } else {
                    None
                },
                d.live@,
            ),
        ),
{
    reveal(after);
}

/// `stats` counts what the store holds, surveys all rows, and has the numbers
/// written out of exactly what it found.
pub proof fn law_stats_run(
    verbose: bool,
    counts: Counts,
    rows: Vec<HistoryRow>,
    live: Vec<bool>,
    reason: String,
)
    requires
        live@.len() == rows@.len(),
        live@.len() <= usize::MAX,
    ensures
        ({
            let first = started(Command::Stats { verbose });
            let counted = after(first, Event::Counts(Ok(counts)));
            let seen = after(counted, Event::Rows(Ok(rows), live));
            &&& first.action() is Counts
            &&& ends_failed(
                after(first, Event::Counts(Err(reason))),
                "stats failed"@,
                reason@,
                1,
            )
            &&& counted.action() is HistoryRows
            &&& seen.action() matches Action::Describe {
                verbose: v,
                stale,
                total,
                range,
                oldest,
            } && v == verbose && stale == stats::stale_rows(live@) && total == counts.total
                && range == stats::range_of(rows@) && (oldest is Some <==> rows@.len() > 0)
            &&& seen.action() matches Action::Describe { oldest: Some(time), .. }
                ==> stats::oldest_of(rows@) matches Some(i) && time == rows@[i].last_visited
        }),
{
    stats::law_stale_counted(live@, Seq::empty(), true);
    lemma_counted(verbose, counts, reason);
    lemma_surveyed(verbose, counts, rows, live);
}

/// Once the numbers are written out, `stats` shows the counts first, and nothing
/// but them and the hint unless more is asked for. It fails exactly where more is
/// asked for and the rows with the most visits could not be read.
#[verifier::spinoff_prover]
pub proof fn law_stats_end(
    verbose: bool,
    counts: Counts,
    rows: Seq<HistoryRow>,
    live: Seq<bool>,
    d: Description,
)
    requires
        live.len() <= usize::MAX,
        verbose ==> (d.top matches Ok(top) ==> top@.len() == d.live@.len()),
    ensures
        ({
            let end = after(surveyed(verbose, counts, rows, live), Event::Described(d));
            let start = stats::brief(counts, stats::stale_rows(live) as int, d.percent@);
            end.action() matches Action::Finish { reply, visit } && visit is None
                && text::starts_with(reply.out, start) && (!verbose ==> reply.out == start) && (
            reply.code == 1 <==> verbose && d.top is Err)
        }),
{
    stats::law_stale_counted(live, Seq::empty(), true);
    lemma_described(verbose, counts, rows, live, d);
    let start = stats::brief(counts, stats::stale_rows(live) as int, d.percent@);
    let end = after(surveyed(verbose, counts, rows, live), Event::Described(d));
    let out = end.stage->Finished_reply.out;
    assert(out.subrange(0, start.len() as int) =~= start);
}

/// In detail `stats` shows the range with the number of rows, and the row that
/// was not visited for longest, where their ages are written out.
pub proof fn law_stats_detail(
    rows: usize,
    range: Option<(i64, i64)>,
    oldest: Option<(Seq<char>, i64)>,
    d: Description,
)
    ensures
        (range is Some && d.ages is Some) ==> detailed(rows, range, oldest, d).range == Some(
            (d.ages->Some_0.0@, d.ages->Some_0.1@, rows),
        ),
        (range is None || d.ages is None) ==> detailed(rows, range, oldest, d).range is None,
        (oldest is Some && d.oldest_age is Some) ==> detailed(rows, range, oldest, d).longest
            == Some((oldest->Some_0.0, d.oldest_age->Some_0@)),
        (oldest is None || d.oldest_age is None) ==> detailed(
            rows,
            range,
            oldest,
            d,
        ).longest is None,
        detailed(rows, range, oldest, d).size is Some <==> d.size is Some,
        d.size matches Some((size, path)) ==> detailed(rows, range, oldest, d).size == Some(
            (size@, path@),
        ),
        detailed(rows, range, oldest, d).top is Ok <==> d.top is Ok,
        d.top matches Ok(top) ==> detailed(rows, range, oldest, d).top == Ok::<
            Seq<HistoryRow>,
            Seq<char>,
        >(top@),
        d.top matches Err(e) ==> detailed(rows, range, oldest, d).top == Err::<
            Seq<HistoryRow>,
            Seq<char>,
        >(e@),
{
}

/// `doctor` shows all that was found, a line each, and succeeds exactly where
/// all is well.
pub proof fn law_doctor_run(ok: bool, lines: Vec<String>)
    ensures
        started(Command::Doctor).action() is Doctor,
        ends_with(
            started(Command::Doctor).next(Event::Diagnosis(ok, lines)),
            ReplyView {
                out: render::stacked(Seq::new(lines@.len(), |i: int| lines@[i]@)),
                err: Seq::empty(),
                code: if ok {
                    0
                } else {
                    1
                },
            },
        ),
{
    assert(text::views(lines@) =~= Seq::new(lines@.len(), |i: int| lines@[i]@));
}

/// `init` and `completions` are for the shell that is named, else for the one
/// that `$SHELL` ends in; help and version are what they are.
pub proof fn law_standalone_runs(
    shell: Option<Seq<char>>,
    verify: bool,
    variable: Option<String>,
    script: Option<String>,
    name: Seq<char>,
    version: String,
)
    ensures
        started(Command::Init { shell, verify }).action() is ShellVariable,
        ends_with(
            started(Command::Init { shell, verify }).next(Event::Text(variable)),
            report::init_answer(shell, verify, text::maybe(variable)),
        ),
        started(Command::Completions { shell }).action() is ShellVariable,
        started(Command::Completions { shell: Some(name) }).next(
            Event::Text(variable),
        ).action() matches Action::CompletionScript(s) && s == name,
        init::detected(text::maybe(variable)) matches Some(found) ==> (started(
            Command::Completions { shell: None },
        ).next(Event::Text(variable)).action() matches Action::CompletionScript(s) && s == found),
        init::detected(text::maybe(variable)) is None ==> ends_with(
            started(Command::Completions { shell: None }).next(Event::Text(variable)),
            report::complaint(cli::COMPLETIONS_USAGE@, 2),
        ),
        script matches Some(text) ==> ends_with(
            started(Command::Completions { shell: Some(name) }).next(Event::Text(variable)).next(
                Event::Text(script),
            ),
            ReplyView { out: text@, err: Seq::empty(), code: 0 },
        ),
        script is None ==> ends_with(
            started(Command::Completions { shell: Some(name) }).next(Event::Text(variable)).next(
                Event::Text(script),
            ),
            report::complaint(cli::COMPLETIONS_USAGE@, 2),
        ),
        ends_with(
            started(Command::Help),
            ReplyView { out: cli::HELP@, err: Seq::empty(), code: 0 },
        ),
        started(Command::Version).action() is Version,
        ends_with(
            started(Command::Version).next(Event::Text(Some(version))),
            ReplyView { out: ("hop "@ + version@).push('\n'), err: Seq::empty(), code: 0 },
        ),
{
}

/// What needs the store opens it first. Where that fails the run ends with code
/// 2, in silence where `hop` stood alone. Else stale rows go first, unless `hop`
/// stood alone, and that is told where it is asked for and removed some; and the
/// command starts.
pub proof fn law_opening(list: Seq<Seq<char>>, reason: String, changed: Result<usize, String>)
    requires
        !cli::is_standalone(list),
    ensures
        begun(list).action() is Open,
        list.len() == 1 ==> ends_with(
            begun(list).next(Event::Opened(Err(reason))),
            report::silence(2),
        ),
        list.len() != 1 ==> ends_failed(
            begun(list).next(Event::Opened(Err(reason))),
            "db open failed"@,
            reason@,
            2,
        ),
        list.len() == 1 ==> begun(list).next(Event::Opened(Ok(()))) == started(cli::parsed(list)),
        list.len() != 1 ==> ({
            let opened = begun(list).next(Event::Opened(Ok(())));
            let pruned = opened.next(Event::Changed(changed));
            &&& opened.action() is AutoPrune
            &&& (changed matches Ok(n) && n > 0 && cli::is_verbose(list)) ==> pruned.action()
                == Action::<
                Seq<char>,
                ReplyView,
                Seq<import::VisitView>,
                Seq<import::EntryView>,
            >::Tell("auto-pruned "@ + render::decimal(changed->Ok_0 as int) + " stale entries"@)
            &&& (changed matches Ok(n) && n > 0 && cli::is_verbose(list)) ==> pruned.next(
                Event::Done,
            ) == started(cli::parsed(list))
            &&& !(changed matches Ok(n) && n > 0 && cli::is_verbose(list)) ==> pruned == started(
                cli::parsed(list),
            )
        }),
{
}

/// Whether an event is of the kind that an action brings about.
pub open spec fn answers_to<T, R, V, E>(event: Event, action: Action<T, R, V, E>) -> bool {
    match action {
        Action::Open => event is Opened,
        Action::AutoPrune => event is Changed,
        Action::Tell(_) => event is Done,
        Action::Pick => event is Text,
        Action::FindBest(_) => event is Text,
        Action::HistoryCount => event is Number,
        Action::HistoryRows => event is Rows,
        Action::Top(_) => event is Rows,
        Action::Recent(_) => event is Rows,
        Action::Locate(_) => event is Place,
        Action::Forget(_) => event is Changed,
        Action::Bookmarks => event is Bookmarks,
        Action::Bookmark(_) => event is Text,
        Action::SetBookmark { .. } => event is Done,
        Action::EditBookmark { .. } => event is Changed,
        Action::RemoveBookmark(_) => event is Changed,
        Action::Candidates(_) => event is Candidates,
        Action::Export => event is Export,
        Action::ExportJson => event is Text,
        Action::FileSize(_) => event is Size,
        Action::ReadFile { .. } => event is File,
        Action::Probe(_) => event is Probes,
        Action::RecordVisits(_) => event is Done,
        Action::Stale => event is Paths,
        Action::Prune { .. } => event is Changed,
        Action::Confirm => event is Text,
        Action::ClearHistory => event is Failure,
        Action::Counts => event is Counts,
        Action::Describe { .. } => event is Described,
        Action::Doctor => event is Diagnosis,
        Action::ShellVariable => event is Text,
        Action::CompletionScript(_) => event is Text,
        Action::Version => event is Text,
        Action::Finish { .. } => false,
    }
}

/// An event that does not answer the action leaves the run as it is, and a run
/// that is over stays over.
pub proof fn law_other_events_ignored(run: RunView, event: Event)
    requires
        !answers_to(event, run.action()),
    ensures
        run.next(event) == run,
{
}

/// Where the rows cannot be read, `stats` goes on as if there were none.
pub proof fn law_stats_unread(verbose: bool, counts: Counts, reason: String, live: Vec<bool>)
    ensures
        after(
            RunView { stage: Stage::Surveying { verbose, counts } },
            Event::Rows(Err(reason), live),
        ).action() matches Action::Describe { verbose: v, stale, total, range, oldest } && v
            == verbose && stale == 0 && total == counts.total && range is None && oldest is None,
{
    reveal(after);
}

} // verus!
