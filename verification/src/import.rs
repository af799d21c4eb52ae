//! Import of directories from other tools: what a file holds, and what becomes
//! of each entry once it is known which of them are directories.
//!
//! An import takes two steps. The entries of a file come first, from
//! [`import_entries`]; the caller expands and probes each of their paths and
//! hands the probes, one for each entry and in the same order, to the import
//! itself.

use vstd::prelude::*;
use vstd::string::StringExecFns;

use crate::outside;
use crate::render;
use crate::shell;
use crate::text;

pub use crate::shell::{extract_cd_target, parse_zsh_history};

verus! {

/// Maximum size (in bytes) of an import file. A 10 GB zsh history file should
/// not be loaded into memory. 50 MB is a generous limit for any realistic
/// history or cache file.
pub const MAX_FILE_SIZE: u64 = 52_428_800;

/// Errors that can occur during an import operation.
#[derive(Clone, Debug, PartialEq, Eq)]
pub enum ImportError {
    /// The import file exceeds [`MAX_FILE_SIZE`] and was rejected to prevent OOM.
    FileTooLarge { size: u64, max: u64 },
    /// The file does not exist or could not be read; the text says why.
    Io(String),
}

impl ImportError {
    /// What is said of the error.
    pub open spec fn text(&self) -> Seq<char> {
        match self {
            ImportError::FileTooLarge { size, max } => "import file is "@ + render::decimal(
                *size as int,
            ) + " bytes (max "@ + render::decimal(*max as int / 1_048_576)
                + " MB); refusing to read to prevent OOM"@,
            ImportError::Io(reason) => reason@,
        }
    }

    /// What is said of the error.
    pub fn message(&self) -> (r: String)
        ensures
            r@ == self.text(),
    {
        match self {
            ImportError::FileTooLarge { size, max } => {
                let mut r: String = "import file is ".to_string();
                render::push_digits(&mut r, *size);
                r.append(" bytes (max ");
                render::push_digits(&mut r, *max / 1_048_576);
                r.append(" MB); refusing to read to prevent OOM");
                r
            },
            ImportError::Io(reason) => reason.clone(),
        }
    }
}

/// Checks the size of a file before it is read.
pub fn check_file_size(size: u64) -> (r: Result<(), ImportError>)
    ensures
        r is Ok <==> size <= MAX_FILE_SIZE,
        r matches Err(e) ==> e == (ImportError::FileTooLarge { size, max: MAX_FILE_SIZE }),
{
    if size > MAX_FILE_SIZE {
        return Err(ImportError::FileTooLarge { size, max: MAX_FILE_SIZE });
    }
    Ok(())
}

// ---------------------------------------------------------------------------
// What a file holds
// ---------------------------------------------------------------------------

/// An entry of an import file: a path as it is written there, and what stands
/// where its weight does.
#[derive(Clone, Debug, PartialEq, Eq)]
pub struct Entry {
    pub path: String,
    pub weight: Option<String>,
}

/// The view of an entry.
#[verifier::ext_equal]
pub struct EntryView {
    pub path: Seq<char>,
    pub weight: Option<Seq<char>>,
}

impl View for Entry {
    type V = EntryView;

    open spec fn view(&self) -> EntryView {
        EntryView {
            path: self.path@,
            weight: match self.weight {
                Some(w) => Some(w@),
                None => None,
            },
        }
    }
}

/// The views of entries.
pub open spec fn entry_views(list: Seq<Entry>) -> Seq<EntryView> {
    Seq::new(list.len(), |i: int| list[i]@)
}

proof fn lemma_entry_views_push(list: Seq<Entry>, e: Entry)
    ensures
        entry_views(list.push(e)) == entry_views(list).push(e@),
{
    assert(entry_views(list.push(e)) =~= entry_views(list).push(e@));
}

/// What stands before the first tab, and what stands behind it.
pub open spec fn first_column(line: Seq<char>) -> (Seq<char>, Option<Seq<char>>) {
    let i = text::first_index(line, '\t');
    if i < line.len() {
        (line.take(i), Some(line.skip(i + 1)))
    } else {
        (line, None)
    }
}

/// The entry on a line `path <tab> visits <tab> last visit`.
pub open spec fn fasd_entry(line: Seq<char>) -> EntryView {
    let (path, rest) = first_column(line);
    EntryView {
        path: text::trim(path),
        weight: match rest {
            Some(rest) => Some(text::trim(first_column(rest).0)),
            None => None,
        },
    }
}

/// The entry on a line `weight <tab> path`.
pub open spec fn autojump_entry(line: Seq<char>) -> EntryView {
    let (weight, path) = first_column(line);
    EntryView {
        path: match path {
            Some(path) => text::trim(path),
            None => Seq::empty(),
        },
        weight: Some(text::trim(weight)),
    }
}

/// The entries on the lines that are not blank.
pub open spec fn fasd_list(lines: Seq<Seq<char>>) -> Seq<EntryView>
    decreases lines.len(),
{
    if lines.len() == 0 {
        Seq::empty()
    } else if text::is_blank(lines.last()) {
        fasd_list(lines.drop_last())
    } else {
        fasd_list(lines.drop_last()).push(fasd_entry(lines.last()))
    }
}

/// The entries on the lines that are not blank.
pub open spec fn autojump_list(lines: Seq<Seq<char>>) -> Seq<EntryView>
    decreases lines.len(),
{
    if lines.len() == 0 {
        Seq::empty()
    } else if text::is_blank(lines.last()) {
        autojump_list(lines.drop_last())
    } else {
        autojump_list(lines.drop_last()).push(autojump_entry(lines.last()))
    }
}

/// The directories that commands change to.
pub open spec fn target_list(commands: Seq<Seq<char>>) -> Seq<EntryView>
    decreases commands.len(),
{
    if commands.len() == 0 {
        Seq::empty()
    } else {
        let before = target_list(commands.drop_last());
        match shell::cd_target(commands.last()) {
            Some(target) => before.push(EntryView { path: target, weight: None }),
            None => before,
        }
    }
}

/// What stands before the first tab of a text, and what stands behind it.
fn split_column(line: &str) -> (r: (String, Option<String>))
    ensures
        r.0@ == first_column(line@).0,
        r.1 is Some == first_column(line@).1 is Some,
        r.1 matches Some(rest) ==> first_column(line@).1 == Some(rest@),
{
    let chars: Vec<char> = text::chars_of(line);
    let n: usize = chars.len();
    let i: usize = text::index_of(&chars, 0, n, '\t');
    assert(chars@.subrange(0, n as int) =~= line@);
    if i < n {
        assert(chars@.subrange(0, i as int) =~= line@.take(i as int));
        assert(chars@.subrange(i + 1, n as int) =~= line@.skip(i + 1));
        (text::text_between(&chars, 0, i), Some(text::text_between(&chars, i + 1, n)))
    } else {
        (line.to_string(), None)
    }
}

/// The entries of a fasd cache.
fn fasd_entries(content: &str) -> (r: Vec<Entry>)
    ensures
        entry_views(r@) == fasd_list(text::lines(content@)),
{
    let lines: Vec<String> = text::split_lines(content);
    let ghost all = text::views(lines@);
    let mut r: Vec<Entry> = Vec::new();
    assert(all.take(0) =~= Seq::<Seq<char>>::empty());
    assert(entry_views(r@) =~= fasd_list(all.take(0)));
    for i in 0..lines.len()
        invariant
            all == text::views(lines@),
            entry_views(r@) == fasd_list(all.take(i as int)),
    {
        let ghost before = r@;
        proof {
            assert(all.take(i + 1).drop_last() =~= all.take(i as int));
            assert(all.take(i + 1).last() == lines@[i as int]@);
        }
        if !text::blank(lines[i].as_str()) {
            let (path, rest) = split_column(lines[i].as_str());
            let weight: Option<String> = match rest {
                Some(rest) => {
                    let (weight, _) = split_column(rest.as_str());
                    Some(text::trimmed(weight.as_str()))
                },
                None => None,
            };
            r.push(Entry { path: text::trimmed(path.as_str()), weight });
            proof {
                lemma_entry_views_push(before, r@.last());
                assert(r@.last()@ =~= fasd_entry(all[i as int]));
            }
        }
    }
    assert(all.take(lines@.len() as int) =~= all);
    r
}

/// The entries of an autojump database.
fn autojump_entries(content: &str) -> (r: Vec<Entry>)
    ensures
        entry_views(r@) == autojump_list(text::lines(content@)),
{
    let lines: Vec<String> = text::split_lines(content);
    let ghost all = text::views(lines@);
    let mut r: Vec<Entry> = Vec::new();
    assert(all.take(0) =~= Seq::<Seq<char>>::empty());
    assert(entry_views(r@) =~= autojump_list(all.take(0)));
    for i in 0..lines.len()
        invariant
            all == text::views(lines@),
            entry_views(r@) == autojump_list(all.take(i as int)),
    {
        let ghost before = r@;
        proof {
            assert(all.take(i + 1).drop_last() =~= all.take(i as int));
            assert(all.take(i + 1).last() == lines@[i as int]@);
        }
        if !text::blank(lines[i].as_str()) {
            let (weight, rest) = split_column(lines[i].as_str());
            let path: String = match rest {
                Some(path) => text::trimmed(path.as_str()),
                None => String::new(),
            };
            r.push(Entry { path, weight: Some(text::trimmed(weight.as_str())) });
            proof {
                lemma_entry_views_push(before, r@.last());
                assert(r@.last()@ =~= autojump_entry(all[i as int]));
            }
        }
    }
    assert(all.take(lines@.len() as int) =~= all);
    r
}

/// The directories that the commands of a zsh history change to.
fn zsh_entries(content: &str) -> (r: Vec<Entry>)
    ensures
        entry_views(r@) == target_list(shell::zsh_commands(content@)),
{
    let commands: Vec<String> = shell::parse_zsh_history(content);
    let ghost all = text::views(commands@);
    let mut r: Vec<Entry> = Vec::new();
    assert(all.take(0) =~= Seq::<Seq<char>>::empty());
    assert(entry_views(r@) =~= target_list(all.take(0)));
    for i in 0..commands.len()
        invariant
            all == text::views(commands@),
            entry_views(r@) == target_list(all.take(i as int)),
    {
        let ghost before = r@;
        proof {
            assert(all.take(i + 1).drop_last() =~= all.take(i as int));
            assert(all.take(i + 1).last() == commands@[i as int]@);
        }
        if let Some(path) = shell::extract_cd_target(commands[i].as_str()) {
            r.push(Entry { path, weight: None });
            proof {
                lemma_entry_views_push(before, r@.last());
            }
        }
    }
    assert(all.take(commands@.len() as int) =~= all);
    r
}

// ---------------------------------------------------------------------------
// zoxide
// ---------------------------------------------------------------------------

/// A path and the whole part of its score, as a zoxide database holds them.
#[derive(Clone, Debug, PartialEq, Eq)]
pub struct Ranked {
    pub path: String,
    pub score: i64,
}

/// A path and how often it counts as visited.
#[derive(Clone, Debug, PartialEq, Eq)]
pub struct Visit {
    pub path: String,
    pub count: i64,
}

/// The view of a visit.
#[verifier::ext_equal]
pub struct VisitView {
    pub path: Seq<char>,
    pub count: int,
}

impl View for Visit {
    type V = VisitView;

    open spec fn view(&self) -> VisitView {
        VisitView { path: self.path@, count: self.count as int }
    }
}

/// The views of visits.
pub open spec fn visit_views(list: Seq<Visit>) -> Seq<VisitView> {
    Seq::new(list.len(), |i: int| list[i]@)
}

/// The paths of visits.
pub open spec fn visit_paths(list: Seq<VisitView>) -> Seq<Seq<char>> {
    Seq::new(list.len(), |i: int| list[i].path)
}

proof fn lemma_visit_views_push(list: Seq<Visit>, v: Visit)
    ensures
        visit_views(list.push(v)) == visit_views(list).push(v@),
{
    assert(visit_views(list.push(v)) =~= visit_views(list).push(v@));
}

/// A number kept between 1 and 100.
pub open spec fn bounded(weight: int) -> int {
    if weight < 1 {
        1
    } else if weight > 100 {
        100
    } else {
        weight
    }
}

/// One visit for every ten of a weight, and one at least.
pub open spec fn bucket(weight: int) -> int {
    if bounded(weight) < 10 {
        1
    } else {
        bounded(weight) / 10
    }
}

fn bounded_weight(weight: i64) -> (r: i64)
    ensures
        r == bounded(weight as int),
{
    if weight < 1 {
        1
    } else if weight > 100 {
        100
    } else {
        weight
    }
}

fn bucket_of(weight: i64) -> (r: i64)
    ensures
        r == bucket(weight as int),
{
    let w: i64 = bounded_weight(weight);
    if w < 10 {
        1
    } else {
        w / 10
    }
}

/// What a zoxide database holds: its ranked paths where it is a list of those,
/// else its plain paths, each visited once, else nothing.
pub open spec fn zoxide_list(
    ranked: Option<Seq<Ranked>>,
    plain: Option<Seq<Seq<char>>>,
) -> Seq<VisitView> {
    match ranked {
        Some(list) => Seq::new(
            list.len(),
            |i: int| VisitView { path: list[i].path@, count: bucket(list[i].score as int) },
        ),
        None => match plain {
            Some(list) => Seq::new(list.len(), |i: int| VisitView { path: list[i], count: 1 }),
            None => Seq::empty(),
        },
    }
}

/// The ranked paths of a file, where it is a list of those.
pub open spec fn ranked_view(ranked: Option<Vec<Ranked>>) -> Option<Seq<Ranked>> {
    match ranked {
        Some(list) => Some(list@),
        None => None,
    }
}

/// The plain paths of a file, where it is a list of those.
pub open spec fn plain_view(plain: Option<Vec<String>>) -> Option<Seq<Seq<char>>> {
    match plain {
        Some(list) => Some(text::views(list@)),
        None => None,
    }
}

/// What a zoxide database holds, given its two readings.
pub fn choose_zoxide(ranked: &Option<Vec<Ranked>>, plain: &Option<Vec<String>>) -> (r: Vec<Visit>)
    ensures
        visit_views(r@) == zoxide_list(ranked_view(*ranked), plain_view(*plain)),
{
    let ghost all = zoxide_list(ranked_view(*ranked), plain_view(*plain));
    let mut r: Vec<Visit> = Vec::new();
    if let Some(list) = ranked {
        for i in 0..list.len()
            invariant
                all.len() == list@.len(),
                forall|k: int|
                    0 <= k < list@.len() ==> #[trigger] all[k] == (VisitView {
                        path: list@[k].path@,
                        count: bucket(list@[k].score as int),
                    }),
                visit_views(r@) == all.take(i as int),
        {
            let ghost before = r@;
            r.push(Visit { path: list[i].path.clone(), count: bucket_of(list[i].score) });
            proof {
                lemma_visit_views_push(before, r@.last());
                assert(all.take(i + 1) =~= all.take(i as int).push(all[i as int]));
            }
        }
        assert(all.take(list@.len() as int) =~= all);
    } else if let Some(list) = plain {
        for i in 0..list.len()
            invariant
                all.len() == list@.len(),
                forall|k: int|
                    0 <= k < list@.len() ==> #[trigger] all[k] == (VisitView {
                        path: list@[k]@,
                        count: 1,
                    }),
                visit_views(r@) == all.take(i as int),
        {
            let ghost before = r@;
            r.push(Visit { path: list[i].clone(), count: 1 });
            proof {
                lemma_visit_views_push(before, r@.last());
                assert(all.take(i + 1) =~= all.take(i as int).push(all[i as int]));
            }
        }
        assert(all.take(list@.len() as int) =~= all);
    }
    assert(visit_views(r@) =~= all);
    r
}

/// What a zoxide database holds. Its ranked paths are given, where it is a list
/// of those; else the bytes are read as a plain list of strings.
fn zoxide_visits(ranked: &Option<Vec<Ranked>>, data: &Vec<u8>) -> (r: Vec<Visit>)
    ensures
        visit_views(r@) == zoxide_list(ranked_view(*ranked), outside::packed_strings(data@)),
{
    if ranked.is_some() {
        choose_zoxide(ranked, &None)
    } else {
        let plain: Option<Vec<String>> = outside::unpack_strings(data);
        choose_zoxide(ranked, &plain)
    }
}

/// Visits as entries without a weight.
pub open spec fn unweighted(list: Seq<VisitView>) -> Seq<EntryView> {
    Seq::new(list.len(), |i: int| EntryView { path: list[i].path, weight: None })
}

/// The entries of a zoxide database.
fn zoxide_entries(ranked: &Option<Vec<Ranked>>, data: &Vec<u8>) -> (r: Vec<Entry>)
    ensures
        entry_views(r@) == unweighted(
            zoxide_list(ranked_view(*ranked), outside::packed_strings(data@)),
        ),
{
    let visits: Vec<Visit> = zoxide_visits(ranked, data);
    let ghost all = unweighted(visit_views(visits@));
    let mut r: Vec<Entry> = Vec::new();
    for i in 0..visits.len()
        invariant
            all == unweighted(visit_views(visits@)),
            entry_views(r@) == all.take(i as int),
    {
        let ghost before = r@;
        r.push(Entry { path: visits[i].path.clone(), weight: None });
        proof {
            lemma_entry_views_push(before, r@.last());
            assert(all.take(i + 1) =~= all.take(i as int).push(all[i as int]));
        }
    }
    assert(all.take(visits@.len() as int) =~= all);
    r
}

// ---------------------------------------------------------------------------
// What becomes of the entries
// ---------------------------------------------------------------------------

/// What was found of an entry: its path with `~` expanded, whether that is a
/// directory, and the whole part of the number that stands where its weight
/// does, if one does.
#[derive(Clone, Debug, PartialEq, Eq)]
pub struct Probe {
    pub path: String,
    pub is_dir: bool,
    pub weight: Option<i64>,
}

/// The view of a probe.
#[verifier::ext_equal]
pub struct ProbeView {
    pub path: Seq<char>,
    pub is_dir: bool,
    pub weight: Option<i64>,
}

impl View for Probe {
    type V = ProbeView;

    open spec fn view(&self) -> ProbeView {
        ProbeView { path: self.path@, is_dir: self.is_dir, weight: self.weight }
    }
}

/// The views of probes.
pub open spec fn probe_views(list: Seq<Probe>) -> Seq<ProbeView> {
    Seq::new(list.len(), |i: int| list[i]@)
}

/// The visit that an entry comes to, if its directory exists.
pub open spec fn fasd_visit(entry: EntryView, probe: ProbeView) -> Option<VisitView> {
    if entry.path.len() > 0 && probe.is_dir {
        let count = match (entry.weight, probe.weight) {
            (Some(_), Some(w)) => bounded(w as int),
            _ => 1,
        };
        Some(VisitView { path: probe.path, count })
    } else {
        None
    }
}

/// The visit that an entry comes to, if its directory exists.
pub open spec fn autojump_visit(entry: EntryView, probe: ProbeView) -> Option<VisitView> {
    if entry.path.len() > 0 && probe.is_dir {
        let count = match (entry.weight, probe.weight) {
            (Some(_), Some(w)) => bucket(w as int),
            _ => 1,
        };
        Some(VisitView { path: probe.path, count })
    } else {
        None
    }
}

/// The visit that a known path comes to, if its directory exists.
pub open spec fn known_visit(count: int, probe: ProbeView) -> Option<VisitView> {
    if probe.is_dir {
        Some(VisitView { path: probe.path, count })
    } else {
        None
    }
}

/// The visits that a fasd cache comes to, entry by entry.
pub open spec fn fasd_outcomes(content: Seq<char>, probes: Seq<ProbeView>) -> Seq<
    Option<VisitView>,
> {
    let entries = fasd_list(text::lines(content));
    Seq::new(entries.len(), |i: int| fasd_visit(entries[i], probes[i]))
}

/// The visits that an autojump database comes to, entry by entry.
pub open spec fn autojump_outcomes(content: Seq<char>, probes: Seq<ProbeView>) -> Seq<
    Option<VisitView>,
> {
    let entries = autojump_list(text::lines(content));
    Seq::new(entries.len(), |i: int| autojump_visit(entries[i], probes[i]))
}

/// The visits that a zsh history comes to, entry by entry.
pub open spec fn zsh_outcomes(content: Seq<char>, probes: Seq<ProbeView>) -> Seq<
    Option<VisitView>,
> {
    let entries = target_list(shell::zsh_commands(content));
    Seq::new(entries.len(), |i: int| known_visit(1, probes[i]))
}

/// The visits that the paths of a zoxide database come to, one by one.
pub open spec fn zoxide_outcomes(visits: Seq<VisitView>, probes: Seq<ProbeView>) -> Seq<
    Option<VisitView>,
> {
    Seq::new(visits.len(), |i: int| known_visit(visits[i].count, probes[i]))
}

/// The view of what an entry comes to.
pub open spec fn outcome_view(outcome: Option<Visit>) -> Option<VisitView> {
    match outcome {
        Some(v) => Some(v@),
        None => None,
    }
}

/// The visits there are.
pub open spec fn visits_of(outcomes: Seq<Option<VisitView>>) -> Seq<VisitView>
    decreases outcomes.len(),
{
    if outcomes.len() == 0 {
        Seq::empty()
    } else {
        let before = visits_of(outcomes.drop_last());
        match outcomes.last() {
            Some(v) => before.push(v),
            None => before,
        }
    }
}

/// How many entries were imported and how many skipped.
#[derive(Clone, Copy, Debug, PartialEq, Eq, Structural)]
pub struct ImportStats {
    pub imported: usize,
    pub skipped: usize,
}

/// What an import comes to: the visits to record, and the count of them.
#[derive(Clone, Debug, PartialEq, Eq)]
pub struct Import {
    pub visits: Vec<Visit>,
    pub stats: ImportStats,
}

impl Import {
    /// Whether this is what entries with these outcomes come to.
    pub open spec fn comes_of(&self, outcomes: Seq<Option<VisitView>>) -> bool {
        &&& visit_views(self.visits@) == visits_of(outcomes)
        &&& self.stats.imported == visits_of(outcomes).len()
        &&& self.stats.skipped == outcomes.len() - visits_of(outcomes).len()
    }

    /// Nothing imported yet.
    fn empty() -> (r: Import)
        ensures
            r.comes_of(Seq::empty()),
    {
        let r: Import = Import {
            visits: Vec::new(),
            stats: ImportStats { imported: 0, skipped: 0 },
        };
        assert(visit_views(r.visits@) =~= visits_of(Seq::empty()));
        r
    }

    /// Takes in one more entry, number `i` of `n`.
    fn take_in(self, outcome: Option<Visit>, i: usize, n: usize) -> (r: Import)
        requires
            i < n,
            self.stats.imported + self.stats.skipped == i,
        ensures
            r.stats.imported + r.stats.skipped == i + 1,
            forall|outcomes: Seq<Option<VisitView>>| #[trigger]
                self.comes_of(outcomes) ==> r.comes_of(
                    outcomes.push(outcome_view(outcome)),
                ),
    {
        let ghost start = self;
        let ghost last = outcome_view(outcome);
        let mut r: Import = self;
        match outcome {
            Some(v) => {
                r.visits.push(v);
                r.stats.imported = r.stats.imported + 1;
                proof {
                    lemma_visit_views_push(start.visits@, v);
                }
            },
            None => {
                r.stats.skipped = r.stats.skipped + 1;
            },
        }
        proof {
            assert forall|outcomes: Seq<Option<VisitView>>| #[trigger]
                start.comes_of(outcomes) implies r.comes_of(outcomes.push(last)) by {
                assert(outcomes.push(last).drop_last() =~= outcomes);
            }
        }
        r
    }
}

/// Records the visits of a fasd cache, whose lines read
/// `path <tab> visits <tab> last visit`.
pub fn import_fasd(content: &str, probes: &Vec<Probe>) -> (r: Import)
    requires
        probes@.len() == fasd_list(text::lines(content@)).len(),
    ensures
        r.comes_of(fasd_outcomes(content@, probe_views(probes@))),
{
    let entries: Vec<Entry> = fasd_entries(content);
    let ghost outcomes = fasd_outcomes(content@, probe_views(probes@));
    let mut r: Import = Import::empty();
    assert(outcomes.take(0) =~= Seq::empty());
    for i in 0..entries.len()
        invariant
            entries@.len() == probes@.len() == outcomes.len(),
            forall|k: int|
                0 <= k < outcomes.len() ==> #[trigger] outcomes[k] == fasd_visit(
                    entries@[k]@,
                    probes@[k]@,
                ),
            r.comes_of(outcomes.take(i as int)),
            r.stats.imported + r.stats.skipped == i,
    {
        let outcome: Option<Visit> = if text::chars_of(entries[i].path.as_str()).len() > 0
            && probes[i].is_dir {
            let count: i64 = match (&entries[i].weight, probes[i].weight) {
                (Some(_), Some(w)) => bounded_weight(w),
                _ => 1,
            };
            Some(Visit { path: probes[i].path.clone(), count })
        } else {
            None
        };
        assert(outcomes.take(i + 1) =~= outcomes.take(i as int).push(outcomes[i as int]));
        r = r.take_in(outcome, i, entries.len());
    }
    assert(outcomes.take(outcomes.len() as int) =~= outcomes);
    r
}

/// Records the visits of an autojump database, whose lines read
/// `weight <tab> path`. Weights from 1 to 100 come to 1 to 10 visits.
pub fn import_autojump(content: &str, probes: &Vec<Probe>) -> (r: Import)
    requires
        probes@.len() == autojump_list(text::lines(content@)).len(),
    ensures
        r.comes_of(autojump_outcomes(content@, probe_views(probes@))),
{
    let entries: Vec<Entry> = autojump_entries(content);
    let ghost outcomes = autojump_outcomes(content@, probe_views(probes@));
    let mut r: Import = Import::empty();
    assert(outcomes.take(0) =~= Seq::empty());
    for i in 0..entries.len()
        invariant
            entries@.len() == probes@.len() == outcomes.len(),
            forall|k: int|
                0 <= k < outcomes.len() ==> #[trigger] outcomes[k] == autojump_visit(
                    entries@[k]@,
                    probes@[k]@,
                ),
            r.comes_of(outcomes.take(i as int)),
            r.stats.imported + r.stats.skipped == i,
    {
        let outcome: Option<Visit> = if text::chars_of(entries[i].path.as_str()).len() > 0
            && probes[i].is_dir {
            let count: i64 = match (&entries[i].weight, probes[i].weight) {
                (Some(_), Some(w)) => bucket_of(w),
                _ => 1,
            };
            Some(Visit { path: probes[i].path.clone(), count })
        } else {
            None
        };
        assert(outcomes.take(i + 1) =~= outcomes.take(i as int).push(outcomes[i as int]));
        r = r.take_in(outcome, i, entries.len());
    }
    assert(outcomes.take(outcomes.len() as int) =~= outcomes);
    r
}

/// Records one visit for every directory that a zsh history changes to.
pub fn import_zsh(content: &str, probes: &Vec<Probe>) -> (r: Import)
    requires
        probes@.len() == target_list(shell::zsh_commands(content@)).len(),
    ensures
        r.comes_of(zsh_outcomes(content@, probe_views(probes@))),
{
    let ghost outcomes = zsh_outcomes(content@, probe_views(probes@));
    let mut r: Import = Import::empty();
    assert(outcomes.take(0) =~= Seq::empty());
    for i in 0..probes.len()
        invariant
            probes@.len() == outcomes.len(),
            forall|k: int|
                0 <= k < outcomes.len() ==> #[trigger] outcomes[k] == known_visit(1, probes@[k]@),
            r.comes_of(outcomes.take(i as int)),
            r.stats.imported + r.stats.skipped == i,
    {
        let outcome: Option<Visit> = if probes[i].is_dir {
            Some(Visit { path: probes[i].path.clone(), count: 1 })
        } else {
            None
        };
        assert(outcomes.take(i + 1) =~= outcomes.take(i as int).push(outcomes[i as int]));
        r = r.take_in(outcome, i, probes.len());
    }
    assert(outcomes.take(outcomes.len() as int) =~= outcomes);
    r
}

/// Records the visits of what a zoxide database holds.
pub fn import_visits(visits: &Vec<Visit>, probes: &Vec<Probe>) -> (r: Import)
    requires
        probes@.len() == visits@.len(),
    ensures
        r.comes_of(zoxide_outcomes(visit_views(visits@), probe_views(probes@))),
{
    let ghost outcomes = zoxide_outcomes(visit_views(visits@), probe_views(probes@));
    let mut r: Import = Import::empty();
    assert(outcomes.take(0) =~= Seq::empty());
    for i in 0..probes.len()
        invariant
            probes@.len() == visits@.len() == outcomes.len(),
            forall|k: int|
                0 <= k < outcomes.len() ==> #[trigger] outcomes[k] == known_visit(
                    visits@[k]@.count,
                    probes@[k]@,
                ),
            r.comes_of(outcomes.take(i as int)),
            r.stats.imported + r.stats.skipped == i,
    {
        let outcome: Option<Visit> = if probes[i].is_dir {
            Some(Visit { path: probes[i].path.clone(), count: visits[i].count })
        } else {
            None
        };
        assert(outcomes.take(i + 1) =~= outcomes.take(i as int).push(outcomes[i as int]));
        r = r.take_in(outcome, i, probes.len());
    }
    assert(outcomes.take(outcomes.len() as int) =~= outcomes);
    r
}

/// Records the visits of a zoxide database. Its ranked paths are given, where
/// it is a list of those; else the bytes are read as a plain list of strings.
pub fn import_zoxide(ranked: &Option<Vec<Ranked>>, data: &Vec<u8>, probes: &Vec<Probe>) -> (r:
    Import)
    requires
        probes@.len() == zoxide_list(
            ranked_view(*ranked),
            outside::packed_strings(data@),
        ).len(),
    ensures
        r.comes_of(
            zoxide_outcomes(
                zoxide_list(ranked_view(*ranked), outside::packed_strings(data@)),
                probe_views(probes@),
            ),
        ),
{
    let visits: Vec<Visit> = zoxide_visits(ranked, data);
    assert(visit_views(visits@).len() == visits@.len());
    import_visits(&visits, probes)
}

// ---------------------------------------------------------------------------
// Any source
// ---------------------------------------------------------------------------

/// An import file as it was read: as text, as bytes, and, where it is a list of
/// ranked paths, as that.
pub struct ImportFile {
    pub text: String,
    pub data: Vec<u8>,
    pub ranked: Option<Vec<Ranked>>,
}

impl ImportFile {
    /// What the file holds as a zoxide database.
    pub open spec fn zoxide(&self) -> Seq<VisitView> {
        zoxide_list(ranked_view(self.ranked), outside::packed_strings(self.data@))
    }
}

/// Whether files of this tool can be imported.
pub open spec fn is_source(source: Seq<char>) -> bool {
    source == "fasd"@ || source == "autojump"@ || source == "zoxide"@ || source == "zsh"@
}

/// Whether files of this tool can be imported.
pub fn known_source(source: &str) -> (r: bool)
    ensures
        r == is_source(source@),
{
    text::same_text(source, "fasd") || text::same_text(source, "autojump") || text::same_text(
        source,
        "zoxide",
    ) || text::same_text(source, "zsh")
}

/// The entries of a file of this tool.
pub open spec fn source_entries(source: Seq<char>, file: ImportFile) -> Seq<EntryView> {
    if source == "fasd"@ {
        fasd_list(text::lines(file.text@))
    } else if source == "autojump"@ {
        autojump_list(text::lines(file.text@))
    } else if source == "zoxide"@ {
        unweighted(file.zoxide())
    } else if source == "zsh"@ {
        target_list(shell::zsh_commands(file.text@))
    } else {
        Seq::empty()
    }
}

/// The visits that a file of this tool comes to, entry by entry.
pub open spec fn source_outcomes(
    source: Seq<char>,
    file: ImportFile,
    probes: Seq<ProbeView>,
) -> Seq<Option<VisitView>> {
    if source == "fasd"@ {
        fasd_outcomes(file.text@, probes)
    } else if source == "autojump"@ {
        autojump_outcomes(file.text@, probes)
    } else if source == "zoxide"@ {
        zoxide_outcomes(file.zoxide(), probes)
    } else if source == "zsh"@ {
        zsh_outcomes(file.text@, probes)
    } else {
        Seq::empty()
    }
}

/// The error for a tool whose files cannot be imported.
pub(crate) fn unknown_source(source: &str) -> (r: ImportError)
    ensures
        r matches ImportError::Io(reason) && reason@ == "unknown source: "@ + source@,
{
    let mut reason: String = "unknown source: ".to_string();
    reason.append(source);
    ImportError::Io(reason)
}

/// The entries of a file, whose paths are to be probed.
pub fn import_entries(source: &str, file: &ImportFile) -> (r: Result<Vec<Entry>, ImportError>)
    ensures
        r is Ok <==> is_source(source@),
        r matches Ok(list) ==> entry_views(list@) == source_entries(source@, *file),
        r matches Err(e) ==> e.text() == "unknown source: "@ + source@,
{
    if text::same_text(source, "fasd") {
        Ok(fasd_entries(file.text.as_str()))
    } else if text::same_text(source, "autojump") {
        Ok(autojump_entries(file.text.as_str()))
    } else if text::same_text(source, "zoxide") {
        Ok(zoxide_entries(&file.ranked, &file.data))
    } else if text::same_text(source, "zsh") {
        Ok(zsh_entries(file.text.as_str()))
    } else {
        Err(unknown_source(source))
    }
}

/// The import of a file, given one probe for each of its entries.
fn import_probed(source: &str, file: &ImportFile, probes: &Vec<Probe>) -> (r: Result<
    Import,
    ImportError,
>)
    requires
        is_source(source@) ==> probes@.len() == source_entries(source@, *file).len(),
    ensures
        r is Ok <==> is_source(source@),
        r matches Ok(done) ==> done.comes_of(
            source_outcomes(source@, *file, probe_views(probes@)),
        ),
        r matches Err(e) ==> e.text() == "unknown source: "@ + source@,
{
    if text::same_text(source, "fasd") {
        Ok(import_fasd(file.text.as_str(), probes))
    } else if text::same_text(source, "autojump") {
        Ok(import_autojump(file.text.as_str(), probes))
    } else if text::same_text(source, "zoxide") {
        Ok(import_zoxide(&file.ranked, &file.data, probes))
    } else if text::same_text(source, "zsh") {
        Ok(import_zsh(file.text.as_str(), probes))
    } else {
        Err(unknown_source(source))
    }
}

/// The import of a file. There is none if the probes are not one for each of
/// its entries.
pub fn import_file(source: &str, file: &ImportFile, probes: &Vec<Probe>) -> (r: Result<
    Option<Import>,
    ImportError,
>)
    ensures
        r is Ok <==> is_source(source@),
        r matches Ok(done) ==> (done is Some <==> probes@.len() == source_entries(
            source@,
            *file,
        ).len()),
        r matches Ok(Some(done)) ==> done.comes_of(
            source_outcomes(source@, *file, probe_views(probes@)),
        ),
        r matches Err(e) ==> e.text() == "unknown source: "@ + source@,
{
    match import_entries(source, file) {
        Ok(entries) => {
            assert(entry_views(entries@).len() == entries@.len());
            if entries.len() != probes.len() {
                return Ok(None);
            }
            match import_probed(source, file, probes) {
                Ok(done) => Ok(Some(done)),
                Err(e) => Err(e),
            }
        },
        Err(e) => Err(e),
    }
}

/// A preview of an import, without recording anything: the paths that would be
/// imported.
pub fn import_dry_run(source: &str, file: &ImportFile, probes: &Vec<Probe>) -> (r: Result<
    Vec<String>,
    ImportError,
>)
    requires
        is_source(source@) ==> probes@.len() == source_entries(source@, *file).len(),
    ensures
        r is Ok <==> is_source(source@),
        r matches Ok(paths) ==> text::views(paths@) == visit_paths(
            visits_of(source_outcomes(source@, *file, probe_views(probes@))),
        ),
        r matches Err(e) ==> e.text() == "unknown source: "@ + source@,
{
    match import_probed(source, file, probes) {
        Ok(done) => {
            let ghost all = visit_paths(visit_views(done.visits@));
            let mut paths: Vec<String> = Vec::new();
            assert(text::views(paths@) =~= all.take(0));
            for i in 0..done.visits.len()
                invariant
                    all == visit_paths(visit_views(done.visits@)),
                    text::views(paths@) == all.take(i as int),
            {
                let ghost before = paths@;
                paths.push(done.visits[i].path.clone());
                proof {
                    text::lemma_views_push(before, paths@.last());
                    assert(all.take(i + 1) =~= all.take(i as int).push(all[i as int]));
                }
            }
            assert(all.take(done.visits@.len() as int) =~= all);
            Ok(paths)
        },
        Err(e) => Err(e),
    }
}

/// A preview of the import of a file. There is none if the probes are not one
/// for each of its entries.
pub fn preview_file(source: &str, file: &ImportFile, probes: &Vec<Probe>) -> (r: Result<
    Option<Vec<String>>,
    ImportError,
>)
    ensures
        r is Ok <==> is_source(source@),
        r matches Ok(done) ==> (done is Some <==> probes@.len() == source_entries(
            source@,
            *file,
        ).len()),
        r matches Ok(Some(paths)) ==> text::views(paths@) == visit_paths(
            visits_of(source_outcomes(source@, *file, probe_views(probes@))),
        ),
        r matches Err(e) ==> e.text() == "unknown source: "@ + source@,
{
    match import_entries(source, file) {
        Ok(entries) => {
            assert(entry_views(entries@).len() == entries@.len());
            if entries.len() != probes.len() {
                return Ok(None);
            }
            match import_dry_run(source, file, probes) {
                Ok(paths) => Ok(Some(paths)),
                Err(e) => Err(e),
            }
        },
        Err(e) => Err(e),
    }
}

// ---------------------------------------------------------------------------
// Laws
// ---------------------------------------------------------------------------

/// What there is of visits comes of the entries: no visit without an entry,
/// and no entry's visit is lost.
proof fn lemma_visits_of(outcomes: Seq<Option<VisitView>>)
    ensures
        visits_of(outcomes).len() <= outcomes.len(),
        forall|v: VisitView| #[trigger]
            visits_of(outcomes).contains(v) <==> outcomes.contains(Some(v)),
    decreases outcomes.len(),
{
    if outcomes.len() > 0 {
        let init = outcomes.drop_last();
        lemma_visits_of(init);
        assert forall|v: VisitView| #[trigger]
            visits_of(outcomes).contains(v) <==> outcomes.contains(Some(v)) by {
            if visits_of(outcomes).contains(v) {
                let k = choose|k: int|
                    0 <= k < visits_of(outcomes).len() && visits_of(outcomes)[k] == v;
                if k < visits_of(init).len() {
                    assert(visits_of(init)[k] == v);
                    assert(visits_of(init).contains(v));
                    let i = choose|i: int| 0 <= i < init.len() && init[i] == Some(v);
                    assert(outcomes[i] == Some(v));
                } else {
                    assert(outcomes[outcomes.len() - 1] == Some(v));
                }
            }
            if outcomes.contains(Some(v)) {
                let i = choose|i: int| 0 <= i < outcomes.len() && outcomes[i] == Some(v);
                if i < init.len() {
                    assert(init[i] == Some(v));
                    assert(init.contains(Some(v)));
                    assert(visits_of(init).contains(v));
                    let k = choose|k: int| 0 <= k < visits_of(init).len() && visits_of(init)[k] == v;
                    assert(visits_of(outcomes)[k] == v);
                } else {
                    assert(visits_of(outcomes)[visits_of(outcomes).len() - 1] == v);
                }
            }
        }
    }
}

/// Every entry of a file is counted once, as imported or as skipped.
pub proof fn law_every_entry_counted(
    source: Seq<char>,
    file: ImportFile,
    probes: Seq<ProbeView>,
    done: Import,
)
    requires
        done.comes_of(source_outcomes(source, file, probes)),
    ensures
        done.stats.imported + done.stats.skipped == source_entries(source, file).len(),
        done.stats.imported == done.visits@.len(),
{
    assert(visit_views(done.visits@).len() == done.visits@.len());
}

/// A preview lists the paths that the import records, in the same order.
pub proof fn law_preview_is_import(
    source: Seq<char>,
    file: ImportFile,
    probes: Seq<ProbeView>,
    done: Import,
    preview: Seq<Seq<char>>,
)
    requires
        done.comes_of(source_outcomes(source, file, probes)),
        preview == visit_paths(visits_of(source_outcomes(source, file, probes))),
    ensures
        preview.len() == done.stats.imported,
        forall|k: int| 0 <= k < preview.len() ==> #[trigger] preview[k] == done.visits@[k].path@,
{
    let visits = visit_views(done.visits@);
    assert forall|k: int| 0 <= k < preview.len() implies #[trigger] preview[k]
        == done.visits@[k].path@ by {
        assert(visits[k] == done.visits@[k]@);
    }
}

/// Only directories that exist are recorded.
pub proof fn law_only_directories(
    source: Seq<char>,
    file: ImportFile,
    probes: Seq<ProbeView>,
    v: VisitView,
) -> (i: int)
    requires
        probes.len() == source_entries(source, file).len(),
        visits_of(source_outcomes(source, file, probes)).contains(v),
    ensures
        0 <= i < probes.len(),
        probes[i].is_dir,
        probes[i].path == v.path,
{
    let outcomes = source_outcomes(source, file, probes);
    lemma_visits_of(outcomes);
    let i = choose|i: int| 0 <= i < outcomes.len() && outcomes[i] == Some(v);
    assert(outcomes[i] == Some(v));
    i
}

/// Every directory of a file that exists is recorded.
pub proof fn law_every_directory(
    source: Seq<char>,
    file: ImportFile,
    probes: Seq<ProbeView>,
    i: int,
) -> (v: VisitView)
    requires
        is_source(source),
        probes.len() == source_entries(source, file).len(),
        0 <= i < probes.len(),
        source_entries(source, file)[i].path.len() > 0,
        probes[i].is_dir,
    ensures
        visits_of(source_outcomes(source, file, probes)).contains(v),
        v.path == probes[i].path,
{
    let outcomes = source_outcomes(source, file, probes);
    lemma_visits_of(outcomes);
    assert(outcomes[i] is Some);
    let v = outcomes[i]->0;
    assert(outcomes.contains(Some(v)));
    v
}

/// A directory counts as visited at least once and at most 100 times, at most
/// 10 times where its weight comes from autojump or zoxide, and once where it
/// comes from a zsh history.
pub proof fn law_visit_counts(
    source: Seq<char>,
    file: ImportFile,
    probes: Seq<ProbeView>,
    v: VisitView,
)
    requires
        visits_of(source_outcomes(source, file, probes)).contains(v),
    ensures
        1 <= v.count <= 100,
        source == "autojump"@ || source == "zoxide"@ ==> v.count <= 10,
        source == "zsh"@ ==> v.count == 1,
{
    reveal_strlit("fasd");
    reveal_strlit("autojump");
    reveal_strlit("zoxide");
    reveal_strlit("zsh");
    assert("fasd"@[0] == 'f' && "autojump"@[0] == 'a' && "zoxide"@[1] == 'o' && "zsh"@[1] == 's');
    let outcomes = source_outcomes(source, file, probes);
    lemma_visits_of(outcomes);
    let i = choose|i: int| 0 <= i < outcomes.len() && outcomes[i] == Some(v);
    assert(outcomes[i] == Some(v));
}

/// A larger weight never comes to fewer visits.
pub proof fn law_weights_ordered(lighter: int, heavier: int)
    requires
        lighter <= heavier,
    ensures
        bounded(lighter) <= bounded(heavier),
        bucket(lighter) <= bucket(heavier),
{
}

/// A line of a fasd cache holds the path before its first tab, and its weight
/// between that and the next, both without the blanks around them.
pub proof fn law_fasd_line(path: Seq<char>, weight: Seq<char>, rest: Seq<char>)
    requires
        !path.contains('\t'),
        !weight.contains('\t'),
    ensures
        fasd_entry(path + seq!['\t'] + weight + seq!['\t'] + rest) == (EntryView {
            path: text::trim(path),
            weight: Some(text::trim(weight)),
        }),
        fasd_entry(path + seq!['\t'] + weight) == (EntryView {
            path: text::trim(path),
            weight: Some(text::trim(weight)),
        }),
        fasd_entry(path) == (EntryView { path: text::trim(path), weight: None }),
{
    lemma_first_column(path, weight + seq!['\t'] + rest);
    lemma_first_column(path, weight);
    lemma_first_column(weight, rest);
    assert(path + seq!['\t'] + weight + seq!['\t'] + rest =~= path + seq!['\t'] + (weight
        + seq!['\t'] + rest));
}

proof fn lemma_first_column(column: Seq<char>, rest: Seq<char>)
    requires
        !column.contains('\t'),
    ensures
        first_column(column + seq!['\t'] + rest) == (column, Some(rest)),
        first_column(column) == (column, None::<Seq<char>>),
{
    let n = column.len() as int;
    let line = column + seq!['\t'] + rest;
    assert forall|i: int| 0 <= i < n implies line[i] != '\t' && column[i] != '\t' by {
        assert(line[i] == column[i]);
        assert(column.contains(column[i]));
    }
    text::lemma_first_index_is(line, '\t', n);
    text::lemma_first_index_is(column, '\t', n);
    assert(line.take(n) =~= column);
    assert(line.skip(n + 1) =~= rest);
}

/// A line of an autojump database holds the weight before its first tab and the
/// path behind it, both without the blanks around them.
pub proof fn law_autojump_line(weight: Seq<char>, path: Seq<char>)
    requires
        !weight.contains('\t'),
    ensures
        autojump_entry(weight + seq!['\t'] + path) == (EntryView {
            path: text::trim(path),
            weight: Some(text::trim(weight)),
        }),
        autojump_entry(weight).path == Seq::<char>::empty(),
{
    lemma_first_column(weight, path);
}

/// The entries of a file are those of its first lines and those of the others,
/// in their order; a line has one entry, and a blank one none.
pub proof fn law_entries_in_order(a: Seq<Seq<char>>, b: Seq<Seq<char>>, line: Seq<char>)
    ensures
        fasd_list(a + b) == fasd_list(a) + fasd_list(b),
        autojump_list(a + b) == autojump_list(a) + autojump_list(b),
        fasd_list(seq![line]) == if text::is_blank(line) {
            Seq::empty()
        } else {
            seq![fasd_entry(line)]
        },
        autojump_list(seq![line]) == if text::is_blank(line) {
            Seq::empty()
        } else {
            seq![autojump_entry(line)]
        },
    decreases b.len(),
{
    reveal_with_fuel(fasd_list, 2);
    reveal_with_fuel(autojump_list, 2);
    assert(seq![line].drop_last() =~= Seq::empty());
    assert(Seq::<EntryView>::empty().push(fasd_entry(line)) =~= seq![fasd_entry(line)]);
    assert(Seq::<EntryView>::empty().push(autojump_entry(line)) =~= seq![autojump_entry(line)]);
    if b.len() == 0 {
        assert(a + b =~= a);
        assert(fasd_list(a) + fasd_list(b) =~= fasd_list(a));
        assert(autojump_list(a) + autojump_list(b) =~= autojump_list(a));
    } else {
        law_entries_in_order(a, b.drop_last(), line);
        assert((a + b).drop_last() =~= a + b.drop_last());
        assert(fasd_list(a + b) =~= fasd_list(a) + fasd_list(b));
        assert(autojump_list(a + b) =~= autojump_list(a) + autojump_list(b));
    }
}

/// The directories of a history are those of its first commands and those of the
/// others, in their order; a command has one where it leads somewhere.
pub proof fn law_targets_in_order(a: Seq<Seq<char>>, b: Seq<Seq<char>>, command: Seq<char>)
    ensures
        target_list(a + b) == target_list(a) + target_list(b),
        target_list(seq![command]) == match shell::cd_target(command) {
            Some(path) => seq![EntryView { path, weight: None }],
            None => Seq::empty(),
        },
    decreases b.len(),
{
    reveal_with_fuel(target_list, 2);
    assert(seq![command].drop_last() =~= Seq::empty());
    match shell::cd_target(command) {
        Some(path) => {
            let entry = EntryView { path, weight: None };
            assert(Seq::<EntryView>::empty().push(entry) =~= seq![entry]);
        },
        None => {},
    }
    if b.len() == 0 {
        assert(a + b =~= a);
        assert(target_list(a) + target_list(b) =~= target_list(a));
    } else {
        law_targets_in_order(a, b.drop_last(), command);
        assert((a + b).drop_last() =~= a + b.drop_last());
        assert(target_list(a + b) =~= target_list(a) + target_list(b));
    }
}

/// A zoxide database holds its ranked paths where it is a list of those, and
/// otherwise its plain paths, each visited once; all of them, in their order.
pub proof fn law_zoxide_paths(
    ranked: Option<Seq<Ranked>>,
    plain: Option<Seq<Seq<char>>>,
    i: int,
)
    ensures
        ranked matches Some(list) ==> {
            &&& zoxide_list(ranked, plain).len() == list.len()
            &&& 0 <= i < list.len() ==> zoxide_list(ranked, plain)[i] == (VisitView {
                path: list[i].path@,
                count: bucket(list[i].score as int),
            })
        },
        ranked is None && plain is Some ==> {
            &&& zoxide_list(ranked, plain).len() == plain->Some_0.len()
            &&& 0 <= i < plain->Some_0.len() ==> zoxide_list(ranked, plain)[i] == (VisitView {
                path: plain->Some_0[i],
                count: 1,
            })
        },
        ranked is None && plain is None ==> zoxide_list(ranked, plain).len() == 0,
{
}

/// A weight counts as it is between 1 and 100, and as the nearer of these
/// outside; in tens, rounded down, it brings 1 to 10 visits.
pub proof fn law_weights(weight: int)
    ensures
        1 <= weight <= 100 ==> bounded(weight) == weight,
        weight <= 1 ==> bounded(weight) == 1 && bucket(weight) == 1,
        weight >= 100 ==> bounded(weight) == 100 && bucket(weight) == 10,
        10 <= weight <= 100 ==> 10 * bucket(weight) <= weight < 10 * bucket(weight) + 10,
        weight < 10 ==> bucket(weight) == 1,
{
}

/// What an entry comes to depends on it and what was found of it alone: a visit
/// of the path that was found, if that is a directory and the entry names one,
/// as often as its weight says.
pub proof fn law_entry_outcome(
    source: Seq<char>,
    file: ImportFile,
    probes: Seq<ProbeView>,
    i: int,
)
    requires
        is_source(source),
        0 <= i < source_entries(source, file).len(),
    ensures
        ({
            let entry = source_entries(source, file)[i];
            let probe = probes[i];
            let outcomes = source_outcomes(source, file, probes);
            let visit = |count: int| Some(VisitView { path: probe.path, count });
            &&& outcomes.len() == source_entries(source, file).len()
            &&& !probe.is_dir ==> outcomes[i] is None
            &&& source == "fasd"@ || source == "autojump"@ ==> (entry.path.len() == 0
                ==> outcomes[i] is None)
            &&& source == "fasd"@ && probe.is_dir && entry.path.len() > 0 ==> outcomes[i] == (
            if entry.weight is Some && probe.weight is Some {
                visit(bounded(probe.weight->Some_0 as int))
            } else {
                visit(1)
            })
            &&& source == "autojump"@ && probe.is_dir && entry.path.len() > 0 ==> outcomes[i] == (
            if entry.weight is Some && probe.weight is Some {
                visit(bucket(probe.weight->Some_0 as int))
            } else {
                visit(1)
            })
            &&& source == "zoxide"@ && probe.is_dir ==> outcomes[i] == visit(
                file.zoxide()[i].count,
            )
            &&& source == "zsh"@ && probe.is_dir ==> outcomes[i] == visit(1)
        }),
{
    reveal_strlit("fasd");
    reveal_strlit("autojump");
    reveal_strlit("zoxide");
    reveal_strlit("zsh");
    assert("fasd"@.len() == 4 && "autojump"@.len() == 8 && "zoxide"@.len() == 6 && "zsh"@.len()
        == 3);
}

/// The entries of a file are read by the format of its tool: line by line for
/// fasd and autojump, path by path for zoxide, and command by command for zsh.
pub proof fn law_formats(file: ImportFile)
    ensures
        source_entries("fasd"@, file) == fasd_list(text::lines(file.text@)),
        source_entries("autojump"@, file) == autojump_list(text::lines(file.text@)),
        source_entries("zsh"@, file) == target_list(shell::zsh_commands(file.text@)),
        source_entries("zoxide"@, file).len() == file.zoxide().len(),
        forall|i: int|
            0 <= i < file.zoxide().len() ==> (#[trigger] source_entries("zoxide"@, file)[i]).path
                == file.zoxide()[i].path,
        is_source("fasd"@) && is_source("autojump"@) && is_source("zoxide"@) && is_source("zsh"@),
{
    reveal_strlit("fasd");
    reveal_strlit("autojump");
    reveal_strlit("zoxide");
    reveal_strlit("zsh");
    assert("fasd"@.len() == 4 && "autojump"@.len() == 8 && "zoxide"@.len() == 6 && "zsh"@.len()
        == 3);
}

/// The visits to record are those of the first entries and those of the others,
/// in their order.
pub proof fn law_visits_in_order(
    a: Seq<Option<VisitView>>,
    b: Seq<Option<VisitView>>,
    one: Option<VisitView>,
)
    ensures
        visits_of(a + b) == visits_of(a) + visits_of(b),
        visits_of(seq![one]) == match one {
            Some(v) => seq![v],
            None => Seq::empty(),
        },
    decreases b.len(),
{
    reveal_with_fuel(visits_of, 2);
    assert(seq![one].drop_last() =~= Seq::empty());
    match one {
        Some(v) => {
            assert(Seq::<VisitView>::empty().push(v) =~= seq![v]);
        },
        None => {},
    }
    if b.len() == 0 {
        assert(a + b =~= a);
        assert(visits_of(a) + visits_of(b) =~= visits_of(a));
    } else {
        law_visits_in_order(a, b.drop_last(), one);
        assert((a + b).drop_last() =~= a + b.drop_last());
        assert(visits_of(a + b) =~= visits_of(a) + visits_of(b));
    }
}

/// What is said of a file that is too large names its size and the limit.
pub proof fn law_too_large_told(size: u64)
    ensures
        (ImportError::FileTooLarge { size, max: MAX_FILE_SIZE }).text() == "import file is "@
            + render::decimal(size as int)
            + " bytes (max 50 MB); refusing to read to prevent OOM"@,
        MAX_FILE_SIZE == 50 * 1024 * 1024,
{
    reveal_strlit(" bytes (max ");
    reveal_strlit(" MB); refusing to read to prevent OOM");
    reveal_strlit(" bytes (max 50 MB); refusing to read to prevent OOM");
    reveal_with_fuel(render::digits, 3);
    assert(render::decimal(50) =~= seq!['5', '0']);
    assert(" bytes (max "@ + seq!['5', '0'] + " MB); refusing to read to prevent OOM"@
        =~= " bytes (max 50 MB); refusing to read to prevent OOM"@);
    assert((ImportError::FileTooLarge { size, max: MAX_FILE_SIZE }).text() =~= "import file is "@
        + render::decimal(size as int) + " bytes (max 50 MB); refusing to read to prevent OOM"@);
}

} // verus!
