//! Statistics of the database.
//!
//! Shares, sizes and ages are shown with fractions. Those numbers the caller
//! writes out; what to show, and where, is decided here.

use vstd::prelude::*;
use vstd::string::StringExecFns;

use crate::render;
use crate::report;
use crate::report::Reply;
use crate::score::HistoryRow;
use crate::text;

verus! {

/// What the database counts.
#[derive(Clone, Debug, PartialEq, Eq)]
pub struct Counts {
    pub total: usize,
    pub total_visits: i64,
    pub bookmarks: usize,
    pub top_path: Option<String>,
}

/// The lines on what the database counts.
pub open spec fn summary(counts: Counts) -> Seq<char> {
    "paths: "@ + render::decimal(counts.total as int) + "\nvisits: "@ + render::decimal(
        counts.total_visits as int,
    ) + "\nbookmarks: "@ + render::decimal(counts.bookmarks as int) + "\ntop: "@ + (
    match counts.top_path {
        Some(path) => path@,
        None => "(none)"@,
    }) + "\n"@
}

fn push_summary(out: &mut String, counts: &Counts)
    ensures
        final(out)@ == old(out)@ + summary(*counts),
{
    let ghost start = out@;
    out.append("paths: ");
    out.append(render::count_text(counts.total).as_str());
    out.append("\nvisits: ");
    render::push_decimal(out, counts.total_visits);
    out.append("\nbookmarks: ");
    out.append(render::count_text(counts.bookmarks).as_str());
    out.append("\ntop: ");
    match &counts.top_path {
        Some(path) => {
            out.append(path.as_str());
        },
        None => {
            out.append("(none)");
        },
    }
    out.append("\n");
    assert(out@ =~= start + summary(*counts));
}

// ---------------------------------------------------------------------------
// Stale rows
// ---------------------------------------------------------------------------

/// How many rows are stale, as `live` tells of each.
pub open spec fn stale_rows(live: Seq<bool>) -> nat
    decreases live.len(),
{
    if live.len() == 0 {
        0
    } else {
        stale_rows(live.drop_last()) + if live.last() {
            0nat
        } else {
            1nat
        }
    }
}

/// How many rows are stale, as `live` tells of each.
pub fn count_stale(live: &Vec<bool>) -> (r: usize)
    ensures
        r == stale_rows(live@),
        r <= live@.len(),
{
    let mut r: usize = 0;
    for i in 0..live.len()
        invariant
            r == stale_rows(live@.take(i as int)),
            r <= i,
    {
        proof {
            assert(live@.take(i + 1).drop_last() =~= live@.take(i as int));
        }
        if !live[i] {
            r = r + 1;
        }
    }
    assert(live@.take(live@.len() as int) =~= live@);
    r
}

/// Whether so many rows are stale that it is worth a hint: more than a fifth.
pub open spec fn suggests_prune(stale: int, total: int) -> bool {
    total > 0 && 5 * stale > total
}

/// Whether so many rows are stale that it is worth a hint.
pub fn is_stale(stale: usize, total: usize) -> (r: bool)
    ensures
        r == suggests_prune(stale as int, total as int),
{
    total > 0 && stale > total / 5
}

/// The hint that rows are stale, with their share in percent written out.
pub open spec fn stale_hint(percent: Seq<char>, stale: int, total: int) -> Seq<char> {
    "\n⚠ "@ + percent + "% stale ("@ + render::decimal(stale) + " of "@ + render::decimal(total)
        + ") — run `hop prune` to clean up\n"@
}

fn push_stale_hint(out: &mut String, percent: &str, stale: usize, total: usize)
    ensures
        final(out)@ == old(out)@ + stale_hint(percent@, stale as int, total as int),
{
    let ghost start = out@;
    out.append("\n⚠ ");
    out.append(percent);
    out.append("% stale (");
    out.append(render::count_text(stale).as_str());
    out.append(" of ");
    out.append(render::count_text(total).as_str());
    out.append(") — run `hop prune` to clean up\n");
    assert(out@ =~= start + stale_hint(percent@, stale as int, total as int));
}

// ---------------------------------------------------------------------------
// Details
// ---------------------------------------------------------------------------

/// The unit that a size is shown in.
#[derive(Clone, Copy, Debug, PartialEq, Eq, Structural)]
pub enum SizeUnit {
    Bytes,
    Kilobytes,
    Megabytes,
    Gigabytes,
}

/// The unit that a size is shown in: the largest that it exceeds.
pub open spec fn unit_for(bytes: int) -> SizeUnit {
    if bytes > 0x4000_0000 {
        SizeUnit::Gigabytes
    } else if bytes > 0x10_0000 {
        SizeUnit::Megabytes
    } else if bytes > 0x400 {
        SizeUnit::Kilobytes
    } else {
        SizeUnit::Bytes
    }
}

/// The unit that a size is shown in.
pub fn size_unit(bytes: u64) -> (r: SizeUnit)
    ensures
        r == unit_for(bytes as int),
{
    if bytes > 0x4000_0000 {
        SizeUnit::Gigabytes
    } else if bytes > 0x10_0000 {
        SizeUnit::Megabytes
    } else if bytes > 0x400 {
        SizeUnit::Kilobytes
    } else {
        SizeUnit::Bytes
    }
}

/// Whether row `i` was not visited for longest: no row was visited before it,
/// and those that stand before it were all visited later.
pub open spec fn is_oldest(rows: Seq<HistoryRow>, i: int) -> bool {
    &&& 0 <= i < rows.len()
    &&& forall|k: int|
        0 <= k < rows.len() ==> rows[i].last_visited <= #[trigger] rows[k].last_visited
    &&& forall|k: int| 0 <= k < i ==> rows[i].last_visited < #[trigger] rows[k].last_visited
}

/// The row that was not visited for longest.
pub open spec fn oldest_of(rows: Seq<HistoryRow>) -> Option<int> {
    if rows.len() == 0 {
        None
    } else {
        Some(choose|i: int| is_oldest(rows, i))
    }
}

/// The row that was not visited for longest.
pub fn longest_unvisited(rows: &Vec<HistoryRow>) -> (r: Option<usize>)
    ensures
        r is None <==> rows@.len() == 0,
        r matches Some(i) ==> is_oldest(rows@, i as int) && oldest_of(rows@) == Some(i as int),
{
    if rows.len() == 0 {
        return None;
    }
    let mut best: usize = 0;
    for i in 1..rows.len()
        invariant
            best < i <= rows@.len(),
            forall|k: int|
                0 <= k < i ==> rows@[best as int].last_visited <= #[trigger] rows@[k].last_visited,
            forall|k: int|
                0 <= k < best ==> rows@[best as int].last_visited
                    < #[trigger] rows@[k].last_visited,
    {
        if rows[i].last_visited < rows[best].last_visited {
            best = i;
        }
    }
    assert(is_oldest(rows@, best as int));
    Some(best)
}

/// The times of the first and of the last of the visits.
pub open spec fn is_range(rows: Seq<HistoryRow>, oldest: i64, newest: i64) -> bool {
    &&& forall|k: int|
        0 <= k < rows.len() ==> oldest <= #[trigger] rows[k].last_visited <= newest
    &&& exists|k: int| 0 <= k < rows.len() && #[trigger] rows[k].last_visited == oldest
    &&& exists|k: int| 0 <= k < rows.len() && #[trigger] rows[k].last_visited == newest
}

/// The times of the first and of the last of the visits.
pub open spec fn range_of(rows: Seq<HistoryRow>) -> Option<(i64, i64)> {
    if rows.len() == 0 {
        None
    } else {
        Some(choose|range: (i64, i64)| is_range(rows, range.0, range.1))
    }
}

/// The times of the first and of the last of the visits.
pub fn visit_range(rows: &Vec<HistoryRow>) -> (r: Option<(i64, i64)>)
    ensures
        r is None <==> rows@.len() == 0,
        r matches Some((oldest, newest)) ==> is_range(rows@, oldest, newest),
        r == range_of(rows@),
{
    if rows.len() == 0 {
        return None;
    }
    let mut first: usize = 0;
    let mut last: usize = 0;
    for i in 1..rows.len()
        invariant
            first < i <= rows@.len(),
            last < i,
            forall|k: int|
                0 <= k < i ==> rows@[first as int].last_visited <= #[trigger] rows@[k].last_visited
                    <= rows@[last as int].last_visited,
    {
        if rows[i].last_visited < rows[first].last_visited {
            first = i;
        }
        if rows[i].last_visited > rows[last].last_visited {
            last = i;
        }
    }
    let range: (i64, i64) = (rows[first].last_visited, rows[last].last_visited);
    assert(is_range(rows@, range.0, range.1));
    Some(range)
}

/// What is shown in detail, with sizes and ages written out.
pub struct Detail {
    /// The size of the database and its path.
    pub size: Option<(String, String)>,
    /// The ages in days of the first and the last visit, and the number of rows.
    pub range: Option<(String, String, usize)>,
    /// The rows with the most visits, or why they could not be read.
    pub top: Result<Vec<HistoryRow>, String>,
    /// The path that was not visited for longest, and its age in days.
    pub longest: Option<(String, String)>,
}

/// The view of what is shown in detail.
#[verifier::ext_equal]
pub struct DetailView {
    pub size: Option<(Seq<char>, Seq<char>)>,
    pub range: Option<(Seq<char>, Seq<char>, usize)>,
    pub top: Result<Seq<HistoryRow>, Seq<char>>,
    pub longest: Option<(Seq<char>, Seq<char>)>,
}

/// The view of two texts.
pub open spec fn pair_view(pair: Option<(String, String)>) -> Option<(Seq<char>, Seq<char>)> {
    match pair {
        Some((a, b)) => Some((a@, b@)),
        None => None,
    }
}

/// The view of a range.
pub open spec fn range_view(range: Option<(String, String, usize)>) -> Option<
    (Seq<char>, Seq<char>, usize),
> {
    match range {
        Some((oldest, newest, n)) => Some((oldest@, newest@, n)),
        None => None,
    }
}

/// The view of rows, or of why they could not be read.
pub open spec fn rows_view(rows: Result<Vec<HistoryRow>, String>) -> Result<
    Seq<HistoryRow>,
    Seq<char>,
> {
    match rows {
        Ok(rows) => Ok(rows@),
        Err(e) => Err(e@),
    }
}

impl View for Detail {
    type V = DetailView;

    open spec fn view(&self) -> DetailView {
        DetailView {
            size: pair_view(self.size),
            range: range_view(self.range),
            top: rows_view(self.top),
            longest: pair_view(self.longest),
        }
    }
}

/// The view of what may be shown in detail.
pub open spec fn detail_view(detail: Option<Detail>) -> Option<DetailView> {
    match detail {
        Some(d) => Some(d@),
        None => None,
    }
}

/// The line on the size of the database.
pub open spec fn size_line(size: Option<(Seq<char>, Seq<char>)>) -> Seq<char> {
    match size {
        Some((text, path)) => "db size: "@ + text + " ("@ + path + ")\n"@,
        None => Seq::empty(),
    }
}

/// The line on the range of the history.
pub open spec fn range_line(range: Option<(Seq<char>, Seq<char>, usize)>) -> Seq<char> {
    match range {
        Some((oldest, newest, n)) => "history range: "@ + oldest + " days ago to "@ + newest
            + " days ago ("@ + render::decimal(n as int) + " entries)\n"@,
        None => Seq::empty(),
    }
}

/// The line of one of the rows with the most visits.
pub open spec fn top_line(row: HistoryRow) -> Seq<char> {
    "  "@ + render::right_aligned(render::decimal(row.visits as int), 6) + " visits  "@ + row.path@
}

/// The lines of the rows with the most visits.
pub open spec fn top_lines(rows: Seq<HistoryRow>) -> Seq<Seq<char>> {
    Seq::new(rows.len(), |i: int| top_line(rows[i]))
}

/// The rows with the most visits that still exist.
pub open spec fn top_text(rows: Seq<HistoryRow>) -> Seq<char> {
    if rows.len() > 0 {
        "\ntop 10 most visited:\n"@ + render::stacked(top_lines(rows))
    } else {
        "\ntop 10 most visited: (none)\n"@
    }
}

/// The lines on the path that was not visited for longest.
pub open spec fn longest_line(longest: Option<(Seq<char>, Seq<char>)>) -> Seq<char> {
    match longest {
        Some((path, days)) => "\nlongest-unvisited: "@ + path + " (last visited "@ + days
            + " days ago)\n"@,
        None => Seq::empty(),
    }
}

fn push_size(out: &mut String, size: &Option<(String, String)>)
    ensures
        final(out)@ == old(out)@ + size_line(pair_view(*size)),
{
    let ghost start = out@;
    if let Some((text, path)) = size {
        out.append("db size: ");
        out.append(text.as_str());
        out.append(" (");
        out.append(path.as_str());
        out.append(")\n");
    }
    assert(out@ =~= start + size_line(pair_view(*size)));
}

fn push_range(out: &mut String, range: &Option<(String, String, usize)>)
    ensures
        final(out)@ == old(out)@ + range_line(range_view(*range)),
{
    let ghost start = out@;
    if let Some((oldest, newest, n)) = range {
        out.append("history range: ");
        out.append(oldest.as_str());
        out.append(" days ago to ");
        out.append(newest.as_str());
        out.append(" days ago (");
        out.append(render::count_text(*n).as_str());
        out.append(" entries)\n");
    }
    assert(out@ =~= start + range_line(range_view(*range)));
}

fn push_longest(out: &mut String, longest: &Option<(String, String)>)
    ensures
        final(out)@ == old(out)@ + longest_line(pair_view(*longest)),
{
    let ghost start = out@;
    if let Some((path, days)) = longest {
        out.append("\nlongest-unvisited: ");
        out.append(path.as_str());
        out.append(" (last visited ");
        out.append(days.as_str());
        out.append(" days ago)\n");
    }
    assert(out@ =~= start + longest_line(pair_view(*longest)));
}

fn push_top(out: &mut String, rows: &Vec<HistoryRow>, live: &Vec<bool>)
    requires
        live@.len() == rows@.len(),
    ensures
        final(out)@ == old(out)@ + top_text(report::live_rows(rows@, live@)),
{
    let ghost start = out@;
    let mut lines: Vec<String> = Vec::new();
    assert(rows@.take(0) =~= Seq::empty());
    assert(text::views(lines@) =~= top_lines(report::live_rows(rows@.take(0), live@)));
    for i in 0..rows.len()
        invariant
            live@.len() == rows@.len(),
            text::views(lines@) == top_lines(report::live_rows(rows@.take(i as int), live@)),
    {
        let ghost before = lines@;
        let ghost shown = report::live_rows(rows@.take(i as int), live@);
        proof {
            assert(rows@.take(i + 1).drop_last() =~= rows@.take(i as int));
        }
        if live[i] {
            let mut s: String = "  ".to_string();
            render::push_number_right(&mut s, rows[i].visits as i64, 6);
            s.append(" visits  ");
            s.append(rows[i].path.as_str());
            lines.push(s);
            proof {
                text::lemma_views_push(before, lines@.last());
                assert(top_lines(shown.push(rows@[i as int])) =~= top_lines(shown).push(
                    top_line(rows@[i as int]),
                ));
            }
        }
    }
    assert(rows@.take(rows@.len() as int) =~= rows@);
    assert(text::views(lines@).len() == lines@.len());
    if lines.len() > 0 {
        out.append("\ntop 10 most visited:\n");
        out.append(render::stack(&lines).as_str());
    } else {
        out.append("\ntop 10 most visited: (none)\n");
    }
    assert(out@ =~= start + top_text(report::live_rows(rows@, live@)));
}

// ---------------------------------------------------------------------------
// The answer
// ---------------------------------------------------------------------------

/// What is always shown: the counts, and a hint where rows are stale.
pub open spec fn brief(counts: Counts, stale: int, percent: Seq<char>) -> Seq<char> {
    summary(counts) + (if suggests_prune(stale, counts.total as int) {
        stale_hint(percent, stale, counts.total as int)
    } else {
        Seq::empty()
    })
}

/// The answer to `stats`.
pub open spec fn stats_answer(
    counts: Counts,
    stale: int,
    percent: Seq<char>,
    detail: Option<DetailView>,
    live: Seq<bool>,
) -> report::ReplyView {
    let start = brief(counts, stale, percent);
    match detail {
        None => report::ReplyView { out: start, err: Seq::empty(), code: 0 },
        Some(d) => {
            let more = start + "\n"@ + size_line(d.size) + range_line(d.range);
            match d.top {
                Ok(rows) => report::ReplyView {
                    out: more + top_text(report::live_rows(rows, live)) + longest_line(d.longest),
                    err: Seq::empty(),
                    code: 0,
                },
                Err(e) => report::ReplyView {
                    out: more,
                    err: "top query failed: "@ + e + "\n"@,
                    code: 1,
                },
            }
        },
    }
}

/// The answer to `stats`, given how many rows are stale, their share in percent
/// written out, what to show in detail, if anything, and which of the rows with
/// the most visits still exist.
pub fn stats_reply(
    counts: &Counts,
    stale: usize,
    percent: &str,
    detail: &Option<Detail>,
    live: &Vec<bool>,
) -> (r: Reply)
    requires
        detail matches Some(d) ==> (d.top matches Ok(rows) ==> live@.len() == rows@.len()),
    ensures
        r@ == stats_answer(*counts, stale as int, percent@, detail_view(*detail), live@),
{
    let mut out: String = String::new();
    push_summary(&mut out, counts);
    if is_stale(stale, counts.total) {
        push_stale_hint(&mut out, percent, stale, counts.total);
    }
    assert(out@ =~= brief(*counts, stale as int, percent@));
    match detail {
        None => Reply { out, err: String::new(), code: 0 },
        Some(d) => {
            out.append("\n");
            push_size(&mut out, &d.size);
            push_range(&mut out, &d.range);
            match &d.top {
                Ok(rows) => {
                    push_top(&mut out, rows, live);
                    push_longest(&mut out, &d.longest);
                    Reply { out, err: String::new(), code: 0 }
                },
                Err(e) => {
                    let mut err: String = "top query failed: ".to_string();
                    err.append(e.as_str());
                    err.append("\n");
                    Reply { out, err, code: 1 }
                },
            }
        },
    }
}

// ---------------------------------------------------------------------------
// Laws
// ---------------------------------------------------------------------------

/// The row that was not visited for longest is the one at the start of the
/// range.
pub proof fn law_longest_starts_range(rows: Seq<HistoryRow>, i: int, oldest: i64, newest: i64)
    requires
        is_oldest(rows, i),
        is_range(rows, oldest, newest),
    ensures
        rows[i].last_visited == oldest,
{
}

/// There is only one row that was not visited for longest, and only one range.
pub proof fn law_details_unique(
    rows: Seq<HistoryRow>,
    i: int,
    j: int,
    range: (i64, i64),
    other: (i64, i64),
)
    requires
        is_oldest(rows, i),
        is_oldest(rows, j),
        is_range(rows, range.0, range.1),
        is_range(rows, other.0, other.1),
    ensures
        i == j,
        range == other,
{
}

/// The stale rows are those of the first and those of the others, and each that
/// does not exist counts once.
pub proof fn law_stale_counted(a: Seq<bool>, b: Seq<bool>, flag: bool)
    ensures
        stale_rows(a + b) == stale_rows(a) + stale_rows(b),
        stale_rows(seq![flag]) == if flag {
            0nat
        } else {
            1nat
        },
        stale_rows(a) <= a.len(),
    decreases a.len() + b.len(),
{
    reveal_with_fuel(stale_rows, 2);
    assert(seq![flag].drop_last() =~= Seq::empty());
    if b.len() == 0 {
        assert(a + b =~= a);
        if a.len() > 0 {
            law_stale_counted(a.drop_last(), b, flag);
        }
    } else {
        law_stale_counted(a, b.drop_last(), flag);
        assert((a + b).drop_last() =~= a + b.drop_last());
    }
}

/// The hint to prune comes exactly where more than a fifth of the rows are stale.
pub proof fn law_prune_hint(counts: Counts, stale: int, percent: Seq<char>)
    requires
        stale >= 0,
    ensures
        suggests_prune(stale, counts.total as int) <==> counts.total > 0 && 5 * stale
            > counts.total,
        brief(counts, stale, percent) == summary(counts) || brief(counts, stale, percent)
            == summary(counts) + stale_hint(percent, stale, counts.total as int),
        counts.total > 0 && 5 * stale > counts.total ==> brief(counts, stale, percent) == summary(
            counts,
        ) + stale_hint(percent, stale, counts.total as int),
        counts.total == 0 || 5 * stale <= counts.total ==> brief(counts, stale, percent)
            == summary(counts),
{
    assert(summary(counts) + Seq::<char>::empty() =~= summary(counts));
}

/// A size is shown in the largest unit that it exceeds.
pub proof fn law_size_units(bytes: int)
    ensures
        bytes <= 1024 ==> unit_for(bytes) == SizeUnit::Bytes,
        1024 < bytes <= 1024 * 1024 ==> unit_for(bytes) == SizeUnit::Kilobytes,
        1024 * 1024 < bytes <= 1024 * 1024 * 1024 ==> unit_for(bytes) == SizeUnit::Megabytes,
        bytes > 1024 * 1024 * 1024 ==> unit_for(bytes) == SizeUnit::Gigabytes,
{
}

/// The counts stand each on a line: paths, visits, bookmarks, and the path that
/// was visited most.
pub proof fn law_summary_lines(counts: Counts)
    requires
        counts.top_path matches Some(path) ==> report::is_one_line(path@),
    ensures
        ({
            let top = match counts.top_path {
                Some(path) => path@,
                None => "(none)"@,
            };
            summary(counts) == render::stacked(
                seq![
                    "paths: "@ + render::decimal(counts.total as int),
                    "visits: "@ + render::decimal(counts.total_visits as int),
                    "bookmarks: "@ + render::decimal(counts.bookmarks as int),
                    "top: "@ + top,
                ],
            )
        }),
{
    reveal_strlit("paths: ");
    reveal_strlit("visits: ");
    reveal_strlit("bookmarks: ");
    reveal_strlit("top: ");
    reveal_strlit("\nvisits: ");
    reveal_strlit("\nbookmarks: ");
    reveal_strlit("\ntop: ");
    reveal_strlit("\n");
    let end = seq!['\n'];
    assert("\nvisits: "@ =~= end + "visits: "@);
    assert("\nbookmarks: "@ =~= end + "bookmarks: "@);
    assert("\ntop: "@ =~= end + "top: "@);
    assert("\n"@ =~= end);
    let top = match counts.top_path {
        Some(path) => path@,
        None => "(none)"@,
    };
    let a = "paths: "@ + render::decimal(counts.total as int);
    let b = "visits: "@ + render::decimal(counts.total_visits as int);
    let c = "bookmarks: "@ + render::decimal(counts.bookmarks as int);
    let d = "top: "@ + top;
    let lines = seq![a, b, c, d];
    reveal_with_fuel(render::stacked, 5);
    assert(lines.drop_last() =~= seq![a, b, c]);
    assert(seq![a, b, c].drop_last() =~= seq![a, b]);
    assert(seq![a, b].drop_last() =~= seq![a]);
    assert(seq![a].drop_last() =~= Seq::empty());
    assert(render::stacked(lines) =~= a + end + b + end + c + end + d + end);
    assert(summary(counts) =~= a + end + b + end + c + end + d + end);
}

/// The oldest row and the range of the visits are what they say.
pub proof fn law_details_found(rows: Seq<HistoryRow>, i: int, oldest: i64, newest: i64)
    requires
        is_oldest(rows, i),
        is_range(rows, oldest, newest),
    ensures
        oldest_of(rows) == Some(i),
        range_of(rows) == Some((oldest, newest)),
        oldest_of(Seq::empty()) is None,
        range_of(Seq::empty()) is None,
{
    let k = choose|k: int| is_oldest(rows, k);
    let range = choose|range: (i64, i64)| is_range(rows, range.0, range.1);
    assert(is_range(rows, (oldest, newest).0, (oldest, newest).1));
    law_details_unique(rows, i, k, (oldest, newest), range);
}

/// `stats` shows the counts first. It succeeds unless the rows with the most
/// visits could not be read, of which it tells why.
pub proof fn law_stats_shown(
    counts: Counts,
    stale: int,
    percent: Seq<char>,
    detail: Option<DetailView>,
    live: Seq<bool>,
)
    ensures
        text::starts_with(stats_answer(counts, stale, percent, detail, live).out, summary(counts)),
        suggests_prune(stale, counts.total as int) ==> text::starts_with(
            stats_answer(counts, stale, percent, detail, live).out,
            summary(counts) + stale_hint(percent, stale, counts.total as int),
        ),
        detail is None ==> stats_answer(counts, stale, percent, detail, live).out == brief(
            counts,
            stale,
            percent,
        ),
        stats_answer(counts, stale, percent, detail, live).code == 1 <==> (detail matches Some(d)
            && d.top is Err),
        stats_answer(counts, stale, percent, detail, live).code == 0 <==> (detail matches Some(d)
            ==> d.top is Ok),
        (detail matches Some(d) && d.top is Err) ==> stats_answer(
            counts,
            stale,
            percent,
            detail,
            live,
        ).err == "top query failed: "@ + detail->Some_0.top->Err_0 + "\n"@,
        !(detail matches Some(d) && d.top is Err) ==> stats_answer(
            counts,
            stale,
            percent,
            detail,
            live,
        ).err.len() == 0,
{
    let out = stats_answer(counts, stale, percent, detail, live).out;
    let start = brief(counts, stale, percent);
    let hint = if suggests_prune(stale, counts.total as int) {
        stale_hint(percent, stale, counts.total as int)
    } else {
        Seq::empty()
    };
    assert(start == summary(counts) + hint);
    match detail {
        None => {
            assert(out.subrange(0, out.len() as int) =~= out);
        },
        Some(d) => {
            assert(out.subrange(0, start.len() as int) =~= start);
        },
    }
    text::lemma_part(out, summary(counts), hint);
}

/// In detail `stats` shows the size of the database, the range of the history,
/// the rows with the most visits that exist, and the path that was not visited
/// for longest, in this order, each where it is known.
pub proof fn law_stats_detailed(
    counts: Counts,
    stale: int,
    percent: Seq<char>,
    d: DetailView,
    rows: Seq<HistoryRow>,
    live: Seq<bool>,
)
    requires
        d.top == Ok::<Seq<HistoryRow>, Seq<char>>(rows),
    ensures
        ({
            let out = stats_answer(counts, stale, percent, Some(d), live).out;
            &&& d.size matches Some((size, path)) ==> text::contains(
                out,
                "db size: "@ + size + " ("@ + path + ")\n"@,
            )
            &&& d.range matches Some((oldest, newest, n)) ==> text::contains(
                out,
                "history range: "@ + oldest + " days ago to "@ + newest + " days ago ("@
                    + render::decimal(n as int) + " entries)\n"@,
            )
            &&& report::live_rows(rows, live).len() > 0 ==> text::contains(
                out,
                "\ntop 10 most visited:\n"@ + render::stacked(
                    Seq::new(
                        report::live_rows(rows, live).len(),
                        |i: int|
                            "  "@ + render::right_aligned(
                                render::decimal(report::live_rows(rows, live)[i].visits as int),
                                6,
                            ) + " visits  "@ + report::live_rows(rows, live)[i].path@,
                    ),
                ),
            )
            &&& report::live_rows(rows, live).len() == 0 ==> text::contains(
                out,
                "\ntop 10 most visited: (none)\n"@,
            )
            &&& d.longest matches Some((path, days)) ==> text::ends_with(
                out,
                "\nlongest-unvisited: "@ + path + " (last visited "@ + days + " days ago)\n"@,
            )
            &&& d.longest is None && d.size is None && d.range is None ==> out == brief(
                counts,
                stale,
                percent,
            ) + "\n"@ + top_text(report::live_rows(rows, live))
        }),
{
    let out = stats_answer(counts, stale, percent, Some(d), live).out;
    let shown = report::live_rows(rows, live);
    let a = brief(counts, stale, percent) + "\n"@;
    let b = a + size_line(d.size);
    let c = b + range_line(d.range);
    let e = c + top_text(shown);
    let last = longest_line(d.longest);
    assert(out == e + last);
    assert(out.subrange(0, out.len() as int) =~= out);
    text::lemma_part(out, e, last);
    text::lemma_part(out, c, top_text(shown));
    text::lemma_part(out, b, range_line(d.range));
    text::lemma_part(out, a, size_line(d.size));
    assert(out.subrange(out.len() - last.len(), out.len() as int) =~= last);
    assert(top_lines(shown) =~= Seq::new(
        shown.len(),
        |i: int|
            "  "@ + render::right_aligned(render::decimal(shown[i].visits as int), 6)
                + " visits  "@ + shown[i].path@,
    ));
    if d.longest is None && d.size is None && d.range is None {
        assert(out =~= a + top_text(shown));
    }
}

/// The hint names the share, the stale rows and all rows.
pub proof fn law_stale_hint(percent: Seq<char>, stale: int, total: int)
    ensures
        text::contains(stale_hint(percent, stale, total), percent + "% stale ("@),
        text::contains(
            stale_hint(percent, stale, total),
            render::decimal(stale) + " of "@ + render::decimal(total),
        ),
{
    let s = stale_hint(percent, stale, total);
    let a = "\n⚠ "@;
    let one = percent + "% stale ("@;
    let two = render::decimal(stale) + " of "@ + render::decimal(total);
    let n = (a.len() + one.len()) as int;
    assert(s.subrange(a.len() as int, n) =~= one);
    assert(text::occurs_at(s, one, a.len() as int));
    assert(s.subrange(n, n + two.len()) =~= two);
    assert(text::occurs_at(s, two, n));
}

/// The row that was not visited for longest is the first of those with the
/// earliest visit; the range goes from the earliest to the latest.
pub proof fn law_earliest_and_latest(rows: Seq<HistoryRow>, i: int, j: int)
    requires
        0 <= i < rows.len(),
        0 <= j < rows.len(),
        forall|k: int|
            0 <= k < rows.len() ==> rows[i].last_visited <= (#[trigger] rows[k]).last_visited
                <= rows[j].last_visited,
        forall|k: int| 0 <= k < i ==> rows[i].last_visited != (#[trigger] rows[k]).last_visited,
    ensures
        oldest_of(rows) == Some(i),
        range_of(rows) == Some((rows[i].last_visited, rows[j].last_visited)),
{
    assert(is_oldest(rows, i));
    assert(rows[i].last_visited == rows[i].last_visited);
    assert(is_range(rows, rows[i].last_visited, rows[j].last_visited));
    law_details_found(rows, i, rows[i].last_visited, rows[j].last_visited);
}

} // verus!
