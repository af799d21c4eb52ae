//! What is answered to a command once it is known what came of it.

use vstd::prelude::*;
use vstd::string::StringExecFns;

use crate::cli;
use crate::import::{ImportError, ImportStats};
use crate::init;
use crate::outside;
use crate::outside::Field;
use crate::rank::Bookmark;
use crate::render;
use crate::score;
use crate::score::{HistoryRow, Scored, ScoredView, Source};
use crate::text;

verus! {

/// What goes to standard output and to standard error, and the exit code.
#[derive(Clone, Debug, PartialEq, Eq)]
pub struct Reply {
    pub out: String,
    pub err: String,
    pub code: u8,
}

/// The view of a reply.
#[verifier::ext_equal]
pub struct ReplyView {
    pub out: Seq<char>,
    pub err: Seq<char>,
    pub code: u8,
}

impl View for Reply {
    type V = ReplyView;

    open spec fn view(&self) -> ReplyView {
        ReplyView { out: self.out@, err: self.err@, code: self.code }
    }
}

/// A reply that says nothing.
pub open spec fn silence(code: u8) -> ReplyView {
    ReplyView { out: Seq::empty(), err: Seq::empty(), code }
}

/// A reply of one line.
pub open spec fn line(s: Seq<char>, code: u8) -> ReplyView {
    ReplyView { out: s.push('\n'), err: Seq::empty(), code }
}

/// A reply of one line on standard error.
pub open spec fn complaint(s: Seq<char>, code: u8) -> ReplyView {
    ReplyView { out: Seq::empty(), err: s.push('\n'), code }
}

pub(crate) fn keep_silent(code: u8) -> (r: Reply)
    ensures
        r@ == silence(code),
{
    Reply { out: String::new(), err: String::new(), code }
}

pub(crate) fn say(s: String, code: u8) -> (r: Reply)
    ensures
        r@ == line(s@, code),
{
    let mut out: String = s;
    out.push('\n');
    Reply { out, err: String::new(), code }
}

pub(crate) fn complain(s: String, code: u8) -> (r: Reply)
    ensures
        r@ == complaint(s@, code),
{
    let mut err: String = s;
    err.push('\n');
    Reply { out: String::new(), err, code }
}

// ---------------------------------------------------------------------------
// Shell integration
// ---------------------------------------------------------------------------

/// The answer to `init`.
pub open spec fn init_answer(
    shell: Option<Seq<char>>,
    verify: bool,
    variable: Option<Seq<char>>,
) -> ReplyView {
    if verify {
        let found = init::detected(variable);
        ReplyView {
            out: render::stacked(init::report_lines(found)),
            err: Seq::empty(),
            code: if found is Some {
                0
            } else {
                1
            },
        }
    } else {
        match init::chosen(shell, variable) {
            Some(name) => match init::script(name) {
                Some(script) => ReplyView { out: script, err: Seq::empty(), code: 0 },
                None => complaint(cli::INIT_USAGE@, 2),
            },
            None => complaint(cli::INIT_USAGE@, 2),
        }
    }
}

/// The answer to `init`, given the value of `$SHELL`.
pub fn init_reply(shell: &Option<String>, verify: bool, variable: Option<&str>) -> (r: Reply)
    ensures
        r@ == init_answer(text::maybe(*shell), verify, text::maybe_str(variable)),
{
    if verify {
        let found: init::VerifyReport = init::verify(variable);
        let code: u8 = if found.ok {
            0
        } else {
            1
        };
        return Reply { out: render::stack(&found.lines), err: String::new(), code };
    }
    let script: Option<String> = match init::choose_shell(shell, variable) {
        Some(name) => init::script_for(name.as_str()),
        None => None,
    };
    match script {
        Some(out) => Reply { out, err: String::new(), code: 0 },
        None => complain(cli::INIT_USAGE.to_string(), 2),
    }
}

/// The answer to `completions`.
pub open spec fn completions_answer(script: Option<Seq<char>>) -> ReplyView {
    match script {
        Some(out) => ReplyView { out, err: Seq::empty(), code: 0 },
        None => complaint(cli::COMPLETIONS_USAGE@, 2),
    }
}

/// The answer to `completions`, given the script of the chosen shell.
pub fn completions_reply(script: Option<String>) -> (r: Reply)
    ensures
        r@ == completions_answer(text::maybe(script)),
{
    match script {
        Some(out) => Reply { out, err: String::new(), code: 0 },
        None => complain(cli::COMPLETIONS_USAGE.to_string(), 2),
    }
}

// ---------------------------------------------------------------------------
// Jumps
// ---------------------------------------------------------------------------

/// The answer to a query: where to jump, else, if nothing was ever recorded, a
/// hint.
pub open spec fn jump_answer(found: Option<Seq<char>>, history_is_empty: bool) -> ReplyView {
    match found {
        Some(path) => line(path, 0),
        None => if history_is_empty {
            complaint(
                "no history yet — cd around (or run `hop add <dir>`) to teach hop your directories"@,
                1,
            )
        } else {
            silence(1)
        },
    }
}

/// The answer to a query.
pub fn jump_reply(found: &Option<String>, history_is_empty: bool) -> (r: Reply)
    ensures
        r@ == jump_answer(text::maybe(*found), history_is_empty),
{
    match found {
        Some(path) => say(path.clone(), 0),
        None => {
            if history_is_empty {
                complain(
                    "no history yet — cd around (or run `hop add <dir>`) to teach hop your directories".to_string(),
                    1,
                )
            } else {
                keep_silent(1)
            }
        },
    }
}

/// The rows whose directory still exists, as `live` tells of each.
pub open spec fn live_rows(rows: Seq<HistoryRow>, live: Seq<bool>) -> Seq<HistoryRow>
    decreases rows.len(),
{
    if rows.len() == 0 {
        Seq::empty()
    } else if live[rows.len() - 1] {
        live_rows(rows.drop_last(), live).push(rows.last())
    } else {
        live_rows(rows.drop_last(), live)
    }
}

/// Where the directory before the present one lies, given the rows visited
/// last: the second of those that still exist.
pub open spec fn previous_path(rows: Seq<HistoryRow>, live: Seq<bool>) -> Option<Seq<char>> {
    if live_rows(rows, live).len() > 1 {
        Some(live_rows(rows, live)[1].path@)
    } else {
        None
    }
}

/// The directory before the present one, given the rows visited last, the
/// latest first.
pub fn previous(rows: &Vec<HistoryRow>, live: &Vec<bool>) -> (r: Option<String>)
    requires
        live@.len() == rows@.len(),
    ensures
        text::maybe(r) == previous_path(rows@, live@),
{
    let mut seen: usize = 0;
    let mut r: Option<String> = None;
    assert(rows@.take(0) =~= Seq::empty());
    for i in 0..rows.len()
        invariant
            live@.len() == rows@.len(),
            seen == live_rows(rows@.take(i as int), live@).len(),
            seen <= i,
            text::maybe(r) == previous_path(rows@.take(i as int), live@),
    {
        proof {
            assert(rows@.take(i + 1).drop_last() =~= rows@.take(i as int));
        }
        if live[i] {
            seen = seen + 1;
            if seen == 2 {
                r = Some(rows[i].path.clone());
            }
        }
    }
    assert(rows@.take(rows@.len() as int) =~= rows@);
    r
}

/// The answer to `-`.
pub open spec fn previous_answer(found: Option<Seq<char>>) -> ReplyView {
    match found {
        Some(path) => line(path, 0),
        None => complaint("no previous directory yet — visit a couple of dirs first"@, 1),
    }
}

/// The answer to `-`.
pub fn previous_reply(found: &Option<String>) -> (r: Reply)
    ensures
        r@ == previous_answer(text::maybe(*found)),
{
    match found {
        Some(path) => say(path.clone(), 0),
        None => complain(
            "no previous directory yet — visit a couple of dirs first".to_string(),
            1,
        ),
    }
}

// ---------------------------------------------------------------------------
// Changes of the history
// ---------------------------------------------------------------------------

/// The answer where a path should have been a directory.
pub fn not_a_directory(path: &str) -> (r: Reply)
    ensures
        r@ == complaint("not a directory: "@ + path@, 1),
{
    complain(render::glue("not a directory: ", path), 1)
}

/// The first row of a path.
pub open spec fn row_of(rows: Seq<HistoryRow>, path: Seq<char>) -> Option<HistoryRow>
    decreases rows.len(),
{
    if rows.len() == 0 {
        None
    } else if rows[0].path@ == path {
        Some(rows[0])
    } else {
        row_of(rows.drop_first(), path)
    }
}

/// The answer to a dry run of `add`.
pub open spec fn add_answer(path: Seq<char>, rows: Seq<HistoryRow>) -> ReplyView {
    match row_of(rows, path) {
        Some(row) => line(
            "would add "@ + path + " with "@ + render::decimal(row.visits + 1) + " visits"@,
            0,
        ),
        None => line("would create new entry: "@ + path, 0),
    }
}

/// The answer to a dry run of `add`, given the rows of the history.
pub fn add_preview(path: &str, rows: &Vec<HistoryRow>) -> (r: Reply)
    requires
        row_of(rows@, path@) matches Some(row) ==> row.visits < i32::MAX,
    ensures
        r@ == add_answer(path@, rows@),
{
    assert(rows@.skip(0) =~= rows@);
    for i in 0..rows.len()
        invariant
            row_of(rows@, path@) == row_of(rows@.skip(i as int), path@),
            row_of(rows@, path@) matches Some(row) ==> row.visits < i32::MAX,
    {
        proof {
            assert(rows@.skip(i as int)[0] == rows@[i as int]);
            assert(rows@.skip(i as int).drop_first() =~= rows@.skip(i + 1));
        }
        if text::same_text(rows[i].path.as_str(), path) {
            let mut s: String = "would add ".to_string();
            s.append(path);
            s.append(" with ");
            render::push_decimal(&mut s, rows[i].visits as i64 + 1);
            s.append(" visits");
            return say(s, 0);
        }
    }
    say(render::glue("would create new entry: ", path), 0)
}

/// How many rows a change touched, or why it failed.
pub open spec fn outcome(changed: Result<usize, String>) -> Result<usize, Seq<char>> {
    match changed {
        Ok(n) => Ok(n),
        Err(e) => Err(e@),
    }
}

/// The answer to `rm`.
pub open spec fn remove_answer(path: Seq<char>, removed: Result<usize, Seq<char>>) -> ReplyView {
    match removed {
        Ok(n) => if n > 0 {
            line("removed: "@ + path, 0)
        } else {
            line("not found in history: "@ + path, 1)
        },
        Err(e) => complaint("remove failed: "@ + e, 1),
    }
}

/// The answer to `rm`, given how many rows were removed.
pub fn remove_reply(path: &str, removed: &Result<usize, String>) -> (r: Reply)
    ensures
        r@ == remove_answer(path@, outcome(*removed)),
{
    match removed {
        Ok(n) => {
            if *n > 0 {
                say(render::glue("removed: ", path), 0)
            } else {
                say(render::glue("not found in history: ", path), 1)
            }
        },
        Err(e) => complain(render::glue("remove failed: ", e.as_str()), 1),
    }
}

/// The answer to `forget` where nothing matches.
pub fn no_match(query: &str) -> (r: Reply)
    ensures
        r@ == complaint("no match for: "@ + query@, 1),
{
    complain(render::glue("no match for: ", query), 1)
}

/// The answer to a dry run of `forget`.
pub fn forget_preview(path: &str) -> (r: Reply)
    ensures
        r@ == line("would forget: "@ + path@, 0),
{
    say(render::glue("would forget: ", path), 0)
}

/// The answer to `forget` with a query. A failure is told, and counts as
/// nothing found.
pub open spec fn forget_answer(path: Seq<char>, removed: Result<usize, Seq<char>>) -> ReplyView {
    match removed {
        Ok(n) => if n > 0 {
            line("forgot: "@ + path, 0)
        } else {
            line("not found in history: "@ + path, 0)
        },
        Err(e) => ReplyView {
            out: ("not found in history: "@ + path).push('\n'),
            err: ("forget failed: "@ + e).push('\n'),
            code: 0,
        },
    }
}

/// The answer to `forget` with a query, given how many rows were removed.
pub fn forget_reply(path: &str, removed: &Result<usize, String>) -> (r: Reply)
    ensures
        r@ == forget_answer(path@, outcome(*removed)),
{
    match removed {
        Ok(n) => {
            if *n > 0 {
                say(render::glue("forgot: ", path), 0)
            } else {
                say(render::glue("not found in history: ", path), 0)
            }
        },
        Err(e) => {
            let said: Reply = say(render::glue("not found in history: ", path), 0);
            let told: Reply = complain(render::glue("forget failed: ", e.as_str()), 0);
            Reply { out: said.out, err: told.err, code: 0 }
        },
    }
}

/// The answer to `forget` with the picker.
pub open spec fn forget_pick_answer(
    picked: Option<Seq<char>>,
    removed: Result<usize, Seq<char>>,
) -> ReplyView {
    match picked {
        Some(path) => match removed {
            Ok(n) => if n > 0 {
                line("forgot: "@ + path, 0)
            } else {
                complaint("not found in history: "@ + path, 1)
            },
            Err(_) => complaint("not found in history: "@ + path, 1),
        },
        None => silence(1),
    }
}

/// The answer to `forget` with the picker, given what was picked and how many
/// rows were removed.
pub fn forget_pick_reply(picked: &Option<String>, removed: &Result<usize, String>) -> (r: Reply)
    ensures
        r@ == forget_pick_answer(text::maybe(*picked), outcome(*removed)),
{
    match picked {
        Some(path) => {
            let n: usize = match removed {
                Ok(n) => *n,
                Err(_) => 0,
            };
            if n > 0 {
                say(render::glue("forgot: ", path.as_str()), 0)
            } else {
                complain(render::glue("not found in history: ", path.as_str()), 1)
            }
        },
        None => keep_silent(1),
    }
}

/// The line of a row.
pub open spec fn row_line(row: HistoryRow) -> Seq<char> {
    render::right_aligned(render::decimal(row.visits as int), 4) + " visits   "@ + row.path@
}

/// The lines of rows.
pub open spec fn row_lines(rows: Seq<HistoryRow>) -> Seq<Seq<char>> {
    Seq::new(rows.len(), |i: int| row_line(rows[i]))
}

/// The answer to `history` and `recent`: a line for each row whose directory
/// still exists.
pub open spec fn rows_answer(rows: Seq<HistoryRow>, live: Seq<bool>) -> ReplyView {
    ReplyView {
        out: render::stacked(row_lines(live_rows(rows, live))),
        err: Seq::empty(),
        code: 0,
    }
}

/// The answer to `history` and `recent`.
pub fn rows_reply(rows: &Vec<HistoryRow>, live: &Vec<bool>) -> (r: Reply)
    requires
        live@.len() == rows@.len(),
    ensures
        r@ == rows_answer(rows@, live@),
{
    let mut lines: Vec<String> = Vec::new();
    assert(rows@.take(0) =~= Seq::empty());
    assert(text::views(lines@) =~= row_lines(live_rows(rows@.take(0), live@)));
    for i in 0..rows.len()
        invariant
            live@.len() == rows@.len(),
            text::views(lines@) == row_lines(live_rows(rows@.take(i as int), live@)),
    {
        let ghost before = lines@;
        let ghost shown = live_rows(rows@.take(i as int), live@);
        proof {
            assert(rows@.take(i + 1).drop_last() =~= rows@.take(i as int));
        }
        if live[i] {
            let mut s: String = String::new();
            render::push_number_right(&mut s, rows[i].visits as i64, 4);
            s.append(" visits   ");
            s.append(rows[i].path.as_str());
            assert(s@ =~= row_line(rows@[i as int]));
            lines.push(s);
            proof {
                text::lemma_views_push(before, lines@.last());
                assert(row_lines(shown.push(rows@[i as int])) =~= row_lines(shown).push(
                    row_line(rows@[i as int]),
                ));
            }
        }
    }
    assert(rows@.take(rows@.len() as int) =~= rows@);
    Reply { out: render::stack(&lines), err: String::new(), code: 0 }
}

// ---------------------------------------------------------------------------
// Bookmarks
// ---------------------------------------------------------------------------

/// The bookmark as a line of a list.
pub open spec fn bookmark_line(b: Bookmark) -> Seq<char> {
    render::left_aligned(b.alias@, 20) + "  "@ + b.path@
}

/// The bookmark as a record.
pub open spec fn bookmark_record(b: Bookmark) -> Seq<(Seq<char>, Field<Seq<char>>)> {
    seq![
        ("alias"@, Field::Text(b.alias@)),
        ("path"@, Field::Text(b.path@)),
        ("description"@, Field::Text(b.description@)),
    ]
}

/// The answer to `book list`.
pub open spec fn book_list_answer(list: Seq<Bookmark>, json: bool) -> ReplyView {
    if json {
        line(
            outside::pretty_json(Seq::new(list.len(), |i: int| bookmark_record(list[i]))),
            0,
        )
    } else {
        ReplyView {
            out: render::stacked(Seq::new(list.len(), |i: int| bookmark_line(list[i]))),
            err: Seq::empty(),
            code: 0,
        }
    }
}

fn text_field(key: &str, value: &str) -> (r: (String, Field<String>))
    ensures
        r.0@ == key@,
        r.1@ == Field::Text(value@),
{
    (key.to_string(), Field::Text(value.to_string()))
}

fn number_field(key: &str, value: i64) -> (r: (String, Field<String>))
    ensures
        r.0@ == key@,
        r.1@ == Field::<Seq<char>>::Number(value),
{
    (key.to_string(), Field::Number(value))
}

proof fn lemma_records_push(
    records: Seq<Vec<(String, Field<String>)>>,
    record: Vec<(String, Field<String>)>,
)
    ensures
        outside::records_view(records.push(record)) == outside::records_view(records).push(
            outside::record_view(record@),
        ),
{
    assert(outside::records_view(records.push(record)) =~= outside::records_view(records).push(
        outside::record_view(record@),
    ));
}

/// The bookmarks as records.
pub fn bookmark_records(list: &Vec<Bookmark>) -> (r: Vec<Vec<(String, Field<String>)>>)
    ensures
        outside::records_view(r@) == Seq::new(
            list@.len(),
            |i: int| bookmark_record(list@[i]),
        ),
{
    let ghost all = Seq::new(list@.len(), |i: int| bookmark_record(list@[i]));
    let mut r: Vec<Vec<(String, Field<String>)>> = Vec::new();
    for i in 0..list.len()
        invariant
            all == Seq::new(list@.len(), |i: int| bookmark_record(list@[i])),
            outside::records_view(r@) == all.take(i as int),
    {
        let ghost before = r@;
        let mut record: Vec<(String, Field<String>)> = Vec::new();
        record.push(text_field("alias", list[i].alias.as_str()));
        record.push(text_field("path", list[i].path.as_str()));
        record.push(text_field("description", list[i].description.as_str()));
        proof {
            assert(outside::record_view(record@) =~= bookmark_record(list@[i as int]));
            lemma_records_push(before, record);
            assert(all.take(i + 1) =~= all.take(i as int).push(all[i as int]));
        }
        r.push(record);
    }
    assert(all.take(list@.len() as int) =~= all);
    r
}

/// The answer to `book list`.
pub fn book_list_reply(list: &Vec<Bookmark>, json: bool) -> (r: Reply)
    ensures
        r@ == book_list_answer(list@, json),
{
    if json {
        let records: Vec<Vec<(String, Field<String>)>> = bookmark_records(list);
        return say(outside::to_string_pretty(&records), 0);
    }
    let ghost all = Seq::new(list@.len(), |i: int| bookmark_line(list@[i]));
    let mut lines: Vec<String> = Vec::new();
    assert(text::views(lines@) =~= all.take(0));
    for i in 0..list.len()
        invariant
            all == Seq::new(list@.len(), |i: int| bookmark_line(list@[i])),
            text::views(lines@) == all.take(i as int),
    {
        let ghost before = lines@;
        let mut s: String = String::new();
        render::push_left(&mut s, list[i].alias.as_str(), 20);
        s.append("  ");
        s.append(list[i].path.as_str());
        assert(s@ =~= bookmark_line(list@[i as int]));
        lines.push(s);
        proof {
            text::lemma_views_push(before, lines@.last());
            assert(all.take(i + 1) =~= all.take(i as int).push(all[i as int]));
        }
    }
    assert(all.take(list@.len() as int) =~= all);
    Reply { out: render::stack(&lines), err: String::new(), code: 0 }
}

/// The answer to `book rm`.
pub open spec fn book_remove_answer(
    alias: Seq<char>,
    removed: Result<usize, Seq<char>>,
) -> ReplyView {
    match removed {
        Ok(n) => if n == 0 {
            complaint("no such bookmark: "@ + alias, 1)
        } else {
            silence(0)
        },
        Err(e) => complaint("remove_bookmark failed: "@ + e, 1),
    }
}

/// The answer to `book rm`, given how many bookmarks were removed.
pub fn book_remove_reply(alias: &str, removed: &Result<usize, String>) -> (r: Reply)
    ensures
        r@ == book_remove_answer(alias@, outcome(*removed)),
{
    match removed {
        Ok(n) => {
            if *n == 0 {
                complain(render::glue("no such bookmark: ", alias), 1)
            } else {
                keep_silent(0)
            }
        },
        Err(e) => complain(render::glue("remove_bookmark failed: ", e.as_str()), 1),
    }
}

/// The first bookmark of a name.
pub open spec fn bookmark_of(list: Seq<Bookmark>, alias: Seq<char>) -> Option<Bookmark>
    decreases list.len(),
{
    if list.len() == 0 {
        None
    } else if list[0].alias@ == alias {
        Some(list[0])
    } else {
        bookmark_of(list.drop_first(), alias)
    }
}

/// The answer to `book edit` without a change.
pub open spec fn book_show_answer(alias: Seq<char>, list: Seq<Bookmark>) -> ReplyView {
    match bookmark_of(list, alias) {
        Some(b) => ReplyView {
            out: render::stacked(
                seq![
                    "alias:       "@ + b.alias@,
                    "path:        "@ + b.path@,
                    "description: "@ + b.description@,
                ],
            ),
            err: Seq::empty(),
            code: 0,
        },
        None => complaint("no such bookmark: "@ + alias, 1),
    }
}

/// The answer to `book edit` without a change, given the bookmarks.
pub fn book_show_reply(alias: &str, list: &Vec<Bookmark>) -> (r: Reply)
    ensures
        r@ == book_show_answer(alias@, list@),
{
    assert(list@.skip(0) =~= list@);
    for i in 0..list.len()
        invariant
            bookmark_of(list@, alias@) == bookmark_of(list@.skip(i as int), alias@),
    {
        proof {
            assert(list@.skip(i as int)[0] == list@[i as int]);
            assert(list@.skip(i as int).drop_first() =~= list@.skip(i + 1));
        }
        if text::same_text(list[i].alias.as_str(), alias) {
            let mut lines: Vec<String> = Vec::new();
            lines.push(render::glue("alias:       ", list[i].alias.as_str()));
            lines.push(render::glue("path:        ", list[i].path.as_str()));
            lines.push(render::glue("description: ", list[i].description.as_str()));
            assert(text::views(lines@) =~= seq![
                "alias:       "@ + list@[i as int].alias@,
                "path:        "@ + list@[i as int].path@,
                "description: "@ + list@[i as int].description@,
            ]);
            return Reply { out: render::stack(&lines), err: String::new(), code: 0 };
        }
    }
    complain(render::glue("no such bookmark: ", alias), 1)
}

/// The answer to `book edit` with changes.
pub open spec fn book_edit_answer(alias: Seq<char>, edited: Result<usize, Seq<char>>) -> ReplyView {
    match edited {
        Ok(n) => if n == 0 {
            complaint("no such bookmark: "@ + alias, 1)
        } else {
            silence(0)
        },
        Err(e) => complaint("edit failed: "@ + e, 1),
    }
}

/// The answer to `book edit` with changes, given how many bookmarks were edited.
pub fn book_edit_reply(alias: &str, edited: &Result<usize, String>) -> (r: Reply)
    ensures
        r@ == book_edit_answer(alias@, outcome(*edited)),
{
    match edited {
        Ok(n) => {
            if *n == 0 {
                complain(render::glue("no such bookmark: ", alias), 1)
            } else {
                keep_silent(0)
            }
        },
        Err(e) => complain(render::glue("edit failed: ", e.as_str()), 1),
    }
}

/// The answer to `book` with a name alone.
pub open spec fn resolve_answer(found: Option<Seq<char>>) -> ReplyView {
    match found {
        Some(path) => line(path, 0),
        None => silence(1),
    }
}

/// The answer to `book` with a name alone, and to the picker, given the path
/// that was found.
pub fn resolve_reply(found: &Option<String>) -> (r: Reply)
    ensures
        r@ == resolve_answer(text::maybe(*found)),
{
    match found {
        Some(path) => say(path.clone(), 0),
        None => keep_silent(1),
    }
}

// ---------------------------------------------------------------------------
// Scores
// ---------------------------------------------------------------------------

/// The name of a source.
pub open spec fn source_name(source: Source) -> Seq<char> {
    match source {
        Source::Bookmark => "Bookmark"@,
        Source::History => "History"@,
    }
}

/// The name of a source in lower case.
pub open spec fn source_key(source: Source) -> Seq<char> {
    match source {
        Source::Bookmark => "bookmark"@,
        Source::History => "history"@,
    }
}

fn name_of(source: Source) -> (r: &'static str)
    ensures
        r@ == source_name(source),
{
    match source {
        Source::Bookmark => "Bookmark",
        Source::History => "History",
    }
}

fn key_of(source: Source) -> (r: &'static str)
    ensures
        r@ == source_key(source),
{
    match source {
        Source::Bookmark => "bookmark",
        Source::History => "history",
    }
}

/// The first `n` of a list, or all of them.
pub open spec fn first_of<T>(list: Seq<T>, n: int) -> Seq<T> {
    if list.len() <= n {
        list
    } else {
        list.take(n)
    }
}

/// A component of a score, set to the right of a column.
pub open spec fn component(label: Seq<char>, n: int, width: int) -> Seq<char> {
    label + render::right_aligned(render::decimal(n), width)
}

/// The line of a candidate, component by component.
pub open spec fn score_line(c: ScoredView, best: bool) -> Seq<char> {
    c.path + (if best {
        " (best)"@
    } else {
        ""@
    }) + component("  total="@, c.score, 4) + component("  fuzzy="@, c.fuzzy, 3) + component(
        "  visits="@,
        c.visits,
        3,
    ) + component("  recency="@, c.recency, 2) + component("  git="@, c.git, 2) + component(
        "  basename="@,
        c.basename,
        2,
    ) + component("  shortness="@, c.shortness, 2) + component("  session="@, c.session, 2)
        + "  ["@ + source_name(c.source) + "]"@
}

/// The record of a candidate, component by component.
pub open spec fn score_record(c: ScoredView) -> Seq<(Seq<char>, Field<Seq<char>>)> {
    seq![
        ("path"@, Field::Text(c.path)),
        ("total"@, Field::Number(c.score as i64)),
        ("fuzzy"@, Field::Number(c.fuzzy as i64)),
        ("visits"@, Field::Number(c.visits as i64)),
        ("recency"@, Field::Number(c.recency as i64)),
        ("git"@, Field::Number(c.git as i64)),
        ("basename"@, Field::Number(c.basename as i64)),
        ("shortness"@, Field::Number(c.shortness as i64)),
        ("session"@, Field::Number(c.session as i64)),
        ("source"@, Field::Text(source_key(c.source))),
    ]
}

/// The answer to `score`: the best ten candidates.
pub open spec fn score_answer(query: Seq<char>, list: Seq<ScoredView>, json: bool) -> ReplyView {
    let shown = first_of(list, 10);
    if list.len() == 0 {
        silence(1)
    } else if json {
        line(outside::pretty_json(Seq::new(shown.len(), |i: int| score_record(shown[i]))), 0)
    } else {
        ReplyView {
            out: render::stacked(
                seq!["query: "@ + query, ""@] + Seq::new(
                    shown.len(),
                    |i: int| score_line(shown[i], i == 0),
                ),
            ),
            err: Seq::empty(),
            code: 0,
        }
    }
}

fn push_component(out: &mut String, label: &str, n: i64, width: usize)
    ensures
        final(out)@ == old(out)@ + component(label@, n as int, width as int),
{
    let ghost start = out@;
    out.append(label);
    render::push_number_right(out, n, width);
    assert(out@ =~= start + component(label@, n as int, width as int));
}

fn score_text(c: &Scored, best: bool) -> (r: String)
    ensures
        r@ == score_line(c@, best),
{
    let mut s: String = c.path.clone();
    if best {
        s.append(" (best)");
    } else {
        s.append("");
    }
    push_component(&mut s, "  total=", c.score, 4);
    push_component(&mut s, "  fuzzy=", c.fuzzy, 3);
    push_component(&mut s, "  visits=", c.visits, 3);
    push_component(&mut s, "  recency=", c.recency, 2);
    push_component(&mut s, "  git=", c.git, 2);
    push_component(&mut s, "  basename=", c.basename, 2);
    push_component(&mut s, "  shortness=", c.shortness, 2);
    push_component(&mut s, "  session=", c.session, 2);
    s.append("  [");
    s.append(name_of(c.source));
    s.append("]");
    s
}

fn score_fields(c: &Scored) -> (r: Vec<(String, Field<String>)>)
    ensures
        outside::record_view(r@) == score_record(c@),
{
    let mut r: Vec<(String, Field<String>)> = Vec::new();
    r.push(text_field("path", c.path.as_str()));
    r.push(number_field("total", c.score));
    r.push(number_field("fuzzy", c.fuzzy));
    r.push(number_field("visits", c.visits));
    r.push(number_field("recency", c.recency));
    r.push(number_field("git", c.git));
    r.push(number_field("basename", c.basename));
    r.push(number_field("shortness", c.shortness));
    r.push(number_field("session", c.session));
    r.push(text_field("source", key_of(c.source)));
    assert(outside::record_view(r@) =~= score_record(c@));
    r
}

/// The records of the best `limit` candidates, component by component.
pub fn score_records(list: &Vec<Scored>, limit: usize) -> (r: Vec<Vec<(String, Field<String>)>>)
    ensures
        outside::records_view(r@) == Seq::new(
            first_of(score::scored_views(list@), limit as int).len(),
            |i: int| score_record(first_of(score::scored_views(list@), limit as int)[i]),
        ),
{
    let n: usize = if list.len() <= limit {
        list.len()
    } else {
        limit
    };
    let ghost shown = first_of(score::scored_views(list@), limit as int);
    let ghost all = Seq::new(shown.len(), |i: int| score_record(shown[i]));
    let mut r: Vec<Vec<(String, Field<String>)>> = Vec::new();
    for i in 0..n
        invariant
            n == shown.len() <= list@.len(),
            forall|k: int| 0 <= k < n ==> #[trigger] shown[k] == list@[k]@,
            all == Seq::new(shown.len(), |i: int| score_record(shown[i])),
            outside::records_view(r@) == all.take(i as int),
    {
        let ghost before = r@;
        let record: Vec<(String, Field<String>)> = score_fields(&list[i]);
        proof {
            lemma_records_push(before, record);
            assert(all.take(i + 1) =~= all.take(i as int).push(all[i as int]));
        }
        r.push(record);
    }
    assert(all.take(n as int) =~= all);
    r
}

/// The answer to `score`, given the candidates whose directory still exists.
pub fn score_reply(query: &str, list: &Vec<Scored>, json: bool) -> (r: Reply)
    ensures
        r@ == score_answer(query@, score::scored_views(list@), json),
{
    if list.len() == 0 {
        return keep_silent(1);
    }
    if json {
        let records: Vec<Vec<(String, Field<String>)>> = score_records(list, 10);
        return say(outside::to_string_pretty(&records), 0);
    }
    let n: usize = if list.len() <= 10 {
        list.len()
    } else {
        10
    };
    let ghost shown = first_of(score::scored_views(list@), 10);
    let ghost head = seq!["query: "@ + query@, ""@];
    let ghost all = Seq::new(shown.len(), |i: int| score_line(shown[i], i == 0));
    let mut lines: Vec<String> = Vec::new();
    lines.push(render::glue("query: ", query));
    lines.push("".to_string());
    assert(text::views(lines@) =~= head + all.take(0));
    for i in 0..n
        invariant
            n == shown.len() <= list@.len(),
            forall|k: int| 0 <= k < n ==> #[trigger] shown[k] == list@[k]@,
            all == Seq::new(shown.len(), |i: int| score_line(shown[i], i == 0)),
            text::views(lines@) == head + all.take(i as int),
    {
        let ghost before = lines@;
        lines.push(score_text(&list[i], i == 0));
        proof {
            text::lemma_views_push(before, lines@.last());
            assert(head + all.take(i + 1) =~= (head + all.take(i as int)).push(all[i as int]));
        }
    }
    assert(all.take(n as int) =~= all);
    Reply { out: render::stack(&lines), err: String::new(), code: 0 }
}

/// The line of a candidate in a list.
pub open spec fn list_line(c: ScoredView) -> Seq<char> {
    render::decimal(c.score) + "\t"@ + c.path + "\t"@ + source_name(c.source)
}

/// The record of a candidate in a list.
pub open spec fn list_record(c: ScoredView) -> Seq<(Seq<char>, Field<Seq<char>>)> {
    seq![
        ("path"@, Field::Text(c.path)),
        ("score"@, Field::Number(c.score as i64)),
        ("source"@, Field::Text(source_key(c.source))),
    ]
}

/// The answer to `list`: the best `limit` candidates.
pub open spec fn list_answer(list: Seq<ScoredView>, limit: int, json: bool) -> ReplyView {
    let shown = first_of(list, limit);
    if shown.len() == 0 {
        silence(1)
    } else if json {
        line(outside::pretty_json(Seq::new(shown.len(), |i: int| list_record(shown[i]))), 0)
    } else {
        ReplyView {
            out: render::stacked(Seq::new(shown.len(), |i: int| list_line(shown[i]))),
            err: Seq::empty(),
            code: 0,
        }
    }
}

/// The records of the best `limit` candidates.
pub fn list_records(list: &Vec<Scored>, limit: usize) -> (r: Vec<Vec<(String, Field<String>)>>)
    ensures
        outside::records_view(r@) == Seq::new(
            first_of(score::scored_views(list@), limit as int).len(),
            |i: int| list_record(first_of(score::scored_views(list@), limit as int)[i]),
        ),
{
    let n: usize = if list.len() <= limit {
        list.len()
    } else {
        limit
    };
    let ghost shown = first_of(score::scored_views(list@), limit as int);
    let ghost all = Seq::new(shown.len(), |i: int| list_record(shown[i]));
    let mut r: Vec<Vec<(String, Field<String>)>> = Vec::new();
    for i in 0..n
        invariant
            n == shown.len() <= list@.len(),
            forall|k: int| 0 <= k < n ==> #[trigger] shown[k] == list@[k]@,
            all == Seq::new(shown.len(), |i: int| list_record(shown[i])),
            outside::records_view(r@) == all.take(i as int),
    {
        let ghost before = r@;
        let mut record: Vec<(String, Field<String>)> = Vec::new();
        record.push(text_field("path", list[i].path.as_str()));
        record.push(number_field("score", list[i].score));
        record.push(text_field("source", key_of(list[i].source)));
        proof {
            assert(outside::record_view(record@) =~= list_record(shown[i as int]));
            lemma_records_push(before, record);
            assert(all.take(i + 1) =~= all.take(i as int).push(all[i as int]));
        }
        r.push(record);
    }
    assert(all.take(n as int) =~= all);
    r
}

/// The answer to `list`, given the candidates whose directory still exists.
pub fn list_reply(list: &Vec<Scored>, limit: usize, json: bool) -> (r: Reply)
    ensures
        r@ == list_answer(score::scored_views(list@), limit as int, json),
{
    let n: usize = if list.len() <= limit {
        list.len()
    } else {
        limit
    };
    if n == 0 {
        return keep_silent(1);
    }
    if json {
        let records: Vec<Vec<(String, Field<String>)>> = list_records(list, limit);
        return say(outside::to_string_pretty(&records), 0);
    }
    let ghost shown = first_of(score::scored_views(list@), limit as int);
    let ghost all = Seq::new(shown.len(), |i: int| list_line(shown[i]));
    let mut lines: Vec<String> = Vec::new();
    assert(text::views(lines@) =~= all.take(0));
    for i in 0..n
        invariant
            n == shown.len() <= list@.len(),
            forall|k: int| 0 <= k < n ==> #[trigger] shown[k] == list@[k]@,
            all == Seq::new(shown.len(), |i: int| list_line(shown[i])),
            text::views(lines@) == all.take(i as int),
    {
        let ghost before = lines@;
        let mut s: String = render::decimal_text(list[i].score);
        s.append("\t");
        s.append(list[i].path.as_str());
        s.append("\t");
        s.append(name_of(list[i].source));
        lines.push(s);
        proof {
            text::lemma_views_push(before, lines@.last());
            assert(all.take(i + 1) =~= all.take(i as int).push(all[i as int]));
        }
    }
    assert(all.take(n as int) =~= all);
    Reply { out: render::stack(&lines), err: String::new(), code: 0 }
}

// ---------------------------------------------------------------------------
// Imports, prunes and clears
// ---------------------------------------------------------------------------

/// The answer to `import`.
pub open spec fn import_answer(imported: int, skipped: int) -> ReplyView {
    line("imported "@ + render::decimal(imported) + ", skipped "@ + render::decimal(skipped), 0)
}

/// The answer to `import`.
pub fn import_reply(stats: ImportStats) -> (r: Reply)
    ensures
        r@ == import_answer(stats.imported as int, stats.skipped as int),
{
    let mut s: String = "imported ".to_string();
    s.append(render::count_text(stats.imported).as_str());
    s.append(", skipped ");
    s.append(render::count_text(stats.skipped).as_str());
    say(s, 0)
}

/// The answer to a dry run of `import`.
pub open spec fn preview_answer(paths: Seq<Seq<char>>) -> ReplyView {
    line(
        "would import "@ + render::decimal(paths.len() as int) + " entries: "@ + render::joined(
            paths,
            ", "@,
        ),
        0,
    )
}

/// The answer to a dry run of `import`, given the paths that it would import.
pub fn import_preview(paths: &Vec<String>) -> (r: Reply)
    ensures
        r@ == preview_answer(text::views(paths@)),
{
    assert(text::views(paths@).len() == paths@.len());
    let mut s: String = "would import ".to_string();
    s.append(render::count_text(paths.len()).as_str());
    s.append(" entries: ");
    s.append(render::join(paths, ", ").as_str());
    say(s, 0)
}

/// The answer to an `import` that failed, or to a dry run that did.
pub open spec fn import_failed(reason: Seq<char>, dry_run: bool) -> ReplyView {
    if dry_run {
        complaint("import dry-run failed: "@ + reason, 1)
    } else {
        complaint("import failed: "@ + reason, 1)
    }
}

/// The answer to an `import` that failed, or to a dry run that did.
pub fn import_failure(error: &ImportError, dry_run: bool) -> (r: Reply)
    ensures
        r@ == import_failed(error.text(), dry_run),
{
    let message: String = error.message();
    if dry_run {
        complain(render::glue("import dry-run failed: ", message.as_str()), 1)
    } else {
        complain(render::glue("import failed: ", message.as_str()), 1)
    }
}

/// The ending of "entry", or of "entries".
pub open spec fn ending(n: int) -> Seq<char> {
    if n == 1 {
        "y"@
    } else {
        "ies"@
    }
}

fn ending_of(n: usize) -> (r: &'static str)
    ensures
        r@ == ending(n as int),
{
    if n == 1 {
        "y"
    } else {
        "ies"
    }
}

/// The answer to a dry run of `prune`.
pub open spec fn prune_answer(stale: Seq<Seq<char>>) -> ReplyView {
    if stale.len() == 0 {
        line("nothing to prune"@, 0)
    } else {
        ReplyView {
            out: render::stacked(
                Seq::new(stale.len(), |i: int| "  - "@ + stale[i]) + seq![
                    ""@,
                    render::decimal(stale.len() as int) + " stale entr"@ + ending(
                        stale.len() as int,
                    ) + " total. Run without --dry-run to remove."@,
                ],
            ),
            err: Seq::empty(),
            code: 0,
        }
    }
}

/// The answer to a dry run of `prune`, given the paths that are stale.
pub fn prune_preview(stale: &Vec<String>) -> (r: Reply)
    ensures
        r@ == prune_answer(text::views(stale@)),
{
    assert(text::views(stale@).len() == stale@.len());
    if stale.len() == 0 {
        return say("nothing to prune".to_string(), 0);
    }
    let ghost paths = text::views(stale@);
    let ghost all = Seq::new(paths.len(), |i: int| "  - "@ + paths[i]);
    let mut lines: Vec<String> = Vec::new();
    assert(text::views(lines@) =~= all.take(0));
    for i in 0..stale.len()
        invariant
            paths == text::views(stale@),
            all == Seq::new(paths.len(), |i: int| "  - "@ + paths[i]),
            text::views(lines@) == all.take(i as int),
    {
        let ghost before = lines@;
        lines.push(render::glue("  - ", stale[i].as_str()));
        proof {
            text::lemma_views_push(before, lines@.last());
            assert(all.take(i + 1) =~= all.take(i as int).push(all[i as int]));
        }
    }
    assert(all.take(stale@.len() as int) =~= all);
    let mut s: String = render::count_text(stale.len());
    s.append(" stale entr");
    s.append(ending_of(stale.len()));
    s.append(" total. Run without --dry-run to remove.");
    let ghost last = s@;
    lines.push("".to_string());
    lines.push(s);
    assert(text::views(lines@) =~= all + seq![""@, last]);
    Reply { out: render::stack(&lines), err: String::new(), code: 0 }
}

/// What is told before `prune` sets out to check all rows, if anything is.
pub open spec fn prune_announced(total: int, quiet: bool) -> Option<Seq<char>> {
    if !quiet && total > 0 {
        Some("pruning "@ + render::decimal(total) + " entries..."@)
    } else {
        None
    }
}

/// What is told before `prune` sets out to check all rows, if anything is.
pub fn prune_start(total: usize, quiet: bool) -> (r: Option<String>)
    ensures
        text::maybe(r) == prune_announced(total as int, quiet),
{
    if !quiet && total > 0 {
        let mut s: String = "pruning ".to_string();
        s.append(render::count_text(total).as_str());
        s.append(" entries...");
        Some(s)
    } else {
        None
    }
}

/// What is told while `prune` is on its way, if anything is.
pub open spec fn prune_told(done: int, total: int, quiet: bool) -> Option<Seq<char>> {
    if !quiet && total > 0 {
        Some("  "@ + render::decimal(done) + " / "@ + render::decimal(total))
    } else {
        None
    }
}

/// What is told while `prune` is on its way, if anything is.
pub fn prune_progress(done: usize, total: usize, quiet: bool) -> (r: Option<String>)
    ensures
        text::maybe(r) == prune_told(done as int, total as int, quiet),
        text::maybe(r) == if !quiet && total > 0 {
            Some("  "@ + render::decimal(done as int) + " / "@ + render::decimal(total as int))
        } else {
            None
        },
{
    if !quiet && total > 0 {
        let mut s: String = "  ".to_string();
        s.append(render::count_text(done).as_str());
        s.append(" / ");
        s.append(render::count_text(total).as_str());
        Some(s)
    } else {
        None
    }
}

/// The answer to `prune`.
pub open spec fn pruned_answer(removed: Result<usize, Seq<char>>, quiet: bool) -> ReplyView {
    match removed {
        Ok(n) => if quiet {
            silence(0)
        } else {
            line(
                "pruned "@ + render::decimal(n as int) + " stale entr"@ + ending(n as int),
                0,
            )
        },
        Err(e) => complaint("prune failed: "@ + e, 1),
    }
}

/// The answer to `prune`, given how many rows were removed.
pub fn pruned_reply(removed: &Result<usize, String>, quiet: bool) -> (r: Reply)
    ensures
        r@ == pruned_answer(outcome(*removed), quiet),
{
    match removed {
        Ok(n) => {
            if quiet {
                return keep_silent(0);
            }
            let mut s: String = "pruned ".to_string();
            s.append(render::count_text(*n).as_str());
            s.append(" stale entr");
            s.append(ending_of(*n));
            say(s, 0)
        },
        Err(e) => complain(render::glue("prune failed: ", e.as_str()), 1),
    }
}

/// Whether the history may be wiped: it was forced, or the user typed `yes`.
pub open spec fn is_confirmed(force: bool, answer: Option<Seq<char>>) -> bool {
    force || (answer matches Some(s) && text::trim(s) == "yes"@)
}

/// Whether the history may be wiped, given what the user typed, if anything
/// could be read.
pub fn confirmed(force: bool, answer: Option<&str>) -> (r: bool)
    ensures
        r == is_confirmed(force, text::maybe_str(answer)),
{
    if force {
        return true;
    }
    match answer {
        Some(s) => {
            let trimmed: String = text::trimmed(s);
            text::same_text(trimmed.as_str(), "yes")
        },
        None => false,
    }
}

/// The answer to `clear`.
pub open spec fn clear_answer(confirmed: bool, failure: Option<Seq<char>>) -> ReplyView {
    if !confirmed {
        line("aborted"@, 1)
    } else {
        match failure {
            Some(e) => complaint("clear failed: "@ + e, 1),
            None => line("history cleared"@, 0),
        }
    }
}

/// The answer to `clear`, given whether it was confirmed and why it failed, if
/// it did.
pub fn clear_reply(confirmed: bool, failure: &Option<String>) -> (r: Reply)
    ensures
        r@ == clear_answer(confirmed, text::maybe(*failure)),
{
    if !confirmed {
        return say("aborted".to_string(), 1);
    }
    match failure {
        Some(e) => complain(render::glue("clear failed: ", e.as_str()), 1),
        None => say("history cleared".to_string(), 0),
    }
}

/// The answer where the database failed: what failed, and why.
pub fn failure(what: &str, why: &str, code: u8) -> (r: Reply)
    ensures
        r@ == complaint(what@ + ": "@ + why@, code),
{
    let mut s: String = what.to_string();
    s.append(": ");
    s.append(why);
    complain(s, code)
}

// ---------------------------------------------------------------------------
// Laws
// ---------------------------------------------------------------------------

/// A query succeeds exactly where a directory was found; else it says nothing
/// that could be taken for one.
pub proof fn law_jump_succeeds_when_found(found: Option<Seq<char>>, history_is_empty: bool)
    ensures
        jump_answer(found, history_is_empty).code == 0 <==> found is Some,
        found is None ==> jump_answer(found, history_is_empty).out.len() == 0,
        found is None ==> jump_answer(found, history_is_empty).code == 1,
{
}

/// The previous directory is the second that still exists: row `j` where row `i`
/// is the only one before it whose directory exists.
pub proof fn law_previous_is_second_live(
    rows: Seq<HistoryRow>,
    live: Seq<bool>,
    i: int,
    j: int,
)
    requires
        live.len() == rows.len(),
        0 <= i < j < rows.len(),
        live[i],
        live[j],
        forall|k: int| 0 <= k < j && k != i ==> !(#[trigger] live[k]),
    ensures
        previous_path(rows, live) == Some(rows[j].path@),
{
    lemma_second_live(rows, live, i, j, rows.len() as int);
    assert(rows.take(rows.len() as int) =~= rows);
}

proof fn lemma_second_live(rows: Seq<HistoryRow>, live: Seq<bool>, i: int, j: int, n: int)
    requires
        live.len() == rows.len(),
        0 <= i < j < rows.len(),
        live[i],
        live[j],
        forall|k: int| 0 <= k < j && k != i ==> !(#[trigger] live[k]),
        0 <= n <= rows.len(),
    ensures
        n <= i ==> live_rows(rows.take(n), live).len() == 0,
        i < n <= j ==> live_rows(rows.take(n), live).len() == 1,
        j < n ==> live_rows(rows.take(n), live).len() >= 2 && live_rows(rows.take(n), live)[1]
            == rows[j],
    decreases n,
{
    if n > 0 {
        lemma_second_live(rows, live, i, j, n - 1);
        assert(rows.take(n).drop_last() =~= rows.take(n - 1));
        assert(rows.take(n).last() == rows[n - 1]);
    }
}

/// There is no previous directory where at most one still exists.
pub proof fn law_no_previous(rows: Seq<HistoryRow>, live: Seq<bool>)
    requires
        live.len() == rows.len(),
        forall|i: int, j: int| 0 <= i < j < rows.len() ==> !(live[i] && live[j]),
    ensures
        previous_path(rows, live) is None,
{
    lemma_no_previous(rows, live, rows.len() as int);
    assert(rows.take(rows.len() as int) =~= rows);
}

proof fn lemma_no_previous(rows: Seq<HistoryRow>, live: Seq<bool>, n: int)
    requires
        live.len() == rows.len(),
        forall|i: int, j: int| 0 <= i < j < rows.len() ==> !(live[i] && live[j]),
        0 <= n <= rows.len(),
    ensures
        live_rows(rows.take(n), live).len() <= 1,
        live_rows(rows.take(n), live).len() == 1 ==> exists|i: int|
            0 <= i < n && #[trigger] live[i],
    decreases n,
{
    if n > 0 {
        lemma_no_previous(rows, live, n - 1);
        assert(rows.take(n).drop_last() =~= rows.take(n - 1));
        assert(rows.take(n).last() == rows[n - 1]);
        if live_rows(rows.take(n - 1), live).len() == 1 {
            let i = choose|i: int| 0 <= i < n - 1 && #[trigger] live[i];
            assert(!(live[i] && live[n - 1]));
        }
    }
}

/// Going back twice leads where it began: the visit puts the previous directory,
/// row `j`, first, and the present one, row `i`, is second again.
pub proof fn law_previous_toggles(
    rows: Seq<HistoryRow>,
    live: Seq<bool>,
    i: int,
    j: int,
    again: HistoryRow,
)
    requires
        live.len() == rows.len(),
        0 <= i < j < rows.len(),
        live[i],
        live[j],
        forall|k: int| 0 <= k < j && k != i ==> !(#[trigger] live[k]),
        again.path@ == rows[j].path@,
    ensures
        previous_path(rows, live) == Some(again.path@),
        previous_path(seq![again] + rows.remove(j), seq![true] + live.remove(j)) == Some(
            rows[i].path@,
        ),
{
    law_previous_is_second_live(rows, live, i, j);
    let moved = seq![again] + rows.remove(j);
    let flags = seq![true] + live.remove(j);
    assert(moved[i + 1] == rows[i]);
    assert(flags[i + 1] == live[i]);
    assert forall|k: int| 0 <= k < i + 1 && k != 0 implies !(#[trigger] flags[k]) by {
        assert(flags[k] == live[k - 1]);
    }
    law_previous_is_second_live(moved, flags, 0, i + 1);
}

/// Only rows that still exist are shown, in their order.
pub proof fn law_live_rows_exist(rows: Seq<HistoryRow>, live: Seq<bool>, row: HistoryRow)
    requires
        live.len() == rows.len(),
    ensures
        live_rows(rows, live).len() <= rows.len(),
        live_rows(rows, live).contains(row) <==> exists|i: int|
            0 <= i < rows.len() && #[trigger] rows[i] == row && live[i],
{
    lemma_live_rows(rows, live, row);
}

proof fn lemma_live_rows(rows: Seq<HistoryRow>, live: Seq<bool>, row: HistoryRow)
    requires
        live.len() >= rows.len(),
    ensures
        live_rows(rows, live).len() <= rows.len(),
        live_rows(rows, live).contains(row) <==> exists|i: int|
            0 <= i < rows.len() && #[trigger] rows[i] == row && live[i],
    decreases rows.len(),
{
    let shown = live_rows(rows, live);
    if rows.len() > 0 {
        let init = rows.drop_last();
        let before = live_rows(init, live);
        lemma_live_rows(init, live, row);
        if shown.contains(row) {
            let k = choose|k: int| 0 <= k < shown.len() && shown[k] == row;
            if k < before.len() {
                assert(before[k] == row);
                assert(before.contains(row));
                let i = choose|i: int|
                    0 <= i < init.len() && #[trigger] init[i] == row && live[i];
                assert(rows[i] == row);
            } else {
                assert(rows[rows.len() - 1] == row);
            }
        }
        if exists|i: int| 0 <= i < rows.len() && #[trigger] rows[i] == row && live[i] {
            let i = choose|i: int| 0 <= i < rows.len() && #[trigger] rows[i] == row && live[i];
            if i < init.len() {
                assert(init[i] == row);
                assert(before.contains(row));
                let k = choose|k: int| 0 <= k < before.len() && before[k] == row;
                assert(shown[k] == row);
            } else {
                assert(shown[shown.len() - 1] == row);
            }
        }
    }
}

/// A list never shows more matches than it was limited to, and shows all there
/// are where the limit allows.
pub proof fn law_list_limited(list: Seq<ScoredView>, limit: int)
    requires
        limit >= 0,
    ensures
        first_of(list, limit).len() <= limit,
        list.len() <= limit ==> first_of(list, limit) == list,
        forall|i: int|
            0 <= i < first_of(list, limit).len() ==> #[trigger] first_of(list, limit)[i]
                == list[i],
{
}

/// Which rows are shown depends on whether each exists alone, and their order
/// stays: those of the first list come before those of the second.
pub proof fn law_live_rows_in_order(
    a: Seq<HistoryRow>,
    live: Seq<bool>,
    b: Seq<HistoryRow>,
    more: Seq<bool>,
    row: HistoryRow,
    flag: bool,
)
    requires
        live.len() == a.len(),
        more.len() == b.len(),
    ensures
        live_rows(a + b, live + more) == live_rows(a, live) + live_rows(b, more),
        live_rows(seq![row], seq![flag]) == if flag {
            seq![row]
        } else {
            Seq::empty()
        },
    decreases b.len(),
{
    reveal_with_fuel(live_rows, 2);
    assert(seq![row].drop_last() =~= Seq::empty());
    assert(Seq::<HistoryRow>::empty().push(row) =~= seq![row]);
    if b.len() == 0 {
        assert(a + b =~= a);
        assert(live + more =~= live);
        assert(live_rows(a, live) + live_rows(b, more) =~= live_rows(a, live));
    } else {
        let init = b.drop_last();
        law_live_rows_in_order(a, live, init, more.drop_last(), row, flag);
        assert((a + b).drop_last() =~= a + init);
        lemma_live_before(a + init, live + more, live + more.drop_last());
        lemma_live_before(init, more, more.drop_last());
        assert((live + more)[(a + b).len() - 1] == more[b.len() - 1]);
        assert(live_rows(a + b, live + more) =~= live_rows(a, live) + live_rows(b, more));
    }
}

proof fn lemma_live_before(rows: Seq<HistoryRow>, live: Seq<bool>, other: Seq<bool>)
    requires
        rows.len() <= live.len(),
        rows.len() <= other.len(),
        forall|i: int| 0 <= i < rows.len() ==> live[i] == other[i],
    ensures
        live_rows(rows, live) == live_rows(rows, other),
    decreases rows.len(),
{
    if rows.len() > 0 {
        lemma_live_before(rows.drop_last(), live, other);
    }
}

/// Where all rows exist, all are shown.
pub proof fn law_all_rows_live(rows: Seq<HistoryRow>, live: Seq<bool>)
    requires
        live.len() == rows.len(),
        forall|i: int| 0 <= i < live.len() ==> #[trigger] live[i],
    ensures
        live_rows(rows, live) == rows,
    decreases rows.len(),
{
    if rows.len() == 0 {
        assert(live_rows(rows, live) =~= rows);
    } else {
        let init = rows.drop_last();
        lemma_live_before(init, live, live.drop_last());
        law_all_rows_live(init, live.drop_last());
        assert(live[rows.len() - 1]);
        assert(live_rows(rows, live) =~= rows);
    }
}

/// The row of a path is the first one that has it. There is none exactly where no
/// row has it.
pub proof fn law_row_of_path(rows: Seq<HistoryRow>, path: Seq<char>, i: int)
    ensures
        row_of(rows, path) matches Some(row) ==> row.path@ == path && rows.contains(row),
        row_of(rows, path) is None <==> forall|k: int|
            0 <= k < rows.len() ==> (#[trigger] rows[k]).path@ != path,
        0 <= i < rows.len() && rows[i].path@ == path && (forall|k: int|
            0 <= k < i ==> (#[trigger] rows[k]).path@ != path) ==> row_of(rows, path) == Some(
            rows[i],
        ),
    decreases rows.len(),
{
    if rows.len() > 0 {
        let rest = rows.drop_first();
        law_row_of_path(rest, path, i - 1);
        if rows[0].path@ == path {
            assert(rows.contains(rows[0]));
        } else {
            if row_of(rest, path) is Some {
                let row = row_of(rest, path)->Some_0;
                let k = choose|k: int| 0 <= k < rest.len() && rest[k] == row;
                assert(rows[k + 1] == row);
            } else {
                assert forall|k: int| 0 <= k < rows.len() implies (#[trigger] rows[k]).path@
                    != path by {
                    if k > 0 {
                        assert(rest[k - 1].path@ != path);
                    }
                }
            }
            if 0 <= i < rows.len() && rows[i].path@ == path && (forall|k: int|
                0 <= k < i ==> (#[trigger] rows[k]).path@ != path) {
                assert(i > 0);
                assert(rest[i - 1] == rows[i]);
                assert forall|k: int| 0 <= k < i - 1 implies (#[trigger] rest[k]).path@ != path by {
                    assert(rows[k + 1].path@ != path);
                }
            }
        }
    }
}

/// The bookmark of a name is the first one that has it. There is none exactly
/// where no bookmark has it.
pub proof fn law_bookmark_of_name(list: Seq<Bookmark>, alias: Seq<char>, i: int)
    ensures
        bookmark_of(list, alias) matches Some(b) ==> b.alias@ == alias && list.contains(b),
        bookmark_of(list, alias) is None <==> forall|k: int|
            0 <= k < list.len() ==> (#[trigger] list[k]).alias@ != alias,
        0 <= i < list.len() && list[i].alias@ == alias && (forall|k: int|
            0 <= k < i ==> (#[trigger] list[k]).alias@ != alias) ==> bookmark_of(list, alias)
            == Some(list[i]),
    decreases list.len(),
{
    if list.len() > 0 {
        let rest = list.drop_first();
        law_bookmark_of_name(rest, alias, i - 1);
        if list[0].alias@ == alias {
            assert(list.contains(list[0]));
        } else {
            if bookmark_of(rest, alias) is Some {
                let b = bookmark_of(rest, alias)->Some_0;
                let k = choose|k: int| 0 <= k < rest.len() && rest[k] == b;
                assert(list[k + 1] == b);
            } else {
                assert forall|k: int| 0 <= k < list.len() implies (#[trigger] list[k]).alias@
                    != alias by {
                    if k > 0 {
                        assert(rest[k - 1].alias@ != alias);
                    }
                }
            }
            if 0 <= i < list.len() && list[i].alias@ == alias && (forall|k: int|
                0 <= k < i ==> (#[trigger] list[k]).alias@ != alias) {
                assert(i > 0);
                assert(rest[i - 1] == list[i]);
                assert forall|k: int| 0 <= k < i - 1 implies (#[trigger] rest[k]).alias@
                    != alias by {
                    assert(list[k + 1].alias@ != alias);
                }
            }
        }
    }
}

/// A dry run of `add` tells one visit more than the row of the path has, or that
/// there would be a new one.
pub proof fn law_add_preview(rows: Seq<HistoryRow>, path: Seq<char>, i: int)
    requires
        0 <= i < rows.len() ==> rows[i].path@ == path && (forall|k: int|
            0 <= k < i ==> (#[trigger] rows[k]).path@ != path),
        !(0 <= i < rows.len()) ==> forall|k: int|
            0 <= k < rows.len() ==> (#[trigger] rows[k]).path@ != path,
    ensures
        0 <= i < rows.len() ==> add_answer(path, rows) == line(
            "would add "@ + path + " with "@ + render::decimal(rows[i].visits + 1) + " visits"@,
            0,
        ),
        !(0 <= i < rows.len()) ==> add_answer(path, rows) == line(
            "would create new entry: "@ + path,
            0,
        ),
{
    law_row_of_path(rows, path, i);
}

/// Whether a text can stand on a line of its own.
pub open spec fn is_one_line(s: Seq<char>) -> bool {
    !s.contains('\n') && (s.len() == 0 || s.last() != '\r')
}

proof fn lemma_line_feed(a: Seq<char>, b: Seq<char>)
    ensures
        (a + b).contains('\n') <==> a.contains('\n') || b.contains('\n'),
{
    let all = a + b;
    if a.contains('\n') {
        let k = choose|k: int| 0 <= k < a.len() && a[k] == '\n';
        assert(all[k] == '\n');
    }
    if b.contains('\n') {
        let k = choose|k: int| 0 <= k < b.len() && b[k] == '\n';
        assert(all[a.len() + k] == '\n');
    }
    if all.contains('\n') {
        let k = choose|k: int| 0 <= k < all.len() && all[k] == '\n';
        if k < a.len() {
            assert(a[k] == '\n');
        } else {
            assert(b[k - a.len()] == '\n');
        }
    }
}

proof fn lemma_decimal_line(n: int)
    ensures
        !render::decimal(n).contains('\n'),
        render::decimal(n).len() > 0,
{
    render::law_decimal_digits(n);
    let s = render::decimal(n);
    assert forall|i: int| 0 <= i < s.len() implies s[i] != '\n' by {
        if n < 0 {
            if i > 0 {
                assert(s.skip(1)[i - 1] == s[i]);
                assert(render::is_digit(s.skip(1)[i - 1]));
            }
        } else {
            assert(render::is_digit(s[i]));
        }
    }
}

/// A list shows one line for each of the best matches, as many as there are or
/// as it is limited to, with the score, the path and the source of each. Without
/// a match it fails in silence.
pub proof fn law_list_lines(list: Seq<ScoredView>, limit: int)
    requires
        limit >= 0,
        forall|i: int| 0 <= i < list.len() ==> is_one_line((#[trigger] list[i]).path),
    ensures
        ({
            let n = if list.len() <= limit {
                list.len() as int
            } else {
                limit
            };
            let reply = list_answer(list, limit, false);
            let shown = text::lines(reply.out);
            &&& shown.len() == n
            &&& forall|i: int|
                0 <= i < n ==> #[trigger] shown[i] == render::decimal(list[i].score) + seq!['\t']
                    + list[i].path + seq!['\t'] + (match list[i].source {
                    Source::Bookmark => "Bookmark"@,
                    Source::History => "History"@,
                })
            &&& reply.err.len() == 0
            &&& reply.code == 0 <==> n > 0
            &&& reply.code == 1 <==> n == 0
        }),
{
    reveal_strlit("\t");
    reveal_strlit("Bookmark");
    reveal_strlit("History");
    assert("\t"@ =~= seq!['\t']);
    let shown = first_of(list, limit);
    let lines = Seq::new(shown.len(), |i: int| list_line(shown[i]));
    assert forall|i: int| 0 <= i < lines.len() implies !(#[trigger] lines[i]).contains('\n') && (
    lines[i].len() == 0 || lines[i].last() != '\r') by {
        let c = shown[i];
        assert(is_one_line(list[i].path));
        assert(c == list[i]);
        lemma_decimal_line(c.score);
        let a = render::decimal(c.score);
        let name = source_name(c.source);
        lemma_line_feed(a, "\t"@);
        lemma_line_feed(a + "\t"@, c.path);
        lemma_line_feed(a + "\t"@ + c.path, "\t"@);
        lemma_line_feed(a + "\t"@ + c.path + "\t"@, name);
        assert(!"\t"@.contains('\n'));
        assert(!name.contains('\n'));
        assert(name.len() > 0);
        assert(lines[i].last() == name.last());
    }
    render::law_stacked_lines(lines);
    if shown.len() == 0 {
        assert(text::lines(Seq::empty()) =~= Seq::empty());
    }
}

/// The line of a candidate begins with its path, is marked where it is the best,
/// holds each component behind its name, and ends with the source in brackets.
pub proof fn law_score_line(c: ScoredView, best: bool)
    ensures
        best ==> text::starts_with(score_line(c, best), c.path + " (best)"@),
        !best ==> text::starts_with(
            score_line(c, best),
            c.path + "  total="@ + render::right_aligned(render::decimal(c.score), 4),
        ),
        text::contains(
            score_line(c, best),
            "  total="@ + render::right_aligned(render::decimal(c.score), 4),
        ),
        text::contains(
            score_line(c, best),
            "  fuzzy="@ + render::right_aligned(render::decimal(c.fuzzy), 3),
        ),
        text::contains(
            score_line(c, best),
            "  visits="@ + render::right_aligned(render::decimal(c.visits), 3),
        ),
        text::contains(
            score_line(c, best),
            "  recency="@ + render::right_aligned(render::decimal(c.recency), 2),
        ),
        text::contains(
            score_line(c, best),
            "  git="@ + render::right_aligned(render::decimal(c.git), 2),
        ),
        text::contains(
            score_line(c, best),
            "  basename="@ + render::right_aligned(render::decimal(c.basename), 2),
        ),
        text::contains(
            score_line(c, best),
            "  shortness="@ + render::right_aligned(render::decimal(c.shortness), 2),
        ),
        text::contains(
            score_line(c, best),
            "  session="@ + render::right_aligned(render::decimal(c.session), 2),
        ),
        c.source is Bookmark ==> text::ends_with(score_line(c, best), "Bookmark"@ + "]"@),
        c.source is History ==> text::ends_with(score_line(c, best), "History"@ + "]"@),
{
    let s = score_line(c, best);
    let mark = if best {
        " (best)"@
    } else {
        ""@
    };
    let s0 = c.path + mark;
    let c1 = component("  total="@, c.score, 4);
    let c2 = component("  fuzzy="@, c.fuzzy, 3);
    let c3 = component("  visits="@, c.visits, 3);
    let c4 = component("  recency="@, c.recency, 2);
    let c5 = component("  git="@, c.git, 2);
    let c6 = component("  basename="@, c.basename, 2);
    let c7 = component("  shortness="@, c.shortness, 2);
    let c8 = component("  session="@, c.session, 2);
    let s1 = s0 + c1;
    let s2 = s1 + c2;
    let s3 = s2 + c3;
    let s4 = s3 + c4;
    let s5 = s4 + c5;
    let s6 = s5 + c6;
    let s7 = s6 + c7;
    let s8 = s7 + c8;
    let s9 = s8 + "  ["@;
    let name = source_name(c.source);
    assert(s == s9 + name + "]"@);
    let end = name + "]"@;
    assert(s.subrange(s.len() - end.len(), s.len() as int) =~= end);
    assert(s.subrange(0, s.len() as int) =~= s);
    text::lemma_part(s, s9 + name, "]"@);
    text::lemma_part(s, s9, name);
    text::lemma_part(s, s8, "  ["@);
    text::lemma_part(s, s7, c8);
    text::lemma_part(s, s6, c7);
    text::lemma_part(s, s5, c6);
    text::lemma_part(s, s4, c5);
    text::lemma_part(s, s3, c4);
    text::lemma_part(s, s2, c3);
    text::lemma_part(s, s1, c2);
    assert(text::starts_with(s, s1));
    text::lemma_part(s, s0, c1);
    if !best {
        reveal_strlit("");
        assert(s0 =~= c.path);
        assert(s1 =~= c.path + "  total="@ + render::right_aligned(render::decimal(c.score), 4));
    }
}

/// A score shows the query, an empty line and then a line for each of the ten
/// best matches, in their order, the first of them marked as the best.
pub proof fn law_score_lines(query: Seq<char>, list: Seq<ScoredView>)
    requires
        list.len() > 0,
    ensures
        ({
            let n = if list.len() <= 10 {
                list.len() as int
            } else {
                10
            };
            let reply = score_answer(query, list, false);
            &&& reply.code == 0 && reply.err.len() == 0
            &&& reply.out == render::stacked(
                seq!["query: "@ + query, ""@, score_line(list[0], true)] + Seq::new(
                    (n - 1) as nat,
                    |i: int| score_line(list[i + 1], false),
                ),
            )
        }),
        score_answer(query, Seq::empty(), false) == silence(1),
        score_answer(query, Seq::empty(), true) == silence(1),
{
    let n = if list.len() <= 10 {
        list.len() as int
    } else {
        10
    };
    let shown = first_of(list, 10);
    assert(seq!["query: "@ + query, ""@] + Seq::new(
        shown.len(),
        |i: int| score_line(shown[i], i == 0),
    ) =~= seq!["query: "@ + query, ""@, score_line(list[0], true)] + Seq::new(
        (n - 1) as nat,
        |i: int| score_line(list[i + 1], false),
    ));
}

/// A score in JSON holds a record for each of the ten best matches, with all
/// components of its score.
pub proof fn law_score_records(query: Seq<char>, list: Seq<ScoredView>)
    requires
        list.len() > 0,
    ensures
        ({
            let n = if list.len() <= 10 {
                list.len() as int
            } else {
                10
            };
            score_answer(query, list, true) == line(
                outside::pretty_json(
                    Seq::new(
                        n as nat,
                        |i: int|
                            seq![
                                ("path"@, Field::Text(list[i].path)),
                                ("total"@, Field::Number(list[i].score as i64)),
                                ("fuzzy"@, Field::Number(list[i].fuzzy as i64)),
                                ("visits"@, Field::Number(list[i].visits as i64)),
                                ("recency"@, Field::Number(list[i].recency as i64)),
                                ("git"@, Field::Number(list[i].git as i64)),
                                ("basename"@, Field::Number(list[i].basename as i64)),
                                ("shortness"@, Field::Number(list[i].shortness as i64)),
                                ("session"@, Field::Number(list[i].session as i64)),
                                (
                                    "source"@,
                                    Field::Text(
                                        match list[i].source {
                                            Source::Bookmark => "bookmark"@,
                                            Source::History => "history"@,
                                        },
                                    ),
                                ),
                            ],
                    ),
                ),
                0,
            )
        }),
{
    let n = if list.len() <= 10 {
        list.len() as int
    } else {
        10
    };
    let shown = first_of(list, 10);
    let one = Seq::new(shown.len(), |i: int| score_record(shown[i]));
    let two = Seq::new(
        n as nat,
        |i: int|
            seq![
                ("path"@, Field::Text(list[i].path)),
                ("total"@, Field::Number(list[i].score as i64)),
                ("fuzzy"@, Field::Number(list[i].fuzzy as i64)),
                ("visits"@, Field::Number(list[i].visits as i64)),
                ("recency"@, Field::Number(list[i].recency as i64)),
                ("git"@, Field::Number(list[i].git as i64)),
                ("basename"@, Field::Number(list[i].basename as i64)),
                ("shortness"@, Field::Number(list[i].shortness as i64)),
                ("session"@, Field::Number(list[i].session as i64)),
                (
                    "source"@,
                    Field::Text(
                        match list[i].source {
                            Source::Bookmark => "bookmark"@,
                            Source::History => "history"@,
                        },
                    ),
                ),
            ],
    );
    assert forall|i: int| 0 <= i < one.len() implies one[i] == two[i] by {
        assert(shown[i] == list[i]);
        assert(one[i] =~= two[i]);
    }
    assert(one =~= two);
}

/// The bookmarks in JSON are a record for each, in their order.
pub proof fn law_bookmark_records(list: Seq<Bookmark>)
    ensures
        book_list_answer(list, true) == line(
            outside::pretty_json(
                Seq::new(
                    list.len(),
                    |i: int|
                        seq![
                            ("alias"@, Field::Text(list[i].alias@)),
                            ("path"@, Field::Text(list[i].path@)),
                            ("description"@, Field::Text(list[i].description@)),
                        ],
                ),
            ),
            0,
        ),
{
    let one = Seq::new(list.len(), |i: int| bookmark_record(list[i]));
    let two = Seq::new(
        list.len(),
        |i: int|
            seq![
                ("alias"@, Field::Text(list[i].alias@)),
                ("path"@, Field::Text(list[i].path@)),
                ("description"@, Field::Text(list[i].description@)),
            ],
    );
    assert(one =~= two);
}

/// What `import` tells are the two counts; a dry run tells how many paths there
/// are and names them, parted by commas.
pub proof fn law_import_told(imported: int, skipped: int, paths: Seq<Seq<char>>, reason: Seq<char>)
    ensures
        import_answer(imported, skipped).out == "imported "@ + render::decimal(imported)
            + ", skipped "@ + render::decimal(skipped) + seq!['\n'],
        import_answer(imported, skipped).code == 0,
        text::contains(preview_answer(paths).out, render::decimal(paths.len() as int)),
        text::ends_with(
            preview_answer(paths).out,
            " entries: "@ + render::joined(paths, ", "@) + seq!['\n'],
        ),
        preview_answer(paths).code == 0,
        import_failed(reason, true).code == 1 && import_failed(reason, false).code == 1,
        text::ends_with(import_failed(reason, true).err, reason.push('\n')),
        text::ends_with(import_failed(reason, false).err, reason.push('\n')),
{
    let out = preview_answer(paths).out;
    let number = render::decimal(paths.len() as int);
    let n = "would import "@.len() as int;
    assert(out.subrange(n, n + number.len()) =~= number);
    assert(text::occurs_at(out, number, n));
    let tail = " entries: "@ + render::joined(paths, ", "@) + seq!['\n'];
    assert(out.subrange(out.len() - tail.len(), out.len() as int) =~= tail);
    let a = import_failed(reason, true).err;
    let b = import_failed(reason, false).err;
    let end = reason.push('\n');
    assert(a.subrange(a.len() - end.len(), a.len() as int) =~= end);
    assert(b.subrange(b.len() - end.len(), b.len() as int) =~= end);
}

/// What `prune` tells: how many rows it sets out to check, where there are any,
/// and how many it removed. Where it is to be quiet it tells neither, but fails
/// aloud.
pub proof fn law_prune_told(total: int, removed: usize, reason: Seq<char>)
    ensures
        prune_announced(total, true) is None,
        prune_announced(total, false) is Some <==> total > 0,
        prune_announced(total, false) matches Some(s) ==> s == "pruning "@ + render::decimal(total)
            + " entries..."@,
        pruned_answer(Ok(removed), true) == silence(0),
        pruned_answer(Ok(removed), false).code == 0,
        removed == 1 ==> pruned_answer(Ok(removed), false).out == "pruned 1 stale entry"@.push(
            '\n',
        ),
        removed != 1 ==> pruned_answer(Ok(removed), false).out == "pruned "@ + render::decimal(
            removed as int,
        ) + " stale entries"@.push('\n'),
        pruned_answer(Err(reason), true).code == 1 && pruned_answer(Err(reason), false).code == 1,
        pruned_answer(Err(reason), true).err == "prune failed: "@ + reason.push('\n'),
{
    reveal_strlit("pruned ");
    reveal_strlit(" stale entr");
    reveal_strlit("y");
    reveal_strlit("ies");
    reveal_strlit("pruned 1 stale entry");
    reveal_strlit(" stale entries");
    reveal_with_fuel(render::digits, 2);
    assert(" stale entr"@ + "ies"@ =~= " stale entries"@);
    assert(render::decimal(1) =~= seq!['1']);
    assert(removed == 1 ==> pruned_answer(Ok(removed), false).out =~= "pruned 1 stale entry"@.push(
        '\n',
    ));
    assert(removed != 1 ==> pruned_answer(Ok(removed), false).out =~= "pruned "@ + render::decimal(
        removed as int,
    ) + " stale entries"@.push('\n'));
    assert(pruned_answer(Err(reason), true).err =~= "prune failed: "@ + reason.push('\n'));
}

/// The history is cleared exactly where that was confirmed and did not fail.
pub proof fn law_clear_told(failure: Option<Seq<char>>)
    ensures
        clear_answer(false, failure) == line("aborted"@, 1),
        clear_answer(true, None) == line("history cleared"@, 0),
        failure matches Some(e) ==> clear_answer(true, failure).code == 1 && clear_answer(
            true,
            failure,
        ).err == "clear failed: "@ + e.push('\n'),
{
    if failure is Some {
        let e = failure->Some_0;
        assert(clear_answer(true, failure).err =~= "clear failed: "@ + e.push('\n'));
    }
}

/// `book edit` without a change shows the three parts of the first bookmark of
/// the name, each on a line of its own, and fails where there is none.
pub proof fn law_bookmark_shown(alias: Seq<char>, list: Seq<Bookmark>, i: int)
    requires
        0 <= i < list.len() ==> list[i].alias@ == alias,
        forall|k: int| 0 <= k < list.len() && (k < i || i < 0) ==> (#[trigger] list[k]).alias@
            != alias,
    ensures
        0 <= i < list.len() ==> book_show_answer(alias, list).code == 0,
        0 <= i < list.len() ==> book_show_answer(alias, list).out == "alias:       "@ + alias
            + seq!['\n'] + "path:        "@ + list[i].path@ + seq!['\n'] + "description: "@
            + list[i].description@ + seq!['\n'],
        !(0 <= i < list.len()) ==> book_show_answer(alias, list).code == 1 && book_show_answer(
            alias,
            list,
        ).out.len() == 0,
{
    law_bookmark_of_name(list, alias, i);
    if 0 <= i < list.len() {
        let a = "alias:       "@ + alias;
        let b = "path:        "@ + list[i].path@;
        let c = "description: "@ + list[i].description@;
        reveal_with_fuel(render::stacked, 4);
        assert(seq![a, b, c].drop_last() =~= seq![a, b]);
        assert(seq![a, b].drop_last() =~= seq![a]);
        assert(seq![a].drop_last() =~= Seq::empty());
        assert(book_show_answer(alias, list).out =~= "alias:       "@ + alias + seq!['\n']
            + "path:        "@ + list[i].path@ + seq!['\n'] + "description: "@
            + list[i].description@ + seq!['\n']);
    }
}

/// `history` and `recent` show one line for each row that exists, in their order,
/// which begins with the visits and ends with the path.
pub proof fn law_row_lines(rows: Seq<HistoryRow>, live: Seq<bool>)
    requires
        live.len() == rows.len(),
        forall|i: int| 0 <= i < rows.len() ==> is_one_line((#[trigger] rows[i]).path@),
        forall|i: int| 0 <= i < rows.len() ==> (#[trigger] rows[i]).path@.len() > 0,
    ensures
        ({
            let shown = live_rows(rows, live);
            let lines = text::lines(rows_answer(rows, live).out);
            &&& rows_answer(rows, live).code == 0
            &&& lines.len() == shown.len()
            &&& forall|i: int|
                0 <= i < shown.len() ==> #[trigger] lines[i] == render::right_aligned(
                    render::decimal(shown[i].visits as int),
                    4,
                ) + " visits   "@ + shown[i].path@
        }),
{
    reveal_strlit(" visits   ");
    let shown = live_rows(rows, live);
    let lines = row_lines(shown);
    assert forall|i: int| 0 <= i < lines.len() implies !(#[trigger] lines[i]).contains('\n') && (
    lines[i].len() == 0 || lines[i].last() != '\r') by {
        let row = shown[i];
        law_live_rows_exist(rows, live, row);
        assert(shown.contains(row));
        let k = choose|k: int| 0 <= k < rows.len() && #[trigger] rows[k] == row && live[k];
        assert(is_one_line(rows[k].path@));
        let number = render::right_aligned(render::decimal(row.visits as int), 4);
        lemma_decimal_line(row.visits as int);
        let gap = render::spaces(4 - render::decimal(row.visits as int).len());
        lemma_line_feed(gap, render::decimal(row.visits as int));
        assert(!gap.contains('\n'));
        lemma_line_feed(number, " visits   "@);
        lemma_line_feed(number + " visits   "@, row.path@);
        assert(!" visits   "@.contains('\n'));
        assert(lines[i].last() == row.path@.last());
    }
    render::law_stacked_lines(lines);
}

/// `book list` shows one line for each bookmark, in their order, which begins
/// with its name and ends with its path.
pub proof fn law_bookmark_lines(list: Seq<Bookmark>)
    ensures
        ({
            let reply = book_list_answer(list, false);
            let lines = Seq::new(
                list.len(),
                |i: int| render::left_aligned(list[i].alias@, 20) + "  "@ + list[i].path@,
            );
            &&& reply.code == 0 && reply.err.len() == 0
            &&& reply.out == render::stacked(lines)
            &&& forall|i: int|
                0 <= i < list.len() ==> text::starts_with(#[trigger] lines[i], list[i].alias@)
            &&& forall|i: int|
                0 <= i < list.len() ==> text::ends_with(#[trigger] lines[i], list[i].path@)
        }),
{
    let lines = Seq::new(
        list.len(),
        |i: int| render::left_aligned(list[i].alias@, 20) + "  "@ + list[i].path@,
    );
    assert(lines =~= Seq::new(list.len(), |i: int| bookmark_line(list[i])));
    assert forall|i: int| 0 <= i < list.len() implies text::starts_with(
        #[trigger] lines[i],
        list[i].alias@,
    ) && text::ends_with(lines[i], list[i].path@) by {
        let s = lines[i];
        let alias = list[i].alias@;
        let path = list[i].path@;
        assert(s.subrange(0, alias.len() as int) =~= alias);
        assert(s.subrange(s.len() - path.len(), s.len() as int) =~= path);
    }
}

/// A list in JSON holds a record for each match that is shown, with its path,
/// its score and its source.
pub proof fn law_list_records(list: Seq<ScoredView>, limit: int)
    requires
        limit >= 0,
        list.len() > 0,
        limit > 0,
    ensures
        ({
            let n = if list.len() <= limit {
                list.len() as int
            } else {
                limit
            };
            list_answer(list, limit, true) == line(
                outside::pretty_json(
                    Seq::new(
                        n as nat,
                        |i: int|
                            seq![
                                ("path"@, Field::Text(list[i].path)),
                                ("score"@, Field::Number(list[i].score as i64)),
                                (
                                    "source"@,
                                    Field::Text(
                                        match list[i].source {
                                            Source::Bookmark => "bookmark"@,
                                            Source::History => "history"@,
                                        },
                                    ),
                                ),
                            ],
                    ),
                ),
                0,
            )
        }),
{
    let n = if list.len() <= limit {
        list.len() as int
    } else {
        limit
    };
    let shown = first_of(list, limit);
    let one = Seq::new(shown.len(), |i: int| list_record(shown[i]));
    let two = Seq::new(
        n as nat,
        |i: int|
            seq![
                ("path"@, Field::Text(list[i].path)),
                ("score"@, Field::Number(list[i].score as i64)),
                (
                    "source"@,
                    Field::Text(
                        match list[i].source {
                            Source::Bookmark => "bookmark"@,
                            Source::History => "history"@,
                        },
                    ),
                ),
            ],
    );
    assert forall|i: int| 0 <= i < one.len() implies one[i] == two[i] by {
        assert(shown[i] == list[i]);
        assert(one[i] =~= two[i]);
    }
    assert(one =~= two);
}

/// A dry run of `prune` names each stale path on a line, and their number.
pub proof fn law_prune_preview(stale: Seq<Seq<char>>)
    ensures
        prune_answer(stale).code == 0,
        stale.len() == 0 ==> prune_answer(stale) == line("nothing to prune"@, 0),
        stale.len() > 0 ==> prune_answer(stale).out == render::stacked(
            Seq::new(stale.len(), |i: int| "  - "@ + stale[i]),
        ) + render::stacked(
            seq![
                ""@,
                render::decimal(stale.len() as int) + (if stale.len() == 1 {
                    " stale entr"@ + "y"@
                } else {
                    " stale entr"@ + "ies"@
                }) + " total. Run without --dry-run to remove."@,
            ],
        ),
{
    if stale.len() > 0 {
        let a = Seq::new(stale.len(), |i: int| "  - "@ + stale[i]);
        let last = render::decimal(stale.len() as int) + " stale entr"@ + ending(
            stale.len() as int,
        ) + " total. Run without --dry-run to remove."@;
        let b = seq![""@, last];
        render::law_stacked(a, b, Seq::empty());
        assert(last =~= render::decimal(stale.len() as int) + (if stale.len() == 1 {
            " stale entr"@ + "y"@
        } else {
            " stale entr"@ + "ies"@
        }) + " total. Run without --dry-run to remove."@);
    }
}

/// Only `yes`, with or without blanks around it, is consent, unless it is forced.
pub proof fn law_consent(before: Seq<char>, behind: Seq<char>, answer: Seq<char>)
    requires
        text::is_blank(before),
        text::is_blank(behind),
    ensures
        is_confirmed(true, None),
        !is_confirmed(false, None),
        is_confirmed(false, Some(before + seq!['y', 'e', 's'] + behind)),
        is_confirmed(false, Some(answer)) ==> text::trim(answer) == seq!['y', 'e', 's'],
{
    reveal_strlit("yes");
    assert("yes"@ =~= seq!['y', 'e', 's']);
    text::law_trimmed(before, seq!['y', 'e', 's'], behind);
}

/// `init` prints the script of the shell that is named, or else detected, and
/// refuses where there is none. With `--verify` it reports, and fails where no
/// shell was detected.
pub proof fn law_init_prints(
    shell: Option<Seq<char>>,
    verify: bool,
    variable: Option<Seq<char>>,
    name: Seq<char>,
)
    ensures
        !verify && shell == Some(name) && init::is_known(name) ==> init_answer(
            shell,
            verify,
            variable,
        ).code == 0 && Some(init_answer(shell, verify, variable).out) == init::script(name),
        !verify && shell == Some(name) && !init::is_known(name) ==> init_answer(
            shell,
            verify,
            variable,
        ).code == 2 && init_answer(shell, verify, variable).out.len() == 0,
        !verify && shell is None ==> init_answer(shell, verify, variable) == init_answer(
            init::detected(variable),
            verify,
            variable,
        ),
        verify ==> (init_answer(shell, verify, variable).code == 0 <==> init::detected(
            variable,
        ) is Some),
        verify ==> (init_answer(shell, verify, variable).code == 1 <==> init::detected(
            variable,
        ) is None),
        verify ==> init_answer(shell, verify, variable).err.len() == 0,
{
    init::law_known_has_script(name);
}

/// What a reply prints of a path is the path and a line end, and nothing else.
pub proof fn law_path_printed(path: Seq<char>)
    ensures
        jump_answer(Some(path), false).out == path.push('\n'),
        jump_answer(Some(path), true).out == path.push('\n'),
        resolve_answer(Some(path)).out == path.push('\n'),
        previous_answer(Some(path)).out == path.push('\n'),
        resolve_answer(Some(path)).code == 0,
        previous_answer(Some(path)).code == 0,
        resolve_answer(None).code == 1 && resolve_answer(None).out.len() == 0,
        previous_answer(None).code == 1 && previous_answer(None).out.len() == 0,
{
}

/// A removal succeeds exactly where something was removed; forgetting by a query
/// always does.
pub proof fn law_removals(path: Seq<char>, removed: Result<usize, Seq<char>>)
    ensures
        remove_answer(path, removed).code == 0 <==> (removed matches Ok(n) && n > 0),
        book_remove_answer(path, removed).code == 0 <==> (removed matches Ok(n) && n > 0),
        book_edit_answer(path, removed).code == 0 <==> (removed matches Ok(n) && n > 0),
        forget_pick_answer(Some(path), removed).code == 0 <==> (removed matches Ok(n) && n > 0),
        forget_answer(path, removed).code == 0,
        forget_pick_answer(None, removed) == silence(1),
        (removed matches Ok(n) && n > 0) ==> book_remove_answer(path, removed) == silence(0)
            && book_edit_answer(path, removed) == silence(0) && remove_answer(path, removed)
            == line("removed: "@ + path, 0) && forget_answer(path, removed) == line(
            "forgot: "@ + path,
            0,
        ) && forget_pick_answer(Some(path), removed) == line("forgot: "@ + path, 0),
        (removed matches Ok(n) && n == 0) ==> book_remove_answer(path, removed).err
            == "no such bookmark: "@ + path + seq!['\n'] && book_edit_answer(path, removed).err
            == "no such bookmark: "@ + path + seq!['\n'] && remove_answer(path, removed).out
            == "not found in history: "@ + path + seq!['\n'] && forget_answer(path, removed).out
            == "not found in history: "@ + path + seq!['\n'] && forget_pick_answer(
            Some(path),
            removed,
        ).err == "not found in history: "@ + path + seq!['\n'],
        removed matches Err(why) ==> remove_answer(path, removed).code == 1
            && book_remove_answer(path, removed).code == 1 && book_edit_answer(path, removed).code
            == 1 && text::ends_with(remove_answer(path, removed).err, why.push('\n'))
            && text::ends_with(book_remove_answer(path, removed).err, why.push('\n'))
            && text::ends_with(book_edit_answer(path, removed).err, why.push('\n'))
            && text::ends_with(forget_answer(path, removed).err, why.push('\n')),
{
    assert("no such bookmark: "@ + path + seq!['\n'] =~= ("no such bookmark: "@ + path).push('\n'));
    assert("not found in history: "@ + path + seq!['\n'] =~= ("not found in history: "@
        + path).push('\n'));
    if removed is Err {
        let end = removed->Err_0.push('\n');
        let a = remove_answer(path, removed).err;
        let b = book_remove_answer(path, removed).err;
        let c = book_edit_answer(path, removed).err;
        let d = forget_answer(path, removed).err;
        assert(a.subrange(a.len() - end.len(), a.len() as int) =~= end);
        assert(b.subrange(b.len() - end.len(), b.len() as int) =~= end);
        assert(c.subrange(c.len() - end.len(), c.len() as int) =~= end);
        assert(d.subrange(d.len() - end.len(), d.len() as int) =~= end);
    }
}

/// On its way `prune` tells how many of how many rows it has checked, and nothing
/// where it is to be quiet or there are none.
pub proof fn law_prune_progress(done: int, total: int, quiet: bool)
    ensures
        prune_told(done, total, quiet) is Some <==> !quiet && total > 0,
        prune_told(done, total, quiet) matches Some(s) ==> text::ends_with(
            s,
            render::decimal(done) + " / "@ + render::decimal(total),
        ) && text::trim_start(s) == text::trim_start(
            render::decimal(done) + " / "@ + render::decimal(total),
        ),
{
    if prune_told(done, total, quiet) is Some {
        let s = prune_told(done, total, quiet)->Some_0;
        let end = render::decimal(done) + " / "@ + render::decimal(total);
        assert(s.subrange(s.len() - end.len(), s.len() as int) =~= end);
        reveal_strlit("  ");
        reveal_with_fuel(text::trim_start, 3);
        assert(text::is_white(' '));
        assert(s.drop_first().drop_first() =~= end);
    }
}

} // verus!
