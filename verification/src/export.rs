//! Export of the history and the bookmarks as text.

use vstd::prelude::*;
use vstd::string::StringExecFns;

use crate::rank::Bookmark;
use crate::render;
use crate::report;
use crate::report::Reply;
use crate::text;

verus! {

/// A directory of the history as it is exported, with the time of its last
/// visit written out.
#[derive(Clone, Debug, PartialEq, Eq)]
pub struct ExportRow {
    pub path: String,
    pub visits: i32,
    pub last_visited: String,
    pub is_git_repo: bool,
}

// ---------------------------------------------------------------------------
// CSV
// ---------------------------------------------------------------------------

/// Whether a character makes a field need quotes.
pub open spec fn is_special(c: char) -> bool {
    c == ',' || c == '"' || c == '\n' || c == '\r'
}

/// Whether a field needs quotes.
pub open spec fn needs_quotes(s: Seq<char>) -> bool {
    exists|i: int| 0 <= i < s.len() && is_special(#[trigger] s[i])
}

/// The text with each quote doubled.
pub open spec fn doubled(s: Seq<char>) -> Seq<char>
    decreases s.len(),
{
    if s.len() == 0 {
        Seq::empty()
    } else if s[0] == '"' {
        seq!['"', '"'] + doubled(s.drop_first())
    } else {
        seq![s[0]] + doubled(s.drop_first())
    }
}

/// The text as a field: in quotes, with those inside doubled, where it needs
/// them, else as it is.
pub open spec fn field(s: Seq<char>) -> Seq<char> {
    if needs_quotes(s) {
        seq!['"'] + doubled(s) + seq!['"']
    } else {
        s
    }
}

/// Escapes a field for CSV output: quotes it and doubles any embedded quotes.
pub fn csv_field(s: &str) -> (r: String)
    ensures
        r@ == field(s@),
{
    let chars: Vec<char> = text::chars_of(s);
    let n: usize = chars.len();
    let mut special: bool = false;
    for i in 0..n
        invariant
            n == chars@.len(),
            special <==> exists|k: int| 0 <= k < i && is_special(#[trigger] chars@[k]),
    {
        let c: char = chars[i];
        if c == ',' || c == '"' || c == '\n' || c == '\r' {
            assert(is_special(chars@[i as int]));
            special = true;
        }
    }
    if !special {
        return s.to_string();
    }
    let mut r: String = String::new();
    r.push('"');
    assert(chars@.skip(0) =~= s@);
    assert(r@ + doubled(s@) =~= seq!['"'] + doubled(s@));
    for i in 0..n
        invariant
            n == chars@.len(),
            chars@ == s@,
            r@ + doubled(chars@.skip(i as int)) == seq!['"'] + doubled(s@),
    {
        let ghost rest = chars@.skip(i as int);
        let ghost before = r@;
        let c: char = chars[i];
        proof {
            assert(rest[0] == c);
            assert(rest.drop_first() =~= chars@.skip(i + 1));
        }
        if c == '"' {
            r.push('"');
        }
        r.push(c);
        assert(r@ + doubled(chars@.skip(i + 1)) =~= before + doubled(rest));
    }
    assert(chars@.skip(n as int) =~= Seq::empty());
    assert(r@ + Seq::<char>::empty() =~= r@);
    r.push('"');
    r
}

/// The line of a row.
pub open spec fn csv_row(row: ExportRow) -> Seq<char> {
    field(row.path@) + ","@ + render::decimal(row.visits as int) + ","@ + row.last_visited@
        + ",false,,"@
}

/// The line of a bookmark. It counts no visits.
pub open spec fn csv_bookmark(b: Bookmark) -> Seq<char> {
    field(b.path@) + ",0,0,true,"@ + field(b.alias@) + ","@ + field(b.description@)
}

/// The lines of the history and the bookmarks, below a header.
pub open spec fn csv_lines(rows: Seq<ExportRow>, bookmarks: Seq<Bookmark>) -> Seq<Seq<char>> {
    seq!["path,visits,last_visited,is_bookmark,alias,description"@] + Seq::new(
        rows.len(),
        |i: int| csv_row(rows[i]),
    ) + Seq::new(bookmarks.len(), |i: int| csv_bookmark(bookmarks[i]))
}

/// The history and the bookmarks as CSV.
fn csv_text(rows: &Vec<ExportRow>, bookmarks: &Vec<Bookmark>) -> (r: String)
    ensures
        r@ == render::stacked(csv_lines(rows@, bookmarks@)),
{
    let ghost head = seq!["path,visits,last_visited,is_bookmark,alias,description"@];
    let ghost one = Seq::new(rows@.len(), |i: int| csv_row(rows@[i]));
    let ghost two = Seq::new(bookmarks@.len(), |i: int| csv_bookmark(bookmarks@[i]));
    let mut lines: Vec<String> = Vec::new();
    lines.push("path,visits,last_visited,is_bookmark,alias,description".to_string());
    assert(text::views(lines@) =~= head + one.take(0));
    for i in 0..rows.len()
        invariant
            one == Seq::new(rows@.len(), |i: int| csv_row(rows@[i])),
            text::views(lines@) == head + one.take(i as int),
    {
        let ghost before = lines@;
        let mut s: String = csv_field(rows[i].path.as_str());
        s.append(",");
        render::push_decimal(&mut s, rows[i].visits as i64);
        s.append(",");
        s.append(rows[i].last_visited.as_str());
        s.append(",false,,");
        lines.push(s);
        proof {
            text::lemma_views_push(before, lines@.last());
            assert(head + one.take(i + 1) =~= (head + one.take(i as int)).push(one[i as int]));
        }
    }
    assert(one.take(rows@.len() as int) =~= one);
    assert(text::views(lines@) =~= head + one + two.take(0));
    for i in 0..bookmarks.len()
        invariant
            two == Seq::new(bookmarks@.len(), |i: int| csv_bookmark(bookmarks@[i])),
            text::views(lines@) == head + one + two.take(i as int),
    {
        let ghost before = lines@;
        let mut s: String = csv_field(bookmarks[i].path.as_str());
        s.append(",0,0,true,");
        s.append(csv_field(bookmarks[i].alias.as_str()).as_str());
        s.append(",");
        s.append(csv_field(bookmarks[i].description.as_str()).as_str());
        lines.push(s);
        proof {
            text::lemma_views_push(before, lines@.last());
            assert(head + one + two.take(i + 1) =~= (head + one + two.take(i as int)).push(
                two[i as int],
            ));
        }
    }
    assert(two.take(bookmarks@.len() as int) =~= two);
    render::stack(&lines)
}

// ---------------------------------------------------------------------------
// TSV
// ---------------------------------------------------------------------------

/// The line of a row.
pub open spec fn tsv_row(row: ExportRow) -> Seq<char> {
    "history\t"@ + row.path@ + "\t"@ + render::decimal(row.visits as int) + "\t"@
        + row.last_visited@ + "\t"@ + (if row.is_git_repo {
        "true"@
    } else {
        "false"@
    })
}

/// The line of a bookmark.
pub open spec fn tsv_bookmark(b: Bookmark) -> Seq<char> {
    "bookmark\t"@ + b.alias@ + ":"@ + b.path@ + "\t0\t0\tfalse\t"@ + b.description@
}

/// The lines of the history and the bookmarks.
pub open spec fn tsv_lines(rows: Seq<ExportRow>, bookmarks: Seq<Bookmark>) -> Seq<Seq<char>> {
    Seq::new(rows.len(), |i: int| tsv_row(rows[i])) + Seq::new(
        bookmarks.len(),
        |i: int| tsv_bookmark(bookmarks[i]),
    )
}

/// The history and the bookmarks as TSV.
fn tsv_text(rows: &Vec<ExportRow>, bookmarks: &Vec<Bookmark>) -> (r: String)
    ensures
        r@ == render::stacked(tsv_lines(rows@, bookmarks@)),
{
    let ghost one = Seq::new(rows@.len(), |i: int| tsv_row(rows@[i]));
    let ghost two = Seq::new(bookmarks@.len(), |i: int| tsv_bookmark(bookmarks@[i]));
    let mut lines: Vec<String> = Vec::new();
    assert(text::views(lines@) =~= one.take(0));
    for i in 0..rows.len()
        invariant
            one == Seq::new(rows@.len(), |i: int| tsv_row(rows@[i])),
            text::views(lines@) == one.take(i as int),
    {
        let ghost before = lines@;
        let mut s: String = "history\t".to_string();
        s.append(rows[i].path.as_str());
        s.append("\t");
        render::push_decimal(&mut s, rows[i].visits as i64);
        s.append("\t");
        s.append(rows[i].last_visited.as_str());
        s.append("\t");
        if rows[i].is_git_repo {
            s.append("true");
        } else {
            s.append("false");
        }
        lines.push(s);
        proof {
            text::lemma_views_push(before, lines@.last());
            assert(one.take(i + 1) =~= one.take(i as int).push(one[i as int]));
        }
    }
    assert(one.take(rows@.len() as int) =~= one);
    assert(text::views(lines@) =~= one + two.take(0));
    for i in 0..bookmarks.len()
        invariant
            two == Seq::new(bookmarks@.len(), |i: int| tsv_bookmark(bookmarks@[i])),
            text::views(lines@) == one + two.take(i as int),
    {
        let ghost before = lines@;
        let mut s: String = "bookmark\t".to_string();
        s.append(bookmarks[i].alias.as_str());
        s.append(":");
        s.append(bookmarks[i].path.as_str());
        s.append("\t0\t0\tfalse\t");
        s.append(bookmarks[i].description.as_str());
        lines.push(s);
        proof {
            text::lemma_views_push(before, lines@.last());
            assert(one + two.take(i + 1) =~= (one + two.take(i as int)).push(two[i as int]));
        }
    }
    assert(two.take(bookmarks@.len() as int) =~= two);
    render::stack(&lines)
}

// ---------------------------------------------------------------------------
// Any format
// ---------------------------------------------------------------------------

/// The answer to `export`, but for JSON.
pub open spec fn export_answer(
    format: Seq<char>,
    rows: Seq<ExportRow>,
    bookmarks: Seq<Bookmark>,
) -> Option<report::ReplyView> {
    if format == "json"@ {
        None
    } else if format == "csv"@ {
        Some(
            report::ReplyView {
                out: render::stacked(csv_lines(rows, bookmarks)),
                err: Seq::empty(),
                code: 0,
            },
        )
    } else if format == "tsv"@ {
        Some(
            report::ReplyView {
                out: render::stacked(tsv_lines(rows, bookmarks)),
                err: Seq::empty(),
                code: 0,
            },
        )
    } else {
        Some(
            report::complaint("unknown format '"@ + format + "': use json, csv, or tsv"@, 2),
        )
    }
}

/// The answer to `export`. There is none for JSON, whose numbers of seconds have
/// fractions: that is left to the caller.
pub fn export_reply(format: &str, rows: &Vec<ExportRow>, bookmarks: &Vec<Bookmark>) -> (r: Option<
    Reply,
>)
    ensures
        r is Some == export_answer(format@, rows@, bookmarks@) is Some,
        r matches Some(reply) ==> export_answer(format@, rows@, bookmarks@) == Some(reply@),
{
    if text::same_text(format, "json") {
        None
    } else if text::same_text(format, "csv") {
        Some(Reply { out: csv_text(rows, bookmarks), err: String::new(), code: 0 })
    } else if text::same_text(format, "tsv") {
        Some(Reply { out: tsv_text(rows, bookmarks), err: String::new(), code: 0 })
    } else {
        let mut err: String = "unknown format '".to_string();
        err.append(format);
        err.append("': use json, csv, or tsv");
        err.push('\n');
        Some(Reply { out: String::new(), err, code: 2 })
    }
}

// ---------------------------------------------------------------------------
// Laws
// ---------------------------------------------------------------------------

/// What is read of a quoted field up to its closing quote, and what is left
/// behind that.
pub open spec fn read_quoted(s: Seq<char>) -> (Seq<char>, Seq<char>)
    decreases s.len(),
{
    if s.len() == 0 {
        (Seq::empty(), Seq::empty())
    } else if s[0] == '"' {
        if s.len() > 1 && s[1] == '"' {
            let (value, rest) = read_quoted(s.skip(2));
            (seq!['"'] + value, rest)
        } else {
            (Seq::empty(), s.drop_first())
        }
    } else {
        let (value, rest) = read_quoted(s.drop_first());
        (seq![s[0]] + value, rest)
    }
}

/// How many characters stand before the first comma or line end.
pub open spec fn plain_len(s: Seq<char>) -> nat
    decreases s.len(),
{
    if s.len() == 0 || s[0] == ',' || s[0] == '\n' {
        0
    } else {
        1 + plain_len(s.drop_first())
    }
}

/// The first field of a text as a reader of CSV takes it, and what is left behind
/// it. A field in quotes may hold commas and line ends.
pub open spec fn read_field(s: Seq<char>) -> (Seq<char>, Seq<char>) {
    if s.len() > 0 && s[0] == '"' {
        read_quoted(s.drop_first())
    } else {
        (s.take(plain_len(s) as int), s.skip(plain_len(s) as int))
    }
}

/// The fields of the first record of a text, and what is left behind the end of
/// its line.
pub open spec fn read_record(s: Seq<char>) -> (Seq<Seq<char>>, Seq<char>)
    decreases s.len(),
{
    let (value, rest) = read_field(s);
    if rest.len() == 0 || rest.len() > s.len() {
        (seq![value], Seq::empty())
    } else if rest[0] == ',' {
        let (more, last) = read_record(rest.drop_first());
        (seq![value] + more, last)
    } else {
        (seq![value], rest.drop_first())
    }
}

/// The records of a text as a reader of CSV takes them.
pub open spec fn read_csv(s: Seq<char>) -> Seq<Seq<Seq<char>>>
    decreases s.len(),
{
    if s.len() == 0 {
        Seq::empty()
    } else {
        let (record, rest) = read_record(s);
        if rest.len() < s.len() {
            seq![record] + read_csv(rest)
        } else {
            seq![record]
        }
    }
}

proof fn lemma_read_doubled(s: Seq<char>, tail: Seq<char>)
    requires
        tail.len() == 0 || tail[0] != '"',
    ensures
        read_quoted(doubled(s) + seq!['"'] + tail) == (s, tail),
    decreases s.len(),
{
    let all = doubled(s) + seq!['"'] + tail;
    if s.len() == 0 {
        assert(all.drop_first() =~= tail);
        assert(all[0] == '"');
        assert(Seq::<char>::empty() =~= s);
    } else {
        let rest = doubled(s.drop_first()) + seq!['"'] + tail;
        lemma_read_doubled(s.drop_first(), tail);
        assert(seq![s[0]] + s.drop_first() =~= s);
        if s[0] == '"' {
            assert(all =~= seq!['"', '"'] + rest);
            assert(all.skip(2) =~= rest);
        } else {
            assert(all =~= seq![s[0]] + rest);
            assert(all.drop_first() =~= rest);
        }
    }
}

proof fn lemma_plain_len(s: Seq<char>, tail: Seq<char>)
    requires
        !needs_quotes(s),
        tail.len() == 0 || tail[0] == ',' || tail[0] == '\n',
    ensures
        plain_len(s + tail) == s.len(),
    decreases s.len(),
{
    let all = s + tail;
    if s.len() == 0 {
        assert(all =~= tail);
    } else {
        assert(!is_special(s[0]));
        assert(all.drop_first() =~= s.drop_first() + tail);
        assert forall|i: int| 0 <= i < s.drop_first().len() implies !is_special(
            #[trigger] s.drop_first()[i],
        ) by {
            assert(!is_special(s[i + 1]));
        }
        lemma_plain_len(s.drop_first(), tail);
    }
}

/// A reader of CSV gets back a field that was written, whatever the text holds:
/// at the end, before a comma and before the end of a line.
pub proof fn law_csv_field_read_back(s: Seq<char>, tail: Seq<char>)
    requires
        tail.len() == 0 || tail[0] == ',' || tail[0] == '\n',
    ensures
        read_field(field(s) + tail) == (s, tail),
{
    let all = field(s) + tail;
    if needs_quotes(s) {
        lemma_read_doubled(s, tail);
        assert(all.drop_first() =~= doubled(s) + seq!['"'] + tail);
    } else {
        lemma_plain_len(s, tail);
        if all.len() > 0 && all[0] == '"' {
            assert(is_special(s[0]));
        }
        assert(all.take(s.len() as int) =~= s);
        assert(all.skip(s.len() as int) =~= tail);
    }
}

/// Whether a reader of CSV takes a line as this record, whatever stands on the
/// lines behind it.
pub open spec fn reads_as(line: Seq<char>, record: Seq<Seq<char>>) -> bool {
    forall|rest: Seq<char>| #[trigger]
        read_record(line + seq!['\n'] + rest) == (record, rest)
}

/// A field before a record that is read back.
proof fn lemma_read_next(s: Seq<char>, line: Seq<char>, record: Seq<Seq<char>>)
    requires
        reads_as(line, record),
    ensures
        reads_as(field(s) + seq![','] + line, seq![s] + record),
{
    assert forall|rest: Seq<char>| #[trigger]
        read_record(field(s) + seq![','] + line + seq!['\n'] + rest) == (seq![s] + record, rest) by {
        let all = field(s) + seq![','] + line + seq!['\n'] + rest;
        let more = line + seq!['\n'] + rest;
        let tail = seq![','] + more;
        assert(all =~= field(s) + tail);
        assert(tail.drop_first() =~= more);
        law_csv_field_read_back(s, tail);
        assert(read_record(more) == (record, rest));
    }
}

/// The last field of a record.
proof fn lemma_read_last(s: Seq<char>)
    ensures
        reads_as(field(s), seq![s]),
{
    assert forall|rest: Seq<char>| #[trigger]
        read_record(field(s) + seq!['\n'] + rest) == (seq![s], rest) by {
        let tail = seq!['\n'] + rest;
        assert(field(s) + seq!['\n'] + rest =~= field(s) + tail);
        assert(tail.drop_first() =~= rest);
        law_csv_field_read_back(s, tail);
    }
}

/// The record of a bookmark.
pub open spec fn bookmark_record(b: Bookmark) -> Seq<Seq<char>> {
    seq![b.path@, "0"@, "0"@, "true"@, b.alias@, b.description@]
}

/// The record of a row.
pub open spec fn row_record(row: ExportRow) -> Seq<Seq<char>> {
    seq![
        row.path@,
        render::decimal(row.visits as int),
        row.last_visited@,
        "false"@,
        ""@,
        ""@,
    ]
}

/// The names of the fields.
pub open spec fn header_record() -> Seq<Seq<char>> {
    seq!["path"@, "visits"@, "last_visited"@, "is_bookmark"@, "alias"@, "description"@]
}

/// A reader of CSV gets back the name, the path and the description of a
/// bookmark, whatever they hold.
pub proof fn law_csv_bookmark_read_back(b: Bookmark)
    ensures
        reads_as(csv_bookmark(b), bookmark_record(b)),
{
    reveal_strlit(",0,0,true,");
    reveal_strlit(",");
    reveal_strlit("0");
    reveal_strlit("true");
    let comma = seq![','];
    let r5 = field(b.description@);
    let r4 = field(b.alias@) + comma + r5;
    let r3 = field("true"@) + comma + r4;
    let r2 = field("0"@) + comma + r3;
    let r1 = field("0"@) + comma + r2;
    let r0 = field(b.path@) + comma + r1;
    assert(!needs_quotes("0"@));
    assert(!needs_quotes("true"@));
    assert("0"@ =~= seq!['0']);
    assert("true"@ =~= seq!['t', 'r', 'u', 'e']);
    assert(csv_bookmark(b) =~= r0);
    let f5 = seq![b.description@];
    let f4 = seq![b.alias@] + f5;
    let f3 = seq!["true"@] + f4;
    let f2 = seq!["0"@] + f3;
    let f1 = seq!["0"@] + f2;
    lemma_read_last(b.description@);
    lemma_read_next(b.alias@, r5, f5);
    lemma_read_next("true"@, r4, f4);
    lemma_read_next("0"@, r3, f3);
    lemma_read_next("0"@, r2, f2);
    lemma_read_next(b.path@, r1, f1);
    assert(bookmark_record(b) =~= seq![b.path@] + f1);
}

/// A number written out needs no quotes.
proof fn lemma_decimal_plain(n: int)
    ensures
        !needs_quotes(render::decimal(n)),
{
    lemma_digits_plain((if n < 0 {
        -n
    } else {
        n
    }) as nat);
    let s = render::decimal(n);
    assert forall|i: int| 0 <= i < s.len() implies !is_special(#[trigger] s[i]) by {
        let d = render::digits((if n < 0 {
            -n
        } else {
            n
        }) as nat);
        if n < 0 {
            if i > 0 {
                assert(s[i] == d[i - 1]);
            }
        } else {
            assert(s[i] == d[i]);
        }
    }
}

proof fn lemma_digits_plain(n: nat)
    ensures
        forall|i: int|
            0 <= i < render::digits(n).len() ==> !is_special(#[trigger] render::digits(n)[i]),
    decreases n,
{
    let last = render::digit(n % 10);
    assert(last as nat == 48 + n % 10);
    assert(!is_special(last));
    if n >= 10 {
        lemma_digits_plain(n / 10);
        let init = render::digits(n / 10);
        assert forall|i: int| 0 <= i < render::digits(n).len() implies !is_special(
            #[trigger] render::digits(n)[i],
        ) by {
            if i < init.len() {
                assert(render::digits(n)[i] == init[i]);
            }
        }
    }
}

/// A reader of CSV gets back the path, the visits and the last visit of a row,
/// whatever the path holds.
pub proof fn law_csv_row_read_back(row: ExportRow)
    requires
        !needs_quotes(row.last_visited@),
    ensures
        reads_as(csv_row(row), row_record(row)),
{
    reveal_strlit(",false,,");
    reveal_strlit(",");
    reveal_strlit("false");
    reveal_strlit("");
    let comma = seq![','];
    let visits = render::decimal(row.visits as int);
    let r5 = field(""@);
    let r4 = field(""@) + comma + r5;
    let r3 = field("false"@) + comma + r4;
    let r2 = field(row.last_visited@) + comma + r3;
    let r1 = field(visits) + comma + r2;
    let r0 = field(row.path@) + comma + r1;
    lemma_decimal_plain(row.visits as int);
    assert(!needs_quotes(""@));
    assert(!needs_quotes("false"@));
    assert("false"@ =~= seq!['f', 'a', 'l', 's', 'e']);
    assert(""@ =~= Seq::empty());
    assert(csv_row(row) =~= r0);
    let f5 = seq![""@];
    let f4 = seq![""@] + f5;
    let f3 = seq!["false"@] + f4;
    let f2 = seq![row.last_visited@] + f3;
    let f1 = seq![visits] + f2;
    lemma_read_last(""@);
    lemma_read_next(""@, r5, f5);
    lemma_read_next("false"@, r4, f4);
    lemma_read_next(row.last_visited@, r3, f3);
    lemma_read_next(visits, r2, f2);
    lemma_read_next(row.path@, r1, f1);
    assert(row_record(row) =~= seq![row.path@] + f1);
}

/// The header is read back as the names of the fields.
proof fn lemma_header_read_back()
    ensures
        reads_as("path,visits,last_visited,is_bookmark,alias,description"@, header_record()),
{
    reveal_strlit("path,visits,last_visited,is_bookmark,alias,description");
    reveal_strlit("path");
    reveal_strlit("visits");
    reveal_strlit("last_visited");
    reveal_strlit("is_bookmark");
    reveal_strlit("alias");
    reveal_strlit("description");
    let comma = seq![','];
    assert(!needs_quotes("path"@));
    assert(!needs_quotes("visits"@));
    assert(!needs_quotes("last_visited"@));
    assert(!needs_quotes("is_bookmark"@));
    assert(!needs_quotes("alias"@));
    assert(!needs_quotes("description"@));
    let r5 = field("description"@);
    let r4 = field("alias"@) + comma + r5;
    let r3 = field("is_bookmark"@) + comma + r4;
    let r2 = field("last_visited"@) + comma + r3;
    let r1 = field("visits"@) + comma + r2;
    let r0 = field("path"@) + comma + r1;
    assert("path,visits,last_visited,is_bookmark,alias,description"@ =~= r0);
    let f5 = seq!["description"@];
    let f4 = seq!["alias"@] + f5;
    let f3 = seq!["is_bookmark"@] + f4;
    let f2 = seq!["last_visited"@] + f3;
    let f1 = seq!["visits"@] + f2;
    lemma_read_last("description"@);
    lemma_read_next("alias"@, r5, f5);
    lemma_read_next("is_bookmark"@, r4, f4);
    lemma_read_next("last_visited"@, r3, f3);
    lemma_read_next("visits"@, r2, f2);
    lemma_read_next("path"@, r1, f1);
    assert(header_record() =~= seq!["path"@] + f1);
}

/// Lines that are read back one by one are so in a row.
proof fn lemma_lines_read_back(lines: Seq<Seq<char>>, records: Seq<Seq<Seq<char>>>)
    requires
        lines.len() == records.len(),
        forall|i: int| 0 <= i < lines.len() ==> reads_as(#[trigger] lines[i], records[i]),
    ensures
        read_csv(render::stacked(lines)) == records,
    decreases lines.len(),
{
    let all = render::stacked(lines);
    if lines.len() == 0 {
        assert(read_csv(all) =~= records);
    } else {
        let rest = render::stacked(lines.drop_first());
        render::lemma_stacked_first(lines);
        assert(all == lines[0] + seq!['\n'] + rest);
        assert(reads_as(lines[0], records[0]));
        assert(read_record(lines[0] + seq!['\n'] + rest) == (records[0], rest));
        lemma_lines_read_back(lines.drop_first(), records.drop_first());
        assert(read_csv(all) =~= seq![records[0]] + records.drop_first());
        assert(read_csv(all) =~= records);
    }
}

/// The records of an export: the names of the fields, the rows and the bookmarks.
pub open spec fn csv_records(rows: Seq<ExportRow>, bookmarks: Seq<Bookmark>) -> Seq<
    Seq<Seq<char>>,
> {
    seq![header_record()] + Seq::new(rows.len(), |i: int| row_record(rows[i])) + Seq::new(
        bookmarks.len(),
        |i: int| bookmark_record(bookmarks[i]),
    )
}

/// A reader of CSV gets back the whole of an export: the header, and the records
/// of all rows and bookmarks in their order, whatever paths, names and
/// descriptions hold, line ends among it. A time that is written out is a number
/// and needs no quotes.
pub proof fn law_csv_read_back(rows: Seq<ExportRow>, bookmarks: Seq<Bookmark>)
    requires
        forall|i: int| 0 <= i < rows.len() ==> !needs_quotes((#[trigger] rows[i]).last_visited@),
    ensures
        read_csv(render::stacked(csv_lines(rows, bookmarks))) == csv_records(rows, bookmarks),
{
    let lines = csv_lines(rows, bookmarks);
    let records = csv_records(rows, bookmarks);
    lemma_header_read_back();
    assert forall|i: int| 0 <= i < lines.len() implies reads_as(#[trigger] lines[i], records[i]) by {
        if i == 0 {
        } else if i < 1 + rows.len() {
            assert(!needs_quotes(rows[i - 1].last_visited@));
            law_csv_row_read_back(rows[i - 1]);
            assert(lines[i] == csv_row(rows[i - 1]));
            assert(records[i] == row_record(rows[i - 1]));
        } else {
            let k = i - 1 - rows.len();
            law_csv_bookmark_read_back(bookmarks[k]);
            assert(lines[i] == csv_bookmark(bookmarks[k]));
            assert(records[i] == bookmark_record(bookmarks[k]));
        }
    }
    lemma_lines_read_back(lines, records);
}

proof fn lemma_five_joined(
    a: Seq<char>,
    b: Seq<char>,
    c: Seq<char>,
    d: Seq<char>,
    e: Seq<char>,
    sep: Seq<char>,
)
    ensures
        render::joined(seq![a, b, c, d, e], sep) == a + sep + b + sep + c + sep + d + sep + e,
{
    reveal_with_fuel(render::joined, 6);
    let list = seq![a, b, c, d, e];
    assert(list.drop_last() =~= seq![a, b, c, d]);
    assert(seq![a, b, c, d].drop_last() =~= seq![a, b, c]);
    assert(seq![a, b, c].drop_last() =~= seq![a, b]);
    assert(seq![a, b].drop_last() =~= seq![a]);
    assert(render::joined(seq![a], sep) =~= a);
    assert(render::joined(seq![a, b], sep) =~= a + sep + b);
    assert(render::joined(seq![a, b, c], sep) =~= a + sep + b + sep + c);
    assert(render::joined(seq![a, b, c, d], sep) =~= a + sep + b + sep + c + sep + d);
}

/// The columns of a row in TSV: what it is, its path, visits and last visit, and
/// whether it holds a repository.
pub proof fn law_tsv_row(row: ExportRow)
    ensures
        tsv_row(row) == render::joined(
            seq![
                "history"@,
                row.path@,
                render::decimal(row.visits as int),
                row.last_visited@,
                if row.is_git_repo {
                    "true"@
                } else {
                    "false"@
                },
            ],
            seq!['\t'],
        ),
{
    reveal_strlit("history\t");
    reveal_strlit("history");
    reveal_strlit("\t");
    let tab = seq!['\t'];
    assert("history\t"@ =~= "history"@ + tab);
    assert("\t"@ =~= tab);
    let last = if row.is_git_repo {
        "true"@
    } else {
        "false"@
    };
    lemma_five_joined(
        "history"@,
        row.path@,
        render::decimal(row.visits as int),
        row.last_visited@,
        last,
        tab,
    );
}

/// The columns of a bookmark in TSV: what it is, its name and path, no visits,
/// no last visit, no repository, and its description.
pub proof fn law_tsv_bookmark(b: Bookmark)
    ensures
        tsv_bookmark(b) == render::joined(
            seq!["bookmark"@, b.alias@ + ":"@ + b.path@, "0"@, "0"@, "false"@],
            seq!['\t'],
        ) + seq!['\t'] + b.description@,
{
    reveal_strlit("bookmark\t");
    reveal_strlit("bookmark");
    reveal_strlit("\t0\t0\tfalse\t");
    reveal_strlit("0");
    reveal_strlit("false");
    let tab = seq!['\t'];
    assert("bookmark\t"@ =~= "bookmark"@ + tab);
    assert("\t0\t0\tfalse\t"@ =~= tab + "0"@ + tab + "0"@ + tab + "false"@ + tab);
    let name = b.alias@ + ":"@ + b.path@;
    lemma_five_joined("bookmark"@, name, "0"@, "0"@, "false"@, tab);
    assert(tsv_bookmark(b) =~= "bookmark"@ + tab + name + tab + "0"@ + tab + "0"@ + tab + "false"@
        + tab + b.description@);
}

/// An export holds a line for each row and then one for each bookmark, in CSV
/// below a header. JSON is none of these two, and any other format is refused.
pub proof fn law_export_formats(
    format: Seq<char>,
    rows: Seq<ExportRow>,
    bookmarks: Seq<Bookmark>,
    i: int,
)
    ensures
        export_answer("json"@, rows, bookmarks) is None,
        export_answer("tsv"@, rows, bookmarks) matches Some(reply) && reply.code == 0
            && reply.err.len() == 0 && reply.out == render::stacked(tsv_lines(rows, bookmarks)),
        export_answer("csv"@, rows, bookmarks) matches Some(reply) && reply.code == 0
            && reply.err.len() == 0 && reply.out == render::stacked(csv_lines(rows, bookmarks)),
        format != "json"@ && format != "csv"@ && format != "tsv"@ ==> (export_answer(
            format,
            rows,
            bookmarks,
        ) matches Some(reply) && reply.code == 2 && reply.out.len() == 0),
        tsv_lines(rows, bookmarks).len() == rows.len() + bookmarks.len(),
        csv_lines(rows, bookmarks).len() == 1 + rows.len() + bookmarks.len(),
        0 <= i < rows.len() ==> tsv_lines(rows, bookmarks)[i] == tsv_row(rows[i]),
        0 <= i < bookmarks.len() ==> tsv_lines(rows, bookmarks)[rows.len() + i] == tsv_bookmark(
            bookmarks[i],
        ),
{
    reveal_strlit("json");
    reveal_strlit("csv");
    reveal_strlit("tsv");
    assert("json"@.len() == 4 && "csv"@.len() == 3 && "tsv"@.len() == 3);
    assert("csv"@[0] == 'c' && "tsv"@[0] == 't');
}

/// Quotes inside a field are doubled, each of them, and nothing else changes.
pub proof fn law_quotes_doubled(a: Seq<char>, b: Seq<char>, c: char)
    ensures
        doubled(a + b) == doubled(a) + doubled(b),
        doubled(seq!['"']) == seq!['"', '"'],
        c != '"' ==> doubled(seq![c]) == seq![c],
        doubled(Seq::empty()) == Seq::<char>::empty(),
    decreases a.len(),
{
    reveal_with_fuel(doubled, 2);
    assert(seq!['"'].drop_first() =~= Seq::<char>::empty());
    assert(seq![c].drop_first() =~= Seq::<char>::empty());
    assert(seq!['"', '"'] + Seq::<char>::empty() =~= seq!['"', '"']);
    assert(seq![c] + Seq::<char>::empty() =~= seq![c]);
    if a.len() == 0 {
        assert(a + b =~= b);
        assert(doubled(a) + doubled(b) =~= doubled(b));
    } else {
        law_quotes_doubled(a.drop_first(), b, c);
        assert((a + b).drop_first() =~= a.drop_first() + b);
        assert(doubled(a + b) =~= doubled(a) + doubled(b));
    }
}

/// A field stands in quotes exactly where it holds a comma, a quote or the end of
/// a line, of either kind; else it stands as it is.
pub proof fn law_field_quoted(s: Seq<char>)
    ensures
        s.contains(',') || s.contains('"') || s.contains('\n') || s.contains('\r') ==> field(s)
            == seq!['"'] + doubled(s) + seq!['"'],
        !s.contains(',') && !s.contains('"') && !s.contains('\n') && !s.contains('\r') ==> field(s)
            == s,
{
    if s.contains(',') || s.contains('"') || s.contains('\n') || s.contains('\r') {
        let c = if s.contains(',') {
            ','
        } else if s.contains('"') {
            '"'
        } else if s.contains('\n') {
            '\n'
        } else {
            '\r'
        };
        let k = choose|k: int| 0 <= k < s.len() && s[k] == c;
        assert(is_special(s[k]));
    } else {
        assert forall|i: int| 0 <= i < s.len() implies !is_special(#[trigger] s[i]) by {
            assert(s.contains(s[i]));
        }
    }
}

} // verus!
