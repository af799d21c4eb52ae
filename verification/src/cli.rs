//! What a command line asks for.

use vstd::prelude::*;
use vstd::string::StringExecFns;

use crate::args;
use crate::import;
use crate::render;
use crate::text;

pub use crate::flow::run;
pub use crate::search::find_best;

verus! {

pub const HELP: &'static str = r#"hop — smart directory jump

Usage:
    hop <query>                  Jump to best match (prints path)
    hop -                        Previous directory (like cd -)
    hop ~/path, .., ./dir        Literal paths work like cd
    hop foo bar                  All words must match (AND)
    hop foo /                    Subdirectory of cwd starting with "foo"
    hop p|pick [query]           Same; empty query opens picker
    hop add <path>               Record a visit
    hop rm <path>                Remove from history (exact path)
    hop forget [query]           Remove from history; empty query opens picker
    hop book [alias] [path]      Set or resolve a bookmark
    hop book list [--json]       List all bookmarks
    hop book rm <alias>          Delete a bookmark
    hop book edit <alias>        Edit alias, path, or description
    hop history [n]              Top n by visits (default 20)
    hop recent [n]               Last n visited (default 20)
    hop score <query> [--json]   Show per-component score breakdown
    hop list <query> [--limit N] [--json]  List all scored matches
    hop export [--format json|csv|tsv]  Dump history/bookmarks
    hop import fasd|autojump|zoxide|zsh <file>  Import from another tool
    hop prune [--dry-run]        Remove stale (deleted) paths
    hop clear [--force]          Wipe history (prompts by default)
    hop stats                    DB stats
    hop doctor                   Diagnose setup
    hop init <bash|zsh|fish>     Emit shell integration
    hop init --shell <shell>     Same, with explicit flag
    hop init --verify            Check shell integration
    hop completions <bash|zsh|fish>  Emit tab-completion script
    hop --help                   This help
"#;

pub const INIT_USAGE: &'static str = "Usage: hop init <bash|zsh|fish> | --shell <name> | --verify";

pub const COMPLETIONS_USAGE: &'static str = "Usage: hop completions <bash|zsh|fish>";

/// What a bookmark is changed to.
#[derive(Clone, Debug, PartialEq, Eq)]
pub struct Changes<T> {
    pub alias: Option<T>,
    pub path: Option<T>,
    pub description: Option<T>,
}

impl View for Changes<String> {
    type V = Changes<Seq<char>>;

    open spec fn view(&self) -> Changes<Seq<char>> {
        Changes {
            alias: text::maybe(self.alias),
            path: text::maybe(self.path),
            description: text::maybe(self.description),
        }
    }
}

/// What a command line asks for, over exec texts or their views.
#[derive(Clone, Debug, PartialEq, Eq)]
pub enum Command<T> {
    /// Emit the integration script of a shell, or check it.
    Init { shell: Option<T>, verify: bool },
    /// Emit the completion script of a shell.
    Completions { shell: Option<T> },
    Help,
    Version,
    /// Pick a directory interactively and jump there.
    Pick,
    Jump { query: T },
    Previous,
    Add { path: T, dry_run: bool },
    Remove { path: T },
    Forget { query: T, dry_run: bool },
    /// Pick a directory interactively and forget it.
    ForgetPick,
    BookList { json: bool },
    BookRemove { alias: T },
    BookShow { alias: T },
    BookEdit { alias: T, changes: Changes<T> },
    BookSet { alias: T, path: T },
    BookResolve { alias: T },
    History { count: usize },
    Recent { count: usize },
    Score { query: T, json: bool },
    List { query: T, limit: usize, json: bool },
    Export { format: T },
    Import { source: T, file: T, dry_run: bool },
    Prune { dry_run: bool, quiet: bool },
    Clear { force: bool },
    Stats { verbose: bool },
    Doctor,
    /// Nothing can be done; the message goes to standard error.
    Refused { message: T, code: u8 },
}

impl View for Command<String> {
    type V = Command<Seq<char>>;

    open spec fn view(&self) -> Command<Seq<char>> {
        match self {
            Command::Init { shell, verify } => Command::Init {
                shell: text::maybe(*shell),
                verify: *verify,
            },
            Command::Completions { shell } => Command::Completions { shell: text::maybe(*shell) },
            Command::Help => Command::Help,
            Command::Version => Command::Version,
            Command::Pick => Command::Pick,
            Command::Jump { query } => Command::Jump { query: query@ },
            Command::Previous => Command::Previous,
            Command::Add { path, dry_run } => Command::Add { path: path@, dry_run: *dry_run },
            Command::Remove { path } => Command::Remove { path: path@ },
            Command::Forget { query, dry_run } => Command::Forget {
                query: query@,
                dry_run: *dry_run,
            },
            Command::ForgetPick => Command::ForgetPick,
            Command::BookList { json } => Command::BookList { json: *json },
            Command::BookRemove { alias } => Command::BookRemove { alias: alias@ },
            Command::BookShow { alias } => Command::BookShow { alias: alias@ },
            Command::BookEdit { alias, changes } => Command::BookEdit {
                alias: alias@,
                changes: changes@,
            },
            Command::BookSet { alias, path } => Command::BookSet { alias: alias@, path: path@ },
            Command::BookResolve { alias } => Command::BookResolve { alias: alias@ },
            Command::History { count } => Command::History { count: *count },
            Command::Recent { count } => Command::Recent { count: *count },
            Command::Score { query, json } => Command::Score { query: query@, json: *json },
            Command::List { query, limit, json } => Command::List {
                query: query@,
                limit: *limit,
                json: *json,
            },
            Command::Export { format } => Command::Export { format: format@ },
            Command::Import { source, file, dry_run } => Command::Import {
                source: source@,
                file: file@,
                dry_run: *dry_run,
            },
            Command::Prune { dry_run, quiet } => Command::Prune {
                dry_run: *dry_run,
                quiet: *quiet,
            },
            Command::Clear { force } => Command::Clear { force: *force },
            Command::Stats { verbose } => Command::Stats { verbose: *verbose },
            Command::Doctor => Command::Doctor,
            Command::Refused { message, code } => Command::Refused {
                message: message@,
                code: *code,
            },
        }
    }
}

/// A command that cannot be carried out.
pub open spec fn refusal(message: Seq<char>, code: u8) -> Command<Seq<char>> {
    Command::Refused { message, code }
}

/// A command that cannot be carried out.
fn refuse(message: &str, code: u8) -> (r: Command<String>)
    ensures
        r@ == refusal(message@, code),
{
    Command::Refused { message: message.to_string(), code }
}

// ---------------------------------------------------------------------------
// init and completions
// ---------------------------------------------------------------------------

/// The shell that the arguments of `command` name last, and whether one of them
/// is `--verify`, which only `init` knows. They follow what the arguments
/// before them said.
pub open spec fn shell_choice(
    command: Seq<char>,
    rest: Seq<Seq<char>>,
    shell: Option<Seq<char>>,
    verify: bool,
) -> Result<(Option<Seq<char>>, bool), Seq<char>>
    decreases rest.len(),
{
    if rest.len() == 0 {
        Ok((shell, verify))
    } else if command == "init"@ && rest[0] == "--verify"@ {
        shell_choice(command, rest.drop_first(), shell, true)
    } else if rest[0] == "--shell"@ {
        if rest.len() < 2 {
            Err("--shell requires an argument"@)
        } else {
            shell_choice(command, rest.skip(2), Some(rest[1]), verify)
        }
    } else if rest[0].len() > 0 && rest[0][0] == '-' {
        Err("unknown "@ + command + " flag: "@ + rest[0])
    } else {
        shell_choice(command, rest.drop_first(), Some(rest[0]), verify)
    }
}

/// Whether a text begins with a dash.
fn is_flag(s: &str) -> (r: bool)
    ensures
        r == (s@.len() > 0 && s@[0] == '-'),
{
    let chars: Vec<char> = text::chars_of(s);
    chars.len() > 0 && chars[0] == '-'
}

/// The shell that the arguments of `command` name, and whether they ask for a
/// check.
fn shell_args(command: &str, rest: &Vec<String>) -> (r: Result<(Option<String>, bool), String>)
    ensures
        match r {
            Ok((shell, verify)) => shell_choice(command@, text::views(rest@), None, false) == Ok::<
                (Option<Seq<char>>, bool),
                Seq<char>,
            >((text::maybe(shell), verify)),
            Err(message) => shell_choice(command@, text::views(rest@), None, false) == Err::<
                (Option<Seq<char>>, bool),
                Seq<char>,
            >(message@),
        },
{
    let ghost all = text::views(rest@);
    let ghost goal = shell_choice(command@, all, None, false);
    let mut shell: Option<String> = None;
    let mut verify: bool = false;
    let mut i: usize = 0;
    let n: usize = rest.len();
    assert(all.skip(0) =~= all);
    while i < n
        invariant
            n == rest@.len(),
            i <= n,
            all == text::views(rest@),
            goal == shell_choice(command@, all, None, false),
            goal == shell_choice(command@, all.skip(i as int), text::maybe(shell), verify),
        decreases n - i,
    {
        proof {
            assert(all.skip(i as int)[0] == rest@[i as int]@);
            assert(all.skip(i as int).drop_first() =~= all.skip(i + 1));
        }
        let arg: &str = rest[i].as_str();
        if text::same_text(command, "init") && text::same_text(arg, "--verify") {
            verify = true;
            i += 1;
        } else if text::same_text(arg, "--shell") {
            if i == n - 1 {
                return Err("--shell requires an argument".to_string());
            }
            proof {
                assert(all.skip(i as int)[1] == rest@[i + 1]@);
                assert(all.skip(i as int).skip(2) =~= all.skip(i + 2));
            }
            shell = Some(rest[i + 1].clone());
            i += 2;
        } else if is_flag(arg) {
            let mut message: String = "unknown ".to_string();
            message.append(command);
            message.append(" flag: ");
            message.append(arg);
            return Err(message);
        } else {
            shell = Some(rest[i].clone());
            i += 1;
        }
    }
    Ok((shell, verify))
}

/// What `init` asks for with the arguments behind it.
pub open spec fn init_command(rest: Seq<Seq<char>>) -> Command<Seq<char>> {
    match shell_choice("init"@, rest, None, false) {
        Ok((shell, verify)) => Command::Init { shell, verify },
        Err(message) => refusal(message, 2),
    }
}

fn parse_init(rest: &Vec<String>) -> (r: Command<String>)
    ensures
        r@ == init_command(text::views(rest@)),
{
    match shell_args("init", rest) {
        Ok((shell, verify)) => Command::Init { shell, verify },
        Err(message) => Command::Refused { message, code: 2 },
    }
}

/// What `completions` asks for with the arguments behind it.
pub open spec fn completions_command(rest: Seq<Seq<char>>) -> Command<Seq<char>> {
    match shell_choice("completions"@, rest, None, false) {
        Ok((shell, _)) => Command::Completions { shell },
        Err(message) => refusal(message, 2),
    }
}

fn parse_completions(rest: &Vec<String>) -> (r: Command<String>)
    ensures
        r@ == completions_command(text::views(rest@)),
{
    match shell_args("completions", rest) {
        Ok((shell, _)) => Command::Completions { shell },
        Err(message) => Command::Refused { message, code: 2 },
    }
}

// ---------------------------------------------------------------------------
// pick, add, rm and forget
// ---------------------------------------------------------------------------

/// The words in a row, with a space between them.
pub open spec fn sentence(words: Seq<Seq<char>>) -> Seq<char> {
    render::joined(words, " "@)
}

/// What `pick` asks for with the arguments behind it.
pub open spec fn pick_command(rest: Seq<Seq<char>>) -> Command<Seq<char>> {
    let query = sentence(args::without(rest, "--"@));
    if query.len() == 0 {
        Command::Pick
    } else {
        Command::Jump { query }
    }
}

fn is_empty(s: &str) -> (r: bool)
    ensures
        r == (s@.len() == 0),
{
    text::chars_of(s).len() == 0
}

fn parse_pick(rest: &Vec<String>) -> (r: Command<String>)
    ensures
        r@ == pick_command(text::views(rest@)),
{
    let words: Vec<String> = args::args_without(rest, "--");
    let query: String = render::join(&words, " ");
    if is_empty(query.as_str()) {
        Command::Pick
    } else {
        Command::Jump { query }
    }
}

/// What `add` asks for with the arguments behind it. `--dry-run` may stand
/// before or behind the path, and `--` anywhere.
pub open spec fn add_command(rest: Seq<Seq<char>>) -> Command<Seq<char>> {
    let words = args::without(rest, "--"@);
    let paths = args::without(words, "--dry-run"@);
    if paths.len() == 0 {
        refusal("Usage: hop add <path> [--dry-run]"@, 2)
    } else if paths[0].len() == 0 {
        refusal("empty path; did you mean to run `hop` without arguments?"@, 1)
    } else {
        Command::Add { path: paths[0], dry_run: words.contains("--dry-run"@) }
    }
}

fn parse_add(rest: &Vec<String>) -> (r: Command<String>)
    ensures
        r@ == add_command(text::views(rest@)),
{
    let words: Vec<String> = args::args_without(rest, "--");
    let paths: Vec<String> = args::args_without(&words, "--dry-run");
    assert(text::views(paths@).len() == paths@.len());
    if paths.len() == 0 {
        refuse("Usage: hop add <path> [--dry-run]", 2)
    } else {
        assert(text::views(paths@)[0] == paths@[0]@);
        if is_empty(paths[0].as_str()) {
            refuse("empty path; did you mean to run `hop` without arguments?", 1)
        } else {
            Command::Add {
                path: paths[0].clone(),
                dry_run: text::list_contains(&words, "--dry-run"),
            }
        }
    }
}

/// Argument `i`, or the one behind it if that is `--`.
pub open spec fn positional_arg(list: Seq<Seq<char>>, i: int) -> Option<Seq<char>> {
    if args::is_at(list, i, "--"@) {
        args::get(list, i + 1)
    } else {
        args::get(list, i)
    }
}

/// Argument `i`, or the one behind it if that is `--`.
fn positional(list: &Vec<String>, i: usize) -> (r: Option<String>)
    ensures
        text::maybe(r) == positional_arg(text::views(list@), i as int),
{
    let n: usize = list.len();
    assert(text::views(list@).len() == n);
    if args::arg_is(list, i, "--") {
        args::arg_at(list, i + 1)
    } else {
        args::arg_at(list, i)
    }
}

/// What `rm` asks for with the arguments behind it.
pub open spec fn rm_command(rest: Seq<Seq<char>>) -> Command<Seq<char>> {
    match positional_arg(rest, 0) {
        Some(path) => Command::Remove { path },
        None => refusal("Usage: hop rm <path>"@, 2),
    }
}

fn parse_rm(rest: &Vec<String>) -> (r: Command<String>)
    ensures
        r@ == rm_command(text::views(rest@)),
{
    match positional(rest, 0) {
        Some(path) => Command::Remove { path },
        None => refuse("Usage: hop rm <path>", 2),
    }
}

/// What `forget` asks for with the arguments behind it.
pub open spec fn forget_command(rest: Seq<Seq<char>>) -> Command<Seq<char>> {
    let dry_run = rest.contains("--dry-run"@);
    let query = sentence(args::without(rest, "--dry-run"@));
    if query.len() > 0 {
        Command::Forget { query, dry_run }
    } else if dry_run {
        refusal("Usage: hop forget <query> [--dry-run]"@, 2)
    } else {
        Command::ForgetPick
    }
}

fn parse_forget(rest: &Vec<String>) -> (r: Command<String>)
    ensures
        r@ == forget_command(text::views(rest@)),
{
    let dry_run: bool = text::list_contains(rest, "--dry-run");
    let words: Vec<String> = args::args_without(rest, "--dry-run");
    let query: String = render::join(&words, " ");
    if !is_empty(query.as_str()) {
        Command::Forget { query, dry_run }
    } else if dry_run {
        refuse("Usage: hop forget <query> [--dry-run]", 2)
    } else {
        Command::ForgetPick
    }
}

// ---------------------------------------------------------------------------
// book
// ---------------------------------------------------------------------------

pub const BOOK_EDIT_USAGE: &'static str =
    "Usage: hop book edit <alias> [--alias <new>] [--path <path>] [--description <text>]";

/// The changes that the flags of `book edit` ask for, on top of `changes`, or
/// the first flag that is not known. A flag at the end, without a value, takes
/// its change back.
pub open spec fn changes_asked(rest: Seq<Seq<char>>, changes: Changes<Seq<char>>) -> Result<
    Changes<Seq<char>>,
    Seq<char>,
>
    decreases rest.len(),
{
    if rest.len() == 0 {
        Ok(changes)
    } else {
        let value = args::get(rest, 1);
        let next = if rest.len() == 1 {
            Seq::empty()
        } else {
            rest.skip(2)
        };
        if rest[0] == "--alias"@ {
            changes_asked(next, Changes { alias: value, ..changes })
        } else if rest[0] == "--path"@ {
            changes_asked(next, Changes { path: value, ..changes })
        } else if rest[0] == "--description"@ {
            changes_asked(next, Changes { description: value, ..changes })
        } else {
            Err(rest[0])
        }
    }
}

/// No change at all.
pub open spec fn unchanged() -> Changes<Seq<char>> {
    Changes { alias: None, path: None, description: None }
}

/// The changes that the flags of `book edit` ask for, or the first that is not
/// known.
fn parse_changes(rest: &Vec<String>) -> (r: Result<Changes<String>, String>)
    ensures
        match r {
            Ok(changes) => changes_asked(text::views(rest@), unchanged()) == Ok::<
                Changes<Seq<char>>,
                Seq<char>,
            >(changes@),
            Err(flag) => changes_asked(text::views(rest@), unchanged()) == Err::<
                Changes<Seq<char>>,
                Seq<char>,
            >(flag@),
        },
{
    let ghost all = text::views(rest@);
    let ghost goal = changes_asked(all, unchanged());
    let mut changes: Changes<String> = Changes { alias: None, path: None, description: None };
    let mut i: usize = 0;
    let n: usize = rest.len();
    assert(all.skip(0) =~= all);
    while i < n
        invariant
            n == rest@.len(),
            i <= n,
            all == text::views(rest@),
            goal == changes_asked(all, unchanged()),
            goal == changes_asked(all.skip(i as int), changes@),
        decreases n - i,
    {
        let ghost tail = all.skip(i as int);
        let flag: &str = rest[i].as_str();
        let value: Option<String> = if i < n - 1 {
            Some(rest[i + 1].clone())
        } else {
            None
        };
        let next: usize = if i < n - 1 {
            i + 2
        } else {
            n
        };
        proof {
            assert(tail[0] == rest@[i as int]@);
            assert(text::maybe(value) == args::get(tail, 1));
            if i < n - 1 {
                assert(tail.skip(2) =~= all.skip(next as int));
            } else {
                assert(all.skip(next as int) =~= Seq::empty());
            }
        }
        if text::same_text(flag, "--alias") {
            changes.alias = value;
        } else if text::same_text(flag, "--path") {
            changes.path = value;
        } else if text::same_text(flag, "--description") {
            changes.description = value;
        } else {
            return Err(rest[i].clone());
        }
        i = next;
    }
    Ok(changes)
}

/// What `book edit` asks for with the arguments behind it.
pub open spec fn edit_command(rest: Seq<Seq<char>>) -> Command<Seq<char>> {
    if rest.len() == 0 {
        refusal(BOOK_EDIT_USAGE@, 2)
    } else {
        match changes_asked(rest.drop_first(), unchanged()) {
            Ok(changes) => if changes == unchanged() {
                Command::BookShow { alias: rest[0] }
            } else {
                Command::BookEdit { alias: rest[0], changes }
            },
            Err(flag) => refusal("unknown flag: "@ + flag + "\n"@ + BOOK_EDIT_USAGE@, 2),
        }
    }
}

fn parse_edit(rest: &Vec<String>) -> (r: Command<String>)
    ensures
        r@ == edit_command(text::views(rest@)),
{
    assert(text::views(rest@).len() == rest@.len());
    if rest.len() == 0 {
        return refuse(BOOK_EDIT_USAGE, 2);
    }
    let flags: Vec<String> = args::args_from(rest, 1);
    assert(text::views(rest@).skip(1) =~= text::views(rest@).drop_first());
    assert(text::views(rest@)[0] == rest@[0]@);
    match parse_changes(&flags) {
        Ok(changes) => {
            if changes.alias.is_none() && changes.path.is_none() && changes.description.is_none() {
                Command::BookShow { alias: rest[0].clone() }
            } else {
                Command::BookEdit { alias: rest[0].clone(), changes }
            }
        },
        Err(flag) => {
            let mut message: String = "unknown flag: ".to_string();
            message.append(flag.as_str());
            message.append("\n");
            message.append(BOOK_EDIT_USAGE);
            Command::Refused { message, code: 2 }
        },
    }
}

/// What `book` asks for with the arguments behind it. `--json` and `-j` may
/// stand anywhere.
pub open spec fn book_command(rest: Seq<Seq<char>>) -> Command<Seq<char>> {
    let words = args::without(args::without(rest, "--json"@), "-j"@);
    if words.len() == 0 || words[0] == "list"@ {
        Command::BookList { json: rest.contains("--json"@) || rest.contains("-j"@) }
    } else if words[0] == "rm"@ {
        if words.len() < 2 {
            refusal("Usage: hop book rm <alias>"@, 2)
        } else {
            Command::BookRemove { alias: words[1] }
        }
    } else if words[0] == "edit"@ {
        edit_command(words.drop_first())
    } else if words.len() > 1 {
        Command::BookSet { alias: words[0], path: words[1] }
    } else {
        Command::BookResolve { alias: words[0] }
    }
}

fn parse_book(rest: &Vec<String>) -> (r: Command<String>)
    ensures
        r@ == book_command(text::views(rest@)),
{
    let json: bool = text::list_contains(rest, "--json") || text::list_contains(rest, "-j");
    let some: Vec<String> = args::args_without(rest, "--json");
    let words: Vec<String> = args::args_without(&some, "-j");
    let n: usize = words.len();
    assert(text::views(words@).len() == n);
    assert(forall|i: int| 0 <= i < n ==> text::views(words@)[i] == #[trigger] words@[i]@);
    if n == 0 || text::same_text(words[0].as_str(), "list") {
        Command::BookList { json }
    } else if text::same_text(words[0].as_str(), "rm") {
        if n < 2 {
            refuse("Usage: hop book rm <alias>", 2)
        } else {
            Command::BookRemove { alias: words[1].clone() }
        }
    } else if text::same_text(words[0].as_str(), "edit") {
        let tail: Vec<String> = args::args_from(&words, 1);
        assert(text::views(words@).skip(1) =~= text::views(words@).drop_first());
        parse_edit(&tail)
    } else if n > 1 {
        Command::BookSet { alias: words[0].clone(), path: words[1].clone() }
    } else {
        Command::BookResolve { alias: words[0].clone() }
    }
}

// ---------------------------------------------------------------------------
// score, list and import
// ---------------------------------------------------------------------------

/// What `score` asks for with the arguments behind it.
pub open spec fn score_command(rest: Seq<Seq<char>>) -> Command<Seq<char>> {
    let query = sentence(args::without(args::without(rest, "--"@), "--json"@));
    if query.len() == 0 {
        refusal("Usage: hop score <query> [--json]"@, 2)
    } else {
        Command::Score { query, json: rest.contains("--json"@) }
    }
}

fn parse_score(rest: &Vec<String>) -> (r: Command<String>)
    ensures
        r@ == score_command(text::views(rest@)),
{
    let some: Vec<String> = args::args_without(rest, "--");
    let words: Vec<String> = args::args_without(&some, "--json");
    let query: String = render::join(&words, " ");
    if is_empty(query.as_str()) {
        refuse("Usage: hop score <query> [--json]", 2)
    } else {
        Command::Score { query, json: text::list_contains(rest, "--json") }
    }
}

/// What `list` asks for with the arguments behind it.
pub open spec fn list_command(rest: Seq<Seq<char>>) -> Command<Seq<char>> {
    let words = args::without_value(rest, "--limit"@);
    Command::List {
        query: sentence(args::without(args::without(words, "--"@), "--json"@)),
        limit: args::count_or(args::value_of(rest, "--limit"@), 20),
        json: rest.contains("--json"@),
    }
}

fn parse_list(rest: &Vec<String>) -> (r: Command<String>)
    ensures
        r@ == list_command(text::views(rest@)),
{
    let limit: Option<String> = args::value_after(rest, "--limit");
    let all: Vec<String> = args::args_without_value(rest, "--limit");
    let some: Vec<String> = args::args_without(&all, "--");
    let words: Vec<String> = args::args_without(&some, "--json");
    Command::List {
        query: render::join(&words, " "),
        limit: args::count_arg(&limit, 20),
        json: text::list_contains(rest, "--json"),
    }
}

/// The import that a tool and a file name come to.
pub open spec fn import_of(source: Seq<char>, file: Seq<char>, dry_run: bool) -> Command<
    Seq<char>,
> {
    if dry_run || import::is_source(source) {
        Command::Import { source, file, dry_run }
    } else {
        refusal("unknown source: "@ + source, 2)
    }
}

/// What `import` asks for with the arguments behind it. `--dry-run` may stand
/// before the tool, between it and the file, or behind both.
pub open spec fn import_command(rest: Seq<Seq<char>>) -> Command<Seq<char>> {
    let dry_run = rest.contains("--dry-run"@);
    if rest.len() >= 3 && rest[0] == "--dry-run"@ {
        import_of(rest[1], rest[2], dry_run)
    } else if rest.len() >= 3 && rest[1] == "--dry-run"@ {
        import_of(rest[0], rest[2], dry_run)
    } else if rest.len() >= 2 && rest[0] != "--dry-run"@ {
        import_of(rest[0], rest[1], dry_run)
    } else {
        refusal("Usage: hop import [--dry-run] <fasd|autojump|zoxide|zsh> <file>"@, 2)
    }
}

fn import_from(source: &String, file: &String, dry_run: bool) -> (r: Command<String>)
    ensures
        r@ == import_of(source@, file@, dry_run),
{
    let name: &str = source.as_str();
    if dry_run || import::known_source(name) {
        Command::Import { source: source.clone(), file: file.clone(), dry_run }
    } else {
        let mut message: String = "unknown source: ".to_string();
        message.append(name);
        Command::Refused { message, code: 2 }
    }
}

fn parse_import(rest: &Vec<String>) -> (r: Command<String>)
    ensures
        r@ == import_command(text::views(rest@)),
{
    let dry_run: bool = text::list_contains(rest, "--dry-run");
    let n: usize = rest.len();
    assert(text::views(rest@).len() == n);
    assert(forall|i: int| 0 <= i < n ==> text::views(rest@)[i] == #[trigger] rest@[i]@);
    if n >= 3 && args::arg_is(rest, 0, "--dry-run") {
        import_from(&rest[1], &rest[2], dry_run)
    } else if n >= 3 && args::arg_is(rest, 1, "--dry-run") {
        import_from(&rest[0], &rest[2], dry_run)
    } else if n >= 2 && !args::arg_is(rest, 0, "--dry-run") {
        import_from(&rest[0], &rest[1], dry_run)
    } else {
        refuse("Usage: hop import [--dry-run] <fasd|autojump|zoxide|zsh> <file>", 2)
    }
}

// ---------------------------------------------------------------------------
// The whole command line
// ---------------------------------------------------------------------------

/// Whether a command line is answered without the database.
pub open spec fn is_standalone(list: Seq<Seq<char>>) -> bool {
    list.len() >= 2 && (list[1] == "init"@ || list[1] == "completions"@ || list[1] == "--help"@
        || list[1] == "-h"@ || list[1] == "help"@ || list[1] == "--version"@ || list[1] == "-v"@)
}

/// Whether a command line asks for more output.
pub open spec fn is_verbose(list: Seq<Seq<char>>) -> bool {
    list.contains("--verbose"@) || list.contains("-V"@)
}

/// What a command line asks for. Its first argument is the program's name; one
/// whose second argument is no command is a query.
pub open spec fn parsed(list: Seq<Seq<char>>) -> Command<Seq<char>> {
    if list.len() < 2 {
        Command::Pick
    } else {
        let name = list[1];
        let rest = list.skip(2);
        if name == "init"@ {
            init_command(rest)
        } else if name == "completions"@ {
            completions_command(rest)
        } else if name == "--help"@ || name == "-h"@ || name == "help"@ {
            Command::Help
        } else if name == "--version"@ || name == "-v"@ {
            Command::Version
        } else if name == "p"@ || name == "pick"@ {
            pick_command(rest)
        } else if name == "-"@ {
            Command::Previous
        } else if name == "add"@ {
            add_command(rest)
        } else if name == "rm"@ {
            rm_command(rest)
        } else if name == "forget"@ {
            forget_command(rest)
        } else if name == "book"@ {
            book_command(rest)
        } else if name == "history"@ {
            Command::History { count: args::count_or(args::get(rest, 0), 20) }
        } else if name == "recent"@ {
            Command::Recent { count: args::count_or(args::get(rest, 0), 20) }
        } else if name == "score"@ {
            score_command(rest)
        } else if name == "list"@ {
            list_command(rest)
        } else if name == "export"@ {
            Command::Export {
                format: match args::value_of(list, "--format"@) {
                    Some(format) => format,
                    None => "json"@,
                },
            }
        } else if name == "import"@ {
            import_command(rest)
        } else if name == "prune"@ {
            Command::Prune {
                dry_run: args::is_at(rest, 0, "--dry-run"@),
                quiet: args::is_at(rest, 0, "--quiet"@) || args::is_at(rest, 1, "--quiet"@),
            }
        } else if name == "clear"@ {
            Command::Clear { force: args::is_at(rest, 0, "--force"@) }
        } else if name == "stats"@ {
            Command::Stats { verbose: is_verbose(list) }
        } else if name == "doctor"@ {
            Command::Doctor
        } else {
            Command::Jump { query: sentence(list.drop_first()) }
        }
    }
}

/// Whether a command line asks for more output.
pub fn wants_detail(list: &Vec<String>) -> (r: bool)
    ensures
        r == is_verbose(text::views(list@)),
{
    text::list_contains(list, "--verbose") || text::list_contains(list, "-V")
}

/// Whether a command line is answered without the database.
pub fn needs_no_database(list: &Vec<String>) -> (r: bool)
    ensures
        r == is_standalone(text::views(list@)),
{
    args::arg_is(list, 1, "init") || args::arg_is(list, 1, "completions") || args::arg_is(
        list,
        1,
        "--help",
    ) || args::arg_is(list, 1, "-h") || args::arg_is(list, 1, "help") || args::arg_is(
        list,
        1,
        "--version",
    ) || args::arg_is(list, 1, "-v")
}

/// The first of the commands that `name` may be: those that need no database,
/// and those that change the history or the bookmarks.
fn parse_first(list: &Vec<String>, name: &str, rest: &Vec<String>) -> (r: Option<Command<String>>)
    requires
        list@.len() >= 2,
        name@ == text::views(list@)[1],
        text::views(rest@) == text::views(list@).skip(2),
    ensures
        r matches Some(command) ==> command@ == parsed(text::views(list@)),
        r is None ==> {
            &&& name@ != "init"@ && name@ != "completions"@
            &&& name@ != "--help"@ && name@ != "-h"@ && name@ != "help"@
            &&& name@ != "--version"@ && name@ != "-v"@
            &&& name@ != "p"@ && name@ != "pick"@ && name@ != "-"@
            &&& name@ != "add"@ && name@ != "rm"@ && name@ != "forget"@ && name@ != "book"@
        },
{
    if text::same_text(name, "init") {
        Some(parse_init(rest))
    } else if text::same_text(name, "completions") {
        Some(parse_completions(rest))
    } else if text::same_text(name, "--help") || text::same_text(name, "-h") || text::same_text(
        name,
        "help",
    ) {
        Some(Command::Help)
    } else if text::same_text(name, "--version") || text::same_text(name, "-v") {
        Some(Command::Version)
    } else if text::same_text(name, "p") || text::same_text(name, "pick") {
        Some(parse_pick(rest))
    } else if text::same_text(name, "-") {
        Some(Command::Previous)
    } else if text::same_text(name, "add") {
        Some(parse_add(rest))
    } else if text::same_text(name, "rm") {
        Some(parse_rm(rest))
    } else if text::same_text(name, "forget") {
        Some(parse_forget(rest))
    } else if text::same_text(name, "book") {
        Some(parse_book(rest))
    } else {
        None
    }
}

/// What a command line asks for.
pub fn parse_command(list: &Vec<String>) -> (r: Command<String>)
    requires
        list@.len() >= 1,
    ensures
        r@ == parsed(text::views(list@)),
{
    let ghost all = text::views(list@);
    if list.len() < 2 {
        return Command::Pick;
    }
    let name: &str = list[1].as_str();
    let rest: Vec<String> = args::args_from(list, 2);
    if let Some(command) = parse_first(list, name, &rest) {
        return command;
    }
    if text::same_text(name, "history") {
        Command::History { count: args::count_arg(&args::arg_at(&rest, 0), 20) }
    } else if text::same_text(name, "recent") {
        Command::Recent { count: args::count_arg(&args::arg_at(&rest, 0), 20) }
    } else if text::same_text(name, "score") {
        parse_score(&rest)
    } else if text::same_text(name, "list") {
        parse_list(&rest)
    } else if text::same_text(name, "export") {
        match args::value_after(list, "--format") {
            Some(format) => Command::Export { format },
            None => Command::Export { format: "json".to_string() },
        }
    } else if text::same_text(name, "import") {
        parse_import(&rest)
    } else if text::same_text(name, "prune") {
        Command::Prune {
            dry_run: args::arg_is(&rest, 0, "--dry-run"),
            quiet: args::arg_is(&rest, 0, "--quiet") || args::arg_is(&rest, 1, "--quiet"),
        }
    } else if text::same_text(name, "clear") {
        Command::Clear { force: args::arg_is(&rest, 0, "--force") }
    } else if text::same_text(name, "stats") {
        Command::Stats { verbose: wants_detail(list) }
    } else if text::same_text(name, "doctor") {
        Command::Doctor
    } else {
        let words: Vec<String> = args::args_from(list, 1);
        assert(all.skip(1) =~= all.drop_first());
        Command::Jump { query: render::join(&words, " ") }
    }
}

// ---------------------------------------------------------------------------
// Laws
// ---------------------------------------------------------------------------

/// The separator `--` changes nothing of what `add` asks for, wherever it
/// stands.
pub proof fn law_add_separator(a: Seq<Seq<char>>, b: Seq<Seq<char>>)
    ensures
        add_command(a + seq!["--"@] + b) == add_command(a + b),
{
    args::law_dropped_anywhere(a, b, "--"@);
}

/// The call that the shell hooks make records the directory.
pub proof fn law_hook_adds(path: Seq<char>)
    requires
        path.len() > 0,
        path != "--"@,
        path != "--dry-run"@,
    ensures
        add_command(seq!["--"@, path]) == (Command::Add { path, dry_run: false }),
{
    let alone = seq![path];
    law_add_separator(Seq::empty(), alone);
    assert(Seq::<Seq<char>>::empty() + seq!["--"@] + alone =~= seq!["--"@, path]);
    assert(Seq::<Seq<char>>::empty() + alone =~= alone);
    args::lemma_without_one(path, "--"@);
    args::lemma_without_one(path, "--dry-run"@);
}

/// `--dry-run` may stand before or behind the path.
pub proof fn law_add_dry_run(path: Seq<char>)
    requires
        path.len() > 0,
        path != "--"@,
        path != "--dry-run"@,
    ensures
        add_command(seq!["--dry-run"@, path]) == (Command::Add { path, dry_run: true }),
        add_command(seq![path, "--dry-run"@]) == (Command::Add { path, dry_run: true }),
{
    reveal_strlit("--");
    reveal_strlit("--dry-run");
    assert("--"@.len() != "--dry-run"@.len());
    let flag = "--dry-run"@;
    let before = seq![flag, path];
    let behind = seq![path, flag];
    args::law_dropped_anywhere(Seq::empty(), seq![path], flag);
    args::law_dropped_anywhere(seq![path], Seq::empty(), flag);
    assert(Seq::<Seq<char>>::empty() + seq![flag] + seq![path] =~= before);
    assert(Seq::<Seq<char>>::empty() + seq![path] =~= seq![path]);
    assert(seq![path] + seq![flag] + Seq::<Seq<char>>::empty() =~= behind);
    assert(seq![path] + Seq::<Seq<char>>::empty() =~= seq![path]);
    args::lemma_without_one(path, flag);
    args::lemma_without_one(path, "--"@);
    args::lemma_without_one(flag, "--"@);
    assert(before.drop_last() =~= seq![flag]);
    assert(behind.drop_last() =~= seq![path]);
    assert(args::without(before, "--"@) =~= before);
    assert(args::without(behind, "--"@) =~= behind);
    assert(before[0] == flag);
    assert(behind[1] == flag);
}

/// `--json` and `-j` may stand anywhere among the arguments of `book`: they make
/// a list one in JSON and change nothing else.
pub proof fn law_book_json(a: Seq<Seq<char>>, b: Seq<Seq<char>>, flag: Seq<char>)
    requires
        flag == "--json"@ || flag == "-j"@,
    ensures
        book_command(a + seq![flag] + b) == match book_command(a + b) {
            Command::BookList { json } => Command::BookList { json: true },
            other => other,
        },
{
    reveal_strlit("--json");
    reveal_strlit("-j");
    let long = "--json"@;
    let short = "-j"@;
    assert(long.len() != short.len());
    let all = a + seq![flag] + b;
    assert(all[a.len() as int] == flag);
    assert(all.contains(flag));
    let words = args::without(args::without(all, long), short);
    assert(words == args::without(args::without(a + b, long), short)) by {
        if flag == long {
            args::law_dropped_anywhere(a, b, long);
        } else {
            let left = args::without(a, long);
            let right = args::without(b, long);
            args::law_without_adds(a + seq![flag], b, long);
            args::law_without_adds(a, seq![flag], long);
            args::law_without_adds(a, b, long);
            args::lemma_without_one(flag, long);
            args::law_dropped_anywhere(left, right, short);
        }
    }
    if words.len() > 0 && words[0] == "edit"@ {
        assert(!(edit_command(words.drop_first()) is BookList));
    }
}

/// Whether a word can be the alias of a bookmark: it is no other word of `book`.
pub open spec fn is_alias(word: Seq<char>) -> bool {
    &&& word != "list"@ && word != "rm"@ && word != "edit"@
    &&& !is_json_flag(word)
}

/// Whether a word is a flag of `book` and not one of its arguments.
pub open spec fn is_json_flag(word: Seq<char>) -> bool {
    word == "--json"@ || word == "-j"@
}

proof fn lemma_book_words(a: Seq<char>, b: Seq<char>)
    requires
        !is_json_flag(a),
        !is_json_flag(b),
    ensures
        args::without(args::without(seq![a], "--json"@), "-j"@) == seq![a],
        args::without(args::without(seq![a, b], "--json"@), "-j"@) == seq![a, b],
{
    args::lemma_without_one(a, "--json"@);
    args::lemma_without_one(a, "-j"@);
    args::lemma_without_one(b, "--json"@);
    args::lemma_without_one(b, "-j"@);
    args::law_without_adds(seq![a], seq![b], "--json"@);
    args::law_without_adds(seq![a], seq![b], "-j"@);
    assert(seq![a, b] =~= seq![a] + seq![b]);
}

/// The names of commands are told apart.
proof fn lemma_command_names(list: Seq<Seq<char>>)
    requires
        list.len() >= 2,
    ensures
        list[1] == "-"@ ==> parsed(list) == Command::<Seq<char>>::Previous && !is_standalone(list),
        list[1] == "add"@ ==> parsed(list) == add_command(list.skip(2)) && !is_standalone(list),
        list[1] == "rm"@ ==> parsed(list) == rm_command(list.skip(2)) && !is_standalone(list),
        list[1] == "forget"@ ==> parsed(list) == forget_command(list.skip(2)) && !is_standalone(
            list,
        ),
        list[1] == "book"@ ==> parsed(list) == book_command(list.skip(2)) && !is_standalone(list),
        list[1] == "import"@ ==> parsed(list) == import_command(list.skip(2)) && !is_standalone(
            list,
        ),
        list[1] == "clear"@ ==> parsed(list) == (Command::<Seq<char>>::Clear {
            force: args::is_at(list.skip(2), 0, "--force"@),
        }) && !is_standalone(list),
{
    reveal_strlit("init");
    reveal_strlit("completions");
    reveal_strlit("--help");
    reveal_strlit("-h");
    reveal_strlit("help");
    reveal_strlit("--version");
    reveal_strlit("-v");
    reveal_strlit("p");
    reveal_strlit("pick");
    reveal_strlit("-");
    reveal_strlit("add");
    reveal_strlit("rm");
    reveal_strlit("forget");
    reveal_strlit("book");
    reveal_strlit("history");
    reveal_strlit("recent");
    reveal_strlit("score");
    reveal_strlit("list");
    reveal_strlit("export");
    reveal_strlit("import");
    reveal_strlit("prune");
    reveal_strlit("clear");
    assert("p"@[0] == 'p' && "-"@[0] == '-');
    assert("rm"@[0] == 'r' && "-h"@[0] == '-' && "-v"@[0] == '-');
    assert("init"@[0] == 'i' && "help"@[0] == 'h' && "pick"@[0] == 'p' && "book"@[0] == 'b');
    assert("score"@[0] == 's' && "prune"@[0] == 'p' && "clear"@[0] == 'c');
    assert("forget"@[0] == 'f' && "recent"@[0] == 'r' && "export"@[0] == 'e' && "import"@[0] == 'i');
    assert("--help"@[0] == '-');
    assert("-"@.len() == 1 && "p"@.len() == 1 && "rm"@.len() == 2 && "add"@.len() == 3);
    assert("-h"@.len() == 2 && "-v"@.len() == 2 && "init"@.len() == 4 && "help"@.len() == 4);
    assert("pick"@.len() == 4 && "completions"@.len() == 11 && "--version"@.len() == 9);
    assert("--help"@.len() == 6);
}

/// `book` with an alias and a path sets a bookmark, with an alias alone resolves
/// it, and with `rm` and an alias removes it.
pub proof fn law_book_forms(program: Seq<char>, alias: Seq<char>, path: Seq<char>)
    requires
        is_alias(alias),
        !is_json_flag(path),
    ensures
        parsed(seq![program, "book"@, alias, path]) == (Command::BookSet { alias, path }),
        parsed(seq![program, "book"@, alias]) == (Command::BookResolve { alias }),
        parsed(seq![program, "book"@, "rm"@, alias]) == (Command::BookRemove { alias }),
        !is_standalone(seq![program, "book"@, alias, path]),
        !is_standalone(seq![program, "book"@, alias]),
        !is_standalone(seq![program, "book"@, "rm"@, alias]),
{
    reveal_strlit("rm");
    reveal_strlit("list");
    reveal_strlit("--json");
    reveal_strlit("-j");
    let name = "book"@;
    lemma_command_names(seq![program, name, alias, path]);
    lemma_command_names(seq![program, name, alias]);
    lemma_command_names(seq![program, name, "rm"@, alias]);
    assert("-j"@[0] == '-' && "rm"@[0] == 'r');
    assert("rm"@.len() == 2);
    lemma_book_words(alias, path);
    lemma_book_words("rm"@, alias);
    assert(seq![program, name, alias, path].skip(2) =~= seq![alias, path]);
    assert(seq![program, name, alias].skip(2) =~= seq![alias]);
    assert(seq![program, name, "rm"@, alias].skip(2) =~= seq!["rm"@, alias]);
}

/// A lone dash goes back.
pub proof fn law_dash_goes_back(program: Seq<char>)
    ensures
        parsed(seq![program, "-"@]) == Command::<Seq<char>>::Previous,
        !is_standalone(seq![program, "-"@]),
{
    lemma_command_names(seq![program, "-"@]);
}

/// `add` with a path records a visit, unless it is spelled like a flag.
pub proof fn law_add_form(program: Seq<char>, path: Seq<char>)
    requires
        path.len() > 0,
        path != "--"@,
        path != "--dry-run"@,
    ensures
        parsed(seq![program, "add"@, path]) == (Command::Add { path, dry_run: false }),
        !is_standalone(seq![program, "add"@, path]),
{
    lemma_command_names(seq![program, "add"@, path]);
    assert(seq![program, "add"@, path].skip(2) =~= seq![path]);
    args::lemma_without_one(path, "--"@);
    args::lemma_without_one(path, "--dry-run"@);
    assert(seq![path][0] == path);
    assert(!seq![path].contains("--dry-run"@));
}

/// `rm` with a path removes it, unless it is spelled like a flag.
pub proof fn law_rm_form(program: Seq<char>, path: Seq<char>)
    requires
        path != "--"@,
    ensures
        parsed(seq![program, "rm"@, path]) == (Command::Remove { path }),
        !is_standalone(seq![program, "rm"@, path]),
{
    lemma_command_names(seq![program, "rm"@, path]);
    assert(seq![program, "rm"@, path].skip(2) =~= seq![path]);
}

/// `forget` with a query forgets what it finds, unless it is spelled like a flag.
pub proof fn law_forget_form(program: Seq<char>, query: Seq<char>)
    requires
        query.len() > 0,
        query != "--dry-run"@,
    ensures
        parsed(seq![program, "forget"@, query]) == (Command::Forget { query, dry_run: false }),
        !is_standalone(seq![program, "forget"@, query]),
{
    lemma_command_names(seq![program, "forget"@, query]);
    assert(seq![program, "forget"@, query].skip(2) =~= seq![query]);
    args::lemma_without_one(query, "--dry-run"@);
    assert(!seq![query].contains("--dry-run"@));
    reveal_with_fuel(render::joined, 2);
    assert(sentence(seq![query]) =~= query);
}

/// `clear` wipes the history, with `--force` without asking.
pub proof fn law_clear_forms(program: Seq<char>)
    ensures
        parsed(seq![program, "clear"@]) == (Command::<Seq<char>>::Clear { force: false }),
        parsed(seq![program, "clear"@, "--force"@]) == (Command::<Seq<char>>::Clear {
            force: true,
        }),
        !is_standalone(seq![program, "clear"@]),
        !is_standalone(seq![program, "clear"@, "--force"@]),
{
    lemma_command_names(seq![program, "clear"@]);
    lemma_command_names(seq![program, "clear"@, "--force"@]);
}

/// `import` with a tool and a file imports it, unless it is spelled like a flag.
pub proof fn law_import_form(program: Seq<char>, source: Seq<char>, file: Seq<char>)
    requires
        import::is_source(source),
        file != "--dry-run"@,
    ensures
        parsed(seq![program, "import"@, source, file]) == (Command::Import {
            source,
            file,
            dry_run: false,
        }),
        !is_standalone(seq![program, "import"@, source, file]),
{
    reveal_strlit("--dry-run");
    reveal_strlit("fasd");
    reveal_strlit("autojump");
    reveal_strlit("zoxide");
    reveal_strlit("zsh");
    lemma_command_names(seq![program, "import"@, source, file]);
    assert(seq![program, "import"@, source, file].skip(2) =~= seq![source, file]);
    assert(source != "--dry-run"@);
    assert(!seq![source, file].contains("--dry-run"@));
}

/// `--json` may stand anywhere among the arguments of `score` and is no part of
/// the query.
pub proof fn law_score_json(a: Seq<Seq<char>>, b: Seq<Seq<char>>)
    ensures
        score_command(a + seq!["--json"@] + b) == match score_command(a + b) {
            Command::Score { query, json } => Command::Score { query, json: true },
            other => other,
        },
{
    reveal_strlit("--json");
    reveal_strlit("--");
    let flag = "--json"@;
    let dash = "--"@;
    assert(flag.len() != dash.len());
    let all = a + seq![flag] + b;
    assert(all[a.len() as int] == flag);
    args::law_without_adds(a + seq![flag], b, dash);
    args::law_without_adds(a, seq![flag], dash);
    args::law_without_adds(a, b, dash);
    args::lemma_without_one(flag, dash);
    args::law_dropped_anywhere(args::without(a, dash), args::without(b, dash), flag);
}

/// `--limit` behind a query sets how many matches are listed and is no part of
/// the query.
pub proof fn law_list_limit(words: Seq<Seq<char>>, limit: Seq<char>)
    requires
        !words.contains("--limit"@),
        limit != "--json"@,
    ensures
        list_command(words + seq!["--limit"@, limit]) == match list_command(words) {
            Command::List { query, limit: _, json } => Command::List {
                query,
                limit: args::count_or(Some(limit), 20),
                json,
            },
            other => other,
        },
{
    reveal_strlit("--json");
    reveal_strlit("--limit");
    assert("--json"@.len() != "--limit"@.len());
    let flag = "--limit"@;
    let all = words + seq![flag, limit];
    args::law_flag_at_end(words, flag, limit);
    lemma_no_flag(words, flag);
    assert(all.contains("--json"@) == words.contains("--json"@)) by {
        if words.contains("--json"@) {
            let k = choose|k: int| 0 <= k < words.len() && words[k] == "--json"@;
            assert(all[k] == "--json"@);
        }
        if all.contains("--json"@) {
            let k = choose|k: int| 0 <= k < all.len() && all[k] == "--json"@;
            assert(words[k] == "--json"@);
        }
    }
}

/// A list without a flag keeps everything.
proof fn lemma_no_flag(list: Seq<Seq<char>>, flag: Seq<char>)
    requires
        !list.contains(flag),
    ensures
        args::without_value(list, flag) == list,
    decreases list.len(),
{
    if list.len() > 0 {
        assert(list.contains(list[0]));
        assert forall|w: Seq<char>| list.drop_first().contains(w) implies list.contains(w) by {
            let k = choose|k: int| 0 <= k < list.drop_first().len() && list.drop_first()[k] == w;
            assert(list[k + 1] == w);
        }
        lemma_no_flag(list.drop_first(), flag);
        assert(seq![list[0]] + list.drop_first() =~= list);
    }
}

/// A dry run of an import without a file is a usage error, whatever the tool.
pub proof fn law_dry_run_needs_file(source: Seq<char>)
    ensures
        import_command(seq!["--dry-run"@, source]) matches Command::Refused { code, .. } && code
            == 2,
{
}

/// A dry run may be asked for before or behind the tool.
pub proof fn law_import_dry_run(source: Seq<char>, file: Seq<char>)
    requires
        source != "--dry-run"@,
    ensures
        import_command(seq!["--dry-run"@, source, file]) == (Command::Import {
            source,
            file,
            dry_run: true,
        }),
        import_command(seq![source, "--dry-run"@, file]) == (Command::Import {
            source,
            file,
            dry_run: true,
        }),
{
    assert(seq!["--dry-run"@, source, file][0] == "--dry-run"@);
    assert(seq![source, "--dry-run"@, file][1] == "--dry-run"@);
}

/// What is refused is answered with exit code 1 or 2, never with success.
pub proof fn law_refusal_fails(list: Seq<Seq<char>>)
    ensures
        parsed(list) matches Command::Refused { code, .. } ==> code == 1 || code == 2,
{
    if list.len() >= 2 {
        let rest = list.skip(2);
        let words = args::without(args::without(rest, "--json"@), "-j"@);
        assert(edit_command(words.drop_first()) matches Command::Refused { code, .. } ==> code
            == 2);
    }
}

/// What is answered without the database neither reads nor changes the history
/// and the bookmarks.
pub proof fn law_standalone(list: Seq<Seq<char>>)
    requires
        is_standalone(list),
    ensures
        parsed(list) is Init || parsed(list) is Completions || parsed(list) is Help || parsed(
            list,
        ) is Version || parsed(list) is Refused,
{
}

/// `pick` with a query asks for the same jump as the query alone, where that is
/// no command.
pub proof fn law_pick_jumps(program: Seq<char>, query: Seq<char>)
    requires
        query.len() > 0,
        query != "--"@,
        parsed(seq![program, query]) is Jump,
    ensures
        parsed(seq![program, "pick"@, query]) == parsed(seq![program, query]),
        parsed(seq![program, query]) == (Command::Jump { query }),
{
    reveal_strlit("pick");
    reveal_strlit("p");
    reveal_strlit("init");
    reveal_strlit("completions");
    reveal_strlit("--help");
    reveal_strlit("-h");
    reveal_strlit("help");
    reveal_strlit("--version");
    reveal_strlit("-v");
    let alone = seq![program, query];
    let picked = seq![program, "pick"@, query];
    assert(picked.skip(2) =~= seq![query]);
    args::lemma_without_one(query, "--"@);
    assert(sentence(seq![query]) =~= query) by {
        reveal_with_fuel(render::joined, 2);
    }
    assert(alone.skip(2) =~= Seq::empty());
    assert(alone.drop_first() =~= seq![query]);
    assert("pick"@.len() == 4 && "init"@.len() == 4 && "help"@.len() == 4);
    assert("pick"@[0] == 'p' && "init"@[0] == 'i' && "help"@[0] == 'h');
    assert(parsed(picked) == pick_command(seq![query]));
}

/// Whether a word is the name of a command.
pub open spec fn is_command(name: Seq<char>) -> bool {
    ||| name == "init"@
    ||| name == "completions"@
    ||| name == "--help"@
    ||| name == "-h"@
    ||| name == "help"@
    ||| name == "--version"@
    ||| name == "-v"@
    ||| name == "p"@
    ||| name == "pick"@
    ||| name == "-"@
    ||| name == "add"@
    ||| name == "rm"@
    ||| name == "forget"@
    ||| name == "book"@
    ||| name == "history"@
    ||| name == "recent"@
    ||| name == "score"@
    ||| name == "list"@
    ||| name == "export"@
    ||| name == "import"@
    ||| name == "prune"@
    ||| name == "clear"@
    ||| name == "stats"@
    ||| name == "doctor"@
}

/// A command line that names no command is a query of all its words, and one of
/// the program alone opens the picker.
pub proof fn law_query_lines(list: Seq<Seq<char>>)
    ensures
        list.len() <= 1 ==> parsed(list) == Command::<Seq<char>>::Pick,
        list.len() >= 2 && !is_command(list[1]) ==> parsed(list) == (Command::Jump {
            query: render::joined(list.drop_first(), " "@),
        }),
        list.len() >= 2 && !is_command(list[1]) ==> !is_standalone(list),
        !is_command("--dry-run"@) && !is_command("--json"@),
{
    reveal_strlit("--dry-run");
    reveal_strlit("--json");
    reveal_strlit("init");
    reveal_strlit("completions");
    reveal_strlit("--help");
    reveal_strlit("-h");
    reveal_strlit("help");
    reveal_strlit("--version");
    reveal_strlit("-v");
    reveal_strlit("p");
    reveal_strlit("pick");
    reveal_strlit("-");
    reveal_strlit("add");
    reveal_strlit("rm");
    reveal_strlit("forget");
    reveal_strlit("book");
    reveal_strlit("history");
    reveal_strlit("recent");
    reveal_strlit("score");
    reveal_strlit("list");
    reveal_strlit("export");
    reveal_strlit("import");
    reveal_strlit("prune");
    reveal_strlit("clear");
    reveal_strlit("stats");
    reveal_strlit("doctor");
    assert("--dry-run"@.len() == 9 && "--dry-run"@[2] == 'd' && "--version"@[2] == 'v');
    assert("--json"@.len() == 6 && "--json"@[2] == 'j' && "--help"@[2] == 'h');
    assert("init"@.len() == 4 && "init"@[0] == 'i');
    assert("completions"@.len() == 11 && "completions"@[0] == 'c');
    assert("--help"@.len() == 6 && "--help"@[0] == '-');
    assert("-h"@.len() == 2 && "-h"@[0] == '-');
    assert("help"@.len() == 4 && "help"@[0] == 'h');
    assert("--version"@.len() == 9 && "--version"@[0] == '-');
    assert("-v"@.len() == 2 && "-v"@[0] == '-');
    assert("p"@.len() == 1 && "p"@[0] == 'p');
    assert("pick"@.len() == 4 && "pick"@[0] == 'p');
    assert("-"@.len() == 1 && "-"@[0] == '-');
    assert("add"@.len() == 3 && "add"@[0] == 'a');
    assert("rm"@.len() == 2 && "rm"@[0] == 'r');
    assert("forget"@.len() == 6 && "forget"@[0] == 'f');
    assert("book"@.len() == 4 && "book"@[0] == 'b');
    assert("history"@.len() == 7 && "history"@[0] == 'h');
    assert("recent"@.len() == 6 && "recent"@[0] == 'r');
    assert("score"@.len() == 5 && "score"@[0] == 's');
    assert("list"@.len() == 4 && "list"@[0] == 'l');
    assert("export"@.len() == 6 && "export"@[0] == 'e');
    assert("import"@.len() == 6 && "import"@[0] == 'i');
    assert("prune"@.len() == 5 && "prune"@[0] == 'p');
    assert("clear"@.len() == 5 && "clear"@[0] == 'c');
    assert("stats"@.len() == 5 && "stats"@[0] == 's');
    assert("doctor"@.len() == 6 && "doctor"@[0] == 'd');
}

/// Each command is known by its name, or by one of its names.
pub proof fn law_command_lines(list: Seq<Seq<char>>)
    requires
        list.len() >= 2,
    ensures
        list[1] == "--help"@ || list[1] == "-h"@ || list[1] == "help"@ ==> parsed(list)
            == Command::<Seq<char>>::Help && is_standalone(list),
        list[1] == "--version"@ || list[1] == "-v"@ ==> parsed(list)
            == Command::<Seq<char>>::Version && is_standalone(list),
        list[1] == "doctor"@ ==> parsed(list) == Command::<Seq<char>>::Doctor && !is_standalone(
            list,
        ),
        list[1] == "stats"@ ==> parsed(list) == (Command::<Seq<char>>::Stats {
            verbose: list.contains("--verbose"@) || list.contains("-V"@),
        }) && !is_standalone(list),
        list[1] == "p"@ || list[1] == "pick"@ ==> parsed(list) == pick_command(list.skip(2))
            && !is_standalone(list),
        list[1] == "score"@ ==> parsed(list) == score_command(list.skip(2)) && !is_standalone(
            list,
        ),
        list[1] == "list"@ ==> parsed(list) == list_command(list.skip(2)) && !is_standalone(list),
        list[1] == "init"@ ==> parsed(list) == init_command(list.skip(2)) && is_standalone(list),
        list[1] == "completions"@ ==> parsed(list) == completions_command(list.skip(2))
            && is_standalone(list),
        list[1] == "history"@ ==> parsed(list) == (Command::<Seq<char>>::History {
            count: args::count_or(args::get(list, 2), 20),
        }) && !is_standalone(list),
        list[1] == "recent"@ ==> parsed(list) == (Command::<Seq<char>>::Recent {
            count: args::count_or(args::get(list, 2), 20),
        }) && !is_standalone(list),
        list[1] == "export"@ ==> parsed(list) == (Command::Export {
            format: match args::value_of(list, "--format"@) {
                Some(format) => format,
                None => "json"@,
            },
        }) && !is_standalone(list),
        list[1] == "prune"@ ==> parsed(list) == (Command::<Seq<char>>::Prune {
            dry_run: list.len() > 2 && list[2] == "--dry-run"@,
            quiet: list.len() > 2 && list[2] == "--quiet"@ || list.len() > 3 && list[3]
                == "--quiet"@,
        }) && !is_standalone(list),
{
    reveal_strlit("init");
    reveal_strlit("completions");
    reveal_strlit("--help");
    reveal_strlit("-h");
    reveal_strlit("help");
    reveal_strlit("--version");
    reveal_strlit("-v");
    reveal_strlit("p");
    reveal_strlit("pick");
    reveal_strlit("-");
    reveal_strlit("add");
    reveal_strlit("rm");
    reveal_strlit("forget");
    reveal_strlit("book");
    reveal_strlit("history");
    reveal_strlit("recent");
    reveal_strlit("score");
    reveal_strlit("list");
    reveal_strlit("export");
    reveal_strlit("import");
    reveal_strlit("prune");
    reveal_strlit("clear");
    reveal_strlit("stats");
    reveal_strlit("doctor");
    assert("init"@.len() == 4 && "init"@[0] == 'i');
    assert("completions"@.len() == 11 && "completions"@[0] == 'c');
    assert("--help"@.len() == 6 && "--help"@[0] == '-');
    assert("-h"@.len() == 2 && "-h"@[0] == '-');
    assert("help"@.len() == 4 && "help"@[0] == 'h');
    assert("--version"@.len() == 9 && "--version"@[0] == '-');
    assert("-v"@.len() == 2 && "-v"@[0] == '-');
    assert("p"@.len() == 1 && "p"@[0] == 'p');
    assert("pick"@.len() == 4 && "pick"@[0] == 'p');
    assert("-"@.len() == 1 && "-"@[0] == '-');
    assert("add"@.len() == 3 && "add"@[0] == 'a');
    assert("rm"@.len() == 2 && "rm"@[0] == 'r');
    assert("forget"@.len() == 6 && "forget"@[0] == 'f');
    assert("book"@.len() == 4 && "book"@[0] == 'b');
    assert("history"@.len() == 7 && "history"@[0] == 'h');
    assert("recent"@.len() == 6 && "recent"@[0] == 'r');
    assert("score"@.len() == 5 && "score"@[0] == 's');
    assert("list"@.len() == 4 && "list"@[0] == 'l');
    assert("export"@.len() == 6 && "export"@[0] == 'e');
    assert("import"@.len() == 6 && "import"@[0] == 'i');
    assert("prune"@.len() == 5 && "prune"@[0] == 'p');
    assert("clear"@.len() == 5 && "clear"@[0] == 'c');
    assert("stats"@.len() == 5 && "stats"@[0] == 's');
    assert("doctor"@.len() == 6 && "doctor"@[0] == 'd');
    assert("score"@[1] == 'c' && "stats"@[1] == 't');
    assert("-h"@[1] == 'h' && "-v"@[1] == 'v');
}

/// `history` and `recent` show as many rows as they are asked for, and twenty
/// where they are not, or where what they are given is no number.
pub proof fn law_row_counts(program: Seq<char>, n: usize, word: Seq<char>)
    ensures
        parsed(seq![program, "history"@, render::decimal(n as int)]) == (Command::<
            Seq<char>,
        >::History { count: n }),
        parsed(seq![program, "recent"@, render::decimal(n as int)]) == (Command::<
            Seq<char>,
        >::Recent { count: n }),
        parsed(seq![program, "history"@]) == (Command::<Seq<char>>::History { count: 20 }),
        parsed(seq![program, "recent"@]) == (Command::<Seq<char>>::Recent { count: 20 }),
        render::count_value(word) is None ==> parsed(seq![program, "history"@, word]) == (Command::<
            Seq<char>,
        >::History { count: 20 }) && parsed(seq![program, "recent"@, word]) == (Command::<
            Seq<char>,
        >::Recent { count: 20 }),
{
    args::law_counts(n, 20, word);
    law_command_lines(seq![program, "history"@, render::decimal(n as int)]);
    law_command_lines(seq![program, "recent"@, render::decimal(n as int)]);
    law_command_lines(seq![program, "history"@]);
    law_command_lines(seq![program, "recent"@]);
    law_command_lines(seq![program, "history"@, word]);
    law_command_lines(seq![program, "recent"@, word]);
}

/// Whether a word is an argument and not a flag.
pub open spec fn is_word(word: Seq<char>) -> bool {
    word != "--"@ && word != "--json"@ && word != "--limit"@ && word != "--dry-run"@
}

proof fn lemma_words_stay(words: Seq<Seq<char>>)
    requires
        forall|i: int| 0 <= i < words.len() ==> is_word(#[trigger] words[i]),
    ensures
        !words.contains("--"@),
        !words.contains("--json"@),
        !words.contains("--limit"@),
        !words.contains("--dry-run"@),
        args::without(words, "--"@) == words,
        args::without(words, "--json"@) == words,
        args::without(words, "--dry-run"@) == words,
        args::without_value(words, "--limit"@) == words,
        args::value_of(words, "--limit"@) is None,
{
    args::law_flag_absent(words, "--"@);
    args::law_flag_absent(words, "--json"@);
    args::law_flag_absent(words, "--limit"@);
    args::law_flag_absent(words, "--dry-run"@);
}

/// The words behind `score`, `list`, `pick` and `forget` are one query, with a
/// blank between each two of them.
pub proof fn law_query_words(words: Seq<Seq<char>>)
    requires
        forall|i: int| 0 <= i < words.len() ==> is_word(#[trigger] words[i]),
    ensures
        ({
            let query = render::joined(words, " "@);
            &&& list_command(words) == (Command::List { query, limit: 20, json: false })
            &&& query.len() > 0 ==> score_command(words) == (Command::Score { query, json: false })
            &&& query.len() > 0 ==> pick_command(words) == (Command::Jump { query })
            &&& query.len() > 0 ==> forget_command(words) == (Command::Forget {
                query,
                dry_run: false,
            })
            &&& query.len() == 0 ==> score_command(words) is Refused
            &&& query.len() == 0 ==> pick_command(words) == Command::<Seq<char>>::Pick
            &&& query.len() == 0 ==> forget_command(words) == Command::<Seq<char>>::ForgetPick
        }),
{
    lemma_words_stay(words);
}

/// `--dry-run` may stand anywhere among the words of `forget` and is no part of
/// the query.
pub proof fn law_forget_dry_run(a: Seq<Seq<char>>, b: Seq<Seq<char>>)
    requires
        forall|i: int| 0 <= i < a.len() ==> is_word(#[trigger] a[i]),
        forall|i: int| 0 <= i < b.len() ==> is_word(#[trigger] b[i]),
        render::joined(a + b, " "@).len() > 0,
    ensures
        forget_command(a + seq!["--dry-run"@] + b) == (Command::Forget {
            query: render::joined(a + b, " "@),
            dry_run: true,
        }),
{
    let all = a + seq!["--dry-run"@] + b;
    assert(all[a.len() as int] == "--dry-run"@);
    args::law_dropped_anywhere(a, b, "--dry-run"@);
    assert forall|i: int| 0 <= i < (a + b).len() implies is_word(#[trigger] (a + b)[i]) by {
        if i >= a.len() {
            assert((a + b)[i] == b[i - a.len()]);
        }
    }
    lemma_words_stay(a + b);
}

/// `--json` makes a list or a score one in JSON, and `--limit` sets how many
/// matches are listed.
pub proof fn law_query_flags(words: Seq<Seq<char>>, n: usize)
    requires
        forall|i: int| 0 <= i < words.len() ==> is_word(#[trigger] words[i]),
        render::joined(words, " "@).len() > 0,
    ensures
        score_command(words + seq!["--json"@]) == (Command::Score {
            query: render::joined(words, " "@),
            json: true,
        }),
        list_command(words + seq!["--json"@]) == (Command::List {
            query: render::joined(words, " "@),
            limit: 20,
            json: true,
        }),
        list_command(words + seq!["--limit"@, render::decimal(n as int)]) == (Command::List {
            query: render::joined(words, " "@),
            limit: n,
            json: false,
        }),
{
    lemma_words_stay(words);
    law_query_words(words);
    args::law_counts(n, 20, Seq::empty());
    law_score_json(words, Seq::empty());
    assert(words + seq!["--json"@] + Seq::<Seq<char>>::empty() =~= words + seq!["--json"@]);
    assert(words + Seq::<Seq<char>>::empty() =~= words);
    let number = render::decimal(n as int);
    render::law_decimal_digits(n as int);
    reveal_strlit("--json");
    reveal_strlit("--limit");
    reveal_strlit("--");
    assert(render::is_digit(number[0]));
    assert("--json"@[0] == '-');
    law_list_limit(words, number);
    let flagged = words + seq!["--json"@];
    assert(flagged[words.len() as int] == "--json"@);
    assert("--json"@.len() == 6 && "--limit"@.len() == 7 && "--"@.len() == 2);
    assert forall|i: int| 0 <= i < flagged.len() implies #[trigger] flagged[i] != "--limit"@ by {
        if i < words.len() {
            assert(is_word(words[i]));
        }
    }
    args::law_flag_absent(flagged, "--limit"@);
    args::law_without_adds(words, seq!["--json"@], "--"@);
    args::lemma_without_one("--json"@, "--"@);
    args::law_without_adds(words, seq!["--json"@], "--json"@);
    args::lemma_without_one("--json"@, "--json"@);
    assert(words + Seq::<Seq<char>>::empty() =~= words);
}

/// An export has the format that is asked for, or else JSON.
pub proof fn law_export_formats(program: Seq<char>, format: Seq<char>)
    requires
        program != "--format"@,
    ensures
        parsed(seq![program, "export"@, "--format"@, format]) == (Command::Export { format }),
        parsed(seq![program, "export"@]) == (Command::Export { format: "json"@ }),
{
    reveal_strlit("export");
    reveal_strlit("--format");
    assert("export"@.len() == 6 && "--format"@.len() == 8);
    let list = seq![program, "export"@, "--format"@, format];
    law_command_lines(list);
    let a = seq![program, "export"@];
    assert(!a.contains("--format"@)) by {
        if a.contains("--format"@) {
            let k = choose|k: int| 0 <= k < a.len() && a[k] == "--format"@;
            assert(k == 0 || k == 1);
        }
    }
    args::law_flag_anywhere(a, "--format"@, format, Seq::empty());
    assert(a + seq!["--format"@, format] + Seq::<Seq<char>>::empty() =~= list);
    law_command_lines(a);
    args::law_flag_absent(a, "--format"@);
}

/// Whether a word names a shell: it is no flag.
pub open spec fn is_shell_word(word: Seq<char>) -> bool {
    word.len() == 0 || word[0] != '-'
}

/// `init` and `completions` take the shell that is named, by itself or behind
/// `--shell`; without one it is left open. `--verify` is for `init` alone. Any
/// other flag is refused.
pub proof fn law_shell_forms(shell: Seq<char>, flag: Seq<char>)
    requires
        is_shell_word(shell),
        flag.len() > 0 && flag[0] == '-',
        flag != "--shell"@,
        flag != "--verify"@,
    ensures
        init_command(Seq::empty()) == (Command::<Seq<char>>::Init { shell: None, verify: false }),
        init_command(seq![shell]) == (Command::Init { shell: Some(shell), verify: false }),
        init_command(seq!["--shell"@, shell]) == (Command::Init {
            shell: Some(shell),
            verify: false,
        }),
        init_command(seq!["--verify"@]) == (Command::<Seq<char>>::Init {
            shell: None,
            verify: true,
        }),
        init_command(seq!["--shell"@]) matches Command::Refused { code, .. } && code == 2,
        init_command(seq![flag]) matches Command::Refused { code, .. } && code == 2,
        completions_command(Seq::empty()) == (Command::<Seq<char>>::Completions { shell: None }),
        completions_command(seq![shell]) == (Command::Completions { shell: Some(shell) }),
        completions_command(seq!["--shell"@, shell]) == (Command::Completions {
            shell: Some(shell),
        }),
        completions_command(seq!["--verify"@]) matches Command::Refused { code, .. } && code == 2,
        completions_command(seq![flag]) matches Command::Refused { code, .. } && code == 2,
{
    reveal_strlit("init");
    reveal_strlit("completions");
    reveal_strlit("--shell");
    reveal_strlit("--verify");
    assert("--shell"@[0] == '-' && "--verify"@[0] == '-');
    assert("--shell"@.len() == 7 && "--verify"@.len() == 8);
    assert("init"@.len() == 4 && "completions"@.len() == 11);
    reveal_with_fuel(shell_choice, 3);
    assert(seq![shell].drop_first() =~= Seq::empty());
    assert(seq!["--verify"@].drop_first() =~= Seq::empty());
    assert(seq!["--shell"@, shell].skip(2) =~= Seq::empty());
}

/// The shell that is named last counts.
pub proof fn law_last_shell_counts(
    command: Seq<char>,
    a: Seq<Seq<char>>,
    shell: Seq<char>,
    before: Option<Seq<char>>,
    verify: bool,
)
    requires
        is_shell_word(shell),
        forall|i: int| 0 <= i < a.len() ==> is_shell_word(#[trigger] a[i]),
    ensures
        shell_choice(command, a.push(shell), before, verify) == Ok::<
            (Option<Seq<char>>, bool),
            Seq<char>,
        >((Some(shell), verify)),
    decreases a.len(),
{
    reveal_strlit("--shell");
    reveal_strlit("--verify");
    assert("--shell"@[0] == '-' && "--verify"@[0] == '-');
    let all = a.push(shell);
    if a.len() == 0 {
        reveal_with_fuel(shell_choice, 2);
        assert(all[0] == shell);
        assert(all.drop_first() =~= Seq::empty());
    } else {
        assert(is_shell_word(a[0]));
        assert(all[0] == a[0]);
        assert(all.drop_first() =~= a.drop_first().push(shell));
        assert forall|i: int| 0 <= i < a.drop_first().len() implies is_shell_word(
            #[trigger] a.drop_first()[i],
        ) by {
            assert(is_shell_word(a[i + 1]));
        }
        law_last_shell_counts(command, a.drop_first(), shell, Some(a[0]), verify);
    }
}

/// `book edit` changes what its flags name, each to the word behind it, and
/// nothing else; without a flag it shows the bookmark, and an unknown one is
/// refused.
pub proof fn law_edit_forms(alias: Seq<char>, value: Seq<char>, other: Seq<char>, flag: Seq<char>)
    requires
        flag != "--alias"@,
        flag != "--path"@,
        flag != "--description"@,
    ensures
        edit_command(seq![alias]) == (Command::BookShow { alias }),
        edit_command(seq![alias, "--alias"@, value]) == (Command::BookEdit {
            alias,
            changes: Changes { alias: Some(value), path: None, description: None },
        }),
        edit_command(seq![alias, "--path"@, value]) == (Command::BookEdit {
            alias,
            changes: Changes { alias: None, path: Some(value), description: None },
        }),
        edit_command(seq![alias, "--description"@, value]) == (Command::BookEdit {
            alias,
            changes: Changes { alias: None, path: None, description: Some(value) },
        }),
        edit_command(seq![alias, "--path"@, value, "--description"@, other]) == (Command::BookEdit {
            alias,
            changes: Changes { alias: None, path: Some(value), description: Some(other) },
        }),
        edit_command(seq![alias, flag]) matches Command::Refused { code, .. } && code == 2,
        edit_command(Seq::empty()) matches Command::Refused { code, .. } && code == 2,
{
    reveal_strlit("--alias");
    reveal_strlit("--path");
    reveal_strlit("--description");
    assert("--alias"@.len() == 7 && "--path"@.len() == 6 && "--description"@.len() == 13);
    reveal_with_fuel(changes_asked, 4);
    assert(seq![alias].drop_first() =~= Seq::empty());
    let a = seq![alias, "--alias"@, value].drop_first();
    assert(a =~= seq!["--alias"@, value]);
    assert(a.skip(2) =~= Seq::empty());
    let p = seq![alias, "--path"@, value].drop_first();
    assert(p =~= seq!["--path"@, value]);
    assert(p.skip(2) =~= Seq::empty());
    let d = seq![alias, "--description"@, value].drop_first();
    assert(d =~= seq!["--description"@, value]);
    assert(d.skip(2) =~= Seq::empty());
    let two = seq![alias, "--path"@, value, "--description"@, other].drop_first();
    assert(two =~= seq!["--path"@, value, "--description"@, other]);
    assert(two.skip(2) =~= seq!["--description"@, other]);
    assert(seq!["--description"@, other].skip(2) =~= Seq::empty());
    assert(seq![alias, flag].drop_first() =~= seq![flag]);
}

/// The flags of `book edit` are taken in turn: what the first ones ask for, and
/// then what the others do on top of that.
pub proof fn law_edits_in_turn(
    flag: Seq<char>,
    value: Seq<char>,
    rest: Seq<Seq<char>>,
    changes: Changes<Seq<char>>,
)
    ensures
        flag == "--alias"@ ==> changes_asked(seq![flag, value] + rest, changes) == changes_asked(
            rest,
            Changes { alias: Some(value), ..changes },
        ),
        flag == "--path"@ ==> changes_asked(seq![flag, value] + rest, changes) == changes_asked(
            rest,
            Changes { path: Some(value), ..changes },
        ),
        flag == "--description"@ ==> changes_asked(seq![flag, value] + rest, changes)
            == changes_asked(rest, Changes { description: Some(value), ..changes }),
        changes_asked(Seq::empty(), changes) == Ok::<Changes<Seq<char>>, Seq<char>>(changes),
{
    reveal_strlit("--alias");
    reveal_strlit("--path");
    reveal_strlit("--description");
    assert("--alias"@.len() == 7 && "--path"@.len() == 6 && "--description"@.len() == 13);
    let all = seq![flag, value] + rest;
    assert(all[0] == flag && all[1] == value);
    assert(all.skip(2) =~= rest);
}

/// `book` alone, and `book list`, list the bookmarks; `book edit` goes on to
/// its own arguments, and `book rm` needs an alias.
pub proof fn law_book_lists(rest: Seq<Seq<char>>)
    requires
        !rest.contains("--json"@),
        !rest.contains("-j"@),
    ensures
        rest.len() == 0 || rest[0] == "list"@ ==> book_command(rest) == (Command::<
            Seq<char>,
        >::BookList { json: false }),
        rest.len() > 0 && rest[0] == "edit"@ ==> book_command(rest) == edit_command(
            rest.drop_first(),
        ),
        rest.len() > 0 && rest[0] == "rm"@ ==> book_command(rest) == (if rest.len() > 1 {
            Command::BookRemove { alias: rest[1] }
        } else {
            Command::Refused { message: "Usage: hop book rm <alias>"@, code: 2 }
        }),
{
    reveal_strlit("list");
    reveal_strlit("edit");
    reveal_strlit("rm");
    assert("list"@.len() == 4 && "edit"@.len() == 4 && "rm"@.len() == 2);
    assert("list"@[0] == 'l' && "edit"@[0] == 'e');
    args::law_flag_absent(rest, "--json"@);
    args::law_flag_absent(rest, "-j"@);
}

/// `add` takes the first word that is no flag, and what follows that does not
/// matter.
pub proof fn law_add_takes_first(path: Seq<char>, more: Seq<Seq<char>>)
    requires
        path.len() > 0,
        is_word(path),
        forall|i: int| 0 <= i < more.len() ==> is_word(#[trigger] more[i]),
    ensures
        add_command(seq![path] + more) == (Command::Add { path, dry_run: false }),
        add_command(Seq::empty()) matches Command::Refused { code, .. } && code == 2,
        add_command(seq![""@]) matches Command::Refused { code, .. } && code == 1,
{
    reveal_strlit("");
    reveal_strlit("--");
    reveal_strlit("--dry-run");
    let all = seq![path] + more;
    assert forall|i: int| 0 <= i < all.len() implies is_word(#[trigger] all[i]) by {
        if i > 0 {
            assert(all[i] == more[i - 1]);
        }
    }
    lemma_words_stay(all);
    assert(all[0] == path);
    args::lemma_without_one(""@, "--"@);
    args::lemma_without_one(""@, "--dry-run"@);
    assert(""@.len() == 0 && "--"@.len() == 2 && "--dry-run"@.len() == 9);
    assert(seq![""@][0] == ""@);
}

/// `rm` takes the first word, or the one behind a separator.
pub proof fn law_rm_separator(path: Seq<char>, more: Seq<Seq<char>>)
    ensures
        rm_command(seq!["--"@, path] + more) == (Command::Remove { path }),
        path != "--"@ ==> rm_command(seq![path] + more) == (Command::Remove { path }),
        rm_command(Seq::empty()) matches Command::Refused { code, .. } && code == 2,
{
    assert((seq!["--"@, path] + more)[1] == path);
    assert((seq![path] + more)[0] == path);
}

/// A tool that is not known is refused, and so is an import without a file.
pub proof fn law_import_refusals(source: Seq<char>, file: Seq<char>)
    requires
        source != "--dry-run"@,
        file != "--dry-run"@,
    ensures
        !import::is_source(source) ==> import_command(seq![source, file]) == (Command::Refused {
            message: "unknown source: "@ + source,
            code: 2,
        }),
        import_command(seq![source]) matches Command::Refused { code, .. } && code == 2,
        import_command(Seq::empty()) matches Command::Refused { code, .. } && code == 2,
        import::is_source(source) ==> import_command(seq![source, file]) == (Command::Import {
            source,
            file,
            dry_run: false,
        }),
{
    let list = seq![source, file];
    assert(!list.contains("--dry-run"@)) by {
        if list.contains("--dry-run"@) {
            let k = choose|k: int| 0 <= k < list.len() && list[k] == "--dry-run"@;
            assert(k == 0 || k == 1);
        }
    }
}

/// The commands that change something are known by their names, whatever
/// follows, and take what stands behind them; `clear` asks unless `--force` comes
/// next, and a dash goes back.
pub proof fn law_changing_lines(list: Seq<Seq<char>>)
    requires
        list.len() >= 2,
    ensures
        list[1] == "add"@ ==> parsed(list) == add_command(list.skip(2)) && !is_standalone(list),
        list[1] == "rm"@ ==> parsed(list) == rm_command(list.skip(2)) && !is_standalone(list),
        list[1] == "forget"@ ==> parsed(list) == forget_command(list.skip(2)) && !is_standalone(
            list,
        ),
        list[1] == "book"@ ==> parsed(list) == book_command(list.skip(2)) && !is_standalone(list),
        list[1] == "import"@ ==> parsed(list) == import_command(list.skip(2)) && !is_standalone(
            list,
        ),
        list[1] == "clear"@ ==> parsed(list) == (Command::<Seq<char>>::Clear {
            force: list.len() > 2 && list[2] == "--force"@,
        }) && !is_standalone(list),
        list[1] == "-"@ ==> parsed(list) == Command::<Seq<char>>::Previous && !is_standalone(list),
{
    reveal_strlit("add");
    reveal_strlit("rm");
    reveal_strlit("forget");
    reveal_strlit("book");
    reveal_strlit("import");
    reveal_strlit("clear");
    reveal_strlit("-");
    reveal_strlit("init");
    reveal_strlit("completions");
    reveal_strlit("--help");
    reveal_strlit("-h");
    reveal_strlit("help");
    reveal_strlit("--version");
    reveal_strlit("-v");
    reveal_strlit("p");
    reveal_strlit("pick");
    reveal_strlit("history");
    reveal_strlit("recent");
    reveal_strlit("score");
    reveal_strlit("list");
    reveal_strlit("export");
    reveal_strlit("prune");
    assert("add"@.len() == 3 && "rm"@.len() == 2 && "forget"@.len() == 6 && "book"@.len() == 4
        && "import"@.len() == 6 && "clear"@.len() == 5 && "-"@.len() == 1);
    assert("init"@.len() == 4 && "completions"@.len() == 11 && "--help"@.len() == 6 && "-h"@.len()
        == 2 && "help"@.len() == 4 && "--version"@.len() == 9 && "-v"@.len() == 2 && "p"@.len() == 1
        && "pick"@.len() == 4 && "history"@.len() == 7 && "recent"@.len() == 6 && "score"@.len()
        == 5 && "list"@.len() == 4 && "export"@.len() == 6 && "prune"@.len() == 5);
    assert("rm"@[0] == 'r' && "-h"@[0] == '-' && "-v"@[0] == '-' && "p"@[0] == 'p' && "-"@[0]
        == '-' && "forget"@[0] == 'f' && "--help"@[0] == '-' && "import"@[0] == 'i' && "recent"@[0]
        == 'r' && "export"@[0] == 'e' && "book"@[0] == 'b' && "init"@[0] == 'i' && "help"@[0] == 'h'
        && "pick"@[0] == 'p' && "clear"@[0] == 'c' && "score"@[0] == 's' && "prune"@[0] == 'p'
        && "list"@[0] == 'l');
}

/// The arguments of `init` and `completions` are taken in turn: a shell takes the
/// place of one before it, `--verify` is for `init` alone, and the first that is
/// not known ends it.
pub proof fn law_shells_in_turn(
    command: Seq<char>,
    word: Seq<char>,
    value: Seq<char>,
    rest: Seq<Seq<char>>,
    shell: Option<Seq<char>>,
    verify: bool,
)
    ensures
        is_shell_word(word) ==> shell_choice(command, seq![word] + rest, shell, verify)
            == shell_choice(command, rest, Some(word), verify),
        shell_choice(command, seq!["--shell"@, value] + rest, shell, verify) == shell_choice(
            command,
            rest,
            Some(value),
            verify,
        ),
        shell_choice("init"@, seq!["--verify"@] + rest, shell, verify) == shell_choice(
            "init"@,
            rest,
            shell,
            true,
        ),
        !is_shell_word(word) && word != "--shell"@ && !(command == "init"@ && word == "--verify"@)
            ==> shell_choice(command, seq![word] + rest, shell, verify) == Err::<
            (Option<Seq<char>>, bool),
            Seq<char>,
        >("unknown "@ + command + " flag: "@ + word),
        shell_choice(command, Seq::empty(), shell, verify) == Ok::<
            (Option<Seq<char>>, bool),
            Seq<char>,
        >((shell, verify)),
{
    reveal_strlit("--shell");
    reveal_strlit("--verify");
    assert("--shell"@.len() == 7 && "--shell"@[0] == '-');
    assert("--verify"@.len() == 8 && "--verify"@[0] == '-');
    let one = seq![word] + rest;
    assert(one.drop_first() =~= rest);
    let two = seq!["--shell"@, value] + rest;
    assert(two.skip(2) =~= rest);
    assert(two[0] == "--shell"@);
    let three = seq!["--verify"@] + rest;
    assert(three.drop_first() =~= rest);
    assert(three[0] == "--verify"@);
}

/// `book edit` shows the bookmark where nothing is to be changed, and else
/// changes what was asked for; the first flag that is not known is refused, and a
/// flag at the end, without a value, takes its change back.
pub proof fn law_edit_asked(
    alias: Seq<char>,
    rest: Seq<Seq<char>>,
    flag: Seq<char>,
    changes: Changes<Seq<char>>,
)
    requires
        flag != "--alias"@,
        flag != "--path"@,
        flag != "--description"@,
    ensures
        changes_asked(seq![flag] + rest, changes) == Err::<Changes<Seq<char>>, Seq<char>>(flag),
        changes_asked(seq!["--alias"@], changes) == Ok::<Changes<Seq<char>>, Seq<char>>(
            Changes { alias: None, ..changes },
        ),
        changes_asked(seq!["--path"@], changes) == Ok::<Changes<Seq<char>>, Seq<char>>(
            Changes { path: None, ..changes },
        ),
        changes_asked(seq!["--description"@], changes) == Ok::<Changes<Seq<char>>, Seq<char>>(
            Changes { description: None, ..changes },
        ),
        changes_asked(rest, unchanged()) matches Ok(asked) ==> edit_command(seq![alias] + rest)
            == if asked.alias is None && asked.path is None && asked.description is None {
            Command::BookShow { alias }
        } else {
            Command::BookEdit { alias, changes: asked }
        },
        changes_asked(rest, unchanged()) is Err ==> (edit_command(
            seq![alias] + rest,
        ) matches Command::Refused { code, .. } && code == 2),
{
    reveal_strlit("--alias");
    reveal_strlit("--path");
    reveal_strlit("--description");
    assert("--alias"@.len() == 7 && "--path"@.len() == 6 && "--description"@.len() == 13);
    reveal_with_fuel(changes_asked, 2);
    assert((seq![flag] + rest)[0] == flag);
    assert((seq![alias] + rest).drop_first() =~= rest);
}

/// `book` with an alias resolves it where it stands alone, and else sets it to
/// the word behind it.
pub proof fn law_book_words(alias: Seq<char>, more: Seq<Seq<char>>)
    requires
        is_alias(alias),
        !more.contains("--json"@),
        !more.contains("-j"@),
    ensures
        book_command(seq![alias] + more) == if more.len() > 0 {
            Command::BookSet { alias, path: more[0] }
        } else {
            Command::BookResolve { alias }
        },
{
    let rest = seq![alias] + more;
    assert forall|word: Seq<char>| word == "--json"@ || word == "-j"@ implies !rest.contains(
        word,
    ) by {
        if rest.contains(word) {
            let k = choose|k: int| 0 <= k < rest.len() && rest[k] == word;
            if k > 0 {
                assert(more[k - 1] == word);
            }
        }
    }
    args::law_flag_absent(rest, "--json"@);
    args::law_flag_absent(rest, "-j"@);
    assert(rest[0] == alias);
    assert(more.len() > 0 ==> rest[1] == more[0]);
}

/// A dry run of an import may be asked for behind the file as well.
pub proof fn law_import_dry_run_last(source: Seq<char>, file: Seq<char>, more: Seq<Seq<char>>)
    requires
        source != "--dry-run"@,
        file != "--dry-run"@,
        more.contains("--dry-run"@),
    ensures
        import_command(seq![source, file] + more) == (Command::Import {
            source,
            file,
            dry_run: true,
        }),
{
    let rest = seq![source, file] + more;
    let k = choose|k: int| 0 <= k < more.len() && more[k] == "--dry-run"@;
    assert(rest[k + 2] == "--dry-run"@);
    assert(rest[0] == source && rest[1] == file);
}

/// The separator `--` is no part of a query, wherever it stands.
pub proof fn law_separator_in_query(a: Seq<Seq<char>>, b: Seq<Seq<char>>)
    ensures
        score_command(a + seq!["--"@] + b) == score_command(a + b),
        pick_command(a + seq!["--"@] + b) == pick_command(a + b),
{
    reveal_strlit("--");
    reveal_strlit("--json");
    assert("--"@.len() == 2 && "--json"@.len() == 6);
    args::law_dropped_anywhere(a, b, "--"@);
    let all = a + seq!["--"@] + b;
    let both = a + b;
    assert(all.contains("--json"@) <==> both.contains("--json"@)) by {
        if all.contains("--json"@) {
            let k = choose|k: int| 0 <= k < all.len() && all[k] == "--json"@;
            if k < a.len() {
                assert(both[k] == "--json"@);
            } else {
                assert(k != a.len());
                assert(both[k - 1] == "--json"@);
            }
        }
        if both.contains("--json"@) {
            let k = choose|k: int| 0 <= k < both.len() && both[k] == "--json"@;
            if k < a.len() {
                assert(all[k] == "--json"@);
            } else {
                assert(all[k + 1] == "--json"@);
            }
        }
    }
}

/// `forget --dry-run` without a query is refused; `--dry-run` is what tells a dry
/// run from one that forgets.
pub proof fn law_forget_flags(rest: Seq<Seq<char>>)
    ensures
        forget_command(seq!["--dry-run"@]) matches Command::Refused { code, .. } && code == 2,
        forget_command(rest) matches Command::Forget { query, dry_run } ==> dry_run
            == rest.contains("--dry-run"@) && query == render::joined(
            args::without(rest, "--dry-run"@),
            " "@,
        ) && query.len() > 0,
        forget_command(rest) is ForgetPick ==> !rest.contains("--dry-run"@),
{
    let one = seq!["--dry-run"@];
    assert(one[0] == "--dry-run"@);
    assert(one.contains("--dry-run"@));
    args::law_dropped_anywhere(Seq::empty(), Seq::empty(), "--dry-run"@);
    assert(Seq::<Seq<char>>::empty() + one + Seq::empty() =~= one);
    assert(Seq::<Seq<char>>::empty() + Seq::empty() =~= Seq::<Seq<char>>::empty());
    reveal_with_fuel(args::without, 1);
    reveal_with_fuel(render::joined, 1);
}

/// The separator `--` is no part of what is listed either.
pub proof fn law_separator_in_list(a: Seq<Seq<char>>, b: Seq<Seq<char>>)
    requires
        !a.contains("--limit"@),
        !b.contains("--limit"@),
    ensures
        list_command(a + seq!["--"@] + b) == list_command(a + b),
{
    reveal_strlit("--");
    reveal_strlit("--json");
    reveal_strlit("--limit");
    assert("--"@.len() == 2 && "--json"@.len() == 6 && "--limit"@.len() == 7);
    let all = a + seq!["--"@] + b;
    let both = a + b;
    assert forall|word: Seq<char>| word != "--"@ implies (all.contains(word) <==> (a.contains(word)
        || b.contains(word))) by {
        lemma_word_between(a, b, "--"@, word);
    }
    assert forall|word: Seq<char>| #[trigger] both.contains(word) <==> (a.contains(word)
        || b.contains(word)) by {
        lemma_word_either(a, b, word);
    }
    args::law_flag_absent(all, "--limit"@);
    args::law_flag_absent(both, "--limit"@);
    args::law_dropped_anywhere(a, b, "--"@);
}

proof fn lemma_word_either(a: Seq<Seq<char>>, b: Seq<Seq<char>>, word: Seq<char>)
    ensures
        (a + b).contains(word) <==> a.contains(word) || b.contains(word),
{
    let both = a + b;
    if both.contains(word) {
        let k = choose|k: int| 0 <= k < both.len() && both[k] == word;
        if k < a.len() {
            assert(a[k] == word);
        } else {
            assert(b[k - a.len()] == word);
        }
    }
    if a.contains(word) {
        let k = choose|k: int| 0 <= k < a.len() && a[k] == word;
        assert(both[k] == word);
    }
    if b.contains(word) {
        let k = choose|k: int| 0 <= k < b.len() && b[k] == word;
        assert(both[a.len() + k] == word);
    }
}

proof fn lemma_word_between(
    a: Seq<Seq<char>>,
    b: Seq<Seq<char>>,
    between: Seq<char>,
    word: Seq<char>,
)
    requires
        word != between,
    ensures
        (a + seq![between] + b).contains(word) <==> a.contains(word) || b.contains(word),
{
    lemma_word_either(a + seq![between], b, word);
    lemma_word_either(a, seq![between], word);
    if seq![between].contains(word) {
        let k = choose|k: int| 0 <= k < 1 && seq![between][k] == word;
        assert(seq![between][0] == word);
    }
}

} // verus!
