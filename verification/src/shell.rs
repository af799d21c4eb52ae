//! Shell history: the commands in it, and where `cd` commands lead.

use vstd::prelude::*;
use vstd::string::StringExecFns;

use crate::render;
use crate::text;

verus! {

// ---------------------------------------------------------------------------
// Commands of a zsh history file
// ---------------------------------------------------------------------------

/// The command on a line: what follows the first `;` of a line that begins with
/// `: ` (the extended format), or nothing if none does; any other line as it is.
pub open spec fn line_command(line: Seq<char>) -> Seq<char> {
    if line.len() >= 2 && line[0] == ':' && line[1] == ' ' {
        let rest = line.skip(2);
        let i = text::first_index(rest, ';');
        if i < rest.len() {
            rest.skip(i + 1)
        } else {
            Seq::empty()
        }
    } else {
        line
    }
}

/// Whether a command goes on on the next line.
pub open spec fn goes_on(command: Seq<char>) -> bool {
    command.len() > 0 && command.last() == '\\'
}

/// A finished command, unless it is blank.
pub open spec fn finished(command: Seq<char>) -> Seq<Seq<char>> {
    if text::is_blank(command) {
        Seq::empty()
    } else {
        seq![command]
    }
}

/// The commands of `lines`, the first of which began with `buf`.
pub open spec fn commands_after(lines: Seq<Seq<char>>, buf: Seq<char>) -> Seq<Seq<char>>
    decreases lines.len(),
{
    if lines.len() == 0 {
        finished(buf)
    } else {
        let command = line_command(lines[0]);
        if goes_on(command) {
            commands_after(lines.drop_first(), (buf + command.drop_last()).push('\n'))
        } else {
            finished(buf + command) + commands_after(lines.drop_first(), Seq::empty())
        }
    }
}

/// The commands of a zsh history file.
pub open spec fn zsh_commands(content: Seq<char>) -> Seq<Seq<char>> {
    commands_after(text::lines(content), Seq::empty())
}

/// The command on a line.
fn command_on(line: &str) -> (r: String)
    ensures
        r@ == line_command(line@),
{
    let chars: Vec<char> = text::chars_of(line);
    let n: usize = chars.len();
    if n >= 2 && chars[0] == ':' && chars[1] == ' ' {
        let i: usize = text::index_of(&chars, 2, n, ';');
        assert(chars@.subrange(2, n as int) =~= line@.skip(2));
        if i < n {
            assert(line@.skip(2).skip(i - 2 + 1) =~= chars@.subrange(i + 1, n as int));
            text::text_between(&chars, i + 1, n)
        } else {
            String::new()
        }
    } else {
        line.to_string()
    }
}

/// Splits a zsh history file into commands. Both formats are read,
///   plain: `cd ~/foo`
///   extended: `: 1700000000:0;cd ~/foo`
/// and lines that end in a backslash are joined with the next.
pub fn parse_zsh_history(content: &str) -> (r: Vec<String>)
    ensures
        text::views(r@) == zsh_commands(content@),
        forall|i: int| 0 <= i < r@.len() ==> !text::is_blank((#[trigger] r@[i])@),
{
    let lines: Vec<String> = text::split_lines(content);
    let ghost all = text::views(lines@);
    let mut r: Vec<String> = Vec::new();
    let mut buf: String = String::new();
    proof {
        assert(all.skip(0) =~= all);
        assert(text::views(r@) + zsh_commands(content@) =~= zsh_commands(content@));
    }
    for i in 0..lines.len()
        invariant
            all == text::views(lines@),
            text::views(r@) + commands_after(all.skip(i as int), buf@) == zsh_commands(content@),
    {
        let ghost rest = all.skip(i as int);
        let ghost before = r@;
        let ghost start = buf@;
        let command: String = command_on(lines[i].as_str());
        proof {
            assert(rest[0] == lines@[i as int]@);
            assert(rest.drop_first() =~= all.skip(i + 1));
        }
        let chars: Vec<char> = text::chars_of(command.as_str());
        let n: usize = chars.len();
        if n > 0 && chars[n - 1] == '\\' {
            let head: String = text::text_between(&chars, 0, n - 1);
            assert(head@ =~= command@.drop_last());
            buf.append(head.as_str());
            buf.push('\n');
        } else {
            buf.append(command.as_str());
            let ghost full = buf@;
            if !text::blank(buf.as_str()) {
                r.push(buf);
                proof {
                    text::lemma_views_push(before, r@[r@.len() - 1]);
                }
            }
            buf = String::new();
            proof {
                assert(text::views(r@) =~= text::views(before) + finished(full));
                assert(text::views(before) + (finished(full) + commands_after(
                    all.skip(i + 1),
                    Seq::empty(),
                )) =~= text::views(r@) + commands_after(all.skip(i + 1), Seq::empty()));
            }
        }
    }
    let ghost before = r@;
    let ghost full = buf@;
    assert(all.skip(lines@.len() as int) =~= Seq::<Seq<char>>::empty());
    if !text::blank(buf.as_str()) {
        r.push(buf);
        proof {
            text::lemma_views_push(before, r@[r@.len() - 1]);
        }
    }
    proof {
        assert(text::views(r@) =~= text::views(before) + finished(full));
        law_no_blank_command(all, Seq::empty());
        assert forall|i: int| 0 <= i < r@.len() implies !text::is_blank((#[trigger] r@[i])@) by {
            assert(zsh_commands(content@)[i] == r@[i]@);
        }
    }
    r
}

// ---------------------------------------------------------------------------
// Words of a command
// ---------------------------------------------------------------------------

/// How many characters stand before the first `;`, `&` or `|` outside quotes.
pub open spec fn segment_len(s: Seq<char>, in_single: bool, in_double: bool) -> nat
    decreases s.len(),
{
    if s.len() == 0 {
        0
    } else if s[0] == '\'' && !in_double {
        1 + segment_len(s.drop_first(), !in_single, in_double)
    } else if s[0] == '"' && !in_single {
        1 + segment_len(s.drop_first(), in_single, !in_double)
    } else if (s[0] == ';' || s[0] == '&' || s[0] == '|') && !in_single && !in_double {
        0
    } else {
        1 + segment_len(s.drop_first(), in_single, in_double)
    }
}

/// The first command of a chain.
pub open spec fn first_segment(s: Seq<char>) -> Seq<char> {
    s.take(segment_len(s, false, false) as int)
}

/// How the tokenizer stands between two characters.
pub struct Reading {
    /// What has been read of the present token.
    pub cur: Seq<char>,
    pub in_single: bool,
    pub in_double: bool,
    /// Whether the next character is taken as it is.
    pub escape: bool,
    /// Whether there is a present token. A quoted one may be empty.
    pub has_token: bool,
}

impl Reading {
    /// The tokenizer between tokens.
    pub open spec fn fresh() -> Reading {
        Reading {
            cur: Seq::empty(),
            in_single: false,
            in_double: false,
            escape: false,
            has_token: false,
        }
    }

    /// Whether `c` ends the present token.
    pub open spec fn splits(self, c: char) -> bool {
        !self.escape && text::is_white(c) && !self.in_single && !self.in_double
    }

    /// The tokenizer after a character that does not end a token.
    pub open spec fn read(self, c: char) -> Reading {
        if self.escape {
            Reading { cur: self.cur.push(c), escape: false, has_token: true, ..self }
        } else if c == '\\' && !self.in_single {
            Reading { escape: true, ..self }
        } else if c == '\'' && !self.in_double {
            Reading { in_single: !self.in_single, has_token: true, ..self }
        } else if c == '"' && !self.in_single {
            Reading { in_double: !self.in_double, has_token: true, ..self }
        } else {
            Reading { cur: self.cur.push(c), has_token: true, ..self }
        }
    }

    /// The present token, if there is one.
    pub open spec fn token(self) -> Seq<Seq<char>> {
        if self.has_token {
            seq![self.cur]
        } else {
            Seq::empty()
        }
    }
}

/// The tokens of what is still to be read.
pub open spec fn tokens_after(s: Seq<char>, at: Reading) -> Seq<Seq<char>>
    decreases s.len(),
{
    if s.len() == 0 {
        at.token()
    } else if at.splits(s[0]) {
        at.token() + tokens_after(s.drop_first(), Reading::fresh())
    } else {
        tokens_after(s.drop_first(), at.read(s[0]))
    }
}

/// The tokens of a command.
pub open spec fn tokens(s: Seq<char>) -> Seq<Seq<char>> {
    tokens_after(s, Reading::fresh())
}

/// Index of the first `;`, `&` or `|` outside quotes, from index `from` on.
fn split_first_segment(chars: &Vec<char>, from: usize) -> (r: usize)
    requires
        from <= chars@.len(),
    ensures
        from <= r <= chars@.len(),
        chars@.subrange(from as int, r as int) == first_segment(chars@.skip(from as int)),
{
    let ghost s = chars@.skip(from as int);
    let mut in_single: bool = false;
    let mut in_double: bool = false;
    let mut i: usize = from;
    let n: usize = chars.len();
    assert(s.skip(0) =~= s);
    while i < n
        invariant
            from <= i <= n == chars@.len(),
            s == chars@.skip(from as int),
            segment_len(s, false, false) == i - from + segment_len(
                s.skip(i - from),
                in_single,
                in_double,
            ),
        decreases n - i,
    {
        let ghost rest = s.skip(i - from);
        assert(rest[0] == chars@[i as int]);
        assert(rest.drop_first() =~= s.skip(i - from + 1));
        let c: char = chars[i];
        if c == '\'' && !in_double {
            in_single = !in_single;
        } else if c == '"' && !in_single {
            in_double = !in_double;
        } else if (c == ';' || c == '&' || c == '|') && !in_single && !in_double {
            assert(s.take(i - from) =~= chars@.subrange(from as int, i as int));
            return i;
        }
        i += 1;
    }
    assert(s.take(n - from) =~= chars@.subrange(from as int, n as int));
    n
}

/// The tokens of a command: text between white space, with single and double
/// quotes and backslash escapes.
pub fn shell_tokens(command: &str) -> (r: Vec<String>)
    ensures
        text::views(r@) == tokens(command@),
{
    let chars: Vec<char> = text::chars_of(command);
    let ghost s = command@;
    let mut r: Vec<String> = Vec::new();
    let mut cur: String = String::new();
    let mut in_single: bool = false;
    let mut in_double: bool = false;
    let mut escape: bool = false;
    let mut has_token: bool = false;
    proof {
        assert(s.skip(0) =~= s);
        assert(text::views(r@) + tokens(s) =~= tokens(s));
        assert(cur@ =~= Reading::fresh().cur);
    }
    for i in 0..chars.len()
        invariant
            chars@ == s,
            !has_token ==> cur@ == Seq::<char>::empty(),
            text::views(r@) + tokens_after(
                s.skip(i as int),
                Reading { cur: cur@, in_single, in_double, escape, has_token },
            ) == tokens(s),
    {
        let ghost rest = s.skip(i as int);
        let ghost at = Reading { cur: cur@, in_single, in_double, escape, has_token };
        let ghost before = r@;
        let c: char = chars[i];
        proof {
            assert(rest[0] == c);
            assert(rest.drop_first() =~= s.skip(i + 1));
        }
        if escape {
            cur.push(c);
            escape = false;
            has_token = true;
        } else if c == '\\' && !in_single {
            escape = true;
        } else if c == '\'' && !in_double {
            in_single = !in_single;
            has_token = true;
        } else if c == '"' && !in_single {
            in_double = !in_double;
            has_token = true;
        } else if text::is_whitespace(c) && !in_single && !in_double {
            if has_token {
                r.push(cur);
                cur = String::new();
                has_token = false;
                proof {
                    text::lemma_views_push(before, r@[r@.len() - 1]);
                }
            }
            proof {
                assert(text::views(r@) =~= text::views(before) + at.token());
                assert(text::views(before) + (at.token() + tokens_after(
                    rest.drop_first(),
                    Reading::fresh(),
                )) =~= text::views(r@) + tokens_after(rest.drop_first(), Reading::fresh()));
            }
        } else {
            cur.push(c);
            has_token = true;
        }
    }
    let ghost at = Reading { cur: cur@, in_single, in_double, escape, has_token };
    let ghost before = r@;
    assert(s.skip(s.len() as int) =~= Seq::<char>::empty());
    if has_token {
        r.push(cur);
        proof {
            text::lemma_views_push(before, r@[r@.len() - 1]);
        }
    }
    assert(text::views(r@) =~= text::views(before) + at.token());
    r
}

// ---------------------------------------------------------------------------
// Where a command leads
// ---------------------------------------------------------------------------

/// Whether an argument of `cd` names a directory as it stands: it is no option
/// and not `-`, and holds no variable and no command to run.
pub open spec fn is_plain_target(arg: Seq<char>) -> bool {
    &&& !(arg.len() > 0 && arg[0] == '-')
    &&& !arg.contains('$')
    &&& !arg.contains('`')
}

/// The directory that a list of tokens changes to.
pub open spec fn tokens_target(list: Seq<Seq<char>>) -> Option<Seq<char>> {
    if list.len() >= 2 && (list[0] == "cd"@ || list[0] == "pushd"@) && is_plain_target(list[1]) {
        Some(list[1])
    } else {
        None
    }
}

/// The directory that a command changes to.
pub open spec fn cd_target(cmd: Seq<char>) -> Option<Seq<char>> {
    tokens_target(tokens(first_segment(text::trim_start(cmd))))
}

/// The directory argument of a `cd` or `pushd` command. There is none if the
/// command, or the first one of a chain, is another, or takes a form that cannot
/// be followed (no argument, `-`, a variable, a subshell).
pub fn extract_cd_target(cmd: &str) -> (r: Option<String>)
    ensures
        r is Some == cd_target(cmd@) is Some,
        r matches Some(target) ==> cd_target(cmd@) == Some(target@),
        r matches Some(target) ==> is_plain_target(target@),
{
    let chars: Vec<char> = text::chars_of(cmd);
    let n: usize = chars.len();
    let start: usize = text::skip_white(&chars, 0, n);
    proof {
        text::lemma_trim_start(cmd@, start as int);
    }
    let end: usize = split_first_segment(&chars, start);
    let first: String = text::text_between(&chars, start, end);
    let list: Vec<String> = shell_tokens(first.as_str());
    let ghost all = text::views(list@);
    if list.len() < 2 {
        return None;
    }
    assert(all[0] == list@[0]@ && all[1] == list@[1]@);
    if !text::same_text(list[0].as_str(), "cd") && !text::same_text(list[0].as_str(), "pushd") {
        return None;
    }
    let arg: Vec<char> = text::chars_of(list[1].as_str());
    if arg.len() > 0 && arg[0] == '-' {
        return None;
    }
    if text::has_char(list[1].as_str(), '$') || text::has_char(list[1].as_str(), '`') {
        return None;
    }
    Some(list[1].clone())
}

// ---------------------------------------------------------------------------
// Laws
// ---------------------------------------------------------------------------

/// No command of a history is blank.
pub proof fn law_no_blank_command(lines: Seq<Seq<char>>, buf: Seq<char>)
    ensures
        forall|i: int|
            0 <= i < commands_after(lines, buf).len() ==> !text::is_blank(
                #[trigger] commands_after(lines, buf)[i],
            ),
    decreases lines.len(),
{
    let all = commands_after(lines, buf);
    if lines.len() == 0 {
        assert(all == finished(buf));
    } else {
        let command = line_command(lines[0]);
        if goes_on(command) {
            let next = (buf + command.drop_last()).push('\n');
            law_no_blank_command(lines.drop_first(), next);
            assert(all == commands_after(lines.drop_first(), next));
        } else {
            let first = finished(buf + command);
            let rest = commands_after(lines.drop_first(), Seq::empty());
            law_no_blank_command(lines.drop_first(), Seq::empty());
            assert(all == first + rest);
            assert forall|i: int| 0 <= i < all.len() implies !text::is_blank(
                #[trigger] all[i],
            ) by {
                if i >= first.len() {
                    assert(all[i] == rest[i - first.len()]);
                } else {
                    assert(all[i] == first[i]);
                }
            }
        }
    }
}

/// A line of the extended format holds the command behind its time stamp.
pub proof fn law_extended_line(stamp: Seq<char>, command: Seq<char>)
    requires
        !stamp.contains(';'),
    ensures
        line_command(seq![':', ' '] + stamp + seq![';'] + command) == command,
{
    let line = seq![':', ' '] + stamp + seq![';'] + command;
    let rest = line.skip(2);
    assert(rest =~= stamp + seq![';'] + command);
    let n = stamp.len() as int;
    assert(rest[n] == ';');
    assert forall|k: int| 0 <= k < n implies rest[k] != ';' by {
        assert(rest[k] == stamp[k]);
        assert(stamp.contains(stamp[k]));
    }
    text::lemma_first_index_is(rest, ';', n);
    assert(rest.skip(n + 1) =~= command);
}

/// The two formats agree: a history whose lines carry time stamps holds the
/// commands of the one whose lines do not.
pub proof fn law_formats_agree(
    plain: Seq<Seq<char>>,
    extended: Seq<Seq<char>>,
    stamps: Seq<Seq<char>>,
    buf: Seq<char>,
)
    requires
        plain.len() == extended.len() == stamps.len(),
        forall|i: int| 0 <= i < plain.len() ==> !(#[trigger] stamps[i]).contains(';'),
        forall|i: int|
            0 <= i < plain.len() ==> #[trigger] extended[i] == seq![':', ' '] + stamps[i] + seq![';']
                + plain[i],
        forall|i: int|
            0 <= i < plain.len() ==> !text::starts_with(#[trigger] plain[i], seq![':', ' ']),
    ensures
        commands_after(extended, buf) == commands_after(plain, buf),
    decreases plain.len(),
{
    if plain.len() > 0 {
        assert(!stamps[0].contains(';'));
        law_extended_line(stamps[0], plain[0]);
        assert(extended[0] == seq![':', ' '] + stamps[0] + seq![';'] + plain[0]);
        let first = plain[0];
        assert(line_command(first) == first) by {
            if first.len() >= 2 && first[0] == ':' && first[1] == ' ' {
                assert(first.subrange(0, 2) =~= seq![':', ' ']);
                assert(text::starts_with(first, seq![':', ' ']));
            }
        }
        let next = if goes_on(first) {
            (buf + first.drop_last()).push('\n')
        } else {
            Seq::empty()
        };
        law_formats_agree(
            plain.drop_first(),
            extended.drop_first(),
            stamps.drop_first(),
            next,
        );
    }
}

/// A command whose line ends in a backslash is joined with the line after it.
pub proof fn law_lines_joined(head: Seq<char>, next: Seq<char>, rest: Seq<Seq<char>>)
    requires
        !text::starts_with(head, seq![':', ' ']),
        !text::starts_with(next, seq![':', ' ']),
        !goes_on(next),
        !text::is_blank(head),
    ensures
        commands_after(seq![head.push('\\'), next] + rest, Seq::empty()) == seq![
            head.push('\n') + next,
        ] + commands_after(rest, Seq::empty()),
{
    let first = head.push('\\');
    let lines = seq![first, next] + rest;
    assert(line_command(first) == first) by {
        if first.len() >= 2 && first[0] == ':' && first[1] == ' ' {
            assert(head.subrange(0, 2) =~= seq![':', ' ']);
        }
    }
    assert(line_command(next) == next) by {
        if next.len() >= 2 && next[0] == ':' && next[1] == ' ' {
            assert(next.subrange(0, 2) =~= seq![':', ' ']);
        }
    }
    let tail = lines.drop_first();
    let buf = (Seq::<char>::empty() + first.drop_last()).push('\n');
    assert(buf =~= head.push('\n'));
    assert(tail[0] == next);
    assert(tail.drop_first() =~= rest);
    let full = buf + next;
    assert(!text::is_blank(full)) by {
        let k = choose|k: int| 0 <= k < head.len() && !text::is_white(head[k]);
        assert(full[k] == head[k]);
    }
    assert(commands_after(lines, Seq::empty()) == commands_after(tail, buf));
    assert(commands_after(tail, buf) == finished(full) + commands_after(rest, Seq::empty()));
}

proof fn lemma_commands_joined(a: Seq<Seq<char>>, b: Seq<Seq<char>>, buf: Seq<char>)
    requires
        a.len() > 0,
        !goes_on(line_command(a.last())),
    ensures
        commands_after(a + b, buf) == commands_after(a, buf) + commands_after(b, Seq::empty()),
    decreases a.len(),
{
    let command = line_command(a[0]);
    let rest = a.drop_first();
    assert((a + b).drop_first() =~= rest + b);
    assert((a + b)[0] == a[0]);
    if a.len() == 1 {
        assert(rest + b =~= b);
        assert(text::is_blank(Seq::empty()));
        assert(commands_after(rest, Seq::empty()) =~= Seq::empty());
        assert(commands_after(a, buf) =~= finished(buf + command));
    } else if goes_on(command) {
        lemma_commands_joined(rest, b, (buf + command.drop_last()).push('\n'));
    } else {
        lemma_commands_joined(rest, b, Seq::empty());
        assert(finished(buf + command) + (commands_after(rest, Seq::empty()) + commands_after(
            b,
            Seq::empty(),
        )) =~= (finished(buf + command) + commands_after(rest, Seq::empty())) + commands_after(
            b,
            Seq::empty(),
        ));
    }
}

/// Two histories one after the other hold the commands of the first and those of
/// the second after them, where no line goes on from one into the other.
pub proof fn law_histories_joined(a: Seq<char>, b: Seq<char>)
    requires
        a.len() > 0,
        a.last() == '\n',
        !goes_on(text::lines(a).last()),
    ensures
        zsh_commands(a + b) == zsh_commands(a) + zsh_commands(b),
{
    text::lemma_lines_joined(a, b);
    let last = text::lines(a).last();
    assert(!goes_on(line_command(last))) by {
        if last.len() >= 2 && last[0] == ':' && last[1] == ' ' {
            text::lemma_first_index(last.skip(2), ';');
        }
    }
    lemma_commands_joined(text::lines(a), text::lines(b), Seq::empty());
}

/// Inside single quotes nothing ends a command.
proof fn lemma_quoted_segment(p: Seq<char>, tail: Seq<char>)
    requires
        !p.contains('\''),
    ensures
        segment_len(p + seq!['\''] + tail, true, false) == p.len() + 1 + segment_len(
            tail,
            false,
            false,
        ),
    decreases p.len(),
{
    let s = p + seq!['\''] + tail;
    if p.len() == 0 {
        assert(s.drop_first() =~= tail);
    } else {
        assert(p.contains(p[0]));
        assert(s.drop_first() =~= p.drop_first() + seq!['\''] + tail);
        assert forall|c: char| p.drop_first().contains(c) implies p.contains(c) by {
            let k = choose|k: int| 0 <= k < p.drop_first().len() && p.drop_first()[k] == c;
            assert(p[k + 1] == c);
        }
        lemma_quoted_segment(p.drop_first(), tail);
    }
}

/// What stands in single quotes is read as it is.
proof fn lemma_quoted_token(p: Seq<char>, tail: Seq<char>, cur: Seq<char>)
    requires
        !p.contains('\''),
    ensures
        tokens_after(
            p + seq!['\''] + tail,
            Reading { cur, in_single: true, in_double: false, escape: false, has_token: true },
        ) == tokens_after(
            tail,
            Reading {
                cur: cur + p,
                in_single: false,
                in_double: false,
                escape: false,
                has_token: true,
            },
        ),
    decreases p.len(),
{
    let s = p + seq!['\''] + tail;
    let at = Reading { cur, in_single: true, in_double: false, escape: false, has_token: true };
    if p.len() == 0 {
        assert(s.drop_first() =~= tail);
        assert(tokens_after(s, at) == tokens_after(tail, at.read('\'')));
        assert(cur + p =~= cur);
    } else {
        assert(p.contains(p[0]));
        assert(s.drop_first() =~= p.drop_first() + seq!['\''] + tail);
        assert forall|c: char| p.drop_first().contains(c) implies p.contains(c) by {
            let k = choose|k: int| 0 <= k < p.drop_first().len() && p.drop_first()[k] == c;
            assert(p[k + 1] == c);
        }
        lemma_quoted_token(p.drop_first(), tail, cur.push(p[0]));
        assert(cur.push(p[0]) + p.drop_first() =~= cur + p);
    }
}

/// The words in single quotes, with a blank between each two.
pub open spec fn quoted_words(words: Seq<Seq<char>>) -> Seq<char>
    decreases words.len(),
{
    if words.len() == 0 {
        Seq::empty()
    } else if words.len() == 1 {
        seq!['\''] + words[0] + seq!['\'']
    } else {
        seq!['\''] + words[0] + seq!['\'', ' '] + quoted_words(words.drop_first())
    }
}

/// Words in single quotes are read back as they were, whatever they hold but a
/// single quote.
pub proof fn law_quoted_words(words: Seq<Seq<char>>)
    requires
        forall|i: int| 0 <= i < words.len() ==> !(#[trigger] words[i]).contains('\''),
    ensures
        tokens(quoted_words(words)) == words,
    decreases words.len(),
{
    if words.len() > 0 {
        let word = words[0];
        let rest = words.drop_first();
        let tail = if words.len() == 1 {
            Seq::empty()
        } else {
            seq![' '] + quoted_words(rest)
        };
        let s = quoted_words(words);
        let fresh = Reading::fresh();
        assert(s.drop_first() =~= word + seq!['\''] + tail);
        assert(tokens(s) == tokens_after(s.drop_first(), fresh.read('\'')));
        lemma_quoted_token(word, tail, Seq::empty());
        assert(Seq::<char>::empty() + word =~= word);
        let at = Reading {
            cur: word,
            in_single: false,
            in_double: false,
            escape: false,
            has_token: true,
        };
        assert(tokens(s) == tokens_after(tail, at));
        if words.len() > 1 {
            assert forall|i: int| 0 <= i < rest.len() implies !(#[trigger] rest[i]).contains(
                '\'',
            ) by {
                assert(rest[i] == words[i + 1]);
            }
            law_quoted_words(rest);
            assert(tail.drop_first() =~= quoted_words(rest));
            assert(at.splits(' '));
            assert(tokens_after(tail, at) == seq![word] + rest);
        }
        assert(tokens(s) =~= words);
    } else {
        assert(tokens(quoted_words(words)) =~= words);
    }
}

/// Where the first command ends that changes to a quoted directory.
proof fn lemma_quoted_command(p: Seq<char>, tail: Seq<char>)
    requires
        !p.contains('\''),
        tail.len() == 0 || tail[0] == ';' || tail[0] == '&' || tail[0] == '|',
    ensures
        first_segment(seq!['c', 'd', ' ', '\''] + p + seq!['\''] + tail) == seq!['c', 'd', ' ', '\'']
            + (p + seq!['\'']),
{
    let s0 = seq!['c', 'd', ' ', '\''] + p + seq!['\''] + tail;
    let s4 = p + seq!['\''] + tail;
    let s1 = seq!['d', ' ', '\''] + s4;
    let s2 = seq![' ', '\''] + s4;
    let s3 = seq!['\''] + s4;
    assert(s0.drop_first() =~= s1);
    assert(s1.drop_first() =~= s2);
    assert(s2.drop_first() =~= s3);
    assert(s3.drop_first() =~= s4);
    lemma_quoted_segment(p, tail);
    assert(segment_len(tail, false, false) == 0);
    assert(segment_len(s3, false, false) == 1 + segment_len(s4, true, false));
    assert(segment_len(s2, false, false) == 1 + segment_len(s3, false, false));
    assert(segment_len(s1, false, false) == 1 + segment_len(s2, false, false));
    assert(segment_len(s0, false, false) == 1 + segment_len(s1, false, false));
    assert(first_segment(s0) =~= seq!['c', 'd', ' ', '\''] + (p + seq!['\'']));
}

/// A directory in single quotes is found whatever its name holds, also where
/// the command is the first of a chain.
pub proof fn law_quoted_target(p: Seq<char>, tail: Seq<char>)
    requires
        !p.contains('\''),
        is_plain_target(p),
        tail.len() == 0 || tail[0] == ';' || tail[0] == '&' || tail[0] == '|',
    ensures
        cd_target(seq!['c', 'd', ' ', '\''] + p + seq!['\''] + tail) == Some(p),
{
    reveal_strlit("cd");
    let cmd = seq!['c', 'd', ' ', '\''] + p + seq!['\''] + tail;
    assert(cmd[0] == 'c');
    assert(text::trim_start(cmd) == cmd);
    lemma_quoted_command(p, tail);
    let s4 = p + seq!['\''];
    let s0 = seq!['c', 'd', ' ', '\''] + s4;
    let s1 = seq!['d', ' ', '\''] + s4;
    let s2 = seq![' ', '\''] + s4;
    let s3 = seq!['\''] + s4;
    assert(s0.drop_first() =~= s1);
    assert(s1.drop_first() =~= s2);
    assert(s2.drop_first() =~= s3);
    assert(s3.drop_first() =~= s4);
    let fresh = Reading::fresh();
    let verb = fresh.read('c').read('d');
    assert(verb.cur =~= "cd"@);
    lemma_quoted_token(p, Seq::empty(), Seq::empty());
    assert(Seq::<char>::empty() + p =~= p);
    assert(s4 + Seq::<char>::empty() =~= s4);
    assert(tokens_after(s3, fresh) == tokens_after(s4, fresh.read('\'')));
    assert(tokens_after(s2, verb) == verb.token() + tokens_after(s3, fresh));
    assert(tokens_after(s1, fresh.read('c')) == tokens_after(s2, verb));
    assert(tokens_after(s0, fresh) == tokens_after(s1, fresh.read('c')));
    assert(tokens(s0) =~= seq!["cd"@, p]);
}

/// Whether a character stands for itself in a command.
pub open spec fn is_bare(c: char) -> bool {
    &&& !text::is_white(c)
    &&& c != '\\' && c != '\'' && c != '"'
    &&& c != ';' && c != '&' && c != '|'
}

proof fn lemma_bare_segment(p: Seq<char>)
    requires
        forall|i: int| 0 <= i < p.len() ==> is_bare(#[trigger] p[i]),
    ensures
        segment_len(p, false, false) == p.len(),
    decreases p.len(),
{
    if p.len() > 0 {
        lemma_bare_segment(p.drop_first());
    }
}

proof fn lemma_bare_token(p: Seq<char>, cur: Seq<char>)
    requires
        forall|i: int| 0 <= i < p.len() ==> is_bare(#[trigger] p[i]),
    ensures
        tokens_after(
            p,
            Reading { cur, in_single: false, in_double: false, escape: false, has_token: true },
        ) == seq![cur + p],
    decreases p.len(),
{
    if p.len() == 0 {
        assert(cur + p =~= cur);
    } else {
        lemma_bare_token(p.drop_first(), cur.push(p[0]));
        assert(cur.push(p[0]) + p.drop_first() =~= cur + p);
    }
}

/// A directory whose name needs no quotes is found without them.
pub proof fn law_bare_target(p: Seq<char>)
    requires
        p.len() > 0,
        forall|i: int| 0 <= i < p.len() ==> is_bare(#[trigger] p[i]),
        is_plain_target(p),
    ensures
        cd_target(seq!['c', 'd', ' '] + p) == Some(p),
{
    reveal_strlit("cd");
    let s0 = seq!['c', 'd', ' '] + p;
    let s1 = seq!['d', ' '] + p;
    let s2 = seq![' '] + p;
    assert(s0[0] == 'c');
    assert(text::trim_start(s0) == s0);
    assert(s0.drop_first() =~= s1);
    assert(s1.drop_first() =~= s2);
    assert(s2.drop_first() =~= p);
    lemma_bare_segment(p);
    assert(segment_len(s2, false, false) == 1 + segment_len(p, false, false));
    assert(segment_len(s1, false, false) == 1 + segment_len(s2, false, false));
    assert(segment_len(s0, false, false) == 1 + segment_len(s1, false, false));
    assert(first_segment(s0) =~= s0);
    let fresh = Reading::fresh();
    let verb = fresh.read('c').read('d');
    assert(verb.cur =~= "cd"@);
    lemma_bare_token(p.drop_first(), Seq::<char>::empty().push(p[0]));
    assert(Seq::<char>::empty().push(p[0]) + p.drop_first() =~= p);
    assert(tokens_after(p, fresh) == tokens_after(p.drop_first(), fresh.read(p[0])));
    assert(tokens_after(s2, verb) == verb.token() + tokens_after(p, fresh));
    assert(tokens_after(s1, fresh.read('c')) == tokens_after(s2, verb));
    assert(tokens_after(s0, fresh) == tokens_after(s1, fresh.read('c')));
    assert(tokens(s0) =~= seq!["cd"@, p]);
}

/// Whether a character parts the commands of a chain.
pub open spec fn parts_commands(c: char) -> bool {
    c == ';' || c == '&' || c == '|'
}

/// Whether a text holds no quotes and nothing that parts commands.
pub open spec fn is_unbroken(s: Seq<char>) -> bool {
    forall|i: int|
        0 <= i < s.len() ==> !parts_commands(#[trigger] s[i]) && s[i] != '\'' && s[i] != '"'
}

proof fn lemma_unbroken_segment(a: Seq<char>, rest: Seq<char>)
    requires
        is_unbroken(a),
    ensures
        segment_len(a + rest, false, false) == a.len() + segment_len(rest, false, false),
    decreases a.len(),
{
    if a.len() == 0 {
        assert(a + rest =~= rest);
    } else {
        assert(!parts_commands(a[0]));
        assert((a + rest)[0] == a[0]);
        assert((a + rest).drop_first() =~= a.drop_first() + rest);
        assert forall|i: int| 0 <= i < a.drop_first().len() implies !parts_commands(
            #[trigger] a.drop_first()[i],
        ) && a.drop_first()[i] != '\'' && a.drop_first()[i] != '"' by {
            assert(!parts_commands(a[i + 1]));
        }
        lemma_unbroken_segment(a.drop_first(), rest);
    }
}

proof fn lemma_double_quoted_segment(p: Seq<char>, tail: Seq<char>)
    requires
        !p.contains('"'),
    ensures
        segment_len(p + seq!['"'] + tail, false, true) == p.len() + 1 + segment_len(
            tail,
            false,
            false,
        ),
        segment_len(p, false, true) == p.len(),
    decreases p.len(),
{
    let s = p + seq!['"'] + tail;
    if p.len() == 0 {
        assert(s.drop_first() =~= tail);
    } else {
        assert(p.contains(p[0]));
        assert(s.drop_first() =~= p.drop_first() + seq!['"'] + tail);
        assert forall|c: char| p.drop_first().contains(c) implies p.contains(c) by {
            let k = choose|k: int| 0 <= k < p.drop_first().len() && p.drop_first()[k] == c;
            assert(p[k + 1] == c);
        }
        lemma_double_quoted_segment(p.drop_first(), tail);
    }
}

proof fn lemma_open_quote_segment(p: Seq<char>)
    requires
        !p.contains('\''),
    ensures
        segment_len(p, true, false) == p.len(),
    decreases p.len(),
{
    if p.len() > 0 {
        assert(p.contains(p[0]));
        assert forall|c: char| p.drop_first().contains(c) implies p.contains(c) by {
            let k = choose|k: int| 0 <= k < p.drop_first().len() && p.drop_first()[k] == c;
            assert(p[k + 1] == c);
        }
        lemma_open_quote_segment(p.drop_first());
    }
}

/// The first command of a chain ends at the first semicolon, ampersand or bar. A
/// command without one is the first as a whole.
pub proof fn law_chain_parted(first: Seq<char>, c: char, rest: Seq<char>)
    requires
        is_unbroken(first),
        parts_commands(c),
    ensures
        first_segment(first + seq![c] + rest) == first,
        first_segment(first) == first,
{
    lemma_unbroken_segment(first, seq![c] + rest);
    assert(first + seq![c] + rest =~= first + (seq![c] + rest));
    assert((seq![c] + rest)[0] == c);
    assert((first + seq![c] + rest).take(first.len() as int) =~= first);
    lemma_unbroken_segment(first, Seq::empty());
    assert(first + Seq::<char>::empty() =~= first);
    assert(first.take(first.len() as int) =~= first);
}

/// What stands in quotes, single or double, parts nothing: the first command
/// goes on behind them. Quotes that are not closed reach to the end.
pub proof fn law_quotes_part_nothing(
    before: Seq<char>,
    quote: char,
    inside: Seq<char>,
    rest: Seq<char>,
)
    requires
        is_unbroken(before),
        quote == '\'' || quote == '"',
        !inside.contains(quote),
    ensures
        first_segment(before + seq![quote] + inside + seq![quote] + rest) == before + seq![quote]
            + inside + seq![quote] + first_segment(rest),
        first_segment(before + seq![quote] + inside) == before + seq![quote] + inside,
{
    let tail = inside + seq![quote] + rest;
    let quoted = seq![quote] + tail;
    let all = before + seq![quote] + inside + seq![quote] + rest;
    assert(all =~= before + quoted);
    lemma_unbroken_segment(before, quoted);
    assert(quoted[0] == quote);
    assert(quoted.drop_first() =~= tail);
    let unclosed = before + seq![quote] + inside;
    assert(unclosed =~= before + (seq![quote] + inside));
    lemma_unbroken_segment(before, seq![quote] + inside);
    assert((seq![quote] + inside).drop_first() =~= inside);
    if quote == '\'' {
        lemma_quoted_segment(inside, rest);
        lemma_open_quote_segment(inside);
    } else {
        lemma_double_quoted_segment(inside, rest);
    }
    let n = segment_len(rest, false, false) as int;
    lemma_segment_within(rest, false, false);
    assert(all.take(before.len() + 2 + inside.len() + n) =~= before + seq![quote] + inside
        + seq![quote] + rest.take(n));
    assert(unclosed.take(unclosed.len() as int) =~= unclosed);
}

proof fn lemma_segment_within(s: Seq<char>, in_single: bool, in_double: bool)
    ensures
        segment_len(s, in_single, in_double) <= s.len(),
    decreases s.len(),
{
    if s.len() > 0 {
        lemma_segment_within(s.drop_first(), in_single, in_double);
        lemma_segment_within(s.drop_first(), !in_single, in_double);
        lemma_segment_within(s.drop_first(), in_single, !in_double);
    }
}

/// Whether a character stands for itself in a word.
pub open spec fn is_word_char(c: char) -> bool {
    !text::is_white(c) && c != '\\' && c != '\'' && c != '"'
}

/// The tokenizer outside quotes, within a token.
pub open spec fn within(cur: Seq<char>) -> Reading {
    Reading { cur, in_single: false, in_double: false, escape: false, has_token: true }
}

proof fn lemma_word_read(w: Seq<char>, rest: Seq<char>, cur: Seq<char>)
    requires
        forall|i: int| 0 <= i < w.len() ==> is_word_char(#[trigger] w[i]),
    ensures
        tokens_after(w + rest, within(cur)) == tokens_after(rest, within(cur + w)),
        w.len() > 0 ==> tokens(w + rest) == tokens_after(rest, within(w)),
    decreases w.len(),
{
    if w.len() == 0 {
        assert(w + rest =~= rest);
        assert(cur + w =~= cur);
    } else {
        assert(is_word_char(w[0]));
        assert((w + rest)[0] == w[0]);
        assert((w + rest).drop_first() =~= w.drop_first() + rest);
        lemma_word_read(w.drop_first(), rest, cur.push(w[0]));
        assert(cur.push(w[0]) + w.drop_first() =~= cur + w);
        let start = Seq::<char>::empty().push(w[0]);
        lemma_word_read(w.drop_first(), rest, start);
        assert(start + w.drop_first() =~= w);
        assert(Reading::fresh().read(w[0]) == within(start));
    }
}

/// White space parts words, and a word without quotes and backslashes is a token
/// as it stands.
pub proof fn law_words_are_tokens(word: Seq<char>, c: char, rest: Seq<char>)
    requires
        word.len() > 0,
        forall|i: int| 0 <= i < word.len() ==> is_word_char(#[trigger] word[i]),
        text::is_white(c),
    ensures
        tokens(word) == seq![word],
        tokens(word + seq![c] + rest) == seq![word] + tokens(rest),
        tokens(seq![c] + rest) == tokens(rest),
        tokens(Seq::empty()) == Seq::<Seq<char>>::empty(),
{
    lemma_word_read(word, Seq::empty(), Seq::empty());
    assert(word + Seq::<char>::empty() =~= word);
    lemma_word_read(word, seq![c] + rest, Seq::empty());
    assert(word + seq![c] + rest =~= word + (seq![c] + rest));
    let tail = seq![c] + rest;
    assert(tail[0] == c);
    assert(tail.drop_first() =~= rest);
    assert(within(word).splits(c));
    assert(Reading::fresh().splits(c));
    assert(Reading::fresh().token() + tokens(rest) =~= tokens(rest));
    assert(tokens(tail) == tokens(rest));
}

/// A backslash takes the character behind it as it is, whatever that is.
pub proof fn law_backslash_escapes(a: Seq<char>, c: char, b: Seq<char>)
    requires
        a.len() > 0,
        forall|i: int| 0 <= i < a.len() ==> is_word_char(#[trigger] a[i]),
        forall|i: int| 0 <= i < b.len() ==> is_word_char(#[trigger] b[i]),
    ensures
        tokens(a + seq!['\\', c] + b) == seq![a.push(c) + b],
{
    let tail = seq!['\\', c] + b;
    lemma_word_read(a, tail, Seq::empty());
    assert(a + seq!['\\', c] + b =~= a + tail);
    let one = tail.drop_first();
    assert(tail[0] == '\\' && one[0] == c);
    assert(one.drop_first() =~= b);
    let escaped = within(a).read('\\');
    assert(tokens_after(tail, within(a)) == tokens_after(one, escaped));
    assert(escaped.read(c) == within(a.push(c)));
    assert(tokens_after(one, escaped) == tokens_after(b, within(a.push(c))));
    lemma_word_read(b, Seq::empty(), a.push(c));
    assert(b + Seq::<char>::empty() =~= b);
}

proof fn lemma_double_quoted_read(p: Seq<char>, tail: Seq<char>, cur: Seq<char>)
    requires
        !p.contains('"'),
        !p.contains('\\'),
    ensures
        tokens_after(
            p + seq!['"'] + tail,
            Reading { cur, in_single: false, in_double: true, escape: false, has_token: true },
        ) == tokens_after(tail, within(cur + p)),
    decreases p.len(),
{
    let s = p + seq!['"'] + tail;
    let at = Reading { cur, in_single: false, in_double: true, escape: false, has_token: true };
    if p.len() == 0 {
        assert(s.drop_first() =~= tail);
        assert(at.read('"') == within(cur));
        assert(tokens_after(s, at) == tokens_after(tail, at.read('"')));
        assert(cur + p =~= cur);
    } else {
        assert(p.contains(p[0]));
        assert(s.drop_first() =~= p.drop_first() + seq!['"'] + tail);
        assert forall|c: char| p.drop_first().contains(c) implies p.contains(c) by {
            let k = choose|k: int| 0 <= k < p.drop_first().len() && p.drop_first()[k] == c;
            assert(p[k + 1] == c);
        }
        lemma_double_quoted_read(p.drop_first(), tail, cur.push(p[0]));
        assert(cur.push(p[0]) + p.drop_first() =~= cur + p);
    }
}

/// What stands in quotes belongs to the token that it stands in, as it is: behind
/// other characters, at the start of one, and before more. In double quotes that
/// holds of what has no backslash in it.
pub proof fn law_quotes_in_token(
    a: Seq<char>,
    quote: char,
    inside: Seq<char>,
    c: char,
    rest: Seq<char>,
)
    requires
        forall|i: int| 0 <= i < a.len() ==> is_word_char(#[trigger] a[i]),
        quote == '\'' || quote == '"',
        !inside.contains(quote),
        quote == '"' ==> !inside.contains('\\'),
        text::is_white(c),
    ensures
        tokens(a + seq![quote] + inside + seq![quote] + seq![c] + rest) == seq![a + inside]
            + tokens(rest),
        tokens(a + seq![quote] + inside + seq![quote]) == seq![a + inside],
{
    let tail = seq![c] + rest;
    lemma_quotes_in_token(a, quote, inside, tail);
    assert(a + seq![quote] + inside + seq![quote] + seq![c] + rest =~= a + seq![quote] + inside
        + seq![quote] + tail);
    assert(tail[0] == c);
    assert(tail.drop_first() =~= rest);
    assert(within(a + inside).splits(c));
    lemma_quotes_in_token(a, quote, inside, Seq::empty());
    assert(a + seq![quote] + inside + seq![quote] + Seq::<char>::empty() =~= a + seq![quote]
        + inside + seq![quote]);
}

proof fn lemma_quotes_in_token(a: Seq<char>, quote: char, inside: Seq<char>, tail: Seq<char>)
    requires
        forall|i: int| 0 <= i < a.len() ==> is_word_char(#[trigger] a[i]),
        quote == '\'' || quote == '"',
        !inside.contains(quote),
        quote == '"' ==> !inside.contains('\\'),
    ensures
        tokens(a + seq![quote] + inside + seq![quote] + tail) == tokens_after(
            tail,
            within(a + inside),
        ),
{
    let more = inside + seq![quote] + tail;
    let quoted = seq![quote] + more;
    assert(a + seq![quote] + inside + seq![quote] + tail =~= a + quoted);
    assert(quoted[0] == quote);
    assert(quoted.drop_first() =~= more);
    let start = if a.len() > 0 {
        lemma_word_read(a, quoted, Seq::empty());
        within(a)
    } else {
        assert(a + quoted =~= quoted);
        assert(a =~= Seq::empty());
        Reading::fresh()
    };
    assert(tokens(a + quoted) == tokens_after(quoted, start));
    assert(tokens_after(quoted, start) == tokens_after(more, start.read(quote)));
    assert(start.read(quote).cur =~= a);
    if quote == '\'' {
        assert(start.read(quote) == (Reading {
            cur: a,
            in_single: true,
            in_double: false,
            escape: false,
            has_token: true,
        }));
        lemma_quoted_token(inside, tail, a);
    } else {
        assert(start.read(quote) == (Reading {
            cur: a,
            in_single: false,
            in_double: true,
            escape: false,
            has_token: true,
        }));
        lemma_double_quoted_read(inside, tail, a);
    }
}

proof fn lemma_blank_tokens(s: Seq<char>)
    requires
        text::is_blank(s),
    ensures
        tokens(s) == Seq::<Seq<char>>::empty(),
    decreases s.len(),
{
    if s.len() > 0 {
        assert(text::is_white(s[0]));
        assert forall|i: int| 0 <= i < s.drop_first().len() implies text::is_white(
            #[trigger] s.drop_first()[i],
        ) by {
            assert(text::is_white(s[i + 1]));
        }
        lemma_blank_tokens(s.drop_first());
        assert(Reading::fresh().splits(s[0]));
        assert(tokens(s) =~= Seq::empty());
    } else {
        assert(tokens(s) =~= Seq::empty());
    }
}

/// A directory whose name needs no quotes is found also where the command is the
/// first of a chain, with or without blanks before what parts it, and `pushd`
/// leads there as `cd` does.
pub proof fn law_bare_target_in_chain(
    verb: Seq<char>,
    p: Seq<char>,
    blanks: Seq<char>,
    tail: Seq<char>,
)
    requires
        verb == "cd"@ || verb == "pushd"@,
        p.len() > 0,
        forall|i: int| 0 <= i < p.len() ==> is_bare(#[trigger] p[i]),
        is_plain_target(p),
        text::is_blank(blanks),
        tail.len() == 0 || parts_commands(tail[0]),
    ensures
        cd_target(verb + seq![' '] + p + blanks + tail) == Some(p),
{
    reveal_strlit("cd");
    reveal_strlit("pushd");
    let cmd = verb + seq![' '] + p + blanks + tail;
    let first = verb + seq![' '] + p + blanks;
    lemma_verb(verb);
    assert(cmd[0] == verb[0]);
    assert(!text::is_white(verb[0]));
    assert(text::trim_start(cmd) == cmd);
    assert forall|i: int| 0 <= i < first.len() implies !parts_commands(#[trigger] first[i])
        && first[i] != '\'' && first[i] != '"' by {
        let n = verb.len() as int;
        if i < n {
            assert(first[i] == verb[i]);
            assert(is_bare(verb[i]));
        } else if n < i < n + 1 + p.len() {
            assert(first[i] == p[i - n - 1]);
            assert(is_bare(p[i - n - 1]));
        } else if i > n {
            assert(first[i] == blanks[i - n - 1 - p.len()]);
            assert(text::is_white(first[i]));
        }
    }
    if tail.len() == 0 {
        law_chain_parted(first, ';', Seq::empty());
        assert(cmd =~= first);
    } else {
        law_chain_parted(first, tail[0], tail.drop_first());
        assert(cmd =~= first + seq![tail[0]] + tail.drop_first());
    }
    assert forall|i: int| 0 <= i < verb.len() implies is_word_char(#[trigger] verb[i]) by {
        assert(is_bare(verb[i]));
    }
    assert forall|i: int| 0 <= i < p.len() implies is_word_char(#[trigger] p[i]) by {
        assert(is_bare(p[i]));
    }
    law_words_are_tokens(verb, ' ', p + blanks);
    assert(first =~= verb + seq![' '] + (p + blanks));
    if blanks.len() == 0 {
        law_words_are_tokens(p, ' ', Seq::empty());
        assert(p + blanks =~= p);
    } else {
        let c = blanks[0];
        let more = blanks.drop_first();
        assert(text::is_white(c));
        assert forall|i: int| 0 <= i < more.len() implies text::is_white(#[trigger] more[i]) by {
            assert(text::is_white(blanks[i + 1]));
        }
        law_words_are_tokens(p, c, more);
        lemma_blank_tokens(more);
        assert(p + blanks =~= p + seq![c] + more);
        assert(seq![p] + Seq::<Seq<char>>::empty() =~= seq![p]);
    }
    assert(tokens(first) =~= seq![verb, p]);
}

proof fn lemma_verb(verb: Seq<char>)
    requires
        verb == "cd"@ || verb == "pushd"@,
    ensures
        verb.len() > 0,
        forall|i: int| 0 <= i < verb.len() ==> is_bare(#[trigger] verb[i]),
{
    reveal_strlit("cd");
    reveal_strlit("pushd");
}

/// A directory in double quotes is found too, also in a chain, where its name
/// holds neither a double quote nor a backslash.
pub proof fn law_double_quoted_target(p: Seq<char>, tail: Seq<char>)
    requires
        !p.contains('"'),
        !p.contains('\\'),
        is_plain_target(p),
        tail.len() == 0 || parts_commands(tail[0]),
    ensures
        cd_target(seq!['c', 'd', ' ', '"'] + p + seq!['"'] + tail) == Some(p),
{
    reveal_strlit("cd");
    let cmd = seq!['c', 'd', ' ', '"'] + p + seq!['"'] + tail;
    let before = seq!['c', 'd', ' '];
    let first = before + seq!['"'] + p + seq!['"'];
    assert(cmd[0] == 'c');
    assert(text::trim_start(cmd) == cmd);
    assert(is_unbroken(before));
    law_quotes_part_nothing(before, '"', p, tail);
    assert(cmd =~= before + seq!['"'] + p + seq!['"'] + tail);
    assert(segment_len(tail, false, false) == 0);
    assert(first_segment(tail) =~= Seq::empty());
    assert(first_segment(cmd) =~= first);
    let verb = seq!['c', 'd'];
    assert(verb =~= "cd"@);
    let rest = seq!['"'] + p + seq!['"'];
    law_words_are_tokens(verb, ' ', rest);
    assert(first =~= verb + seq![' '] + rest);
    law_quotes_in_token(Seq::empty(), '"', p, ' ', Seq::empty());
    assert(Seq::<char>::empty() + seq!['"'] + p + seq!['"'] =~= rest);
    assert(Seq::<char>::empty() + p =~= p);
    assert(tokens(first) =~= seq!["cd"@, p]);
}

/// A command leads somewhere only if its first word is `cd` or `pushd` and the
/// next is a plain directory, which is where it leads.
pub proof fn law_target_is_argument(cmd: Seq<char>)
    ensures
        ({
            let list = tokens(first_segment(text::trim_start(cmd)));
            &&& cd_target(cmd) matches Some(p) ==> {
                &&& list.len() >= 2 && list[1] == p
                &&& list[0] == seq!['c', 'd'] || list[0] == seq!['p', 'u', 's', 'h', 'd']
                &&& !(p.len() > 0 && p[0] == '-') && !p.contains('$') && !p.contains('`')
            }
            &&& list.len() >= 2 && (list[0] == seq!['c', 'd'] || list[0] == seq![
                'p',
                'u',
                's',
                'h',
                'd',
            ]) && !(list[1].len() > 0 && list[1][0] == '-') && !list[1].contains('$')
                && !list[1].contains('`') ==> cd_target(cmd) == Some(list[1])
        }),
{
    reveal_strlit("cd");
    reveal_strlit("pushd");
    assert("cd"@ =~= seq!['c', 'd']);
    assert("pushd"@ =~= seq!['p', 'u', 's', 'h', 'd']);
}

/// Blanks before a command are of no account.
pub proof fn law_leading_blanks(blanks: Seq<char>, cmd: Seq<char>)
    requires
        text::is_blank(blanks),
        cmd.len() > 0,
        !text::is_white(cmd[0]),
    ensures
        cd_target(blanks + cmd) == cd_target(cmd),
{
    let all = blanks + cmd;
    let n = blanks.len() as int;
    assert forall|i: int| 0 <= i < n implies text::is_white(#[trigger] all[i]) by {
        assert(all[i] == blanks[i]);
    }
    assert(all[n] == cmd[0]);
    text::lemma_trim_start(all, n);
    assert(all.skip(n) =~= cmd);
    assert(text::trim_start(cmd) == cmd);
}

/// A line that goes on nowhere is one command: what follows its time stamp, or
/// the line itself. A blank one is none.
pub proof fn law_one_line_history(line: Seq<char>, rest: Seq<Seq<char>>)
    requires
        !goes_on(line_command(line)),
    ensures
        !text::is_blank(line_command(line)) ==> commands_after(seq![line] + rest, Seq::empty())
            == seq![line_command(line)] + commands_after(rest, Seq::empty()),
        text::is_blank(line_command(line)) ==> commands_after(seq![line] + rest, Seq::empty())
            == commands_after(rest, Seq::empty()),
        commands_after(Seq::empty(), Seq::empty()) == Seq::<Seq<char>>::empty(),
{
    let all = seq![line] + rest;
    assert(all.drop_first() =~= rest);
    assert(Seq::<char>::empty() + line_command(line) =~= line_command(line));
    assert(text::is_blank(Seq::empty()));
    assert(commands_after(all, Seq::empty()) =~= finished(line_command(line)) + commands_after(
        rest,
        Seq::empty(),
    ));
    assert(Seq::<Seq<char>>::empty() + commands_after(rest, Seq::empty()) =~= commands_after(
        rest,
        Seq::empty(),
    ));
}

/// A line that does not begin like a time stamp is a command as it stands, and a
/// time stamp without a semicolon behind it is none.
pub proof fn law_plain_line(line: Seq<char>)
    ensures
        !text::starts_with(line, seq![':', ' ']) ==> line_command(line) == line,
        text::starts_with(line, seq![':', ' ']) && !line.contains(';') ==> line_command(line)
            == Seq::<char>::empty(),
{
    if line.len() >= 2 && line[0] == ':' && line[1] == ' ' {
        assert(line.subrange(0, 2) =~= seq![':', ' ']);
        if !line.contains(';') {
            let rest = line.skip(2);
            text::lemma_first_index(rest, ';');
            let i = text::first_index(rest, ';');
            if i < rest.len() {
                assert(line[i + 2] == ';');
            }
        }
    }
    if text::starts_with(line, seq![':', ' ']) {
        assert(line.subrange(0, 2)[0] == ':' && line.subrange(0, 2)[1] == ' ');
    }
}

/// Lines that end in a backslash, however many, are joined with those behind
/// them into one command, which holds their line ends and not the backslashes.
pub proof fn law_many_lines_joined(
    heads: Seq<Seq<char>>,
    next: Seq<char>,
    rest: Seq<Seq<char>>,
    buf: Seq<char>,
)
    requires
        forall|i: int|
            0 <= i < heads.len() ==> !text::starts_with(
                (#[trigger] heads[i]).push('\\'),
                seq![':', ' '],
            ),
        !text::starts_with(next, seq![':', ' ']),
        !goes_on(next),
        !text::is_blank(next),
    ensures
        commands_after(
            Seq::new(heads.len(), |i: int| heads[i].push('\\')) + seq![next] + rest,
            buf,
        ) == seq![buf + render::stacked(heads) + next] + commands_after(rest, Seq::empty()),
    decreases heads.len(),
{
    let lines = Seq::new(heads.len(), |i: int| heads[i].push('\\')) + seq![next] + rest;
    law_plain_line(next);
    if heads.len() == 0 {
        assert(lines =~= seq![next] + rest);
        assert(lines.drop_first() =~= rest);
        let full = buf + next;
        let k = choose|k: int| 0 <= k < next.len() && !text::is_white(#[trigger] next[k]);
        assert(full[buf.len() + k] == next[k]);
        assert(!text::is_blank(full));
        assert(buf + render::stacked(heads) + next =~= full);
    } else {
        let line = heads[0].push('\\');
        assert(lines[0] == line);
        assert(!text::starts_with(heads[0].push('\\'), seq![':', ' ']));
        law_plain_line(line);
        let tail = heads.drop_first();
        assert(lines.drop_first() =~= Seq::new(tail.len(), |i: int| tail[i].push('\\')) + seq![next]
            + rest);
        assert forall|i: int| 0 <= i < tail.len() implies !text::starts_with(
            (#[trigger] tail[i]).push('\\'),
            seq![':', ' '],
        ) by {
            assert(!text::starts_with(heads[i + 1].push('\\'), seq![':', ' ']));
        }
        assert(line.drop_last() =~= heads[0]);
        let more = (buf + heads[0]).push('\n');
        law_many_lines_joined(tail, next, rest, more);
        render::lemma_stacked_first(heads);
        assert(more + render::stacked(tail) + next =~= buf + render::stacked(heads) + next);
    }
}

/// The tokenizer within quotes of a token.
pub open spec fn inside_quotes(cur: Seq<char>, quote: char) -> Reading {
    Reading {
        cur,
        in_single: quote == '\'',
        in_double: quote == '"',
        escape: false,
        has_token: true,
    }
}

proof fn lemma_inside_quotes(p: Seq<char>, tail: Seq<char>, cur: Seq<char>, quote: char)
    requires
        quote == '\'' || quote == '"',
        !p.contains(quote),
        quote == '"' ==> !p.contains('\\'),
    ensures
        tokens_after(p + tail, inside_quotes(cur, quote)) == tokens_after(
            tail,
            inside_quotes(cur + p, quote),
        ),
    decreases p.len(),
{
    if p.len() == 0 {
        assert(p + tail =~= tail);
        assert(cur + p =~= cur);
    } else {
        let s = p + tail;
        assert(p.contains(p[0]));
        assert(s[0] == p[0]);
        assert(s.drop_first() =~= p.drop_first() + tail);
        assert forall|c: char| p.drop_first().contains(c) implies p.contains(c) by {
            let k = choose|k: int| 0 <= k < p.drop_first().len() && p.drop_first()[k] == c;
            assert(p[k + 1] == c);
        }
        lemma_inside_quotes(p.drop_first(), tail, cur.push(p[0]), quote);
        assert(cur.push(p[0]) + p.drop_first() =~= cur + p);
        assert(inside_quotes(cur, quote).read(p[0]) == inside_quotes(cur.push(p[0]), quote));
    }
}

proof fn lemma_quote_opened(a: Seq<char>, quote: char, rest: Seq<char>)
    requires
        forall|i: int| 0 <= i < a.len() ==> is_word_char(#[trigger] a[i]),
        quote == '\'' || quote == '"',
    ensures
        tokens(a + seq![quote] + rest) == tokens_after(rest, inside_quotes(a, quote)),
{
    let tail = seq![quote] + rest;
    assert(a + seq![quote] + rest =~= a + tail);
    assert(tail[0] == quote);
    assert(tail.drop_first() =~= rest);
    if a.len() > 0 {
        lemma_word_read(a, tail, Seq::empty());
        assert(within(a).read(quote) == inside_quotes(a, quote));
    } else {
        assert(a + tail =~= tail);
        assert(a =~= Seq::empty());
        assert(Reading::fresh().read(quote) == inside_quotes(a, quote));
    }
}

/// In double quotes a backslash takes the character behind it as it is, a quote
/// or another backslash among them.
pub proof fn law_backslash_in_quotes(a: Seq<char>, p: Seq<char>, c: char, q: Seq<char>)
    requires
        forall|i: int| 0 <= i < a.len() ==> is_word_char(#[trigger] a[i]),
        !p.contains('"') && !p.contains('\\'),
        !q.contains('"') && !q.contains('\\'),
    ensures
        tokens(a + seq!['"'] + p + seq!['\\', c] + q + seq!['"']) == seq![a + p.push(c) + q],
{
    let end = q + seq!['"'];
    let escaped = seq!['\\', c] + end;
    let rest = p + escaped;
    assert(a + seq!['"'] + p + seq!['\\', c] + q + seq!['"'] =~= a + seq!['"'] + rest);
    lemma_quote_opened(a, '"', rest);
    lemma_inside_quotes(p, escaped, a, '"');
    let at = inside_quotes(a + p, '"');
    let one = escaped.drop_first();
    assert(escaped[0] == '\\' && one[0] == c);
    assert(one.drop_first() =~= end);
    assert(tokens_after(escaped, at) == tokens_after(one, at.read('\\')));
    let next = inside_quotes((a + p).push(c), '"');
    assert(at.read('\\').read(c) == next);
    assert(tokens_after(one, at.read('\\')) == tokens_after(end, next));
    lemma_inside_quotes(q, seq!['"'], (a + p).push(c), '"');
    let last = inside_quotes((a + p).push(c) + q, '"');
    assert(seq!['"'].drop_first() =~= Seq::<char>::empty());
    assert(tokens_after(seq!['"'], last) == tokens_after(Seq::empty(), last.read('"')));
    assert((a + p).push(c) + q =~= a + p.push(c) + q);
}

/// A quote that is not closed takes all that follows into the token.
pub proof fn law_open_quote(a: Seq<char>, quote: char, inside: Seq<char>)
    requires
        forall|i: int| 0 <= i < a.len() ==> is_word_char(#[trigger] a[i]),
        quote == '\'' || quote == '"',
        !inside.contains(quote),
        quote == '"' ==> !inside.contains('\\'),
    ensures
        tokens(a + seq![quote] + inside) == seq![a + inside],
{
    lemma_quote_opened(a, quote, inside);
    lemma_inside_quotes(inside, Seq::empty(), a, quote);
    assert(inside + Seq::<char>::empty() =~= inside);
}

/// A backslash at the start of a token takes the character behind it as it is;
/// one that nothing follows is dropped.
pub proof fn law_backslash_at_ends(a: Seq<char>, c: char, b: Seq<char>)
    requires
        forall|i: int| 0 <= i < a.len() ==> is_word_char(#[trigger] a[i]),
        forall|i: int| 0 <= i < b.len() ==> is_word_char(#[trigger] b[i]),
    ensures
        tokens(seq!['\\', c] + b) == seq![seq![c] + b],
        a.len() > 0 ==> tokens(a + seq!['\\']) == seq![a],
        tokens(seq!['\\']) == Seq::<Seq<char>>::empty(),
{
    let s = seq!['\\', c] + b;
    let one = s.drop_first();
    assert(s[0] == '\\' && one[0] == c);
    assert(one.drop_first() =~= b);
    let escaped = Reading::fresh().read('\\');
    assert(tokens_after(s, Reading::fresh()) == tokens_after(one, escaped));
    let start = Seq::<char>::empty().push(c);
    assert(escaped.read(c) == within(start));
    assert(tokens_after(one, escaped) == tokens_after(b, within(start)));
    lemma_word_read(b, Seq::empty(), start);
    assert(b + Seq::<char>::empty() =~= b);
    assert(start + b =~= seq![c] + b);
    let end = seq!['\\'];
    assert(end.drop_first() =~= Seq::<char>::empty());
    assert(tokens_after(end, Reading::fresh()) == tokens_after(Seq::empty(), escaped));
    if a.len() > 0 {
        lemma_word_read(a, end, Seq::empty());
        assert(tokens_after(end, within(a)) == tokens_after(Seq::empty(), within(a).read('\\')));
    }
}

/// A command whose last line ends in a backslash, with nothing behind it, is a
/// command still.
pub proof fn law_unfinished_history(head: Seq<char>, buf: Seq<char>)
    requires
        !text::starts_with(head.push('\\'), seq![':', ' ']),
        !text::is_blank(head),
    ensures
        commands_after(seq![head.push('\\')], buf) == seq![buf + head + seq!['\n']],
{
    let line = head.push('\\');
    law_plain_line(line);
    assert(line.drop_last() =~= head);
    let full = (buf + head).push('\n');
    assert(seq![line].drop_first() =~= Seq::<Seq<char>>::empty());
    assert(commands_after(seq![line], buf) == commands_after(Seq::empty(), full));
    let k = choose|k: int| 0 <= k < head.len() && !text::is_white(#[trigger] head[k]);
    assert(full[buf.len() + k] == head[k]);
    assert(full =~= buf + head + seq!['\n']);
}

} // verus!
