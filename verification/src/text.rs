//! Plain text, one character at a time: the vocabulary in which the other
//! modules state what they do with strings.

use vstd::prelude::*;

verus! {

/// `String::push` appends the character to the end of the string.
pub assume_specification[ String::push ](s: &mut String, c: char)
    ensures
        final(s)@ == old(s)@.push(c),
;

/// The texts held by a list of strings.
pub open spec fn views(list: Seq<String>) -> Seq<Seq<char>> {
    Seq::new(list.len(), |i: int| list[i]@)
}

/// The view of a text that may not be there.
pub open spec fn maybe(s: Option<String>) -> Option<Seq<char>> {
    match s {
        Some(s) => Some(s@),
        None => None,
    }
}

/// The view of a borrowed text that may not be there.
pub open spec fn maybe_str(s: Option<&str>) -> Option<Seq<char>> {
    match s {
        Some(s) => Some(s@),
        None => None,
    }
}

/// The texts of a longer list.
pub proof fn lemma_views_push(list: Seq<String>, s: String)
    ensures
        views(list.push(s)) == views(list).push(s@),
{
    assert(views(list.push(s)) =~= views(list).push(s@));
}

/// The characters of `s`, for access by index.
pub fn chars_of(s: &str) -> (r: Vec<char>)
    ensures
        r@ == s@,
{
    let mut r: Vec<char> = Vec::new();
    for c in it: s.chars()
        invariant
            it.seq() == s@,
            r@ == s@.take(it.index() as int),
    {
        assert(s@.take(it.index() + 1) == s@.take(it.index() as int).push(c));
        r.push(c);
    }
    assert(s@.take(s@.len() as int) == s@);
    r
}

/// The text of `chars[from..to]`.
pub fn text_between(chars: &Vec<char>, from: usize, to: usize) -> (r: String)
    requires
        from <= to <= chars@.len(),
    ensures
        r@ == chars@.subrange(from as int, to as int),
{
    let mut r: String = String::new();
    for i in from..to
        invariant
            from <= to <= chars@.len(),
            r@ == chars@.subrange(from as int, i as int),
    {
        assert(chars@.subrange(from as int, i + 1) == chars@.subrange(from as int, i as int).push(
            chars@[i as int],
        ));
        r.push(chars[i]);
    }
    r
}

/// Whether two texts hold the same characters.
pub fn same_text(a: &str, b: &str) -> (r: bool)
    ensures
        r == (a@ == b@),
{
    let x: Vec<char> = chars_of(a);
    let y: Vec<char> = chars_of(b);
    if x.len() != y.len() {
        return false;
    }
    for i in 0..x.len()
        invariant
            x@ == a@,
            y@ == b@,
            x@.len() == y@.len(),
            forall|j: int| 0 <= j < i ==> x@[j] == y@[j],
    {
        if x[i] != y[i] {
            assert(a@[i as int] != b@[i as int]);
            return false;
        }
    }
    assert(a@ =~= b@);
    true
}

/// Whether `text` occurs in `list`.
pub fn list_contains(list: &Vec<String>, text: &str) -> (r: bool)
    ensures
        r == views(list@).contains(text@),
{
    for i in 0..list.len()
        invariant
            forall|j: int| 0 <= j < i ==> views(list@)[j] != text@,
    {
        if same_text(list[i].as_str(), text) {
            assert(views(list@)[i as int] == text@);
            return true;
        }
    }
    false
}

// ---------------------------------------------------------------------------
// White space
// ---------------------------------------------------------------------------

/// The characters with the Unicode property `White_Space`.
pub open spec fn is_white(c: char) -> bool {
    ||| '\u{9}' <= c <= '\u{d}'
    ||| c == ' '
    ||| c == '\u{85}'
    ||| c == '\u{a0}'
    ||| c == '\u{1680}'
    ||| '\u{2000}' <= c <= '\u{200a}'
    ||| c == '\u{2028}'
    ||| c == '\u{2029}'
    ||| c == '\u{202f}'
    ||| c == '\u{205f}'
    ||| c == '\u{3000}'
}

/// Whether `c` is white space.
pub fn is_whitespace(c: char) -> (r: bool)
    ensures
        r == is_white(c),
{
    ('\u{9}' <= c && c <= '\u{d}') || c == ' ' || c == '\u{85}' || c == '\u{a0}' || c == '\u{1680}'
        || ('\u{2000}' <= c && c <= '\u{200a}') || c == '\u{2028}' || c == '\u{2029}' || c
        == '\u{202f}' || c == '\u{205f}' || c == '\u{3000}'
}

/// `s` without its leading white space.
pub open spec fn trim_start(s: Seq<char>) -> Seq<char>
    decreases s.len(),
{
    if s.len() > 0 && is_white(s[0]) {
        trim_start(s.drop_first())
    } else {
        s
    }
}

/// `s` without its trailing white space.
pub open spec fn trim_end(s: Seq<char>) -> Seq<char>
    decreases s.len(),
{
    if s.len() > 0 && is_white(s.last()) {
        trim_end(s.drop_last())
    } else {
        s
    }
}

/// `s` without the white space around it.
pub open spec fn trim(s: Seq<char>) -> Seq<char> {
    trim_end(trim_start(s))
}

/// Whether `s` holds nothing but white space.
pub open spec fn is_blank(s: Seq<char>) -> bool {
    forall|i: int| 0 <= i < s.len() ==> is_white(#[trigger] s[i])
}

pub proof fn lemma_trim_start(s: Seq<char>, n: int)
    requires
        0 <= n <= s.len(),
        forall|i: int| 0 <= i < n ==> is_white(#[trigger] s[i]),
        n < s.len() ==> !is_white(s[n]),
    ensures
        trim_start(s) == s.skip(n),
    decreases n,
{
    if n > 0 {
        let rest = s.drop_first();
        assert forall|i: int| 0 <= i < n - 1 implies is_white(#[trigger] rest[i]) by {
            assert(rest[i] == s[i + 1]);
        }
        if n < s.len() {
            assert(rest[n - 1] == s[n]);
        }
        lemma_trim_start(rest, n - 1);
        assert(rest.skip(n - 1) =~= s.skip(n));
    } else {
        assert(s.skip(0) =~= s);
    }
}

pub proof fn lemma_trim_end(s: Seq<char>, n: int)
    requires
        0 <= n <= s.len(),
        forall|i: int| n <= i < s.len() ==> is_white(#[trigger] s[i]),
        n > 0 ==> !is_white(s[n - 1]),
    ensures
        trim_end(s) == s.take(n),
    decreases s.len() - n,
{
    if n < s.len() {
        assert(is_white(s[s.len() - 1]));
        assert(s.drop_last() =~= s.take(s.len() - 1));
        lemma_trim_end(s.drop_last(), n);
        assert(s.drop_last().take(n) =~= s.take(n));
    } else {
        assert(s.take(n) =~= s);
    }
}

/// Trimming leaves nothing exactly of blank texts.
pub proof fn lemma_trim_blank(s: Seq<char>)
    ensures
        (trim(s).len() == 0) == is_blank(s),
    decreases s.len(),
{
    if s.len() > 0 && is_white(s[0]) {
        let rest = s.drop_first();
        lemma_trim_blank(rest);
        assert(trim(s) == trim(rest));
        if is_blank(rest) {
            assert forall|i: int| 0 <= i < s.len() implies is_white(#[trigger] s[i]) by {
                if i > 0 {
                    assert(rest[i - 1] == s[i]);
                }
            }
        } else {
            let k = choose|k: int| 0 <= k < rest.len() && !is_white(#[trigger] rest[k]);
            assert(!is_white(s[k + 1]));
        }
    } else if s.len() > 0 {
        assert(!is_white(s[0]));
        lemma_trim_end_keeps(s);
    }
}

/// A text whose first character is not white space keeps it when its end is
/// trimmed.
proof fn lemma_trim_end_keeps(s: Seq<char>)
    requires
        s.len() > 0,
        !is_white(s[0]),
    ensures
        trim_end(s).len() > 0,
        trim_end(s)[0] == s[0],
    decreases s.len(),
{
    if is_white(s.last()) {
        lemma_trim_end_keeps(s.drop_last());
    }
}

/// Index of the first character of `chars[from..to]` that is not white space,
/// or `to`.
pub fn skip_white(chars: &Vec<char>, from: usize, to: usize) -> (r: usize)
    requires
        from <= to <= chars@.len(),
    ensures
        from <= r <= to,
        forall|i: int| from <= i < r ==> is_white(#[trigger] chars@[i]),
        r < to ==> !is_white(chars@[r as int]),
{
    let mut i: usize = from;
    while i < to && is_whitespace(chars[i])
        invariant
            from <= i <= to <= chars@.len(),
            forall|j: int| from <= j < i ==> is_white(#[trigger] chars@[j]),
        decreases to - i,
    {
        i += 1;
    }
    i
}

/// Bounds of `chars[from..to]` without the white space around it.
pub fn trim_bounds(chars: &Vec<char>, from: usize, to: usize) -> (r: (usize, usize))
    requires
        from <= to <= chars@.len(),
    ensures
        from <= r.0 <= r.1 <= to,
        chars@.subrange(r.0 as int, r.1 as int) == trim(chars@.subrange(from as int, to as int)),
{
    let ghost s = chars@.subrange(from as int, to as int);
    let start: usize = skip_white(chars, from, to);
    proof {
        let n = start - from;
        assert forall|i: int| 0 <= i < n implies is_white(#[trigger] s[i]) by {
            assert(s[i] == chars@[from + i]);
        }
        lemma_trim_start(s, n);
        assert(s.skip(n) =~= chars@.subrange(start as int, to as int));
    }
    let ghost t = chars@.subrange(start as int, to as int);
    let mut end: usize = to;
    while end > start && is_whitespace(chars[end - 1])
        invariant
            start <= end <= to <= chars@.len(),
            t == chars@.subrange(start as int, to as int),
            forall|i: int| end - start <= i < t.len() ==> is_white(#[trigger] t[i]),
        decreases end,
    {
        assert(t[end - 1 - start] == chars@[end - 1]);
        end -= 1;
    }
    proof {
        if end > start {
            assert(t[end - 1 - start] == chars@[end - 1]);
        }
        lemma_trim_end(t, end - start);
        assert(t.take(end - start) =~= chars@.subrange(start as int, end as int));
    }
    (start, end)
}

/// `s` without the white space around it.
pub fn trimmed(s: &str) -> (r: String)
    ensures
        r@ == trim(s@),
{
    let chars: Vec<char> = chars_of(s);
    let (from, to) = trim_bounds(&chars, 0, chars.len());
    assert(chars@.subrange(0, chars@.len() as int) =~= s@);
    text_between(&chars, from, to)
}

/// Whether `s` holds nothing but white space.
pub fn blank(s: &str) -> (r: bool)
    ensures
        r == is_blank(s@),
        r == (trim(s@).len() == 0),
{
    proof {
        lemma_trim_blank(s@);
    }
    let chars: Vec<char> = chars_of(s);
    let n: usize = skip_white(&chars, 0, chars.len());
    n == chars.len()
}

// ---------------------------------------------------------------------------
// Words
// ---------------------------------------------------------------------------

/// What ends with the word `cur`: that word, unless it is empty.
pub open spec fn ended(cur: Seq<char>) -> Seq<Seq<char>> {
    if cur.len() > 0 {
        seq![cur]
    } else {
        Seq::empty()
    }
}

/// The words of `s`, the first of which began with `cur`.
pub open spec fn words_after(s: Seq<char>, cur: Seq<char>) -> Seq<Seq<char>>
    decreases s.len(),
{
    if s.len() == 0 {
        ended(cur)
    } else if is_white(s[0]) {
        ended(cur) + words_after(s.drop_first(), Seq::empty())
    } else {
        words_after(s.drop_first(), cur.push(s[0]))
    }
}

/// The maximal runs of characters of `s` that are not white space.
pub open spec fn words(s: Seq<char>) -> Seq<Seq<char>> {
    words_after(s, Seq::empty())
}

/// The words of `s`.
pub fn split_words(s: &str) -> (r: Vec<String>)
    ensures
        views(r@) == words(s@),
{
    let chars: Vec<char> = chars_of(s);
    let mut r: Vec<String> = Vec::new();
    let mut start: usize = 0;
    proof {
        assert(chars@.skip(0) =~= s@);
        assert(chars@.subrange(0, 0) =~= Seq::<char>::empty());
        assert(views(r@) =~= Seq::<Seq<char>>::empty());
        assert(Seq::<Seq<char>>::empty() + words(s@) =~= words(s@));
    }
    for i in 0..chars.len()
        invariant
            start <= i <= chars@.len(),
            chars@ == s@,
            views(r@) + words_after(
                chars@.skip(i as int),
                chars@.subrange(start as int, i as int),
            ) == words(s@),
    {
        let ghost rest = chars@.skip(i as int);
        let ghost cur = chars@.subrange(start as int, i as int);
        let ghost before = r@;
        assert(rest.drop_first() =~= chars@.skip(i + 1));
        assert(rest[0] == chars@[i as int]);
        if is_whitespace(chars[i]) {
            if start < i {
                r.push(text_between(&chars, start, i));
                proof {
                    lemma_views_push(before, r@[r@.len() - 1]);
                }
            }
            start = i + 1;
            proof {
                assert(chars@.subrange(i + 1, i + 1) =~= Seq::<char>::empty());
                assert(views(r@) =~= views(before) + ended(cur));
                assert(views(before) + (ended(cur) + words_after(
                    chars@.skip(i + 1),
                    Seq::empty(),
                )) =~= views(r@) + words_after(chars@.skip(i + 1), Seq::empty()));
            }
        } else {
            assert(chars@.subrange(start as int, i + 1) =~= cur.push(chars@[i as int]));
        }
    }
    let ghost cur = chars@.subrange(start as int, chars@.len() as int);
    let ghost before = r@;
    proof {
        assert(chars@.skip(chars@.len() as int) =~= Seq::<char>::empty());
    }
    if start < chars.len() {
        r.push(text_between(&chars, start, chars.len()));
        proof {
            lemma_views_push(before, r@[r@.len() - 1]);
        }
    }
    assert(views(r@) =~= views(before) + ended(cur));
    r
}

/// The words of `s` stand in `cur + s`.
pub proof fn lemma_words_contained(s: Seq<char>, cur: Seq<char>, i: int)
    requires
        0 <= i < words_after(s, cur).len(),
    ensures
        contains(cur + s, words_after(s, cur)[i]),
    decreases s.len(),
{
    let all = cur + s;
    if s.len() == 0 {
        assert(all.subrange(0, cur.len() as int) =~= cur);
        assert(occurs_at(all, cur, 0));
    } else if is_white(s[0]) {
        if i < ended(cur).len() {
            assert(all.subrange(0, cur.len() as int) =~= cur);
            assert(occurs_at(all, cur, 0));
        } else {
            let rest = s.drop_first();
            let k = i - ended(cur).len();
            let word = words_after(rest, Seq::empty())[k];
            lemma_words_contained(rest, Seq::empty(), k);
            assert(Seq::<char>::empty() + rest =~= rest);
            let at = choose|at: int| occurs_at(rest, word, at);
            let moved = cur.len() + 1 + at;
            assert(all.subrange(moved, moved + word.len()) =~= rest.subrange(at, at + word.len()));
            assert(occurs_at(all, word, moved));
        }
    } else {
        lemma_words_contained(s.drop_first(), cur.push(s[0]), i);
        assert(cur.push(s[0]) + s.drop_first() =~= all);
    }
}

/// No word is longer than the text it stands in, none is empty, and there are
/// no more words than characters.
pub proof fn lemma_words_within(s: Seq<char>, cur: Seq<char>)
    ensures
        words_after(s, cur).len() <= s.len() + cur.len(),
        forall|i: int|
            0 <= i < words_after(s, cur).len() ==> 0 < (#[trigger] words_after(s, cur)[i]).len()
                <= s.len() + cur.len(),
    decreases s.len(),
{
    if s.len() > 0 {
        if is_white(s[0]) {
            lemma_words_within(s.drop_first(), Seq::empty());
        } else {
            lemma_words_within(s.drop_first(), cur.push(s[0]));
        }
    }
}

// ---------------------------------------------------------------------------
// Searching
// ---------------------------------------------------------------------------

/// Index of the first `c` in `s`, or the length of `s`.
pub open spec fn first_index(s: Seq<char>, c: char) -> int
    decreases s.len(),
{
    if s.len() == 0 || s[0] == c {
        0
    } else {
        1 + first_index(s.drop_first(), c)
    }
}

pub proof fn lemma_first_index(s: Seq<char>, c: char)
    ensures
        0 <= first_index(s, c) <= s.len(),
        forall|i: int| 0 <= i < first_index(s, c) ==> #[trigger] s[i] != c,
        first_index(s, c) < s.len() ==> s[first_index(s, c)] == c,
    decreases s.len(),
{
    if s.len() > 0 && s[0] != c {
        let rest = s.drop_first();
        lemma_first_index(rest, c);
        assert forall|i: int| 0 <= i < first_index(s, c) implies #[trigger] s[i] != c by {
            if i > 0 {
                assert(s[i] == rest[i - 1]);
            }
        }
    }
}

pub proof fn lemma_first_index_is(s: Seq<char>, c: char, n: int)
    requires
        0 <= n <= s.len(),
        forall|i: int| 0 <= i < n ==> #[trigger] s[i] != c,
        n < s.len() ==> s[n] == c,
    ensures
        first_index(s, c) == n,
{
    lemma_first_index(s, c);
    let k = first_index(s, c);
    if k < n {
        assert(s[k] != c);
    } else if n < k {
        assert(s[n] != c);
    }
}

/// Index of the first `c` in `chars[from..to]`, or `to`.
pub fn index_of(chars: &Vec<char>, from: usize, to: usize, c: char) -> (r: usize)
    requires
        from <= to <= chars@.len(),
    ensures
        r == from + first_index(chars@.subrange(from as int, to as int), c),
        from <= r <= to,
{
    let ghost s = chars@.subrange(from as int, to as int);
    let mut i: usize = from;
    while i < to && chars[i] != c
        invariant
            from <= i <= to <= chars@.len(),
            s == chars@.subrange(from as int, to as int),
            forall|j: int| 0 <= j < i - from ==> #[trigger] s[j] != c,
        decreases to - i,
    {
        assert(s[i - from] == chars@[i as int]);
        i += 1;
    }
    proof {
        if i < to {
            assert(s[i - from] == chars@[i as int]);
        }
        lemma_first_index_is(s, c, i - from);
    }
    i
}

/// Whether `pat` stands in `s` at index `i`.
pub open spec fn occurs_at(s: Seq<char>, pat: Seq<char>, i: int) -> bool {
    0 <= i && i + pat.len() <= s.len() && s.subrange(i, i + pat.len()) == pat
}

/// Whether `pat` stands somewhere in `s`.
pub open spec fn contains(s: Seq<char>, pat: Seq<char>) -> bool {
    exists|i: int| occurs_at(s, pat, i)
}

/// What stands in a text that stands in another stands in that.
pub proof fn lemma_contains_within(s: Seq<char>, t: Seq<char>, pat: Seq<char>)
    requires
        contains(s, t),
        contains(t, pat),
    ensures
        contains(s, pat),
{
    let i = choose|i: int| occurs_at(s, t, i);
    let j = choose|j: int| occurs_at(t, pat, j);
    assert(s.subrange(i + j, i + j + pat.len()) =~= s.subrange(i, i + t.len()).subrange(
        j,
        j + pat.len(),
    ));
    assert(occurs_at(s, pat, i + j));
}

/// Whether `s` begins with `pat`.
pub open spec fn starts_with(s: Seq<char>, pat: Seq<char>) -> bool {
    occurs_at(s, pat, 0)
}

/// Whether `s` ends with `pat`.
pub open spec fn ends_with(s: Seq<char>, pat: Seq<char>) -> bool {
    occurs_at(s, pat, s.len() - pat.len())
}

/// Whether `pat` stands in `s` at index `at`.
fn matches_at(s: &Vec<char>, pat: &Vec<char>, at: usize) -> (r: bool)
    requires
        at + pat@.len() <= s@.len(),
    ensures
        r == occurs_at(s@, pat@, at as int),
{
    let n: usize = s.len();
    for i in 0..pat.len()
        invariant
            n == s@.len(),
            at + pat@.len() <= n,
            forall|j: int| 0 <= j < i ==> s@[at + j] == pat@[j],
    {
        if s[at + i] != pat[i] {
            assert(s@.subrange(at as int, at + pat@.len())[i as int] == s@[at + i]);
            return false;
        }
    }
    assert(s@.subrange(at as int, at + pat@.len()) =~= pat@);
    true
}

/// Whether `pat` stands somewhere in `s`.
pub fn has_text(s: &str, pat: &str) -> (r: bool)
    ensures
        r == contains(s@, pat@),
{
    let x: Vec<char> = chars_of(s);
    let y: Vec<char> = chars_of(pat);
    if y.len() > x.len() {
        return false;
    }
    let last: usize = x.len() - y.len();
    for i in 0..last
        invariant
            x@ == s@,
            y@ == pat@,
            last + y@.len() == x@.len(),
            forall|j: int| 0 <= j < i ==> !occurs_at(s@, pat@, j),
    {
        if matches_at(&x, &y, i) {
            return true;
        }
    }
    matches_at(&x, &y, last)
}

/// Whether `s` begins with `pat`.
pub fn begins_with(s: &str, pat: &str) -> (r: bool)
    ensures
        r == starts_with(s@, pat@),
{
    let x: Vec<char> = chars_of(s);
    let y: Vec<char> = chars_of(pat);
    y.len() <= x.len() && matches_at(&x, &y, 0)
}

/// Whether `s` ends with `pat`.
pub fn finishes_with(s: &str, pat: &str) -> (r: bool)
    ensures
        r == ends_with(s@, pat@),
{
    let x: Vec<char> = chars_of(s);
    let y: Vec<char> = chars_of(pat);
    y.len() <= x.len() && matches_at(&x, &y, x.len() - y.len())
}

/// Whether the character `c` stands in `s`.
pub fn has_char(s: &str, c: char) -> (r: bool)
    ensures
        r == s@.contains(c),
{
    let x: Vec<char> = chars_of(s);
    for i in 0..x.len()
        invariant
            x@ == s@,
            forall|j: int| 0 <= j < i ==> s@[j] != c,
    {
        if x[i] == c {
            assert(s@[i as int] == c);
            return true;
        }
    }
    false
}

// ---------------------------------------------------------------------------
// Lines
// ---------------------------------------------------------------------------

/// A line without the carriage return that stands before its line feed.
pub open spec fn chomp(line: Seq<char>) -> Seq<char> {
    if line.len() > 0 && line.last() == '\r' {
        line.drop_last()
    } else {
        line
    }
}

/// The lines of `s`. A line ends in a line feed, with or without a carriage
/// return before it; the last one may go without.
pub open spec fn lines(s: Seq<char>) -> Seq<Seq<char>>
    decreases s.len(),
{
    let i = first_index(s, '\n');
    if s.len() == 0 {
        Seq::empty()
    } else if 0 <= i < s.len() {
        seq![chomp(s.take(i))] + lines(s.skip(i + 1))
    } else {
        seq![s]
    }
}

/// Where `a` ends in a line feed, the lines of `b` follow on its own.
pub proof fn lemma_lines_joined(a: Seq<char>, b: Seq<char>)
    requires
        a.len() > 0,
        a.last() == '\n',
    ensures
        lines(a).len() > 0,
        lines(a + b) == lines(a) + lines(b),
    decreases a.len(),
{
    let i = first_index(a, '\n');
    lemma_first_index(a, '\n');
    assert(a[a.len() - 1] == '\n');
    assert(i < a.len());
    assert forall|k: int| 0 <= k < i implies (a + b)[k] != '\n' by {
        assert((a + b)[k] == a[k]);
    }
    lemma_first_index_is(a + b, '\n', i);
    assert((a + b).take(i) =~= a.take(i));
    let rest = a.skip(i + 1);
    assert((a + b).skip(i + 1) =~= rest + b);
    if rest.len() > 0 {
        lemma_lines_joined(rest, b);
    } else {
        assert(rest + b =~= b);
        assert(lines(rest) =~= Seq::empty());
    }
    assert(lines(a + b) =~= lines(a) + lines(b));
}

/// The lines of `s`.
pub fn split_lines(s: &str) -> (r: Vec<String>)
    ensures
        views(r@) == lines(s@),
{
    let chars: Vec<char> = chars_of(s);
    let n: usize = chars.len();
    let mut r: Vec<String> = Vec::new();
    let mut start: usize = 0;
    proof {
        assert(chars@.skip(0) =~= s@);
        assert(views(r@) + lines(s@) =~= lines(s@));
    }
    while start < n
        invariant
            n == chars@.len(),
            start <= n,
            views(r@) + lines(chars@.skip(start as int)) == lines(s@),
        decreases n - start,
    {
        let ghost rest = chars@.skip(start as int);
        let ghost before = r@;
        let end: usize = index_of(&chars, start, n, '\n');
        proof {
            assert(chars@.subrange(start as int, n as int) =~= rest);
        }
        if end < n {
            let stop: usize = if end > start && chars[end - 1] == '\r' {
                end - 1
            } else {
                end
            };
            r.push(text_between(&chars, start, stop));
            proof {
                lemma_views_push(before, r@[r@.len() - 1]);
                let line = rest.take(end - start);
                if end > start {
                    assert(line.last() == chars@[end - 1]);
                }
                assert(chomp(line) =~= chars@.subrange(start as int, stop as int));
                assert(rest.skip(end - start + 1) =~= chars@.skip(end + 1));
                assert(views(before) + (seq![chomp(line)] + lines(chars@.skip(end + 1))) =~= views(r@)
                    + lines(chars@.skip(end + 1)));
            }
            start = end + 1;
        } else {
            r.push(text_between(&chars, start, n));
            proof {
                lemma_views_push(before, r@[r@.len() - 1]);
                assert(chars@.skip(n as int) =~= Seq::<char>::empty());
                assert(views(before) + seq![rest] =~= views(r@) + lines(chars@.skip(n as int)));
            }
            start = n;
        }
    }
    proof {
        assert(chars@.skip(n as int) =~= Seq::<char>::empty());
        assert(views(r@) + lines(chars@.skip(n as int)) =~= views(r@));
    }
    r
}

// ---------------------------------------------------------------------------
// Laws
// ---------------------------------------------------------------------------

/// Blanks, tabs and line ends are white space, and so are the other characters
/// that Unicode counts among it; letters, digits and punctuation are not.
pub proof fn law_white_space(c: char)
    ensures
        is_white(c) <==> {
            let n = c as u32;
            ||| n == 0x9 || n == 0xa || n == 0xb || n == 0xc || n == 0xd || n == 0x20
            ||| n == 0x85 || n == 0xa0 || n == 0x1680
            ||| n >= 0x2000 && n <= 0x200a
            ||| n == 0x2028 || n == 0x2029 || n == 0x202f || n == 0x205f || n == 0x3000
        },
{
}

/// Trimming takes away the white space around a text, all of it, and nothing
/// else.
pub proof fn law_trimmed(before: Seq<char>, core: Seq<char>, behind: Seq<char>)
    requires
        is_blank(before),
        is_blank(behind),
        core.len() > 0,
        !is_white(core[0]),
        !is_white(core[core.len() - 1]),
    ensures
        trim(before + core + behind) == core,
        trim_start(before + core + behind) == core + behind,
        trim(before) == Seq::<char>::empty(),
{
    let s = before + core + behind;
    assert forall|i: int| 0 <= i < before.len() implies is_white(#[trigger] s[i]) by {
        assert(s[i] == before[i]);
    }
    assert(s[before.len() as int] == core[0]);
    lemma_trim_start(s, before.len() as int);
    let rest = core + behind;
    assert(s.skip(before.len() as int) =~= rest);
    assert forall|i: int| core.len() <= i < rest.len() implies is_white(#[trigger] rest[i]) by {
        assert(rest[i] == behind[i - core.len()]);
    }
    assert(rest[core.len() - 1] == core[core.len() - 1]);
    lemma_trim_end(rest, core.len() as int);
    assert(rest.take(core.len() as int) =~= core);
    lemma_trim_blank(before);
    assert(trim(before) =~= Seq::empty());
}

proof fn lemma_words_joined(a: Seq<char>, c: char, b: Seq<char>, cur: Seq<char>)
    requires
        is_white(c),
    ensures
        words_after(a + seq![c] + b, cur) == words_after(a, cur) + words(b),
    decreases a.len(),
{
    let all = a + seq![c] + b;
    if a.len() == 0 {
        assert(all[0] == c);
        assert(all.drop_first() =~= b);
    } else {
        assert(all[0] == a[0]);
        assert(all.drop_first() =~= a.drop_first() + seq![c] + b);
        if is_white(a[0]) {
            lemma_words_joined(a.drop_first(), c, b, Seq::empty());
            assert(ended(cur) + (words_after(a.drop_first(), Seq::empty()) + words(b)) =~= (ended(
                cur,
            ) + words_after(a.drop_first(), Seq::empty())) + words(b));
        } else {
            lemma_words_joined(a.drop_first(), c, b, cur.push(a[0]));
        }
    }
}

/// White space parts words: those before it and those behind it are all there
/// are.
pub proof fn law_words_parted(a: Seq<char>, c: char, b: Seq<char>)
    requires
        is_white(c),
    ensures
        words(a + seq![c] + b) == words(a) + words(b),
{
    lemma_words_joined(a, c, b, Seq::empty());
}

proof fn lemma_one_word(s: Seq<char>, cur: Seq<char>)
    requires
        forall|i: int| 0 <= i < s.len() ==> !is_white(#[trigger] s[i]),
    ensures
        words_after(s, cur) == ended(cur + s),
    decreases s.len(),
{
    if s.len() == 0 {
        assert(cur + s =~= cur);
    } else {
        lemma_one_word(s.drop_first(), cur.push(s[0]));
        assert(cur.push(s[0]) + s.drop_first() =~= cur + s);
    }
}

/// A text without white space is one word, and an empty one is none.
pub proof fn law_one_word(s: Seq<char>)
    requires
        forall|i: int| 0 <= i < s.len() ==> !is_white(#[trigger] s[i]),
    ensures
        s.len() > 0 ==> words(s) == seq![s],
        s.len() == 0 ==> words(s) == Seq::<Seq<char>>::empty(),
{
    lemma_one_word(s, Seq::empty());
    assert(Seq::<char>::empty() + s =~= s);
}

/// A line ends at its line feed, which may have a carriage return before it, and
/// the others follow. What stands behind the last line feed is a line too.
pub proof fn law_first_line(line: Seq<char>, rest: Seq<char>)
    requires
        !line.contains('\n'),
    ensures
        line.len() > 0 ==> lines(line) == seq![line],
        line.len() == 0 ==> lines(line) == Seq::<Seq<char>>::empty(),
        line.len() == 0 || line.last() != '\r' ==> lines(line + seq!['\n'] + rest) == seq![line]
            + lines(rest),
        lines(line + seq!['\r', '\n'] + rest) == seq![line] + lines(rest),
{
    let n = line.len() as int;
    assert forall|i: int| 0 <= i < n implies line[i] != '\n' by {
        assert(line.contains(line[i]));
    }
    lemma_first_index_is(line, '\n', n);
    let plain = line + seq!['\n'] + rest;
    assert forall|i: int| 0 <= i < n implies plain[i] != '\n' by {
        assert(plain[i] == line[i]);
    }
    lemma_first_index_is(plain, '\n', n);
    assert(plain.take(n) =~= line);
    assert(plain.skip(n + 1) =~= rest);
    let windows = line + seq!['\r', '\n'] + rest;
    assert forall|i: int| 0 <= i < n + 1 implies windows[i] != '\n' by {
        if i < n {
            assert(windows[i] == line[i]);
        }
    }
    lemma_first_index_is(windows, '\n', n + 1);
    assert(windows.take(n + 1) =~= line.push('\r'));
    assert(line.push('\r').drop_last() =~= line);
    assert(windows.skip(n + 2) =~= rest);
}

/// A text stands in another exactly where that is the text with something, or
/// nothing, before and behind it. The law gives what stands there.
pub proof fn law_contained(s: Seq<char>, pat: Seq<char>) -> (around: (Seq<char>, Seq<char>))
    ensures
        contains(s, pat) ==> s == around.0 + pat + around.1,
        forall|a: Seq<char>, b: Seq<char>| s == #[trigger] (a + pat + b) ==> contains(s, pat),
{
    assert forall|a: Seq<char>, b: Seq<char>| s == #[trigger] (a + pat + b) implies contains(
        s,
        pat,
    ) by {
        let n = a.len() as int;
        assert(s.subrange(n, n + pat.len()) =~= pat);
        assert(occurs_at(s, pat, n));
    }
    if contains(s, pat) {
        let i = choose|i: int| occurs_at(s, pat, i);
        let a = s.take(i);
        let b = s.skip(i + pat.len());
        assert(a + s.subrange(i, i + pat.len()) + b =~= s);
        (a, b)
    } else {
        (Seq::empty(), Seq::empty())
    }
}

/// What begins with a text has something, or nothing, behind it, and what ends
/// with one has it before.
pub proof fn law_ends_of_text(pat: Seq<char>, other: Seq<char>, s: Seq<char>)
    ensures
        starts_with(pat + other, pat),
        ends_with(other + pat, pat),
        starts_with(s, pat) ==> s == pat + s.skip(pat.len() as int),
        ends_with(s, pat) ==> s == s.take(s.len() - pat.len()) + pat,
{
    assert((pat + other).subrange(0, pat.len() as int) =~= pat);
    assert((other + pat).subrange(other.len() as int, (other + pat).len() as int) =~= pat);
    if starts_with(s, pat) {
        assert(s =~= s.subrange(0, pat.len() as int) + s.skip(pat.len() as int));
    }
    if ends_with(s, pat) {
        let n = s.len() - pat.len();
        assert(s =~= s.take(n) + s.subrange(n, n + pat.len()));
    }
}

/// What a text begins with begins with its own start, and holds the rest.
pub proof fn lemma_part(s: Seq<char>, a: Seq<char>, b: Seq<char>)
    requires
        starts_with(s, a + b),
    ensures
        starts_with(s, a),
        contains(s, b),
{
    let all = a + b;
    assert(s.subrange(0, all.len() as int) =~= all);
    assert forall|k: int| 0 <= k < all.len() implies s[k] == all[k] by {
        assert(s.subrange(0, all.len() as int)[k] == s[k]);
    }
    assert(s.subrange(0, a.len() as int) =~= a);
    assert(s.subrange(a.len() as int, all.len() as int) =~= b);
    assert(occurs_at(s, b, a.len() as int));
}

} // verus!
