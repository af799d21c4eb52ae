//! Numbers as text and text in columns.

use vstd::prelude::*;
use vstd::string::StringExecFns;

use crate::text;

verus! {

/// The decimal digit `d`.
pub open spec fn digit(d: nat) -> char {
    ('0' as nat + d) as char
}

/// `n` in decimal, without leading zeros.
pub open spec fn digits(n: nat) -> Seq<char>
    decreases n,
{
    if n < 10 {
        seq![digit(n)]
    } else {
        digits(n / 10).push(digit(n % 10))
    }
}

/// `n` in decimal, with a minus sign when it is negative.
pub open spec fn decimal(n: int) -> Seq<char> {
    if n < 0 {
        seq!['-'] + digits((-n) as nat)
    } else {
        digits(n as nat)
    }
}

/// Appends `n` in decimal.
pub fn push_digits(out: &mut String, n: u64)
    ensures
        final(out)@ == old(out)@ + digits(n as nat),
    decreases n,
{
    let ghost start = out@;
    if n >= 10 {
        push_digits(out, n / 10);
    }
    let d: u8 = (n % 10) as u8;
    let c: char = (48u8 + d) as char;
    assert(c == digit((n % 10) as nat));
    out.push(c);
    assert(out@ =~= start + digits(n as nat));
}

/// Appends `n` in decimal.
pub fn push_decimal(out: &mut String, n: i64)
    ensures
        final(out)@ == old(out)@ + decimal(n as int),
{
    let ghost start = out@;
    if n < 0 {
        out.push('-');
        let magnitude: u64 = (-(n as i128)) as u64;
        push_digits(out, magnitude);
        assert(out@ =~= start + decimal(n as int));
    } else {
        push_digits(out, n as u64);
    }
}

/// `n` in decimal.
pub fn decimal_text(n: i64) -> (r: String)
    ensures
        r@ == decimal(n as int),
{
    let mut r: String = String::new();
    push_decimal(&mut r, n);
    assert(r@ =~= decimal(n as int));
    r
}

/// `n` in decimal.
pub fn count_text(n: usize) -> (r: String)
    ensures
        r@ == decimal(n as int),
{
    let mut r: String = String::new();
    push_digits(&mut r, n as u64);
    assert(r@ =~= decimal(n as int));
    r
}

/// `n` spaces.
pub open spec fn spaces(n: int) -> Seq<char> {
    Seq::new((if n > 0 { n } else { 0 }) as nat, |i: int| ' ')
}

/// `s` set to the right of a column of `width` characters.
pub open spec fn right_aligned(s: Seq<char>, width: int) -> Seq<char> {
    spaces(width - s.len()) + s
}

/// `s` set to the left of a column of `width` characters.
pub open spec fn left_aligned(s: Seq<char>, width: int) -> Seq<char> {
    s + spaces(width - s.len())
}

/// Appends the spaces that `len` characters leave in a column of `width`.
fn push_padding(out: &mut String, len: usize, width: usize)
    ensures
        final(out)@ == old(out)@ + spaces(width - len),
{
    let ghost start = out@;
    let mut i: usize = len;
    while i < width
        invariant
            len <= i,
            i <= width || i == len,
            out@ == start + spaces(i - len),
        decreases width - i,
    {
        out.push(' ');
        assert(spaces(i + 1 - len) =~= spaces(i - len).push(' '));
        assert(out@ =~= start + spaces(i + 1 - len));
        i += 1;
    }
    assert(spaces(i - len) =~= spaces(width - len));
}

/// Appends `s`, set to the right of a column of `width` characters.
pub fn push_right(out: &mut String, s: &str, width: usize)
    ensures
        final(out)@ == old(out)@ + right_aligned(s@, width as int),
{
    let ghost start = out@;
    let len: usize = text::chars_of(s).len();
    push_padding(out, len, width);
    out.append(s);
    assert(out@ =~= start + right_aligned(s@, width as int));
}

/// Appends `s`, set to the left of a column of `width` characters.
pub fn push_left(out: &mut String, s: &str, width: usize)
    ensures
        final(out)@ == old(out)@ + left_aligned(s@, width as int),
{
    let ghost start = out@;
    let len: usize = text::chars_of(s).len();
    out.append(s);
    push_padding(out, len, width);
    assert(out@ =~= start + left_aligned(s@, width as int));
}

/// Appends `n`, set to the right of a column of `width` characters.
pub fn push_number_right(out: &mut String, n: i64, width: usize)
    ensures
        final(out)@ == old(out)@ + right_aligned(decimal(n as int), width as int),
{
    let text: String = decimal_text(n);
    push_right(out, text.as_str(), width);
}

/// The pieces of `list`, with `sep` between them.
pub open spec fn joined(list: Seq<Seq<char>>, sep: Seq<char>) -> Seq<char>
    decreases list.len(),
{
    if list.len() == 0 {
        Seq::empty()
    } else if list.len() == 1 {
        list[0]
    } else {
        joined(list.drop_last(), sep) + sep + list.last()
    }
}

/// The strings of `list`, with `sep` between them.
pub fn join(list: &Vec<String>, sep: &str) -> (r: String)
    ensures
        r@ == joined(text::views(list@), sep@),
{
    let ghost all = text::views(list@);
    let mut r: String = String::new();
    assert(all.take(0) =~= Seq::<Seq<char>>::empty());
    for i in 0..list.len()
        invariant
            all == text::views(list@),
            r@ == joined(all.take(i as int), sep@),
    {
        assert(all.take(i + 1).drop_last() =~= all.take(i as int));
        assert(all.take(i + 1).last() == list@[i as int]@);
        if i > 0 {
            r.append(sep);
        }
        r.append(list[i].as_str());
        assert(r@ =~= joined(all.take(i + 1), sep@));
    }
    assert(all.take(list@.len() as int) =~= all);
    r
}

/// The lines, each with a line end behind it.
pub open spec fn stacked(lines: Seq<Seq<char>>) -> Seq<char>
    decreases lines.len(),
{
    if lines.len() == 0 {
        Seq::empty()
    } else {
        stacked(lines.drop_last()) + lines.last() + seq!['\n']
    }
}

/// The first line, its line end, and the lines behind it.
pub proof fn lemma_stacked_first(lines: Seq<Seq<char>>)
    requires
        lines.len() > 0,
    ensures
        stacked(lines) == lines[0] + seq!['\n'] + stacked(lines.drop_first()),
    decreases lines.len(),
{
    let rest = lines.drop_first();
    if lines.len() == 1 {
        assert(stacked(lines.drop_last()) =~= Seq::empty());
        assert(stacked(rest) =~= Seq::empty());
        assert(stacked(lines) =~= lines[0] + seq!['\n'] + stacked(rest));
    } else {
        lemma_stacked_first(lines.drop_last());
        assert(lines.drop_last().drop_first() =~= rest.drop_last());
        assert(rest.last() == lines.last());
        assert(stacked(lines) =~= lines[0] + seq!['\n'] + stacked(rest));
    }
}

/// The lines, each with a line end behind it.
pub fn stack(lines: &Vec<String>) -> (r: String)
    ensures
        r@ == stacked(text::views(lines@)),
{
    let ghost all = text::views(lines@);
    let mut r: String = String::new();
    assert(r@ =~= stacked(all.take(0)));
    for i in 0..lines.len()
        invariant
            all == text::views(lines@),
            r@ == stacked(all.take(i as int)),
    {
        assert(all.take(i + 1).drop_last() =~= all.take(i as int));
        assert(all.take(i + 1).last() == lines@[i as int]@);
        r.append(lines[i].as_str());
        r.push('\n');
        assert(r@ =~= stacked(all.take(i + 1)));
    }
    assert(all.take(lines@.len() as int) =~= all);
    r
}

/// Two texts in a row.
pub fn glue(a: &str, b: &str) -> (r: String)
    ensures
        r@ == a@ + b@,
{
    let mut r: String = a.to_string();
    r.append(b);
    r
}

// ---------------------------------------------------------------------------
// Numbers read from text
// ---------------------------------------------------------------------------

/// Whether `c` is a decimal digit.
pub open spec fn is_digit(c: char) -> bool {
    '0' <= c <= '9'
}

/// Whether `s` is one or more decimal digits.
pub open spec fn is_digits(s: Seq<char>) -> bool {
    s.len() > 0 && forall|i: int| 0 <= i < s.len() ==> is_digit(#[trigger] s[i])
}

/// The number that the decimal digits `s` stand for.
pub open spec fn digits_value(s: Seq<char>) -> nat
    decreases s.len(),
{
    if s.len() == 0 {
        0
    } else {
        digits_value(s.drop_last()) * 10 + (s.last() as nat - '0' as nat) as nat
    }
}

/// `s` without a leading plus sign.
pub open spec fn unsigned_part(s: Seq<char>) -> Seq<char> {
    if s.len() > 0 && s[0] == '+' {
        s.skip(1)
    } else {
        s
    }
}

/// The count that `s` stands for: decimal digits after an optional plus sign,
/// as far as a `usize` holds them.
pub open spec fn count_value(s: Seq<char>) -> Option<usize> {
    let d = unsigned_part(s);
    if is_digits(d) && digits_value(d) <= usize::MAX {
        Some(digits_value(d) as usize)
    } else {
        None
    }
}

proof fn lemma_digits_value_grows(s: Seq<char>, n: int)
    requires
        0 <= n <= s.len(),
    ensures
        digits_value(s.take(n)) <= digits_value(s),
    decreases s.len() - n,
{
    if n == s.len() {
        assert(s.take(n) =~= s);
    } else {
        lemma_digits_value_grows(s, n + 1);
        assert(s.take(n + 1).drop_last() =~= s.take(n));
    }
}

/// The count that `s` stands for.
pub fn parse_count(s: &str) -> (r: Option<usize>)
    ensures
        r == count_value(s@),
{
    let chars: Vec<char> = text::chars_of(s);
    let n: usize = chars.len();
    let start: usize = if n > 0 && chars[0] == '+' {
        1
    } else {
        0
    };
    let ghost d = unsigned_part(s@);
    assert(d =~= s@.skip(start as int));
    if start == n {
        return None;
    }
    let mut value: usize = 0;
    assert(d.take(0) =~= Seq::<char>::empty());
    for i in start..n
        invariant
            start <= n == chars@.len(),
            chars@ == s@,
            d == s@.skip(start as int),
            d == unsigned_part(s@),
            value == digits_value(d.take(i - start)),
            forall|j: int| 0 <= j < i - start ==> is_digit(#[trigger] d[j]),
    {
        let c: char = chars[i];
        assert(d[i - start] == c);
        if c < '0' || c > '9' {
            assert(!is_digit(d[i - start]));
            return None;
        }
        let k: usize = (c as u32 - 48) as usize;
        proof {
            assert(d.take(i - start + 1).drop_last() =~= d.take(i - start));
            assert(d.take(i - start + 1).last() == c);
            lemma_digits_value_grows(d, i - start + 1);
        }
        match value.checked_mul(10) {
            Some(tens) => match tens.checked_add(k) {
                Some(next) => {
                    value = next;
                },
                None => {
                    return None;
                },
            },
            None => {
                return None;
            },
        }
    }
    assert(d.take(n - start) =~= d);
    Some(value)
}

// ---------------------------------------------------------------------------
// Laws
// ---------------------------------------------------------------------------

proof fn lemma_digits_read_back(n: nat)
    ensures
        is_digits(digits(n)),
        digits_value(digits(n)) == n,
    decreases n,
{
    let last = digit(n % 10);
    assert(last as nat == 48 + n % 10);
    if n < 10 {
        reveal_with_fuel(digits_value, 2);
        assert(digits(n).drop_last() =~= Seq::empty());
        assert(digits(n).last() == last);
    } else {
        let init = digits(n / 10);
        lemma_digits_read_back(n / 10);
        assert(digits(n).drop_last() =~= init);
        assert(digits(n).last() == last);
        assert forall|i: int| 0 <= i < digits(n).len() implies is_digit(#[trigger] digits(n)[i]) by {
            if i < init.len() {
                assert(digits(n)[i] == init[i]);
            }
        }
    }
}

/// A count that is written out is read back, with or without a plus sign.
pub proof fn law_count_read_back(n: usize)
    ensures
        count_value(decimal(n as int)) == Some(n),
        count_value(seq!['+'] + decimal(n as int)) == Some(n),
{
    let d = decimal(n as int);
    lemma_digits_read_back(n as nat);
    assert(is_digit(d[0]));
    assert(unsigned_part(d) == d);
    assert((seq!['+'] + d).skip(1) =~= d);
}

/// A number is written in digits alone, behind a minus sign where it is negative,
/// without a leading zero, and its digits stand for it.
pub proof fn law_decimal_digits(n: int)
    ensures
        ({
            let d = if n < 0 {
                decimal(n).skip(1)
            } else {
                decimal(n)
            };
            &&& is_digits(d)
            &&& d.len() > 1 ==> d[0] != '0'
            &&& digits_value(d) == if n < 0 {
                -n
            } else {
                n
            }
            &&& n < 0 <==> decimal(n)[0] == '-'
        }),
{
    let m = (if n < 0 {
        -n
    } else {
        n
    }) as nat;
    lemma_digits_read_back(m);
    lemma_no_leading_zero(m);
    assert(is_digit(digits(m)[0]));
    if n < 0 {
        assert((seq!['-'] + digits(m)).skip(1) =~= digits(m));
    }
}

proof fn lemma_no_leading_zero(n: nat)
    ensures
        digits(n).len() > 0,
        n > 0 ==> digits(n)[0] != '0',
        n == 0 ==> digits(n).len() == 1,
    decreases n,
{
    if n >= 10 {
        lemma_no_leading_zero(n / 10);
        assert(digits(n)[0] == digits(n / 10)[0]);
    } else {
        assert(digit(n) as nat == 48 + n);
    }
}

/// Digits stand for a number by their places: one digit more is ten times the
/// number, and the digit.
pub proof fn law_digit_places(s: Seq<char>, d: nat)
    requires
        d < 10,
    ensures
        digits_value(Seq::<char>::empty()) == 0,
        digits_value(s.push((48 + d) as char)) == 10 * digits_value(s) + d,
{
    let c = (48 + d) as char;
    assert(c as nat == 48 + d);
    assert(s.push(c).drop_last() =~= s);
}

/// Only digits are a count, with or without a plus sign before them.
pub proof fn law_count_is_digits(s: Seq<char>)
    ensures
        count_value(s) is Some ==> is_digits(s) || s.len() > 1 && s[0] == '+' && is_digits(
            s.skip(1),
        ),
        is_digits(s) && digits_value(s) <= usize::MAX ==> count_value(s) == Some(
            digits_value(s) as usize,
        ),
        is_digits(s) && digits_value(s) > usize::MAX ==> count_value(s) is None,
{
    if is_digits(s) {
        assert(is_digit(s[0]));
    }
}

/// Pieces are joined with the separator between each two of them.
pub proof fn law_joined(a: Seq<Seq<char>>, b: Seq<Seq<char>>, piece: Seq<char>, sep: Seq<char>)
    ensures
        joined(Seq::empty(), sep) == Seq::<char>::empty(),
        joined(seq![piece], sep) == piece,
        a.len() > 0 && b.len() > 0 ==> joined(a + b, sep) == joined(a, sep) + sep + joined(b, sep),
    decreases b.len(),
{
    if a.len() > 0 && b.len() > 0 {
        assert((a + b).drop_last() =~= a + b.drop_last());
        if b.len() == 1 {
            assert(b.drop_last() =~= Seq::empty());
            assert(a + b.drop_last() =~= a);
        } else {
            law_joined(a, b.drop_last(), piece, sep);
            assert(joined(a, sep) + sep + (joined(b.drop_last(), sep) + sep + b.last()) =~= joined(
                a,
                sep,
            ) + sep + joined(b.drop_last(), sep) + sep + b.last());
        }
    }
}

/// Lines stand one after the other, each with its line end.
pub proof fn law_stacked(a: Seq<Seq<char>>, b: Seq<Seq<char>>, line: Seq<char>)
    ensures
        stacked(Seq::empty()) == Seq::<char>::empty(),
        stacked(seq![line]) == line.push('\n'),
        stacked(a + b) == stacked(a) + stacked(b),
    decreases b.len(),
{
    reveal_with_fuel(stacked, 2);
    assert(seq![line].drop_last() =~= Seq::empty());
    assert(Seq::<char>::empty() + line + seq!['\n'] =~= line.push('\n'));
    if b.len() == 0 {
        assert(a + b =~= a);
        assert(stacked(a) + stacked(b) =~= stacked(a));
    } else {
        law_stacked(a, b.drop_last(), line);
        assert((a + b).drop_last() =~= a + b.drop_last());
        assert(stacked(a + b) =~= stacked(a) + stacked(b));
    }
}

/// Lines that were stacked are read back, where none holds a line feed or ends
/// in a carriage return.
pub proof fn law_stacked_lines(list: Seq<Seq<char>>)
    requires
        forall|i: int| 0 <= i < list.len() ==> !(#[trigger] list[i]).contains('\n'),
        forall|i: int|
            0 <= i < list.len() ==> (#[trigger] list[i]).len() == 0 || list[i].last() != '\r',
    ensures
        text::lines(stacked(list)) == list,
    decreases list.len(),
{
    if list.len() == 0 {
        assert(text::lines(stacked(list)) =~= list);
    } else {
        let rest = list.drop_first();
        lemma_stacked_first(list);
        assert(!list[0].contains('\n'));
        text::law_first_line(list[0], stacked(rest));
        assert forall|i: int| 0 <= i < rest.len() implies !(#[trigger] rest[i]).contains('\n')
            && (rest[i].len() == 0 || rest[i].last() != '\r') by {
            assert(rest[i] == list[i + 1]);
        }
        law_stacked_lines(rest);
        assert(seq![list[0]] + rest =~= list);
    }
}

/// Alignment adds blanks on the other side, as many as it takes to fill the
/// column, and changes nothing else.
pub proof fn law_aligned(s: Seq<char>, width: int)
    ensures
        right_aligned(s, width).len() == if s.len() < width {
            width
        } else {
            s.len() as int
        },
        left_aligned(s, width).len() == right_aligned(s, width).len(),
        right_aligned(s, width).skip(right_aligned(s, width).len() - s.len()) == s,
        left_aligned(s, width).take(s.len() as int) == s,
        forall|i: int|
            0 <= i < right_aligned(s, width).len() - s.len() ==> #[trigger] right_aligned(
                s,
                width,
            )[i] == ' ',
        forall|i: int|
            s.len() <= i < left_aligned(s, width).len() ==> #[trigger] left_aligned(s, width)[i]
                == ' ',
{
    assert(right_aligned(s, width).skip(right_aligned(s, width).len() - s.len()) =~= s);
    assert(left_aligned(s, width).take(s.len() as int) =~= s);
}

/// A number may have a plus before it, and no other sign.
pub proof fn law_count_sign(s: Seq<char>)
    requires
        s.len() > 0,
        is_digits(s),
    ensures
        count_value(seq!['+'] + s) == count_value(s),
        count_value(seq!['-'] + s) is None,
        count_value(seq!['+', '+'] + s) is None,
        count_value(seq!['+']) is None,
        count_value(Seq::empty()) is None,
{
    assert((seq!['+'] + s).skip(1) =~= s);
    assert((seq!['+'] + s).drop_first() =~= s);
    assert(is_digit(s[0]));
    let minus = seq!['-'] + s;
    assert(minus[0] == '-' && !is_digit(minus[0]));
    let two = seq!['+', '+'] + s;
    assert(two.skip(1)[0] == '+' && two.drop_first()[0] == '+');
    assert(seq!['+'].skip(1).len() == 0 && seq!['+'].drop_first().len() == 0);
}

} // verus!
