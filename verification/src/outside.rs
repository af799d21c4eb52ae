//! The calls into other crates, and what is taken on trust of each.

use fuzzy_matcher::FuzzyMatcher;
use vstd::prelude::*;

use crate::text;

verus! {

// ---------------------------------------------------------------------------
// fuzzy_matcher
// ---------------------------------------------------------------------------

/// What the skim matcher finds of `pattern` in `choice`: the score and the
/// indices of the matched characters, or nothing.
pub uninterp spec fn skim_match(choice: Seq<char>, pattern: Seq<char>) -> Option<
    (i64, Seq<usize>),
>;

/// Whether `c` is an ASCII capital.
pub open spec fn is_capital(c: char) -> bool {
    'A' <= c <= 'Z'
}

/// The small letter of an ASCII capital; any other character as it is.
pub open spec fn uncapitalized(c: char) -> char {
    if is_capital(c) {
        (c as u32 + 32) as char
    } else {
        c
    }
}

/// Whether the characters of `pattern` stand in `choice` in their order, with
/// others between them or not; small and capital ASCII letters are told apart
/// or not.
pub open spec fn stands_in(choice: Seq<char>, pattern: Seq<char>, exact: bool) -> bool
    decreases choice.len(),
{
    if pattern.len() == 0 {
        true
    } else if choice.len() == 0 {
        false
    } else {
        let same = if exact {
            choice[0] == pattern[0]
        } else {
            uncapitalized(choice[0]) == uncapitalized(pattern[0])
        };
        if same {
            stands_in(choice.drop_first(), pattern.drop_first(), exact)
        } else {
            stands_in(choice.drop_first(), pattern, exact)
        }
    }
}

/// Whether `pattern` matches `choice`: its characters stand there in their
/// order. Letters are told apart where the pattern holds a capital.
pub open spec fn is_match(choice: Seq<char>, pattern: Seq<char>) -> bool {
    stands_in(
        choice,
        pattern,
        exists|i: int| 0 <= i < pattern.len() && is_capital(#[trigger] pattern[i]),
    )
}

/// The view of what the matcher returns.
pub open spec fn match_view(found: Option<(i64, Vec<usize>)>) -> Option<(i64, Seq<usize>)> {
    match found {
        Some((score, indices)) => Some((score, indices@)),
        None => None,
    }
}

/// The lengths that the matcher works on. It fills a matrix with one cell of
/// sixteen bytes for every pair of positions, which has to fit in memory's
/// address range. It counts its scores in an `i32`: up to 32 for a character of
/// the pattern, and from -32768 down by one for a character of the choice.
pub open spec fn matchable(choice: nat, pattern: nat) -> bool {
    &&& choice <= 0x7fff_0000
    &&& pattern <= 0x03ff_ffff
    &&& (choice + 1) * (pattern + 1) * 16 <= isize::MAX
}

/// Whether the matcher works on texts of these lengths, in characters.
pub fn can_match(choice: usize, pattern: usize) -> (r: bool)
    ensures
        r == matchable(choice as nat, pattern as nat),
{
    if choice > 0x7fff_0000 || pattern > 0x03ff_ffff {
        return false;
    }
    assert((choice + 1) * (pattern + 1) * 16 <= 0x7fff_0001 * 0x0400_0000 * 16) by (nonlinear_arith)
        requires
            choice <= 0x7fff_0000,
            pattern <= 0x03ff_ffff,
    ;
    (choice as u128 + 1) * (pattern as u128 + 1) * 16 <= isize::MAX as u128
}

/// What is matchable with a pattern is so with a shorter one.
pub proof fn lemma_matchable_shorter(choice: nat, pattern: nat, shorter: nat)
    requires
        matchable(choice, pattern),
        shorter <= pattern,
    ensures
        matchable(choice, shorter),
{
    assert((choice + 1) * (shorter + 1) * 16 <= (choice + 1) * (pattern + 1) * 16)
        by (nonlinear_arith)
        requires
            shorter <= pattern,
    ;
}

/// `SkimMatcherV2::fuzzy_indices` with smart case.
///
/// Trusted: on texts of these lengths it returns. It finds a match exactly where
/// the pattern's characters stand in the choice in their order, which smart case
/// compares without regard to case unless the pattern holds an ASCII capital.
/// What it returns depends on the two texts alone and is named `skim_match`; its
/// scores are of the range of an `i32`, and an empty pattern scores nothing and
/// matches no character. The matcher is built for the one call, so that how well a
/// directory matches is its own affair: the cells that a matcher keeps from one
/// call to the next can otherwise let what was scored before change a score.
#[verifier::external_body]
pub(crate) fn fuzzy_indices(choice: &str, pattern: &str) -> (r: Option<(i64, Vec<usize>)>)
    requires
        matchable(choice@.len(), pattern@.len()),
    ensures
        match_view(r) == skim_match(choice@, pattern@),
        r is Some <==> is_match(choice@, pattern@),
        r matches Some((score, _)) ==> i32::MIN <= score <= i32::MAX,
        r matches Some((score, indices)) ==> (pattern@.len() == 0 ==> score == 0 && indices@.len()
            == 0),
{
    fuzzy_matcher::skim::SkimMatcherV2::default().smart_case().fuzzy_indices(choice, pattern)
}

// ---------------------------------------------------------------------------
// std
// ---------------------------------------------------------------------------

/// The lowercase equivalent of `s`, as Unicode defines it.
pub uninterp spec fn lowercase(s: Seq<char>) -> Seq<char>;

/// Whether all of `s` is ASCII.
pub open spec fn is_ascii_text(s: Seq<char>) -> bool {
    forall|i: int| 0 <= i < s.len() ==> (#[trigger] s[i]) as u32 <= 127
}

/// `s` with a small letter for each ASCII capital.
pub open spec fn uncapitalized_text(s: Seq<char>) -> Seq<char> {
    Seq::new(s.len(), |i: int| uncapitalized(s[i]))
}

/// What lowercasing `s` into `r` does to the ASCII in it: no capital is left, a
/// piece of ASCII text stands in `r` in small letters, and there is nothing else
/// in `r` where `s` is all ASCII.
pub open spec fn is_lowered(s: Seq<char>, r: Seq<char>) -> bool {
    &&& forall|i: int| 0 <= i < r.len() ==> !is_capital(#[trigger] r[i])
    &&& forall|t: Seq<char>| #[trigger]
        text::contains(s, t) && is_ascii_text(t) ==> text::contains(r, uncapitalized_text(t))
    &&& is_ascii_text(s) ==> r == uncapitalized_text(s)
}

/// `str::to_lowercase`.
///
/// Trusted: the result depends on the text alone and is named `lowercase`. ASCII
/// capitals become the small letters that `to_ascii_lowercase` gives, other ASCII
/// characters stay, each at its place among the others, and no character has a
/// lowercase mapping with an ASCII capital in it. What becomes of characters
/// outside ASCII is left to the name.
#[verifier::external_body]
pub(crate) fn to_lowercase(s: &str) -> (r: String)
    ensures
        r@ == lowercase(s@),
        is_lowered(s@, r@),
{
    s.to_lowercase()
}

// ---------------------------------------------------------------------------
// rmp_serde
// ---------------------------------------------------------------------------

/// The strings of the MessagePack array that `data` begins with, if it begins
/// with an array of strings.
pub uninterp spec fn packed_strings(data: Seq<u8>) -> Option<Seq<Seq<char>>>;

/// `Vec::<String>::deserialize` of a `rmp_serde::Deserializer` on `data`.
///
/// Trusted: whether it succeeds and what strings it gives depends on the bytes
/// alone and is named `packed_strings`.
#[verifier::external_body]
pub(crate) fn unpack_strings(data: &Vec<u8>) -> (r: Option<Vec<String>>)
    ensures
        r is Some == packed_strings(data@) is Some,
        r matches Some(list) ==> packed_strings(data@) == Some(text::views(list@)),
{
    let mut reader = rmp_serde::Deserializer::new(data.as_slice());
    <Vec<String> as serde::Deserialize>::deserialize(&mut reader).ok()
}

// ---------------------------------------------------------------------------
// serde_json
// ---------------------------------------------------------------------------

/// One value of a record.
#[derive(Debug, PartialEq, Eq)]
pub enum Field<T> {
    Number(i64),
    Text(T),
}

impl View for Field<String> {
    type V = Field<Seq<char>>;

    open spec fn view(&self) -> Field<Seq<char>> {
        match self {
            Field::Number(n) => Field::Number(*n),
            Field::Text(s) => Field::Text(s@),
        }
    }
}

/// One record: its keys and their values.
pub open spec fn record_view(record: Seq<(String, Field<String>)>) -> Seq<
    (Seq<char>, Field<Seq<char>>),
> {
    Seq::new(record.len(), |i: int| (record[i].0@, record[i].1@))
}

/// A list of records.
pub open spec fn records_view(records: Seq<Vec<(String, Field<String>)>>) -> Seq<
    Seq<(Seq<char>, Field<Seq<char>>)>,
> {
    Seq::new(records.len(), |i: int| record_view(records[i]@))
}

/// The records as an indented JSON array of objects.
pub uninterp spec fn pretty_json(
    records: Seq<Seq<(Seq<char>, Field<Seq<char>>)>>,
) -> Seq<char>;

/// `serde_json::to_string_pretty` of an array of objects.
///
/// Trusted: it does not fail on values of this shape, and the text depends on
/// the records alone and is named `pretty_json`.
#[verifier::external_body]
pub(crate) fn to_string_pretty(records: &Vec<Vec<(String, Field<String>)>>) -> (r: String)
    ensures
        r@ == pretty_json(records_view(records@)),
{
    let value = |field: &Field<String>| match field {
        Field::Number(n) => serde_json::Value::from(*n),
        Field::Text(s) => serde_json::Value::from(s.as_str()),
    };
    let objects: Vec<serde_json::Map<String, serde_json::Value>> = records.iter().map(
        |record| record.iter().map(|(key, field)| (key.clone(), value(field))).collect(),
    ).collect();
    serde_json::to_string_pretty(&objects).unwrap()
}

// ---------------------------------------------------------------------------
// Laws
// ---------------------------------------------------------------------------

/// Whether two characters match: as they are, or without regard to the case of
/// ASCII letters.
pub open spec fn same_letter(a: char, b: char, exact: bool) -> bool {
    a == b || !exact && (a as u32 == b as u32 + 32 && 'A' <= b <= 'Z' || b as u32 == a as u32 + 32
        && 'A' <= a <= 'Z')
}

/// Whether `at` gives the place in `choice` of each character of `pattern`, one
/// behind the other.
pub open spec fn placed(choice: Seq<char>, pattern: Seq<char>, exact: bool, at: Seq<int>) -> bool {
    &&& at.len() == pattern.len()
    &&& forall|i: int|
        0 <= i < at.len() ==> 0 <= #[trigger] at[i] < choice.len() && same_letter(
            choice[at[i]],
            pattern[i],
            exact,
        )
    &&& forall|i: int, j: int| 0 <= i < j < at.len() ==> at[i] < at[j]
}

proof fn lemma_same_letter(a: char, b: char)
    ensures
        uncapitalized(a) == uncapitalized(b) <==> same_letter(a, b, false),
{
    if is_capital(a) {
        assert(uncapitalized(a) as u32 == a as u32 + 32);
    }
    if is_capital(b) {
        assert(uncapitalized(b) as u32 == b as u32 + 32);
    }
}

/// A pattern stands in a text where each of its characters has a place there,
/// one behind the other.
pub proof fn law_placed_stands(choice: Seq<char>, pattern: Seq<char>, exact: bool, at: Seq<int>)
    requires
        placed(choice, pattern, exact, at),
    ensures
        stands_in(choice, pattern, exact),
    decreases choice.len(),
{
    if pattern.len() > 0 {
        assert(0 <= at[0] < choice.len());
        lemma_same_letter(choice[0], pattern[0]);
        let rest = choice.drop_first();
        let same = same_letter(choice[0], pattern[0], exact);
        if same {
            let tail = pattern.drop_first();
            let next = Seq::new(tail.len(), |i: int| at[i + 1] - 1);
            assert forall|i: int| 0 <= i < next.len() implies 0 <= #[trigger] next[i] < rest.len()
                && same_letter(rest[next[i]], tail[i], exact) by {
                assert(at[0] < at[i + 1] < choice.len());
                assert(same_letter(choice[at[i + 1]], pattern[i + 1], exact));
            }
            law_placed_stands(rest, tail, exact, next);
        } else {
            let next = Seq::new(pattern.len(), |i: int| at[i] - 1);
            assert forall|i: int| 0 <= i < next.len() implies 0 <= #[trigger] next[i] < rest.len()
                && same_letter(rest[next[i]], pattern[i], exact) by {
                assert(same_letter(choice[at[i]], pattern[i], exact));
                if i > 0 {
                    assert(at[0] < at[i]);
                }
            }
            law_placed_stands(rest, pattern, exact, next);
        }
    }
}

/// A pattern that stands in a text has a place there for each of its characters,
/// one behind the other. The law gives them.
pub proof fn law_stands_placed(choice: Seq<char>, pattern: Seq<char>, exact: bool) -> (at: Seq<int>)
    requires
        stands_in(choice, pattern, exact),
    ensures
        placed(choice, pattern, exact, at),
    decreases choice.len(),
{
    if pattern.len() == 0 {
        Seq::empty()
    } else {
        lemma_same_letter(choice[0], pattern[0]);
        let rest = choice.drop_first();
        if same_letter(choice[0], pattern[0], exact) {
            let next = law_stands_placed(rest, pattern.drop_first(), exact);
            let at = Seq::new(
                pattern.len(),
                |i: int|
                    if i == 0 {
                        0
                    } else {
                        next[i - 1] + 1
                    },
            );
            assert forall|i: int| 0 <= i < at.len() implies 0 <= #[trigger] at[i] < choice.len()
                && same_letter(choice[at[i]], pattern[i], exact) by {
                if i > 0 {
                    assert(0 <= next[i - 1] < rest.len());
                    assert(rest[next[i - 1]] == choice[at[i]]);
                    assert(pattern.drop_first()[i - 1] == pattern[i]);
                }
            }
            assert forall|i: int, j: int| 0 <= i < j < at.len() implies at[i] < at[j] by {
                assert(0 <= next[j - 1]);
                if i > 0 {
                    assert(next[i - 1] < next[j - 1]);
                }
            }
            at
        } else {
            let next = law_stands_placed(rest, pattern, exact);
            let at = Seq::new(pattern.len(), |i: int| next[i] + 1);
            assert forall|i: int| 0 <= i < at.len() implies 0 <= #[trigger] at[i] < choice.len()
                && same_letter(choice[at[i]], pattern[i], exact) by {
                assert(0 <= next[i] < rest.len());
                assert(rest[next[i]] == choice[at[i]]);
            }
            at
        }
    }
}

/// Case counts exactly where the pattern holds an ASCII capital.
pub proof fn law_smart_case(choice: Seq<char>, pattern: Seq<char>)
    ensures
        (exists|i: int| 0 <= i < pattern.len() && 'A' <= #[trigger] pattern[i] <= 'Z')
            ==> is_match(choice, pattern) == stands_in(choice, pattern, true),
        !(exists|i: int| 0 <= i < pattern.len() && 'A' <= #[trigger] pattern[i] <= 'Z')
            ==> is_match(choice, pattern) == stands_in(choice, pattern, false),
{
    if exists|i: int| 0 <= i < pattern.len() && 'A' <= #[trigger] pattern[i] <= 'Z' {
        let i = choose|i: int| 0 <= i < pattern.len() && 'A' <= #[trigger] pattern[i] <= 'Z';
        assert(is_capital(pattern[i]));
    }
}

/// The matcher works on every path and every query that a file system takes, and
/// on whatever is shorter than what it works on.
pub proof fn law_matchable(choice: nat, pattern: nat, shorter: nat, fewer: nat)
    requires
        shorter <= choice,
        fewer <= pattern,
    ensures
        choice <= 4096 && pattern <= 4096 ==> matchable(choice, pattern),
        matchable(choice, pattern) ==> matchable(shorter, fewer),
{
    if choice <= 4096 && pattern <= 4096 {
        assert((choice + 1) * (pattern + 1) <= 4097 * 4097) by (nonlinear_arith)
            requires
                0 <= choice <= 4096,
                0 <= pattern <= 4096,
        ;
    }
    assert((shorter + 1) * (fewer + 1) <= (choice + 1) * (pattern + 1)) by (nonlinear_arith)
        requires
            0 <= shorter <= choice,
            0 <= fewer <= pattern,
    ;
}

} // verus!
