//! Regular expressions.

use vstd::prelude::*;

use crate::text;

verus! {

/// Whether `pattern` is a regular expression that the `regex` crate compiles.
pub uninterp spec fn regex_compiles(pattern: Seq<char>) -> bool;

/// Whether the regular expression `pattern` matches somewhere in `text`.
pub uninterp spec fn regex_matches(pattern: Seq<char>, text: Seq<char>) -> bool;

/// Whether `pattern` is a plain word, of ASCII letters and digits alone.
pub open spec fn is_literal(pattern: Seq<char>) -> bool {
    pattern.len() > 0 && forall|i: int|
        0 <= i < pattern.len() ==> is_alphanumeric(#[trigger] pattern[i])
}

/// Whether `c` is an ASCII letter or digit.
pub open spec fn is_alphanumeric(c: char) -> bool {
    'a' <= c <= 'z' || 'A' <= c <= 'Z' || '0' <= c <= '9'
}

/// `Regex::new`, and `Regex::is_match` of the expression it returns.
///
/// Trusted: whether `pattern` compiles depends on it alone and is named
/// `regex_compiles`. The test that comes back can be put to any text, and its
/// answer depends on the pattern and the text alone and is named
/// `regex_matches`. An expression of ASCII letters and digits alone has no
/// operator in it: each character stands for itself, and it matches exactly the
/// texts that hold it. That such an expression compiles is not claimed, as the
/// crate limits the size of a compiled one.
#[verifier::external_body]
pub(crate) fn compile_regex(pattern: &str) -> (r: Option<impl Fn(&str) -> bool>)
    ensures
        r is Some == regex_compiles(pattern@),
        r matches Some(test) ==> forall|text: &str| #[trigger] test.requires((text,)),
        r matches Some(test) ==> forall|text: &str, hit: bool| #[trigger]
            test.ensures((text,), hit) ==> hit == regex_matches(pattern@, text@),
        r matches Some(test) ==> forall|text: &str, hit: bool| #[trigger]
            test.ensures((text,), hit) ==> (is_literal(pattern@) ==> hit == text::contains(
                text@,
                pattern@,
            )),
{
    regex::Regex::new(pattern).ok().map(|re| move |text: &str| re.is_match(text))
}

/// Whether `pattern` is a valid regular expression that matches somewhere in
/// `text`.
pub open spec fn regex_hits(pattern: Seq<char>, text: Seq<char>) -> bool {
    regex_compiles(pattern) && regex_matches(pattern, text)
}

/// Puts a regular expression to both texts of each pair; one that does not
/// compile matches none.
pub fn find_hits(pattern: &str, texts: &Vec<(&str, &str)>) -> (r: Vec<(bool, bool)>)
    ensures
        r@.len() == texts@.len(),
        forall|i: int|
            0 <= i < r@.len() ==> #[trigger] r@[i] == (
                regex_hits(pattern@, texts@[i].0@),
                regex_hits(pattern@, texts@[i].1@),
            ),
        forall|i: int|
            0 <= i < r@.len() && is_literal(pattern@) ==> (((#[trigger] r@[i]).0
                ==> text::contains(texts@[i].0@, pattern@)) && (r@[i].1 ==> text::contains(
                texts@[i].1@,
                pattern@,
            ))),
        forall|i: int|
            0 <= i < r@.len() && is_literal(pattern@) && regex_compiles(pattern@) ==> (
            #[trigger] r@[i]) == (
                text::contains(texts@[i].0@, pattern@),
                text::contains(texts@[i].1@, pattern@),
            ),
        !regex_compiles(pattern@) ==> forall|i: int|
            0 <= i < r@.len() ==> #[trigger] r@[i] == (false, false),
{
    let mut r: Vec<(bool, bool)> = Vec::new();
    match compile_regex(pattern) {
        Some(test) => {
            for i in 0..texts.len()
                invariant
                    regex_compiles(pattern@),
                    forall|text: &str| #[trigger] test.requires((text,)),
                    forall|text: &str, hit: bool| #[trigger]
                        test.ensures((text,), hit) ==> hit == regex_matches(pattern@, text@),
                    forall|text: &str, hit: bool| #[trigger]
                        test.ensures((text,), hit) ==> (is_literal(pattern@) ==> hit
                            == text::contains(text@, pattern@)),
                    r@.len() == i,
                    forall|j: int|
                        0 <= j < i ==> #[trigger] r@[j] == (
                            regex_hits(pattern@, texts@[j].0@),
                            regex_hits(pattern@, texts@[j].1@),
                        ),
                    forall|j: int|
                        0 <= j < i && is_literal(pattern@) ==> (((#[trigger] r@[j]).0
                            ==> text::contains(texts@[j].0@, pattern@)) && (r@[j].1
                            ==> text::contains(texts@[j].1@, pattern@))),
                    forall|j: int|
                        0 <= j < i && is_literal(pattern@) ==> (#[trigger] r@[j]) == (
                            text::contains(texts@[j].0@, pattern@),
                            text::contains(texts@[j].1@, pattern@),
                        ),
            {
                let first: bool = test(texts[i].0);
                let second: bool = test(texts[i].1);
                r.push((first, second));
            }
        },
        None => {
            for i in 0..texts.len()
                invariant
                    !regex_compiles(pattern@),
                    r@.len() == i,
                    forall|j: int| 0 <= j < i ==> #[trigger] r@[j] == (false, false),
                    forall|j: int|
                        0 <= j < i ==> #[trigger] r@[j] == (
                            regex_hits(pattern@, texts@[j].0@),
                            regex_hits(pattern@, texts@[j].1@),
                        ),
            {
                r.push((false, false));
            }
        },
    }
    r
}

} // verus!
