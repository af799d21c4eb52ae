//! Lists of command-line arguments.

use vstd::prelude::*;

use crate::render;
use crate::text;

verus! {

/// Whether argument `i` is there and is `word`.
pub open spec fn is_at(list: Seq<Seq<char>>, i: int, word: Seq<char>) -> bool {
    0 <= i < list.len() && list[i] == word
}

/// The list without the occurrences of `word`.
pub open spec fn without(list: Seq<Seq<char>>, word: Seq<char>) -> Seq<Seq<char>>
    decreases list.len(),
{
    if list.len() == 0 {
        Seq::empty()
    } else if list.last() == word {
        without(list.drop_last(), word)
    } else {
        without(list.drop_last(), word).push(list.last())
    }
}

/// The argument behind the first `flag`.
pub open spec fn value_of(list: Seq<Seq<char>>, flag: Seq<char>) -> Option<Seq<char>>
    decreases list.len(),
{
    if list.len() < 2 {
        None
    } else if list[0] == flag {
        Some(list[1])
    } else {
        value_of(list.drop_first(), flag)
    }
}

/// The list without the occurrences of `flag` and the argument behind each.
pub open spec fn without_value(list: Seq<Seq<char>>, flag: Seq<char>) -> Seq<Seq<char>>
    decreases list.len(),
{
    if list.len() == 0 {
        Seq::empty()
    } else if list[0] == flag {
        if list.len() == 1 {
            Seq::empty()
        } else {
            without_value(list.skip(2), flag)
        }
    } else {
        seq![list[0]] + without_value(list.drop_first(), flag)
    }
}

/// Argument `i`.
pub open spec fn get(list: Seq<Seq<char>>, i: int) -> Option<Seq<char>> {
    if 0 <= i < list.len() {
        Some(list[i])
    } else {
        None
    }
}

/// The number that an argument is, or `default`.
pub open spec fn count_or(arg: Option<Seq<char>>, default: usize) -> usize {
    match arg {
        Some(s) => match render::count_value(s) {
            Some(n) => n,
            None => default,
        },
        None => default,
    }
}

/// Whether argument `i` is there and is `word`.
pub fn arg_is(list: &Vec<String>, i: usize, word: &str) -> (r: bool)
    ensures
        r == is_at(text::views(list@), i as int, word@),
{
    i < list.len() && text::same_text(list[i].as_str(), word)
}

/// Argument `i`.
pub fn arg_at(list: &Vec<String>, i: usize) -> (r: Option<String>)
    ensures
        text::maybe(r) == get(text::views(list@), i as int),
{
    if i < list.len() {
        Some(list[i].clone())
    } else {
        None
    }
}

/// The arguments from number `from` on.
pub fn args_from(list: &Vec<String>, from: usize) -> (r: Vec<String>)
    requires
        from <= list@.len(),
    ensures
        text::views(r@) == text::views(list@).skip(from as int),
{
    let mut r: Vec<String> = Vec::new();
    for i in from..list.len()
        invariant
            from <= list@.len(),
            text::views(r@) == text::views(list@).subrange(from as int, i as int),
    {
        let ghost before = r@;
        r.push(list[i].clone());
        proof {
            text::lemma_views_push(before, r@.last());
            assert(text::views(list@).subrange(from as int, i + 1) =~= text::views(list@).subrange(
                from as int,
                i as int,
            ).push(text::views(list@)[i as int]));
        }
    }
    assert(text::views(list@).subrange(from as int, list@.len() as int) =~= text::views(
        list@,
    ).skip(from as int));
    r
}

/// The list without the occurrences of `word`.
pub fn args_without(list: &Vec<String>, word: &str) -> (r: Vec<String>)
    ensures
        text::views(r@) == without(text::views(list@), word@),
{
    let ghost all = text::views(list@);
    let mut r: Vec<String> = Vec::new();
    assert(text::views(r@) =~= without(all.take(0), word@));
    for i in 0..list.len()
        invariant
            all == text::views(list@),
            text::views(r@) == without(all.take(i as int), word@),
    {
        let ghost before = r@;
        proof {
            assert(all.take(i + 1).drop_last() =~= all.take(i as int));
            assert(all.take(i + 1).last() == list@[i as int]@);
        }
        if !text::same_text(list[i].as_str(), word) {
            r.push(list[i].clone());
            proof {
                text::lemma_views_push(before, r@.last());
            }
        }
    }
    assert(all.take(list@.len() as int) =~= all);
    r
}

/// The argument behind the first `flag`.
pub fn value_after(list: &Vec<String>, flag: &str) -> (r: Option<String>)
    ensures
        text::maybe(r) == value_of(text::views(list@), flag@),
{
    let ghost all = text::views(list@);
    let mut i: usize = 0;
    let n: usize = list.len();
    assert(all.skip(0) =~= all);
    while i < n && i < n - 1
        invariant
            n == list@.len(),
            i <= n,
            all == text::views(list@),
            value_of(all, flag@) == value_of(all.skip(i as int), flag@),
        decreases n - i,
    {
        proof {
            assert(all.skip(i as int)[0] == list@[i as int]@);
            assert(all.skip(i as int)[1] == list@[i + 1]@);
            assert(all.skip(i as int).drop_first() =~= all.skip(i + 1));
        }
        if text::same_text(list[i].as_str(), flag) {
            return Some(list[i + 1].clone());
        }
        i += 1;
    }
    None
}

/// The list without the occurrences of `flag` and the argument behind each.
pub fn args_without_value(list: &Vec<String>, flag: &str) -> (r: Vec<String>)
    ensures
        text::views(r@) == without_value(text::views(list@), flag@),
{
    let ghost all = text::views(list@);
    let mut r: Vec<String> = Vec::new();
    let mut i: usize = 0;
    let n: usize = list.len();
    assert(all.skip(0) =~= all);
    assert(text::views(r@) + without_value(all, flag@) =~= without_value(all, flag@));
    while i < n
        invariant
            n == list@.len(),
            i <= n,
            all == text::views(list@),
            text::views(r@) + without_value(all.skip(i as int), flag@) == without_value(all, flag@),
        decreases n - i,
    {
        let ghost before = r@;
        let ghost rest = all.skip(i as int);
        proof {
            assert(rest[0] == list@[i as int]@);
            assert(rest.drop_first() =~= all.skip(i + 1));
        }
        if text::same_text(list[i].as_str(), flag) {
            if i == n - 1 {
                assert(without_value(rest, flag@) =~= Seq::empty());
                assert(text::views(r@) + Seq::<Seq<char>>::empty() =~= text::views(r@));
                return r;
            }
            assert(rest.skip(2) =~= all.skip(i + 2));
            i += 2;
        } else {
            r.push(list[i].clone());
            proof {
                text::lemma_views_push(before, r@.last());
                assert(text::views(before) + (seq![rest[0]] + without_value(
                    all.skip(i + 1),
                    flag@,
                )) =~= text::views(r@) + without_value(all.skip(i + 1), flag@));
            }
            i += 1;
        }
    }
    assert(without_value(all.skip(n as int), flag@) =~= Seq::empty());
    assert(text::views(r@) + Seq::<Seq<char>>::empty() =~= text::views(r@));
    r
}

/// The number that an argument is, or `default`.
pub fn count_arg(arg: &Option<String>, default: usize) -> (r: usize)
    ensures
        r == count_or(text::maybe(*arg), default),
{
    match arg {
        Some(s) => match render::parse_count(s.as_str()) {
            Some(n) => n,
            None => default,
        },
        None => default,
    }
}

// ---------------------------------------------------------------------------
// Laws
// ---------------------------------------------------------------------------

/// A single word is dropped or kept.
pub proof fn lemma_without_one(one: Seq<char>, word: Seq<char>)
    ensures
        without(seq![one], word) == if one == word {
            Seq::empty()
        } else {
            seq![one]
        },
{
    reveal_with_fuel(without, 2);
    assert(seq![one].drop_last() =~= Seq::empty());
    assert(Seq::<Seq<char>>::empty().push(one) =~= seq![one]);
}

/// What is dropped from two lists in a row is dropped from each.
pub proof fn law_without_adds(a: Seq<Seq<char>>, b: Seq<Seq<char>>, word: Seq<char>)
    ensures
        without(a + b, word) == without(a, word) + without(b, word),
    decreases b.len(),
{
    if b.len() == 0 {
        assert(a + b =~= a);
        assert(without(a, word) + without(b, word) =~= without(a, word));
    } else {
        law_without_adds(a, b.drop_last(), word);
        assert((a + b).drop_last() =~= a + b.drop_last());
        assert((a + b).last() == b.last());
        assert(without(a + b, word) =~= without(a, word) + without(b, word));
    }
}

/// A word that is dropped may stand anywhere.
pub proof fn law_dropped_anywhere(a: Seq<Seq<char>>, b: Seq<Seq<char>>, word: Seq<char>)
    ensures
        without(a + seq![word] + b, word) == without(a + b, word),
{
    law_without_adds(a + seq![word], b, word);
    law_without_adds(a, seq![word], word);
    law_without_adds(a, b, word);
    lemma_without_one(word, word);
    assert(without(a, word) + without(seq![word], word) =~= without(a, word));
}

/// Nothing is left of a word that is dropped, and everything of the others.
pub proof fn law_only_word_dropped(list: Seq<Seq<char>>, word: Seq<char>, other: Seq<char>)
    ensures
        without(list, word).contains(other) <==> list.contains(other) && other != word,
    decreases list.len(),
{
    if list.len() > 0 {
        let init = list.drop_last();
        law_only_word_dropped(init, word, other);
        let r = without(list, word);
        if list.contains(other) && other != word {
            let k = choose|k: int| 0 <= k < list.len() && list[k] == other;
            if k == list.len() - 1 {
                assert(r.last() == other);
            } else {
                assert(init[k] == other);
                assert(init.contains(other));
                let j = choose|j: int|
                    0 <= j < without(init, word).len() && without(init, word)[j] == other;
                assert(r[j] == other);
            }
        }
        if r.contains(other) {
            let k = choose|k: int| 0 <= k < r.len() && r[k] == other;
            if k < without(init, word).len() {
                assert(without(init, word)[k] == other);
                assert(without(init, word).contains(other));
                let j = choose|j: int| 0 <= j < init.len() && init[j] == other;
                assert(list[j] == other);
            } else {
                assert(list[list.len() - 1] == other);
            }
        }
    }
}

/// A flag that a list ends with, and its value, are found and leave the rest of
/// the list as it is.
pub proof fn law_flag_at_end(list: Seq<Seq<char>>, flag: Seq<char>, value: Seq<char>)
    requires
        !list.contains(flag),
    ensures
        value_of(list + seq![flag, value], flag) == Some(value),
        without_value(list + seq![flag, value], flag) == list,
    decreases list.len(),
{
    let all = list + seq![flag, value];
    if list.len() == 0 {
        assert(all =~= seq![flag, value]);
        assert(all.skip(2) =~= Seq::empty());
        reveal_with_fuel(without_value, 2);
        assert(without_value(all, flag) =~= list);
    } else {
        assert(list.contains(list[0]));
        assert forall|w: Seq<char>| list.drop_first().contains(w) implies list.contains(w) by {
            let k = choose|k: int| 0 <= k < list.drop_first().len() && list.drop_first()[k] == w;
            assert(list[k + 1] == w);
        }
        law_flag_at_end(list.drop_first(), flag, value);
        assert(all.drop_first() =~= list.drop_first() + seq![flag, value]);
        assert(seq![list[0]] + list.drop_first() =~= list);
    }
}

/// A list without a flag has no value of it and stays as it is.
pub proof fn law_flag_absent(list: Seq<Seq<char>>, flag: Seq<char>)
    requires
        !list.contains(flag),
    ensures
        value_of(list, flag) is None,
        without_value(list, flag) == list,
        without(list, flag) == list,
    decreases list.len(),
{
    if list.len() > 0 {
        assert(list.contains(list[0]));
        assert(list.contains(list[list.len() - 1]));
        let rest = list.drop_first();
        assert forall|w: Seq<char>| rest.contains(w) implies list.contains(w) by {
            let k = choose|k: int| 0 <= k < rest.len() && rest[k] == w;
            assert(list[k + 1] == w);
        }
        law_flag_absent(rest, flag);
        assert(seq![list[0]] + rest =~= list);
        assert(list =~= seq![list[0]] + rest);
        law_without_adds(seq![list[0]], rest, flag);
        lemma_without_one(list[0], flag);
    }
}

/// The first flag counts, wherever it stands: what follows it is its value, and
/// both are dropped.
pub proof fn law_flag_anywhere(
    a: Seq<Seq<char>>,
    flag: Seq<char>,
    value: Seq<char>,
    b: Seq<Seq<char>>,
)
    requires
        !a.contains(flag),
    ensures
        value_of(a + seq![flag, value] + b, flag) == Some(value),
        without_value(a + seq![flag, value] + b, flag) == a + without_value(b, flag),
        without_value(a + seq![flag], flag) == a,
    decreases a.len(),
{
    let all = a + seq![flag, value] + b;
    let lone = a + seq![flag];
    if a.len() == 0 {
        assert(all[0] == flag && all[1] == value);
        assert(all.skip(2) =~= b);
        assert(without_value(all, flag) =~= a + without_value(b, flag));
        assert(lone =~= seq![flag]);
        assert(without_value(lone, flag) =~= a);
    } else {
        assert(a.contains(a[0]));
        let rest = a.drop_first();
        assert forall|w: Seq<char>| rest.contains(w) implies a.contains(w) by {
            let k = choose|k: int| 0 <= k < rest.len() && rest[k] == w;
            assert(a[k + 1] == w);
        }
        law_flag_anywhere(rest, flag, value, b);
        assert(all[0] == a[0]);
        assert(all.drop_first() =~= rest + seq![flag, value] + b);
        assert(seq![a[0]] + (rest + without_value(b, flag)) =~= a + without_value(b, flag));
        assert(lone[0] == a[0]);
        assert(lone.drop_first() =~= rest + seq![flag]);
        assert(seq![a[0]] + rest =~= a);
    }
}

/// A number that is asked for is that number, and what is none, or not there, is
/// the default.
pub proof fn law_counts(n: usize, default: usize, word: Seq<char>)
    ensures
        count_or(Some(render::decimal(n as int)), default) == n,
        count_or(None, default) == default,
        render::count_value(word) is None ==> count_or(Some(word), default) == default,
{
    render::law_count_read_back(n);
}

} // verus!
