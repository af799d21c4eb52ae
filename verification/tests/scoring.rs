use hop::outside::can_match;
use hop::rank::{dedup_paths, live_candidates, score_candidates, sort_by_score, Bookmark};
use hop::score::{
    base_name, basename_lower, classify_query, combine_matches, path_matches, score_alias,
    score_history_batch, HistoryRow, Scored, Scorer, Source, DAY,
};

const SECOND: i64 = 1_000_000_000;

fn scorer() -> Scorer {
    Scorer::new(1_000_000 * SECOND, None)
}

fn nanos(seconds: f64) -> i64 {
    (seconds * 1e9) as i64
}

fn row(path: &str, visits: i32, age_days: f64, git: bool) -> HistoryRow {
    HistoryRow {
        path: path.into(),
        visits,
        last_visited: nanos(1_000_000.0 - age_days * 86_400.0),
        is_git_repo: git,
    }
}

fn candidate(path: &str, score: i64) -> Scored {
    Scored {
        path: path.into(),
        score,
        fuzzy: 0,
        visits: 0,
        recency: 0,
        git: 0,
        basename: 0,
        shortness: 0,
        session: 0,
        source: Source::History,
        matched_indices: vec![],
    }
}

fn paths(list: &[Scored]) -> Vec<&str> {
    list.iter().map(|c| c.path.as_str()).collect()
}

#[test]
fn basename_match_outranks_substring_in_middle() {
    let s = Scorer::new(1_000_000 * SECOND, None);
    let a = s
        .score_history(&row("/a/project", 1, 0.0, true), "project", None, None)
        .unwrap();
    let b = s
        .score_history(
            &row("/projectile/x/y", 1, 0.0, false),
            "project",
            None,
            None,
        )
        .unwrap();
    assert!(
        a.score > b.score,
        "basename hit should beat deep non-basename"
    );
}

#[test]
fn recent_outranks_old_same_visits() {
    let s = Scorer::new(1_000_000 * SECOND, None);
    let a = s
        .score_history(&row("/a/proj", 1, 0.0, false), "proj", None, None)
        .unwrap();
    let b = s
        .score_history(&row("/b/proj", 1, 45.0, false), "proj", None, None)
        .unwrap();
    assert!(a.score > b.score);
}

#[test]
fn session_visit_gets_bonus() {
    // Session started 6h ago: a dir visited inside the session beats an
    // otherwise-identical dir visited before it, by exactly the bonus.
    let mut s = Scorer::new(1_000_000 * SECOND, None);
    s.session_start = Some(nanos(1_000_000.0 - 0.25 * 86_400.0));
    // 21.6h ago (before session) vs 4.8h ago (inside session); both in the
    // same recency bucket so only the session component differs.
    let before = s
        .score_history(&row("/a/proj", 5, 0.9, false), "proj", None, None)
        .unwrap();
    let during = s
        .score_history(&row("/b/proj", 5, 0.2, false), "proj", None, None)
        .unwrap();
    assert_eq!(before.session, 0);
    assert_eq!(during.session, 30);
    assert_eq!(during.score, before.score + 30);
}

#[test]
fn bookmark_outranks_history_for_same_query() {
    let s = Scorer::new(1_000_000 * SECOND, None);
    let bm = s.score_bookmark("proj", "/any/path", "proj").unwrap();
    let hist = s
        .score_history(&row("/x/proj", 1, 0.0, false), "proj", None, None)
        .unwrap();
    assert!(bm.score > hist.score);
}

#[test]
fn no_match_returns_none() {
    let s = Scorer::new(1_000_000 * SECOND, None);
    assert!(s
        .score_history(&row("/a/b", 1, 0.0, false), "zzzzzz", None, None)
        .is_none());
}

#[test]
fn classify_query_single_slash_is_literal() {
    let (effective, is_regex, is_negation) = classify_query("/");
    assert_eq!(effective, "/");
    assert!(!is_regex, "single / must not be a regex");
    assert!(!is_negation, "single / must not be a negation");
}

#[test]
fn classify_query_single_bang_is_literal() {
    let (effective, is_regex, is_negation) = classify_query("!");
    assert_eq!(effective, "!");
    assert!(!is_regex);
    assert!(!is_negation, "single ! must not be a negation");
}

#[test]
fn classify_query_double_slash_is_literal() {
    let (effective, is_regex, is_negation) = classify_query("//");
    assert_eq!(effective, "//");
    assert!(!is_regex, "empty pattern after strip must not be a regex");
    assert!(
        !is_negation,
        "empty pattern after strip must not be a negation"
    );
}

#[test]
fn classify_query_trailing_slash_stripped() {
    let (effective, is_regex, is_negation) = classify_query("/src/test/");
    assert_eq!(effective, "src/test");
    assert!(is_regex);
    assert!(!is_negation);
}

#[test]
fn classify_query_negation_basic() {
    let (effective, is_regex, is_negation) = classify_query("!node_modules");
    assert_eq!(effective, "node_modules");
    assert!(!is_regex);
    assert!(is_negation);
}

#[test]
fn classify_query_plain_query() {
    let (effective, is_regex, is_negation) = classify_query("work");
    assert_eq!(effective, "work");
    assert!(!is_regex);
    assert!(!is_negation);
}

#[test]
fn classify_query_empty_is_literal() {
    let (effective, is_regex, is_negation) = classify_query("");
    assert_eq!(effective, "");
    assert!(!is_regex);
    assert!(!is_negation);
}

#[test]
fn classify_query_regex_no_trailing_slash() {
    let (effective, is_regex, is_negation) = classify_query("/src/test.*");
    assert_eq!(effective, "src/test.*");
    assert!(is_regex);
    assert!(!is_negation);
}

#[test]
fn classify_query_negation_only_pattern() {
    // "!!" → after first '!', stripped is "!" which is not empty
    // so negation still applies with effective "!"
    let (effective, is_regex, is_negation) = classify_query("!!");
    assert_eq!(effective, "!");
    assert!(!is_regex);
    assert!(is_negation, "!! should still be negation with effective !");
}

#[test]
fn classify_query_bang_slash_is_literal() {
    assert_eq!(classify_query("!/"), ("!/", false, false));
    assert_eq!(classify_query("/é/"), ("é", true, false));
    assert_eq!(classify_query("!a/"), ("a/", false, true));
}

#[test]
fn multi_token_requires_all_tokens() {
    let s = Scorer::new(1_000_000 * SECOND, None);
    let both = s
        .score_row(
            &row("/home/u/project/rust-app", 1, 0.0, false),
            "rust project",
        )
        .unwrap();
    let one = s.score_row(
        &row("/home/u/project/go-app", 1, 0.0, false),
        "rust project",
    );
    let none = s.score_row(&row("/home/u/other", 1, 0.0, false), "rust project");
    assert!(both.score > 0, "path with both tokens must match");
    assert!(one.is_none(), "missing a token must not match");
    assert!(none.is_none());

    // Single-token queries still match the plain way.
    let single = s.score_row(&row("/home/u/other", 1, 0.0, false), "other");
    assert!(single.is_some());
}

#[test]
fn score_history_batch_returns_all_matching_rows() {
    // Plain queries return every matching row, not just the best.
    let s = Scorer::new(1_000_000 * SECOND, None);
    let rows = vec![
        row("/foo/bar", 5, 0.0, false),
        row("/bar/baz", 10, 0.0, false),
    ];

    // Query "bar" matches both rows.
    let (scored, _) = score_history_batch(&s, &rows, "bar");
    assert_eq!(scored.len(), 2, "no perfect match → all matches returned");

    // Query "xyz" matches nothing.
    let (scored, _) = score_history_batch(&s, &rows, "xyz");
    assert_eq!(scored.len(), 0, "no match → empty result");
}

#[test]
fn score_history_batch_returns_single_match_when_found() {
    // When only ONE row matches the query, we get exactly that one result.
    let s = Scorer::new(1_000_000 * SECOND, None);
    let rows = vec![
        row("/foo/bar", 5, 0.0, false),
        row("/baz/qux", 10, 0.0, false),
    ];

    // "qux" matches only /baz/qux
    let (scored, _) = score_history_batch(&s, &rows, "qux");
    assert_eq!(scored.len(), 1, "only one row matches 'qux'");
    assert!(scored[0].path.contains("qux"));
}

#[test]
fn components_add_up() {
    let s = Scorer::new(1_000_000 * SECOND, Some(999_000 * SECOND));
    let c = s
        .score_history(&row("/a/proj", 9, 0.0, true), "proj", None, None)
        .unwrap();
    assert_eq!(c.visits, 60);
    assert_eq!(c.recency, 45);
    assert_eq!(c.git, 30);
    assert_eq!(c.basename, 40);
    assert_eq!(c.shortness, 25);
    assert_eq!(c.session, 30);
    assert_eq!(
        c.score,
        c.fuzzy + c.visits + c.recency + c.git + c.basename + c.shortness + c.session
    );
    assert!(c.fuzzy > 0);
    assert_eq!(c.matched_indices, vec![3, 4, 5, 6]);
    assert_eq!(c.source, Source::History);
}

#[test]
fn given_fuzzy_score_is_taken_as_it_is() {
    let c = scorer()
        .score_history(&row("/a/b", 4, 0.0, false), "zzz", Some("b"), Some(7))
        .unwrap();
    assert_eq!(c.fuzzy, 7);
    assert!(c.matched_indices.is_empty());
    assert_eq!(c.basename, 40);
    assert_eq!(c.score, 7 + 40 + 45 + 40 + 25);
}

#[test]
fn visit_points_follow_the_square_root() {
    for visits in -3..=200 {
        let c = scorer()
            .score_history(&row("/a", visits, 0.0, false), "", Some("x"), Some(0))
            .unwrap();
        let expected = ((visits as f64).sqrt().min(5.0) * 20.0) as i64;
        assert_eq!(c.visits, expected, "{} visits", visits);
    }
    let most = scorer()
        .score_history(&row("/a", i32::MAX, 0.0, false), "", Some("x"), Some(0))
        .unwrap();
    assert_eq!(most.visits, 100);
}

#[test]
fn shortness_follows_the_depth() {
    for depth in 0..60usize {
        let path = "/x".repeat(depth);
        let c = scorer()
            .score_history(&row(&path, 0, 0.0, false), "", Some("y"), Some(0))
            .unwrap();
        let expected = ((10.0 / (depth.max(1) as f64)).max(1.0) * 5.0) as i64;
        assert_eq!(c.shortness, expected, "depth {}", depth);
    }
}

#[test]
fn recency_falls_at_a_day_a_week_and_a_month() {
    let now = 1_000_000 * SECOND;
    let points = |age: i64| {
        let mut r = row("/a", 0, 0.0, false);
        r.last_visited = now - age;
        scorer()
            .score_history(&r, "", Some("x"), Some(0))
            .unwrap()
            .recency
    };
    assert_eq!(points(-DAY), 45);
    assert_eq!(points(DAY - 1), 45);
    assert_eq!(points(DAY), 30);
    assert_eq!(points(7 * DAY - 1), 30);
    assert_eq!(points(7 * DAY), 15);
    assert_eq!(points(30 * DAY - 1), 15);
    assert_eq!(points(30 * DAY), 7);
}

#[test]
fn better_row_never_scores_less() {
    let s = scorer();
    let better = s
        .score_history(&row("/a/b", 9, 2.0, true), "", Some("x"), Some(10))
        .unwrap();
    let worse = s
        .score_history(&row("/a/b/c", 4, 8.0, false), "", Some("x"), Some(10))
        .unwrap();
    assert!(better.score > worse.score);
}

#[test]
fn base_names_are_those_of_std() {
    for path in [
        "", "/", ".", "..", "a", "a/", "/a", "/a/b", "/a/b/", "/a/b//", "/a/.", "/a/./", "/a/..",
        "/a/../b", "./a", "a/.b", "a/b.", "//", "/.", "a/...", "/a/b/./.", "é/ü", "a/ /",
    ] {
        let expected = std::path::Path::new(path)
            .file_name()
            .map(|n| n.to_string_lossy().into_owned());
        assert_eq!(base_name(path), expected, "{:?}", path);
    }
    assert_eq!(basename_lower("/A/BÉ"), "bé");
    assert_eq!(basename_lower("/"), "");
}

#[test]
fn matching_has_smart_case() {
    let s = scorer();
    assert!(s.score_row(&row("/a/Proj", 1, 0.0, false), "proj").is_some());
    assert!(s.score_row(&row("/a/proj", 1, 0.0, false), "Proj").is_none());
}

#[test]
fn same_texts_score_the_same_again() {
    let s = scorer();
    let first = s.score_row(&row("/a/b/proj", 1, 0.0, false), "proj").unwrap();
    s.score_row(&row("/a/completely/different/long/path", 1, 0.0, false), "path");
    let again = s.score_row(&row("/a/b/proj", 1, 0.0, false), "proj").unwrap();
    assert_eq!(first.score, again.score);
    assert_eq!(first.matched_indices, again.matched_indices);
    // also where letters are doubled, in a batch as alone
    let rows = vec![
        row("/oo/ooo/foo", 1, 0.0, false),
        row("/aoooo/xoo", 1, 0.0, false),
    ];
    let (batch, _) = score_history_batch(&s, &rows, "oo");
    assert_eq!(batch.len(), 2);
    for (scored, r) in batch.iter().zip(rows.iter()) {
        assert_eq!(scored.fuzzy, scorer().score_row(r, "oo").unwrap().fuzzy);
    }
}

#[test]
fn bookmark_scores_three_times_the_match() {
    let c = scorer().score_bookmark("proj", "/any/path", "proj").unwrap();
    assert_eq!(c.score, 3 * c.fuzzy + 100);
    assert_eq!(c.source, Source::Bookmark);
    assert_eq!(c.path, "/any/path");
    assert_eq!(c.visits + c.recency + c.git + c.basename + c.shortness, 0);
    assert!(scorer().score_bookmark("proj", "/p", "pr oj").is_some());
    assert!(scorer().score_bookmark("proj", "/p", "pr zz").is_none());
}

#[test]
fn multi_token_bonus_needs_all_tokens_in_the_name() {
    let s = scorer();
    let both = s
        .score_row(&row("/x/rust-project", 1, 0.0, false), "rust project")
        .unwrap();
    let one = s
        .score_row(&row("/project/rust", 1, 0.0, false), "rust project")
        .unwrap();
    assert_eq!(both.basename, 40);
    assert_eq!(one.basename, 0);
}

#[test]
fn found_matches_are_scored() {
    let s = scorer();
    let r = row("/a/b", 4, 0.0, false);
    let sought = vec!["b".to_string(), "c".to_string()];
    let hit = s
        .score_found(&r, "bc", &sought, Some((11, vec![3])))
        .unwrap();
    assert_eq!((hit.fuzzy, hit.basename), (11, 40));
    assert_eq!(hit.score, 11 + 40 + 45 + 40 + 25);
    assert_eq!(hit.matched_indices, vec![3]);
    let miss = s
        .score_found(&r, "b", &sought, Some((11, vec![3])))
        .unwrap();
    assert_eq!(miss.basename, 0);
    assert!(s.score_found(&r, "bc", &sought, None).is_none());
    let marked = score_alias("/p", Some((11, vec![0]))).unwrap();
    assert_eq!((marked.score, marked.fuzzy), (133, 11));
    assert!(score_alias("/p", None).is_none());
}

#[test]
fn token_matches_add_up() {
    let found = vec![Some((3, vec![1, 2])), Some((-1, vec![0]))];
    assert_eq!(combine_matches(&found), Some((2, vec![1, 2, 0])));
    assert_eq!(combine_matches(&vec![Some((3, vec![1])), None]), None);
    assert_eq!(combine_matches(&vec![]), Some((0, vec![])));
}

#[test]
fn batch_orders_and_scores_as_single_rows() {
    let s = scorer();
    let rows = vec![
        row("/foo/bar", 5, 0.0, false),
        row("/none", 5, 0.0, false),
        row("/bar/baz", 10, 3.0, true),
    ];
    let (scored, filtered) = score_history_batch(&s, &rows, "bar");
    assert!(!filtered);
    assert_eq!(paths(&scored), vec!["/foo/bar", "/bar/baz"]);
    assert_eq!(scored[1].score, s.score_row(&rows[2], "bar").unwrap().score);
    assert_eq!(score_history_batch(&s, &rows, "ba qq").0.len(), 0);
    assert_eq!(
        paths(&score_history_batch(&s, &rows, "ba az").0),
        vec!["/bar/baz"]
    );
}

#[test]
fn regex_query_filters() {
    let s = scorer();
    let rows = vec![
        row("/src/Test12", 1, 0.0, false),
        row("/src/test", 1, 0.0, false),
        row("/src/other", 1, 0.0, false),
    ];
    let (scored, filtered) = score_history_batch(&s, &rows, "/test\\d+$/");
    assert!(filtered);
    assert_eq!(paths(&scored), vec!["/src/Test12"]);
    assert_eq!(scored[0].fuzzy, 0);
    assert_eq!(scored[0].score, 20 + 45 + 25);
    // what is no regular expression is looked for as it stands
    let odd = vec![row("/a/x[y", 1, 0.0, false), row("/a/xy", 1, 0.0, false)];
    assert_eq!(
        paths(&score_history_batch(&s, &odd, "/X[").0),
        vec!["/a/x[y"]
    );
    // so is one that does not match
    let dots = vec![row("/a/^b", 1, 0.0, false)];
    assert_eq!(score_history_batch(&s, &dots, "/^b/").0.len(), 1);
}

#[test]
fn negation_excludes() {
    let s = scorer();
    let rows = vec![
        row("/a/Node_Modules/x", 1, 0.0, false),
        row("/a/src", 1, 0.0, false),
        row("/a/ÄPFEL", 1, 0.0, false),
    ];
    let (scored, filtered) = score_history_batch(&s, &rows, "!node_modules");
    assert!(filtered);
    assert_eq!(paths(&scored), vec!["/a/src", "/a/ÄPFEL"]);
    assert_eq!(
        paths(&score_history_batch(&s, &rows, "!Äpfel").0),
        vec!["/a/Node_Modules/x", "/a/src"]
    );
}

#[test]
fn paths_match_by_expression_or_text() {
    assert!(path_matches("/a/b", true, false, "zzz"));
    assert!(path_matches("/a/b", false, true, "zzz"));
    assert!(path_matches("/a/b", false, false, "a/b"));
    assert!(!path_matches("/a/b", false, false, "c"));
}

#[test]
fn sorting_is_stable() {
    let list = vec![
        candidate("/a", 5),
        candidate("/b", 9),
        candidate("/c", 5),
        candidate("/d", 9),
        candidate("/e", 7),
    ];
    assert_eq!(
        paths(&sort_by_score(list)),
        vec!["/b", "/d", "/e", "/a", "/c"]
    );
    assert!(sort_by_score(vec![]).is_empty());
}

#[test]
fn each_path_is_kept_once() {
    let list = vec![
        candidate("/a", 300),
        candidate("/b", 200),
        candidate("/a", 100),
        candidate("/c", 90),
        candidate("/c", 80),
        candidate("/b", 70),
    ];
    let left = dedup_paths(list);
    assert_eq!(paths(&left), vec!["/a", "/b", "/c"]);
    let scores: Vec<i64> = left.iter().map(|c| c.score).collect();
    assert_eq!(scores, vec![300, 200, 90]);
    assert!(dedup_paths(vec![]).is_empty());
}

#[test]
fn candidates_hold_no_path_twice() {
    let bookmarks = vec![Bookmark {
        alias: "proj".into(),
        path: "/old/proj".into(),
        description: "".into(),
    }];
    let rows = vec![
        row("/old/proj", 1, 90.0, false),
        row("/new/proj", 100, 0.0, true),
    ];
    let s = scorer();
    let marked = s.score_bookmark("proj", "/old/proj", "proj").unwrap();
    let list = score_candidates(&s, &bookmarks, &rows, "proj");
    assert_eq!(paths(&list), vec!["/old/proj", "/new/proj"]);
    assert_eq!(list[0].score, marked.score);
    assert!(s.score_row(&rows[0], "proj").unwrap().score < list[1].score);
}

#[test]
fn rows_are_found_by_fragments() {
    let rows = vec![
        row("/none", 1, 0.0, false),
        row("/home/My Code/ärger", 1, 0.0, false),
    ];
    for query in ["y Co", "My Code", "ome/M", "ärg", "Code/är", "/home/My", ""] {
        let list = score_candidates(&scorer(), &vec![], &rows, query);
        assert!(
            paths(&list).contains(&"/home/My Code/ärger"),
            "{query} does not find it"
        );
    }
}

#[test]
fn expressions_with_capitals_match() {
    let s = scorer();
    let rows = vec![
        row("/x/Foo", 1, 0.0, false),
        row("/x/foo", 1, 0.0, false),
        row("/x/FOO", 1, 0.0, false),
    ];
    assert_eq!(
        paths(&score_history_batch(&s, &rows, "/F.o/").0),
        vec!["/x/Foo"]
    );
    // in lowercase all of them match
    assert_eq!(score_history_batch(&s, &rows, "/f.o/").0.len(), 3);
}

#[test]
fn word_and_its_negation_part_the_rows() {
    let s = scorer();
    let rows = vec![
        row("/x/Foo1", 1, 0.0, false),
        row("/x/bar", 1, 0.0, false),
        row("/x/barfoo1", 1, 0.0, false),
        row("/x/İFOO1", 1, 0.0, false),
        row("/x/foo", 1, 0.0, false),
    ];
    for word in ["foo1", "FOO1", "Foo1"] {
        let (held, is_filter) = score_history_batch(&s, &rows, &format!("/{}", word));
        assert!(is_filter);
        assert_eq!(paths(&held), vec!["/x/Foo1", "/x/barfoo1", "/x/İFOO1"]);
        let (lacked, is_filter) = score_history_batch(&s, &rows, &format!("!{}", word));
        assert!(is_filter);
        assert_eq!(paths(&lacked), vec!["/x/bar", "/x/foo"]);
        assert!(held.iter().chain(lacked.iter()).all(|c| c.fuzzy == 0));
        assert!(held
            .iter()
            .chain(lacked.iter())
            .all(|c| c.matched_indices.is_empty()));
    }
}

#[test]
fn order_of_tokens_is_of_no_account() {
    let s = scorer();
    let r = row("/src/foo/bar-baz", 4, 2.0, true);
    let token = |t: &str| t.to_string();
    let ab = s
        .score_multi_token(&r, &vec![token("bar"), token("foo"), token("az")])
        .unwrap();
    let ba = s
        .score_multi_token(&r, &vec![token("az"), token("bar"), token("foo")])
        .unwrap();
    assert_eq!(ab.score, ba.score);
    assert_eq!(ab.fuzzy, ba.fuzzy);
    assert_eq!(ab.basename, 0);
    let alone = |t: &str| s.score_history(&r, t, None, None).unwrap().fuzzy;
    assert_eq!(ab.fuzzy, alone("bar") + alone("foo") + alone("az"));
    let both = s
        .score_multi_token(&r, &vec![token("BAZ"), token("bar")])
        .is_some();
    assert!(!both);
    let named = s
        .score_multi_token(&r, &vec![token("baz"), token("bar")])
        .unwrap();
    assert_eq!(named.basename, 40);
    assert!(s
        .score_multi_token(&r, &vec![token("bar"), token("qq")])
        .is_none());
}

#[test]
fn scores_reach_the_greatest_number() {
    let s = scorer();
    let r = row("/a", 1, 0.0, false);
    let bonus = 20 + 45 + 50;
    let top = s.score_parts(&r, i64::MAX - bonus, false, vec![1, 2]);
    assert_eq!(top.score, i64::MAX);
    assert_eq!(top.path, "/a");
    assert_eq!(top.matched_indices, vec![1, 2]);
    let found = s
        .score_history(&r, "zz", None, Some(i64::MAX - bonus))
        .unwrap();
    assert_eq!(found.score, i64::MAX);
}

#[test]
fn candidates_come_best_first() {
    let bookmarks = vec![Bookmark {
        alias: "proj".into(),
        path: "/x/marked".into(),
        description: "".into(),
    }];
    let rows = vec![
        row("/old/proj", 1, 90.0, false),
        row("/new/proj", 100, 0.0, true),
        row("/none", 1, 0.0, false),
    ];
    let list = score_candidates(&scorer(), &bookmarks, &rows, "proj");
    assert_eq!(list.len(), 3);
    assert!(list.windows(2).all(|w| w[0].score >= w[1].score));
    assert_eq!(list[2].path, "/old/proj");
    let left = live_candidates(list, &vec![false, true, true]);
    assert_eq!(left.len(), 2);
    assert_eq!(left[1].path, "/old/proj");
}

#[test]
fn matched_lengths_are_limited() {
    assert!(can_match(4096, 255));
    assert!(can_match(0, 0));
    assert!(can_match(0x7fff_0000, 1));
    assert!(!can_match(0x7fff_0001, 1));
    assert!(can_match(1, 0x03ff_ffff));
    assert!(!can_match(1, 0x0400_0000));
}

#[test]
fn letters_match_in_order() {
    let s = scorer();
    let matches = |path: &str, query: &str| s.score_row(&row(path, 1, 0.0, false), query).is_some();
    assert!(matches("/a/project", "pjt"));
    assert!(!matches("/a/project", "tjp"));
    assert!(matches("/a/PROJECT", "pjt"));
    assert!(!matches("/a/project", "pJt"));
    assert!(matches("/a/Ärger", "Är"));
    assert!(!matches("/a/ärger", "Är"));
    assert!(matches("/any/path", ""));
    assert!(matches("/x/fragment/y", "fragment"));
    assert!(!matches("/x", "/x/y"));
    let rows = vec![row("/a", 1, 0.0, false), row("/b", 1, 0.0, false)];
    let (all, _) = score_history_batch(&s, &rows, "");
    assert_eq!(paths(&all), vec!["/a", "/b"]);
    assert_eq!(all[0].fuzzy, 0);
}
