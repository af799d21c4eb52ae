use hop::cli::find_best;
use hop::score::{Scored, Source, MIN_SCORE};
use hop::search::{subdir_match, subdir_prefix, Answer, Ask, DirEntry, Search};

struct Disk {
    dirs: Vec<&'static str>,
    subdir: Option<&'static str>,
    bookmark: Option<(&'static str, &'static str)>,
    candidates: Vec<(&'static str, i64)>,
}

fn candidate(path: &str, score: i64) -> Scored {
    Scored {
        path: path.to_string(),
        score,
        fuzzy: 0,
        visits: 0,
        recency: 0,
        git: 0,
        basename: 0,
        shortness: 0,
        session: 0,
        source: Source::History,
        matched_indices: vec![],
    }
}

/// Runs a search to its end and counts the questions.
fn run(disk: &Disk, query: &str) -> (Option<String>, usize) {
    let mut search = Search::begin(query, MIN_SCORE);
    let mut asked = 0;
    loop {
        let answer = match search.ask() {
            Ask::Subdir(_) => Answer::Path(disk.subdir.map(|s| s.to_string())),
            Ask::Canonical(path) => {
                Answer::Path(path.starts_with('/').then_some(path))
            }
            Ask::IsDir(path) => Answer::Flag(disk.dirs.contains(&path.as_str())),
            Ask::Bookmark(alias) => Answer::Path(match disk.bookmark {
                Some((name, path)) if name == alias => Some(path.to_string()),
                _ => None,
            }),
            Ask::Candidates(_) => Answer::Candidates(
                disk.candidates
                    .iter()
                    .map(|(path, score)| candidate(path, *score))
                    .collect(),
            ),
            Ask::Done(found) => return (found, asked),
        };
        asked += 1;
        search = find_best(search, answer);
    }
}

fn disk() -> Disk {
    Disk {
        dirs: vec!["/lit", "/bm", "/b", "/c"],
        subdir: None,
        bookmark: Some(("xyz", "/bm")),
        candidates: vec![("/gone", 90), ("/b", 50), ("/c", 20), ("/weak", 19)],
    }
}

#[test]
fn best_live_candidate_is_found() {
    assert_eq!(run(&disk(), "q").0, Some("/b".to_string()));
    let mut d = disk();
    d.dirs = vec!["/c"];
    assert_eq!(run(&d, "q").0, Some("/c".to_string()));
}

#[test]
fn weak_or_stale_candidates_are_not_found() {
    let mut d = disk();
    d.dirs = vec!["/weak"];
    assert_eq!(run(&d, "q").0, None);
    d.candidates = vec![];
    assert_eq!(run(&d, "q").0, None);
}

#[test]
fn literal_path_comes_before_bookmark_and_candidates() {
    assert_eq!(run(&disk(), "/lit").0, Some("/lit".to_string()));
    let mut d = disk();
    d.bookmark = Some(("/lit", "/bm"));
    assert_eq!(run(&d, "/lit"), (Some("/lit".to_string()), 2));
    // a path that leads to no directory is looked for as a query
    assert_eq!(run(&disk(), "/file").0, Some("/b".to_string()));
}

#[test]
fn exact_bookmark_comes_before_candidates() {
    assert_eq!(run(&disk(), "xyz"), (Some("/bm".to_string()), 3));
    let mut d = disk();
    d.dirs = vec!["/b"];
    assert_eq!(run(&d, "xyz").0, Some("/b".to_string()));
}

#[test]
fn subdirectory_comes_first() {
    let mut d = disk();
    d.subdir = Some("/cwd/alpha-two");
    assert_eq!(run(&d, "alpha /"), (Some("/cwd/alpha-two".to_string()), 1));
    d.subdir = None;
    assert_eq!(run(&d, "alpha /").0, Some("/b".to_string()));
}

#[test]
fn subdirectory_queries_are_told_apart() {
    assert_eq!(subdir_prefix("alpha /"), Some("alpha".to_string()));
    assert_eq!(subdir_prefix("alpha   / "), Some("alpha".to_string()));
    assert_eq!(subdir_prefix("alpha"), None);
    assert_eq!(subdir_prefix("alpha/"), None);
    assert_eq!(subdir_prefix(" /"), None);
    assert_eq!(subdir_prefix("alpha beta /"), None);
    assert_eq!(subdir_prefix("alpha //"), None);
}

#[test]
fn last_modified_subdirectory_matches() {
    let entry = |name: &str, is_dir, modified| DirEntry {
        name: name.to_string(),
        is_dir,
        modified,
    };
    let entries = vec![
        entry("alpha-one", true, 5),
        entry("alpha-two", true, 9),
        entry("alpha-file", false, 20),
        entry("beta", true, 30),
        entry("alpha-three", true, 9),
        entry("alpha-old", true, -1),
    ];
    assert_eq!(subdir_match(&entries, "alpha"), Some(4));
    assert_eq!(subdir_match(&entries, "alpha-o"), Some(0));
    assert_eq!(subdir_match(&entries, "zzz"), None);
}
