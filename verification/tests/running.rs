use hop::cli::run;
use hop::export::ExportRow;
use hop::flow::{Action, Description, Event, Place, Run};
use hop::import::{ImportFile, Probe};
use hop::rank::Bookmark;
use hop::report::Reply;
use hop::score::{HistoryRow, Scored, Source};
use hop::stats::Counts;

/// A store in memory, and a record of what was done to it.
struct Fake {
    rows: Vec<HistoryRow>,
    bookmarks: Vec<Bookmark>,
    dirs: Vec<&'static str>,
    found: Option<&'static str>,
    answer: Option<&'static str>,
    broken: Option<&'static str>,
    file: &'static str,
    done: Vec<String>,
}

fn row(path: &str, visits: i32, last_visited: i64) -> HistoryRow {
    HistoryRow {
        path: path.to_string(),
        visits,
        last_visited,
        is_git_repo: false,
    }
}

fn fake() -> Fake {
    Fake {
        rows: vec![row("/a", 3, 20), row("/b", 2, 10)],
        bookmarks: vec![Bookmark {
            alias: "w".to_string(),
            path: "/a".to_string(),
            description: "work".to_string(),
        }],
        dirs: vec!["/a", "/b", "/home/x"],
        found: None,
        answer: None,
        broken: None,
        file: "",
        done: vec![],
    }
}

impl Fake {
    fn is_dir(&self, path: &str) -> bool {
        self.dirs.contains(&path)
    }

    fn or_broken<T>(&self, value: T) -> Result<T, String> {
        match self.broken {
            Some(e) => Err(e.to_string()),
            None => Ok(value),
        }
    }

    fn listed(&self, n: usize) -> Event {
        let rows: Vec<HistoryRow> = self.rows.iter().take(n).cloned().collect();
        let live = rows.iter().map(|r| self.is_dir(&r.path)).collect();
        Event::Rows(self.or_broken(rows), live)
    }

    fn visit(&mut self, path: &str, count: i32) {
        match self.rows.iter_mut().find(|r| r.path == path) {
            Some(r) => r.visits += count,
            None => self.rows.push(row(path, count, 30)),
        }
    }

    /// How often a directory was visited, if it is in the history.
    fn visits(&self, path: &str) -> Option<i32> {
        self.rows.iter().find(|r| r.path == path).map(|r| r.visits)
    }

    fn perform(
        &mut self,
        action: Action<String, Reply, Vec<hop::import::Visit>, Vec<hop::import::Entry>>,
    ) -> Event {
        match action {
            Action::Open => Event::Opened(self.or_broken(())),
            Action::AutoPrune => Event::Changed(Ok(2)),
            Action::Tell(message) => {
                self.done.push(format!("tell {}", message));
                Event::Done
            }
            Action::Pick | Action::FindBest(_) => Event::Text(self.found.map(|s| s.to_string())),
            Action::HistoryCount => Event::Number(self.rows.len()),
            Action::HistoryRows => self.listed(usize::MAX),
            Action::Top(n) | Action::Recent(n) => self.listed(n),
            Action::Locate(path) => {
                let path = path.replace('~', "/home");
                Event::Place(Place {
                    is_dir: self.is_dir(&path),
                    canonical: self.is_dir(&path).then_some(path.clone()),
                    path,
                })
            }
            Action::Forget(path) => {
                let before = self.rows.len();
                self.rows.retain(|r| r.path != path);
                self.done.push(format!("forget {}", path));
                Event::Changed(self.or_broken(before - self.rows.len()))
            }
            Action::Bookmarks => Event::Bookmarks(self.or_broken(self.bookmarks.clone())),
            Action::Bookmark(alias) => Event::Text(
                self.bookmarks
                    .iter()
                    .find(|b| b.alias == alias)
                    .map(|b| b.path.clone()),
            ),
            Action::SetBookmark { alias, path } => {
                self.done.push(format!("set {} {}", alias, path));
                self.bookmarks.retain(|b| b.alias != alias);
                self.bookmarks.push(Bookmark {
                    alias,
                    path,
                    description: "".to_string(),
                });
                Event::Done
            }
            Action::EditBookmark { alias, changes } => {
                self.done.push(format!("edit {} {:?}", alias, changes));
                Event::Changed(self.or_broken(1))
            }
            Action::RemoveBookmark(alias) => {
                let before = self.bookmarks.len();
                self.bookmarks.retain(|b| b.alias != alias);
                self.done.push(format!("unmark {}", alias));
                Event::Changed(self.or_broken(before - self.bookmarks.len()))
            }
            Action::Candidates(_) => {
                let list: Vec<Scored> = self
                    .rows
                    .iter()
                    .map(|r| Scored {
                        path: r.path.clone(),
                        score: 50,
                        fuzzy: 0,
                        visits: 0,
                        recency: 0,
                        git: 0,
                        basename: 0,
                        shortness: 0,
                        session: 0,
                        source: Source::History,
                        matched_indices: vec![],
                    })
                    .collect();
                let live = list.iter().map(|c| self.is_dir(&c.path)).collect();
                Event::Candidates(list, live)
            }
            Action::Export => {
                let rows: Vec<ExportRow> = vec![];
                Event::Export(self.or_broken(rows), Ok(self.bookmarks.clone()))
            }
            Action::ExportJson => Event::Text(Some("{}".to_string())),
            Action::FileSize(_) => Event::Size(self.or_broken(100)),
            Action::ReadFile { .. } => Event::File(Ok(ImportFile {
                text: self.file.to_string(),
                data: vec![],
                ranked: None,
            })),
            Action::Probe(entries) => Event::Probes(
                entries
                    .iter()
                    .map(|e| Probe {
                        path: e.path.clone(),
                        is_dir: self.is_dir(&e.path),
                        weight: Some(7),
                    })
                    .collect(),
            ),
            Action::RecordVisits(visits) => {
                for v in visits {
                    self.done.push(format!("visit {} {}", v.path, v.count));
                    self.visit(&v.path, v.count as i32);
                }
                Event::Done
            }
            Action::Stale => Event::Paths(self.or_broken(vec!["/gone".to_string()])),
            Action::Prune { start, quiet } => {
                self.done.push(format!("prune {:?} {}", start, quiet));
                Event::Changed(self.or_broken(1))
            }
            Action::Confirm => Event::Text(self.answer.map(|s| s.to_string())),
            Action::ClearHistory => {
                self.done.push("clear".to_string());
                self.rows.clear();
                Event::Failure(None)
            }
            Action::Counts => Event::Counts(self.or_broken(Counts {
                total: 2,
                total_visits: 5,
                bookmarks: 1,
                top_path: None,
            })),
            Action::Describe {
                stale,
                total,
                range,
                oldest,
                ..
            } => {
                self.done.push(format!("describe {} {} {:?} {:?}", stale, total, range, oldest));
                Event::Described(Description {
                    percent: "50".to_string(),
                    size: None,
                    ages: Some(("2.0".to_string(), "1.0".to_string())),
                    oldest_age: Some("2.0".to_string()),
                    top: Ok(vec![]),
                    live: vec![],
                })
            }
            Action::Doctor => Event::Diagnosis(false, vec!["bad".to_string()]),
            Action::ShellVariable => Event::Text(self.answer.map(|s| s.to_string())),
            Action::CompletionScript(shell) => Event::Text(Some(format!("complete {}", shell))),
            Action::Version => Event::Text(Some("1.2".to_string())),
            Action::Finish { .. } => unreachable!(),
        }
    }

    /// Runs a command line to its end.
    fn run(&mut self, list: &[&str]) -> Reply {
        let mut args = vec!["hop".to_string()];
        args.extend(list.iter().map(|s| s.to_string()));
        let mut progress = Run::begin(&args);
        for _ in 0..20 {
            match progress.action() {
                Action::Finish { reply, visit } => {
                    if let Some(path) = visit {
                        self.done.push(format!("visit {}", path));
                        self.visit(&path, 1);
                    }
                    return reply;
                }
                action => {
                    let event = self.perform(action);
                    progress = run(progress, event);
                }
            }
        }
        panic!("no end")
    }
}

fn out(text: &str, code: u8) -> Reply {
    Reply {
        out: text.to_string(),
        err: String::new(),
        code,
    }
}

fn err(text: &str, code: u8) -> Reply {
    Reply {
        out: String::new(),
        err: text.to_string(),
        code,
    }
}

#[test]
fn jumps_print_and_record() {
    let mut f = fake();
    f.found = Some("/a");
    assert_eq!(f.run(&["proj"]), out("/a\n", 0));
    assert_eq!(f.run(&["p"]), out("/a\n", 0));
    assert_eq!(f.done, vec!["visit /a", "visit /a"]);
}

#[test]
fn missed_jumps_hint_on_empty_history() {
    let mut f = fake();
    assert_eq!(f.run(&["proj"]), out("", 1));
    assert_eq!(f.run(&[]), out("", 1));
    f.rows.clear();
    let missed = f.run(&["anything"]);
    assert_eq!(missed.code, 1);
    assert!(missed.err.contains("no history yet"));
    assert!(f.done.is_empty());
}

#[test]
fn dash_goes_back() {
    let mut f = fake();
    assert_eq!(f.run(&["-"]), out("/b\n", 0));
    assert_eq!(f.done, vec!["visit /b"]);
    f.rows.swap(0, 1);
    assert_eq!(f.run(&["-"]), out("/a\n", 0));
    f.rows.truncate(1);
    assert!(f.run(&["-"]).err.contains("no previous directory"));
    f.broken = Some("busy");
    assert_eq!(f.run(&["-"]).code, 2);
}

#[test]
fn dash_passes_over_deleted_directories() {
    let mut f = fake();
    f.rows = vec![
        row("/gone", 1, 50),
        row("/a", 3, 40),
        row("/lost", 1, 30),
        row("/missing", 1, 20),
        row("/b", 2, 10),
        row("/home/x", 1, 5),
    ];
    assert_eq!(f.run(&["-"]), out("/b\n", 0));
    assert_eq!(f.done, vec!["visit /b"]);
    f.done.clear();
    f.dirs = vec!["/b"];
    let reply = f.run(&["-"]);
    assert_eq!(reply.code, 1);
    assert_eq!(reply.out, "");
    assert!(reply.err.contains("no previous directory"));
    assert!(f.done.is_empty());
}

#[test]
fn store_that_does_not_open() {
    let mut f = fake();
    f.broken = Some("busy");
    assert_eq!(f.run(&["stats"]), err("db open failed: busy\n", 2));
    assert_eq!(f.run(&[]), out("", 2));
    assert_eq!(f.run(&["--version"]), out("hop 1.2\n", 0));
    assert_eq!(f.run(&["help"]).out, hop::cli::HELP);
}

#[test]
fn auto_prune_is_told_when_verbose() {
    let mut f = fake();
    f.run(&["stats", "-V"]);
    assert_eq!(f.done[0], "tell auto-pruned 2 stale entries");
    let mut g = fake();
    g.run(&["stats"]);
    assert!(!g.done[0].starts_with("tell"));
}

#[test]
fn adds_record_unless_dry() {
    let mut f = fake();
    assert_eq!(
        f.run(&["add", "--dry-run", "~/x"]),
        out("would create new entry: /home/x\n", 0)
    );
    assert!(f.done.is_empty());
    assert_eq!(f.run(&["add", "--", "~/x"]), out("", 0));
    assert_eq!(f.done, vec!["visit /home/x"]);
    f.done.clear();
    assert_eq!(
        f.run(&["add", "--dry-run", "~/x"]),
        out("would add /home/x with 2 visits\n", 0)
    );
    assert_eq!(
        f.run(&["add", "/a", "--dry-run"]),
        out("would add /a with 4 visits\n", 0)
    );
    assert_eq!(f.run(&["add", "/f"]), err("not a directory: /f\n", 1));
    assert_eq!(
        f.run(&["add"]),
        err("Usage: hop add <path> [--dry-run]\n", 2)
    );
    assert!(f.done.is_empty());
}

#[test]
fn removals_change_unless_dry() {
    let mut f = fake();
    f.found = Some("/a");
    assert_eq!(
        f.run(&["forget", "a", "--dry-run"]),
        out("would forget: /a\n", 0)
    );
    assert!(f.done.is_empty());
    assert_eq!(f.run(&["forget", "a"]), out("forgot: /a\n", 0));
    assert_eq!(f.run(&["forget"]), err("not found in history: /a\n", 1));
    assert_eq!(f.run(&["rm", "/b"]), out("removed: /b\n", 0));
    assert_eq!(f.run(&["rm", "/b"]), out("not found in history: /b\n", 1));
    assert_eq!(
        f.done,
        vec!["forget /a", "forget /a", "forget /b", "forget /b"]
    );
    f.found = None;
    assert_eq!(f.run(&["forget", "a"]), err("no match for: a\n", 1));
    assert_eq!(f.run(&["forget"]), out("", 1));
}

#[test]
fn bookmarks_are_kept() {
    let mut f = fake();
    assert_eq!(f.run(&["book", "w"]), out("/a\n", 0));
    assert_eq!(f.run(&["book", "z"]), out("", 1));
    assert_eq!(f.run(&["book", "v", "~/x"]), out("", 0));
    assert_eq!(f.run(&["book", "v", "/f"]), err("not a directory: /f\n", 1));
    assert_eq!(
        f.run(&["book", "edit", "w", "--path", "/f"]),
        err("not a directory: /f\n", 1)
    );
    assert_eq!(f.done, vec!["set v /home/x".to_string()]);
    assert_eq!(f.run(&["book", "edit", "w", "--path", "~/x"]), out("", 0));
    assert!(f.done[1].starts_with("edit w "));
    assert!(f.done[1].contains("\"/home/x\""));
    assert_eq!(f.run(&["book", "edit", "w", "--description", "d"]).code, 0);
    assert_eq!(
        f.run(&["book", "edit", "w"]),
        out("alias:       w\npath:        /a\ndescription: work\n", 0)
    );
    assert!(f.run(&["book", "--json", "list"]).out.starts_with("["));
}

#[test]
fn history_follows_the_commands() {
    let mut f = fake();
    f.run(&["add", "~/x"]);
    f.run(&["add", "~/x"]);
    assert_eq!(f.visits("/home/x"), Some(2));
    assert_eq!(f.run(&["add", "/f"]), err("not a directory: /f\n", 1));
    assert_eq!(f.visits("/f"), None);
    assert_eq!((f.visits("/a"), f.visits("/b")), (Some(3), Some(2)));
    assert_eq!(f.run(&["rm", "~/x"]), out("removed: /home/x\n", 0));
    assert_eq!(f.visits("/home/x"), None);
    assert_eq!(
        f.run(&["rm", "~/x"]),
        out("not found in history: /home/x\n", 1)
    );
    f.file = "/a\t7\t1\n/f\t7\t1\n/a\t7\t1\n";
    assert_eq!(
        f.run(&["import", "fasd", "file"]),
        out("imported 2, skipped 1\n", 0)
    );
    assert_eq!((f.visits("/a"), f.visits("/b")), (Some(17), Some(2)));
    assert_eq!(f.visits("/f"), None);
    f.found = Some("/b");
    assert_eq!(f.run(&["forget", "b"]), out("forgot: /b\n", 0));
    assert_eq!(f.visits("/b"), None);
    f.answer = Some("no");
    assert_eq!(f.run(&["clear"]), out("aborted\n", 1));
    assert_eq!(f.rows.len(), 1);
    assert_eq!(f.run(&["clear", "--force"]), out("history cleared\n", 0));
    assert!(f.rows.is_empty());
    assert_eq!(f.run(&["book", "w"]), out("/a\n", 0));
}

#[test]
fn bookmark_lives_until_it_is_removed() {
    let mut f = fake();
    assert_eq!(f.run(&["book", "v", "~/x"]), out("", 0));
    assert_eq!(f.run(&["book", "v"]), out("/home/x\n", 0));
    assert_eq!(f.run(&["book", "v", "/b"]), out("", 0));
    assert_eq!(f.run(&["book", "v"]), out("/b\n", 0));
    assert_eq!(f.run(&["book", "rm", "v"]), out("", 0));
    assert_eq!(f.run(&["book", "v"]), out("", 1));
    assert_eq!(
        f.run(&["book", "rm", "v"]),
        err("no such bookmark: v\n", 1)
    );
    assert_eq!(f.run(&["book", "w"]), out("/a\n", 0));
}

#[test]
fn rows_and_matches_are_shown() {
    let mut f = fake();
    f.dirs = vec!["/b"];
    assert_eq!(f.run(&["history"]), out("   2 visits   /b\n", 0));
    assert_eq!(f.run(&["recent", "1"]), out("", 0));
    assert_eq!(f.run(&["list", "q"]), out("50\t/b\tHistory\n", 0));
    assert!(f.run(&["score", "q"]).out.contains("/b (best)"));
}

#[test]
fn exports_are_made() {
    let mut f = fake();
    assert_eq!(f.run(&["export"]), out("{}\n", 0));
    assert!(f
        .run(&["export", "--format", "csv"])
        .out
        .ends_with("/a,0,0,true,w,work\n"));
    assert_eq!(f.run(&["export", "--format", "xml"]).code, 2);
}

#[test]
fn imports_record_unless_dry() {
    let mut f = fake();
    f.file = "/a\t7\n/gone\t3\n";
    assert_eq!(
        f.run(&["import", "--dry-run", "fasd", "/f"]),
        out("would import 1 entries: /a\n", 0)
    );
    assert!(f.done.is_empty());
    assert_eq!(
        f.run(&["import", "fasd", "/f"]),
        out("imported 1, skipped 1\n", 0)
    );
    assert_eq!(f.done, vec!["visit /a 7"]);
    assert_eq!(
        f.run(&["import", "--dry-run", "z", "/f"]),
        err("import dry-run failed: unknown source: z\n", 1)
    );
    assert_eq!(
        f.run(&["import", "--dry-run", "autojump"]),
        err(
            "Usage: hop import [--dry-run] <fasd|autojump|zoxide|zsh> <file>\n",
            2
        )
    );
}

#[test]
fn large_import_files_are_not_read() {
    let args: Vec<String> = ["hop", "import", "zsh", "/f"]
        .iter()
        .map(|s| s.to_string())
        .collect();
    let mut progress = Run::begin(&args);
    progress = run(progress, Event::Opened(Ok(())));
    progress = run(progress, Event::Changed(Ok(0)));
    progress = run(progress, Event::Size(Ok(52_428_801)));
    let Action::Finish { reply, visit } = progress.action() else {
        panic!("not over")
    };
    assert_eq!(
        reply,
        err(
            "import failed: import file is 52428801 bytes (max 50 MB); refusing to read to prevent OOM\n",
            1
        )
    );
    assert_eq!(visit, None);
}

#[test]
fn prunes_and_clears() {
    let mut f = fake();
    assert!(f
        .run(&["prune", "--dry-run"])
        .out
        .starts_with("  - /gone\n\n1 stale entry total."));
    assert_eq!(f.run(&["clear"]), out("aborted\n", 1));
    f.answer = Some("no");
    assert_eq!(f.run(&["clear"]), out("aborted\n", 1));
    assert!(f.done.is_empty());
    f.answer = Some("yes\n");
    assert_eq!(f.run(&["clear"]), out("history cleared\n", 0));
    f.answer = None;
    assert_eq!(f.run(&["clear", "--force"]), out("history cleared\n", 0));
    f.rows = fake().rows;
    assert_eq!(f.run(&["prune"]), out("pruned 1 stale entry\n", 0));
    assert_eq!(f.run(&["prune", "--quiet"]), out("", 0));
    assert_eq!(
        f.done,
        vec![
            "clear",
            "clear",
            "prune Some(\"pruning 2 entries...\") false",
            "prune None true",
        ]
    );
}

#[test]
fn stats_are_surveyed() {
    let mut f = fake();
    f.dirs = vec!["/b"];
    let brief = "paths: 2\nvisits: 5\nbookmarks: 1\ntop: (none)\n\n⚠ 50% stale (1 of 2) — run `hop prune` to clean up\n";
    assert_eq!(f.run(&["stats"]), out(brief, 0));
    assert_eq!(f.done, vec!["describe 1 2 Some((10, 20)) Some(10)"]);
    let detail = "\nhistory range: 2.0 days ago to 1.0 days ago (2 entries)\n\ntop 10 most visited: (none)\n\nlongest-unvisited: /b (last visited 2.0 days ago)\n";
    assert_eq!(
        f.run(&["stats", "--verbose"]),
        out(&format!("{}{}", brief, detail), 0)
    );
}

#[test]
fn shells_are_integrated() {
    let mut f = fake();
    f.answer = Some("/bin/zsh");
    assert!(f.run(&["init"]).out.starts_with("# hop zsh integration"));
    assert_eq!(f.run(&["init", "--verify"]).code, 0);
    assert_eq!(f.run(&["completions"]), out("complete zsh", 0));
    assert_eq!(f.run(&["completions", "fish"]), out("complete fish", 0));
    f.answer = None;
    assert_eq!(
        f.run(&["completions"]),
        err("Usage: hop completions <bash|zsh|fish>\n", 2)
    );
    assert_eq!(f.run(&["doctor"]), out("bad\n", 1));
}

#[test]
fn events_out_of_place_change_nothing() {
    let args = vec!["hop".to_string(), "history".to_string()];
    let mut progress = Run::begin(&args);
    progress = run(progress, Event::Done);
    assert!(matches!(progress.action(), Action::Open));
    progress = run(progress, Event::Opened(Ok(())));
    progress = run(progress, Event::Changed(Ok(0)));
    assert!(matches!(progress.action(), Action::Top(20)));
    progress = run(progress, Event::Rows(Ok(vec![row("/a", 1, 1)]), vec![]));
    assert!(matches!(progress.action(), Action::Top(20)));
}
