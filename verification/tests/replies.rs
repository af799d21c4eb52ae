use hop::export::{csv_field, export_reply, ExportRow};
use hop::import::{ImportError, ImportStats};
use hop::rank::Bookmark;
use hop::report::{
    add_preview, book_edit_reply, book_list_reply, book_remove_reply, book_show_reply, clear_reply,
    completions_reply, confirmed, failure, forget_pick_reply, forget_preview, forget_reply,
    import_failure, import_preview, import_reply, jump_reply, list_reply, no_match,
    not_a_directory, previous, previous_reply, prune_preview, prune_progress, prune_start,
    pruned_reply, remove_reply, resolve_reply, rows_reply, score_reply, Reply,
};
use hop::score::{HistoryRow, Scored, Source};
use hop::stats::{
    count_stale, is_stale, longest_unvisited, size_unit, stats_reply, visit_range, Counts, Detail,
    SizeUnit,
};

fn out(text: &str, code: u8) -> Reply {
    Reply {
        out: text.to_string(),
        err: String::new(),
        code,
    }
}

fn err(text: &str, code: u8) -> Reply {
    Reply {
        out: String::new(),
        err: text.to_string(),
        code,
    }
}

fn row(path: &str, visits: i32, last_visited: i64) -> HistoryRow {
    HistoryRow {
        path: path.to_string(),
        visits,
        last_visited,
        is_git_repo: false,
    }
}

fn bookmark(alias: &str, path: &str, description: &str) -> Bookmark {
    Bookmark {
        alias: alias.to_string(),
        path: path.to_string(),
        description: description.to_string(),
    }
}

fn scored(path: &str, score: i64, source: Source) -> Scored {
    Scored {
        path: path.to_string(),
        score,
        fuzzy: 57,
        visits: 100,
        recency: 7,
        git: 0,
        basename: 40,
        shortness: 5,
        session: 30,
        source,
        matched_indices: vec![],
    }
}

fn some(s: &str) -> Option<String> {
    Some(s.to_string())
}

fn failed(s: &str) -> Result<usize, String> {
    Err(s.to_string())
}

#[test]
fn jumps_are_answered() {
    assert_eq!(jump_reply(&some("/a"), true), out("/a\n", 0));
    assert_eq!(
        jump_reply(&None, true),
        err(
            "no history yet — cd around (or run `hop add <dir>`) to teach hop your directories\n",
            1
        )
    );
    assert_eq!(jump_reply(&None, false), out("", 1));
    assert_eq!(resolve_reply(&some("/a")), out("/a\n", 0));
    assert_eq!(resolve_reply(&None), out("", 1));
    assert_eq!(completions_reply(some("script")), out("script", 0));
    assert_eq!(
        completions_reply(None),
        err("Usage: hop completions <bash|zsh|fish>\n", 2)
    );
}

#[test]
fn previous_is_the_second_live_row() {
    let rows = vec![row("/a", 1, 9), row("/b", 1, 8), row("/c", 1, 7)];
    assert_eq!(previous(&rows, &vec![true, true, true]), some("/b"));
    assert_eq!(previous(&rows, &vec![true, false, true]), some("/c"));
    assert_eq!(previous(&rows, &vec![false, true, false]), None);
    assert_eq!(previous_reply(&some("/b")), out("/b\n", 0));
    assert_eq!(
        previous_reply(&None),
        err("no previous directory yet — visit a couple of dirs first\n", 1)
    );
}

#[test]
fn adds_are_previewed() {
    let rows = vec![row("/a", 3, 0), row("/a", 9, 0)];
    assert_eq!(
        add_preview("/a", &rows),
        out("would add /a with 4 visits\n", 0)
    );
    assert_eq!(
        add_preview("/b", &rows),
        out("would create new entry: /b\n", 0)
    );
    assert_eq!(not_a_directory("/f"), err("not a directory: /f\n", 1));
}

#[test]
fn removals_are_answered() {
    assert_eq!(remove_reply("/a", &Ok(1)), out("removed: /a\n", 0));
    assert_eq!(
        remove_reply("/a", &Ok(0)),
        out("not found in history: /a\n", 1)
    );
    assert_eq!(
        remove_reply("/a", &failed("busy")),
        err("remove failed: busy\n", 1)
    );
    assert_eq!(forget_preview("/a"), out("would forget: /a\n", 0));
    assert_eq!(forget_reply("/a", &Ok(2)), out("forgot: /a\n", 0));
    assert_eq!(
        forget_reply("/a", &Ok(0)),
        out("not found in history: /a\n", 0)
    );
    assert_eq!(
        forget_reply("/a", &failed("busy")),
        Reply {
            out: "not found in history: /a\n".to_string(),
            err: "forget failed: busy\n".to_string(),
            code: 0
        }
    );
    assert_eq!(no_match("q"), err("no match for: q\n", 1));
    assert_eq!(
        forget_pick_reply(&some("/a"), &Ok(1)),
        out("forgot: /a\n", 0)
    );
    assert_eq!(
        forget_pick_reply(&some("/a"), &Ok(0)),
        err("not found in history: /a\n", 1)
    );
    assert_eq!(
        forget_pick_reply(&some("/a"), &failed("busy")),
        err("not found in history: /a\n", 1)
    );
    assert_eq!(forget_pick_reply(&None, &Ok(0)), out("", 1));
}

#[test]
fn rows_are_listed() {
    let rows = vec![row("/a", 3, 0), row("/b", 12345, 0), row("/c", 1, 0)];
    assert_eq!(
        rows_reply(&rows, &vec![true, true, false]),
        out("   3 visits   /a\n12345 visits   /b\n", 0)
    );
    assert_eq!(rows_reply(&vec![], &vec![]), out("", 0));
}

#[test]
fn bookmarks_are_listed() {
    let list = vec![bookmark("w", "/x", "a \"b\""), bookmark("é", "/y", "")];
    assert_eq!(
        book_list_reply(&list, false),
        out("w                     /x\né                     /y\n", 0)
    );
    let json = book_list_reply(&list, true);
    assert_eq!(json.code, 0);
    let value: serde_json::Value = serde_json::from_str(&json.out).unwrap();
    assert_eq!(value.as_array().unwrap().len(), 2);
    assert_eq!(value[0]["alias"], "w");
    assert_eq!(value[0]["path"], "/x");
    assert_eq!(value[0]["description"], "a \"b\"");
    assert_eq!(value[1]["alias"], "é");
    assert_eq!(book_list_reply(&vec![], true), out("[]\n", 0));
}

#[test]
fn bookmarks_are_changed() {
    assert_eq!(book_remove_reply("w", &Ok(1)), out("", 0));
    assert_eq!(
        book_remove_reply("w", &Ok(0)),
        err("no such bookmark: w\n", 1)
    );
    assert_eq!(
        book_remove_reply("w", &failed("busy")),
        err("remove_bookmark failed: busy\n", 1)
    );
    let list = vec![bookmark("v", "/v", ""), bookmark("w", "/x", "d")];
    assert_eq!(
        book_show_reply("w", &list),
        out("alias:       w\npath:        /x\ndescription: d\n", 0)
    );
    assert_eq!(
        book_show_reply("z", &list),
        err("no such bookmark: z\n", 1)
    );
    assert_eq!(book_edit_reply("w", &Ok(1)), out("", 0));
    assert_eq!(
        book_edit_reply("w", &Ok(0)),
        err("no such bookmark: w\n", 1)
    );
    assert_eq!(
        book_edit_reply("w", &failed("busy")),
        err("edit failed: busy\n", 1)
    );
}

#[test]
fn scores_are_shown() {
    let list = vec![
        scored("/a", 239, Source::History),
        scored("/b", 1200, Source::Bookmark),
    ];
    assert_eq!(
        score_reply("q", &list, false),
        out(
            "query: q\n\n\
             /a (best)  total= 239  fuzzy= 57  visits=100  recency= 7  git= 0  basename=40  shortness= 5  session=30  [History]\n\
             /b  total=1200  fuzzy= 57  visits=100  recency= 7  git= 0  basename=40  shortness= 5  session=30  [Bookmark]\n",
            0
        )
    );
    let many: Vec<Scored> = (0..12).map(|i| scored("/x", i, Source::History)).collect();
    let json = score_reply("q", &many, true);
    let value: serde_json::Value = serde_json::from_str(&json.out).unwrap();
    assert_eq!(value.as_array().unwrap().len(), 10);
    let one = &value[9];
    assert_eq!(one["path"], "/x");
    assert_eq!(one["total"], 9);
    assert_eq!(one["fuzzy"], 57);
    assert_eq!(one["visits"], 100);
    assert_eq!(one["recency"], 7);
    assert_eq!(one["git"], 0);
    assert_eq!(one["basename"], 40);
    assert_eq!(one["shortness"], 5);
    assert_eq!(one["session"], 30);
    assert_eq!(one["source"], "history");
    assert_eq!(score_reply("q", &many, false).out.lines().count(), 12);
    assert_eq!(score_reply("q", &vec![], true), out("", 1));
}

#[test]
fn matches_are_listed() {
    let list = vec![
        scored("/a", 239, Source::History),
        scored("/b", -5, Source::Bookmark),
    ];
    assert_eq!(
        list_reply(&list, 20, false),
        out("239\t/a\tHistory\n-5\t/b\tBookmark\n", 0)
    );
    assert_eq!(
        list_reply(&list, 1, false),
        out("239\t/a\tHistory\n", 0)
    );
    assert_eq!(list_reply(&list, 0, false), out("", 1));
    assert_eq!(list_reply(&vec![], 20, true), out("", 1));
    assert_eq!(
        list_reply(&list, 1, true),
        out(
            "[\n  {\n    \"path\": \"/a\",\n    \"score\": 239,\n    \"source\": \"history\"\n  }\n]\n",
            0
        )
    );
}

#[test]
fn imports_are_answered() {
    let stats = ImportStats {
        imported: 3,
        skipped: 1,
    };
    assert_eq!(import_reply(stats), out("imported 3, skipped 1\n", 0));
    assert_eq!(
        import_preview(&vec!["/a".to_string(), "/b".to_string()]),
        out("would import 2 entries: /a, /b\n", 0)
    );
    assert_eq!(
        import_preview(&vec![]),
        out("would import 0 entries: \n", 0)
    );
    let error = ImportError::Io("gone".to_string());
    assert_eq!(import_failure(&error, false), err("import failed: gone\n", 1));
    assert_eq!(
        import_failure(&error, true),
        err("import dry-run failed: gone\n", 1)
    );
}

#[test]
fn prunes_are_answered() {
    assert_eq!(prune_preview(&vec![]), out("nothing to prune\n", 0));
    assert_eq!(
        prune_preview(&vec!["/a".to_string()]),
        out(
            "  - /a\n\n1 stale entry total. Run without --dry-run to remove.\n",
            0
        )
    );
    assert_eq!(
        prune_preview(&vec!["/a".to_string(), "/b".to_string()]),
        out(
            "  - /a\n  - /b\n\n2 stale entries total. Run without --dry-run to remove.\n",
            0
        )
    );
    assert_eq!(prune_start(7, false), some("pruning 7 entries..."));
    assert_eq!(prune_start(7, true), None);
    assert_eq!(prune_start(0, false), None);
    assert_eq!(prune_progress(256, 700, false), some("  256 / 700"));
    assert_eq!(prune_progress(256, 700, true), None);
    assert_eq!(prune_progress(0, 0, false), None);
    assert_eq!(pruned_reply(&Ok(1), false), out("pruned 1 stale entry\n", 0));
    assert_eq!(
        pruned_reply(&Ok(0), false),
        out("pruned 0 stale entries\n", 0)
    );
    assert_eq!(pruned_reply(&Ok(5), true), out("", 0));
    assert_eq!(
        pruned_reply(&failed("busy"), true),
        err("prune failed: busy\n", 1)
    );
}

#[test]
fn clears_have_to_be_confirmed() {
    assert!(confirmed(true, None));
    assert!(confirmed(false, Some(" yes\n")));
    assert!(!confirmed(false, Some("Yes")));
    assert!(!confirmed(false, Some("")));
    assert!(!confirmed(false, None));
    assert_eq!(clear_reply(false, &None), out("aborted\n", 1));
    assert_eq!(clear_reply(true, &None), out("history cleared\n", 0));
    assert_eq!(
        clear_reply(true, &some("busy")),
        err("clear failed: busy\n", 1)
    );
    assert_eq!(
        failure("db open failed", "busy", 2),
        err("db open failed: busy\n", 2)
    );
}

fn counts() -> Counts {
    Counts {
        total: 10,
        total_visits: 42,
        bookmarks: 2,
        top_path: some("/a"),
    }
}

#[test]
fn stats_are_summed_up() {
    assert_eq!(
        stats_reply(&counts(), 2, "20", &None, &vec![]),
        out("paths: 10\nvisits: 42\nbookmarks: 2\ntop: /a\n", 0)
    );
    let mut none = counts();
    none.top_path = None;
    assert_eq!(
        stats_reply(&none, 3, "30", &None, &vec![]),
        out(
            "paths: 10\nvisits: 42\nbookmarks: 2\ntop: (none)\n\n⚠ 30% stale (3 of 10) — run `hop prune` to clean up\n",
            0
        )
    );
}

#[test]
fn stats_are_shown_in_detail() {
    let mut detail = Detail {
        size: Some(("1.50 KB".to_string(), "/db".to_string())),
        range: Some(("9.0".to_string(), "0.1".to_string(), 10)),
        top: Ok(vec![row("/a", 40, 0), row("/gone", 2, 0)]),
        longest: Some(("/old".to_string(), "9.0".to_string())),
    };
    let start = "paths: 10\nvisits: 42\nbookmarks: 2\ntop: /a\n\ndb size: 1.50 KB (/db)\nhistory range: 9.0 days ago to 0.1 days ago (10 entries)\n";
    let end = "\nlongest-unvisited: /old (last visited 9.0 days ago)\n";
    assert_eq!(
        stats_reply(&counts(), 0, "0", &Some(detail), &vec![true, false]),
        out(
            &format!(
                "{}\ntop 10 most visited:\n      40 visits  /a\n{}",
                start, end
            ),
            0
        )
    );
    detail = Detail {
        size: None,
        range: None,
        top: Ok(vec![]),
        longest: None,
    };
    assert_eq!(
        stats_reply(&counts(), 0, "0", &Some(detail), &vec![]),
        out(
            "paths: 10\nvisits: 42\nbookmarks: 2\ntop: /a\n\n\ntop 10 most visited: (none)\n",
            0
        )
    );
    detail = Detail {
        size: None,
        range: None,
        top: Err("busy".to_string()),
        longest: None,
    };
    assert_eq!(
        stats_reply(&counts(), 0, "0", &Some(detail), &vec![]),
        Reply {
            out: "paths: 10\nvisits: 42\nbookmarks: 2\ntop: /a\n\n".to_string(),
            err: "top query failed: busy\n".to_string(),
            code: 1
        }
    );
}

#[test]
fn more_than_a_fifth_is_stale() {
    for total in 0..60usize {
        for stale in 0..=total {
            let expected = total > 0 && (stale as f64 / total as f64) * 100.0 > 20.0;
            assert_eq!(is_stale(stale, total), expected, "{} of {}", stale, total);
        }
    }
    assert_eq!(count_stale(&vec![true, false, false]), 2);
}

#[test]
fn sizes_have_units() {
    assert_eq!(size_unit(1024), SizeUnit::Bytes);
    assert_eq!(size_unit(1025), SizeUnit::Kilobytes);
    assert_eq!(size_unit(1_048_576), SizeUnit::Kilobytes);
    assert_eq!(size_unit(1_048_577), SizeUnit::Megabytes);
    assert_eq!(size_unit(1_073_741_824), SizeUnit::Megabytes);
    assert_eq!(size_unit(1_073_741_825), SizeUnit::Gigabytes);
}

#[test]
fn oldest_and_newest_visits() {
    let rows = vec![row("/a", 1, 5), row("/b", 1, 2), row("/c", 1, 9), row("/d", 1, 2)];
    assert_eq!(visit_range(&rows), Some((2, 9)));
    assert_eq!(longest_unvisited(&rows), Some(1));
    assert_eq!(visit_range(&vec![]), None);
    assert_eq!(longest_unvisited(&vec![]), None);
}

/// The records of a CSV text.
fn read_csv(text: &str) -> Vec<Vec<String>> {
    let mut records = vec![];
    let mut record = vec![String::new()];
    let mut quoted = false;
    for c in text.chars() {
        match c {
            // of a doubled quote both are seen here: the second opens again
            '"' => {
                let field = record.last_mut().unwrap();
                if !quoted && !field.is_empty() {
                    field.push('"');
                }
                quoted = !quoted;
            }
            ',' if !quoted => record.push(String::new()),
            '\n' if !quoted => records.push(std::mem::replace(&mut record, vec![String::new()])),
            _ => record.last_mut().unwrap().push(c),
        }
    }
    records
}

#[test]
fn whole_export_is_read_back() {
    let rows = vec![
        ExportRow {
            path: "/a\nb,c".to_string(),
            visits: 3,
            last_visited: "12.5".to_string(),
            is_git_repo: true,
        },
        ExportRow {
            path: "/say \"hi\"".to_string(),
            visits: 1,
            last_visited: "7".to_string(),
            is_git_repo: false,
        },
    ];
    let list = vec![Bookmark {
        alias: "w,x".to_string(),
        path: "/w".to_string(),
        description: "two\r\nlines".to_string(),
    }];
    let text = export_reply("csv", &rows, &list).unwrap().out;
    let records = read_csv(&text);
    assert_eq!(
        records,
        vec![
            vec!["path", "visits", "last_visited", "is_bookmark", "alias", "description"],
            vec!["/a\nb,c", "3", "12.5", "false", "", ""],
            vec!["/say \"hi\"", "1", "7", "false", "", ""],
            vec!["/w", "0", "0", "true", "w,x", "two\r\nlines"],
        ]
    );
}

#[test]
fn csv_fields_are_quoted() {
    assert_eq!(csv_field("/a b"), "/a b");
    assert_eq!(csv_field("a,b"), "\"a,b\"");
    assert_eq!(csv_field("a\"b"), "\"a\"\"b\"");
    assert_eq!(csv_field("a\nb"), "\"a\nb\"");
    assert_eq!(csv_field("a\rb"), "\"a\rb\"");
    assert_eq!(csv_field(""), "");
}

#[test]
fn history_and_bookmarks_are_exported() {
    let rows = vec![
        ExportRow {
            path: "/a,b".to_string(),
            visits: 3,
            last_visited: "1700000000.5".to_string(),
            is_git_repo: true,
        },
        ExportRow {
            path: "/c".to_string(),
            visits: -1,
            last_visited: "0".to_string(),
            is_git_repo: false,
        },
    ];
    let list = vec![bookmark("w", "/x", "say \"hi\"")];
    assert_eq!(
        export_reply("csv", &rows, &list),
        Some(out(
            "path,visits,last_visited,is_bookmark,alias,description\n\"/a,b\",3,1700000000.5,false,,\n/c,-1,0,false,,\n/x,0,0,true,w,\"say \"\"hi\"\"\"\n",
            0
        ))
    );
    assert_eq!(
        export_reply("tsv", &rows, &list),
        Some(out(
            "history\t/a,b\t3\t1700000000.5\ttrue\nhistory\t/c\t-1\t0\tfalse\nbookmark\tw:/x\t0\t0\tfalse\tsay \"hi\"\n",
            0
        ))
    );
    assert_eq!(
        export_reply("xml", &rows, &list),
        Some(err("unknown format 'xml': use json, csv, or tsv\n", 2))
    );
    assert_eq!(export_reply("json", &rows, &list), None);
}
