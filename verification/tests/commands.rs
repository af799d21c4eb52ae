use hop::args::{args_from, args_without, args_without_value, count_arg, value_after};
use hop::cli::{needs_no_database, parse_command, wants_detail, Changes, Command, HELP};
use hop::report::init_reply;

fn line(list: &[&str]) -> Vec<String> {
    let mut all = vec!["hop".to_string()];
    all.extend(list.iter().map(|s| s.to_string()));
    all
}

fn parse(list: &[&str]) -> Command<String> {
    parse_command(&line(list))
}

fn refused(message: &str, code: u8) -> Command<String> {
    Command::Refused {
        message: message.to_string(),
        code,
    }
}

fn jump(query: &str) -> Command<String> {
    Command::Jump {
        query: query.to_string(),
    }
}

#[test]
fn help_works() {
    let success = parse(&["--help"]) == Command::Help;
    assert!(success);
    let s = HELP;
    assert!(s.contains("hop"));
    assert!(s.contains("init"));
    assert!(s.contains("doctor"));
}

#[test]
fn help_and_version_have_several_names() {
    for name in ["--help", "-h", "help"] {
        assert_eq!(parse(&[name, "x"]), Command::Help);
    }
    for name in ["--version", "-v"] {
        assert_eq!(parse(&[name]), Command::Version);
    }
    assert!(HELP.ends_with("hop --help                   This help\n"));
}

#[test]
fn init_emits_scripts() {
    for shell in ["bash", "zsh", "fish"] {
        let Command::Init {
            shell: asked,
            verify,
        } = parse(&["init", shell])
        else {
            panic!("init {shell} failed")
        };
        let out = init_reply(&asked, verify, None);
        assert!(out.code == 0, "init {shell} failed");
        let s = out.out;
        assert!(s.contains("command hop"), "init {shell} missing hop call");
        assert!(
            s.contains("HOP_SESSION"),
            "init {shell} should export HOP_SESSION"
        );
        let has_h = if shell == "fish" {
            s.contains("function h")
        } else {
            s.contains("h()")
        };
        assert!(has_h, "init {shell} missing h function");
    }
}

#[test]
fn init_rejects_unknown_shell() {
    let Command::Init { shell, verify } = parse(&["init", "unknownshell"]) else {
        panic!("not init")
    };
    let out = init_reply(&shell, verify, Some("/bin/zsh"));
    assert!(out.code != 0);
    assert_eq!(out.code, 2);
    assert_eq!(
        out.err,
        "Usage: hop init <bash|zsh|fish> | --shell <name> | --verify\n"
    );
}

#[test]
fn init_shell_flag_works() {
    let Command::Init { shell, verify } = parse(&["init", "--shell", "fish"]) else {
        panic!("not init")
    };
    let out = init_reply(&shell, verify, None);
    assert!(out.code == 0);
    assert!(out.out.contains("function h"));
}

#[test]
fn init_verify_runs() {
    let Command::Init { shell, verify } = parse(&["init", "--verify"]) else {
        panic!("not init")
    };
    for variable in [None, Some("/bin/bash")] {
        let out = init_reply(&shell, verify, variable);
        assert!(!out.out.is_empty() || !out.err.is_empty());
        assert_eq!(out.code, if variable.is_none() { 1 } else { 0 });
    }
}

#[test]
fn init_falls_back_to_the_detected_shell() {
    let out = init_reply(&None, false, Some("/usr/bin/fish"));
    assert!(out.out.starts_with("# hop fish integration\n"));
    assert_eq!(init_reply(&None, false, None).code, 2);
}

#[test]
fn shell_arguments_are_checked() {
    assert_eq!(
        parse(&["init", "--shell"]),
        refused("--shell requires an argument", 2)
    );
    assert_eq!(
        parse(&["init", "--nope"]),
        refused("unknown init flag: --nope", 2)
    );
    assert_eq!(
        parse(&["completions", "--verify"]),
        refused("unknown completions flag: --verify", 2)
    );
    assert_eq!(
        parse(&["completions", "--shell"]),
        refused("--shell requires an argument", 2)
    );
    assert_eq!(
        parse(&["completions", "zsh", "--shell", "fish"]),
        Command::Completions {
            shell: Some("fish".to_string())
        }
    );
    assert_eq!(
        parse(&["init", "--shell", "--verify", "zsh"]),
        Command::Init {
            shell: Some("zsh".to_string()),
            verify: false
        }
    );
    assert_eq!(
        parse(&["init", "--verify", "zsh"]),
        Command::Init {
            shell: Some("zsh".to_string()),
            verify: true
        }
    );
}

#[test]
fn queries_jump() {
    assert_eq!(parse(&[]), Command::Pick);
    assert_eq!(parse(&["proj"]), jump("proj"));
    assert_eq!(parse(&["foo", "bar"]), jump("foo bar"));
    assert_eq!(parse(&["alpha", "/"]), jump("alpha /"));
    assert_eq!(parse(&[""]), jump(""));
    assert_eq!(parse(&["p", "--", "foo", "bar"]), jump("foo bar"));
    assert_eq!(parse(&["pick", "proj"]), parse(&["proj"]));
    assert_eq!(parse(&["pick", "--"]), Command::Pick);
    assert_eq!(parse(&["p", ""]), Command::Pick);
    assert_eq!(parse(&["-"]), Command::Previous);
}

#[test]
fn add_takes_separator_and_dry_run_anywhere() {
    let add = |dry_run| Command::Add {
        path: "/x".to_string(),
        dry_run,
    };
    assert_eq!(parse(&["add", "/x"]), add(false));
    assert_eq!(parse(&["add", "--", "/x"]), add(false));
    assert_eq!(parse(&["add", "/x", "--"]), add(false));
    assert_eq!(parse(&["add", "--dry-run", "/x"]), add(true));
    assert_eq!(parse(&["add", "/x", "--dry-run"]), add(true));
    assert_eq!(parse(&["add", "--", "--dry-run", "/x", "/y"]), add(true));
    let usage = refused("Usage: hop add <path> [--dry-run]", 2);
    assert_eq!(parse(&["add"]), usage);
    assert_eq!(parse(&["add", "--", "--dry-run"]), usage);
    assert_eq!(
        parse(&["add", ""]),
        refused(
            "empty path; did you mean to run `hop` without arguments?",
            1
        )
    );
}

#[test]
fn rm_and_forget() {
    let rm = Command::Remove {
        path: "/x".to_string(),
    };
    assert_eq!(parse(&["rm", "/x"]), rm);
    assert_eq!(parse(&["rm", "--", "/x"]), rm);
    assert_eq!(parse(&["rm"]), refused("Usage: hop rm <path>", 2));
    assert_eq!(parse(&["rm", "--"]), refused("Usage: hop rm <path>", 2));
    assert_eq!(
        parse(&["forget", "a", "--dry-run", "b"]),
        Command::Forget {
            query: "a b".to_string(),
            dry_run: true
        }
    );
    assert_eq!(parse(&["forget"]), Command::ForgetPick);
    assert_eq!(
        parse(&["forget", "--dry-run"]),
        refused("Usage: hop forget <query> [--dry-run]", 2)
    );
}

#[test]
fn book_commands() {
    assert_eq!(parse(&["book"]), Command::BookList { json: false });
    for list in [
        vec!["book", "--json", "list"],
        vec!["book", "list", "--json"],
        vec!["book", "-j"],
        vec!["book", "list", "-j", "--json"],
    ] {
        assert_eq!(parse(&list), Command::BookList { json: true });
    }
    assert_eq!(
        parse(&["book", "rm", "w"]),
        Command::BookRemove {
            alias: "w".to_string()
        }
    );
    assert_eq!(
        parse(&["book", "rm"]),
        refused("Usage: hop book rm <alias>", 2)
    );
    assert_eq!(
        parse(&["book", "w", "/x"]),
        Command::BookSet {
            alias: "w".to_string(),
            path: "/x".to_string()
        }
    );
    assert_eq!(
        parse(&["book", "w", "--json"]),
        Command::BookResolve {
            alias: "w".to_string()
        }
    );
}

#[test]
fn book_edit_flags() {
    let usage =
        "Usage: hop book edit <alias> [--alias <new>] [--path <path>] [--description <text>]";
    let edit = |alias: Option<&str>, path: Option<&str>, description: Option<&str>| {
        Command::BookEdit {
            alias: "w".to_string(),
            changes: Changes {
                alias: alias.map(|s| s.to_string()),
                path: path.map(|s| s.to_string()),
                description: description.map(|s| s.to_string()),
            },
        }
    };
    assert_eq!(parse(&["book", "edit"]), refused(usage, 2));
    assert_eq!(
        parse(&["book", "edit", "w", "--nope"]),
        refused(&format!("unknown flag: --nope\n{}", usage), 2)
    );
    let show = Command::BookShow {
        alias: "w".to_string(),
    };
    assert_eq!(parse(&["book", "edit", "w"]), show);
    assert_eq!(parse(&["book", "edit", "w", "--alias"]), show);
    assert_eq!(
        parse(&["book", "edit", "w", "--alias", "v", "--path", "/p"]),
        edit(Some("v"), Some("/p"), None)
    );
    assert_eq!(
        parse(&["book", "edit", "w", "--description", "a b", "--path", "/p", "--path"]),
        edit(None, None, Some("a b"))
    );
}

#[test]
fn counts_default_to_twenty() {
    assert_eq!(parse(&["history"]), Command::History { count: 20 });
    assert_eq!(parse(&["history", "x"]), Command::History { count: 20 });
    assert_eq!(parse(&["history", "5"]), Command::History { count: 5 });
    assert_eq!(parse(&["recent", "0"]), Command::Recent { count: 0 });
    assert_eq!(parse(&["recent"]), Command::Recent { count: 20 });
}

#[test]
fn score_and_list_flags_are_no_part_of_the_query() {
    let score = |json| Command::Score {
        query: "foo bar".to_string(),
        json,
    };
    assert_eq!(parse(&["score", "foo", "--", "bar"]), score(false));
    assert_eq!(parse(&["score", "foo", "bar", "--json"]), score(true));
    assert_eq!(parse(&["score", "--json", "foo", "bar"]), score(true));
    let usage = refused("Usage: hop score <query> [--json]", 2);
    assert_eq!(parse(&["score"]), usage);
    assert_eq!(parse(&["score", "--json"]), usage);
    let list = |query: &str, limit, json| Command::List {
        query: query.to_string(),
        limit,
        json,
    };
    assert_eq!(parse(&["list"]), list("", 20, false));
    assert_eq!(
        parse(&["list", "foo", "--limit", "3", "--json", "bar"]),
        list("foo bar", 3, true)
    );
    assert_eq!(parse(&["list", "foo", "--limit", "x"]), list("foo", 20, false));
    assert_eq!(parse(&["list", "foo", "--limit"]), list("foo", 20, false));
}

#[test]
fn export_and_import() {
    let export = |format: &str| Command::Export {
        format: format.to_string(),
    };
    assert_eq!(parse(&["export"]), export("json"));
    assert_eq!(parse(&["export", "--format", "csv"]), export("csv"));
    assert_eq!(parse(&["export", "--format"]), export("json"));
    let import = |source: &str, dry_run| Command::Import {
        source: source.to_string(),
        file: "/f".to_string(),
        dry_run,
    };
    for source in ["fasd", "autojump", "zoxide", "zsh"] {
        assert_eq!(parse(&["import", source, "/f"]), import(source, false));
        assert_eq!(
            parse(&["import", "--dry-run", source, "/f"]),
            import(source, true)
        );
        assert_eq!(
            parse(&["import", source, "--dry-run", "/f"]),
            import(source, true)
        );
        assert_eq!(
            parse(&["import", source, "/f", "--dry-run"]),
            import(source, true)
        );
    }
    let usage = refused(
        "Usage: hop import [--dry-run] <fasd|autojump|zoxide|zsh> <file>",
        2,
    );
    assert_eq!(parse(&["import"]), usage);
    assert_eq!(parse(&["import", "fasd"]), usage);
    assert_eq!(parse(&["import", "--dry-run", "autojump"]), usage);
    assert_eq!(
        parse(&["import", "z", "/f"]),
        refused("unknown source: z", 2)
    );
    assert_eq!(parse(&["import", "--dry-run", "z", "/f"]), import("z", true));
}

#[test]
fn prune_clear_stats_and_doctor() {
    let prune = |dry_run, quiet| Command::Prune { dry_run, quiet };
    assert_eq!(parse(&["prune"]), prune(false, false));
    assert_eq!(parse(&["prune", "--dry-run"]), prune(true, false));
    assert_eq!(parse(&["prune", "--quiet"]), prune(false, true));
    assert_eq!(parse(&["prune", "--dry-run", "--quiet"]), prune(true, true));
    assert_eq!(parse(&["prune", "--quiet", "--dry-run"]), prune(false, true));
    assert_eq!(parse(&["clear"]), Command::Clear { force: false });
    assert_eq!(parse(&["clear", "--force"]), Command::Clear { force: true });
    assert_eq!(parse(&["stats"]), Command::Stats { verbose: false });
    assert_eq!(parse(&["stats", "x", "-V"]), Command::Stats { verbose: true });
    assert_eq!(parse(&["doctor"]), Command::Doctor);
}

#[test]
fn some_commands_need_no_database() {
    for name in ["init", "completions", "--help", "-h", "help", "--version", "-v"] {
        assert!(needs_no_database(&line(&[name])));
    }
    assert!(!needs_no_database(&line(&["stats"])));
    assert!(!needs_no_database(&line(&[])));
    assert!(wants_detail(&line(&["x", "--verbose"])));
    assert!(!wants_detail(&line(&["x", "-v"])));
}

#[test]
fn argument_lists() {
    let list = line(&["a", "--f", "1", "b", "--f"]);
    assert_eq!(args_from(&list, 4), vec!["b", "--f"]);
    assert_eq!(args_without(&list, "--f"), vec!["hop", "a", "1", "b"]);
    assert_eq!(args_without_value(&list, "--f"), vec!["hop", "a", "b"]);
    assert_eq!(value_after(&list, "--f"), Some("1".to_string()));
    assert_eq!(value_after(&list, "b"), Some("--f".to_string()));
    assert_eq!(value_after(&list, "--g"), None);
    assert_eq!(count_arg(&Some("7".to_string()), 3), 7);
    assert_eq!(count_arg(&None, 3), 3);
}
