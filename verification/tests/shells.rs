use hop::import::{extract_cd_target, parse_zsh_history};
use hop::init::{choose_shell, detect_shell, script_for, verify};
use hop::shell::shell_tokens;

#[test]
fn emits_for_known_shells() {
    assert!(script_for("bash").is_some());
    assert!(script_for("zsh").is_some());
    assert!(script_for("fish").is_some());
    assert!(script_for("unknown-shell").is_none());
}

#[test]
fn each_script_calls_hop_binary() {
    for shell in ["bash", "zsh", "fish"] {
        let s = script_for(shell).unwrap();
        assert!(s.contains("hop"), "{shell} missing hop call");
        let has_h = if shell == "fish" {
            s.contains("function h")
        } else {
            s.contains("h()")
        };
        assert!(has_h, "{shell} missing h function definition");
        assert!(!s.contains("fuzzy-cd"), "{shell} still references old name");
    }
}

#[test]
fn verify_reports_something() {
    for variable in [None, Some("/bin/zsh"), Some("/bin/tcsh")] {
        let r = verify(variable);
        assert!(!r.lines.is_empty());
    }
}

#[test]
fn every_script_records_visits_and_the_session() {
    for shell in ["bash", "zsh", "fish"] {
        let s = script_for(shell).unwrap();
        assert!(s.contains("command hop add -- \"$PWD\""));
        assert!(s.contains("HOP_SESSION"));
        assert!(s.ends_with("\n"));
    }
}

#[test]
fn shell_is_detected_by_its_ending() {
    assert_eq!(detect_shell(Some("/bin/zsh")), Some("zsh"));
    assert_eq!(detect_shell(Some("/usr/local/bin/bash")), Some("bash"));
    assert_eq!(detect_shell(Some("fish")), Some("fish"));
    assert_eq!(detect_shell(Some("/bin/sh")), None);
    assert_eq!(detect_shell(Some("")), None);
    assert_eq!(detect_shell(None), None);
}

#[test]
fn asked_shell_comes_before_the_detected() {
    assert_eq!(
        choose_shell(&Some("fish".to_string()), Some("/bin/zsh")),
        Some("fish".to_string())
    );
    assert_eq!(
        choose_shell(&None, Some("/bin/zsh")),
        Some("zsh".to_string())
    );
    assert_eq!(choose_shell(&None, None), None);
}

#[test]
fn verify_says_how_to_wire_up() {
    let r = verify(Some("/bin/bash"));
    assert!(r.ok);
    assert_eq!(
        r.lines,
        vec![
            "✓ detected shell: bash",
            "✓ init script available for bash",
            "→ add to ~/.bashrc:    eval \"$(hop init bash)\"",
            "  then open a new shell and run: hop doctor",
        ]
    );
    assert_eq!(
        verify(Some("zsh")).lines[2],
        "→ add to ~/.zshrc:     eval \"$(hop init zsh)\""
    );
    assert_eq!(
        verify(Some("fish")).lines[2],
        "→ add to ~/.config/fish/config.fish:   hop init fish | source"
    );
    let none = verify(None);
    assert!(!none.ok);
    assert_eq!(
        none.lines,
        vec![
            "✗ could not detect shell from $SHELL",
            "  pick one manually: hop init bash|zsh|fish",
        ]
    );
}

#[test]
fn history_formats_agree() {
    let plain = parse_zsh_history("cd ~/foo\nls\n");
    let extended = parse_zsh_history(": 1700000000:0;cd ~/foo\n: 1700000001:5;ls\n");
    assert_eq!(plain, vec!["cd ~/foo", "ls"]);
    assert_eq!(plain, extended);
}

#[test]
fn history_joins_continued_lines() {
    assert_eq!(
        parse_zsh_history("echo a\\\nb\\\nc\nls"),
        vec!["echo a\nb\nc", "ls"]
    );
    assert_eq!(parse_zsh_history("cd x\\"), vec!["cd x\n"]);
}

#[test]
fn history_skips_blank_commands() {
    assert!(parse_zsh_history("").is_empty());
    assert!(parse_zsh_history("\n  \n\t\n").is_empty());
    assert!(parse_zsh_history(": 1700000000:0\n").is_empty());
    assert_eq!(parse_zsh_history(" ls \r\n"), vec![" ls "]);
}

#[test]
fn cd_targets_are_found() {
    let target = |cmd: &str| extract_cd_target(cmd);
    assert_eq!(target("cd /tmp"), Some("/tmp".to_string()));
    assert_eq!(target("  pushd ~/x y"), Some("~/x".to_string()));
    assert_eq!(target("cd '/a b;c'; ls"), Some("/a b;c".to_string()));
    assert_eq!(target("cd \"/a b\" && ls"), Some("/a b".to_string()));
    assert_eq!(target("cd a\\ b"), Some("a b".to_string()));
    assert_eq!(target("cd a'b'\"c\""), Some("abc".to_string()));
    assert_eq!(target("cd ''"), Some("".to_string()));
    assert_eq!(target("cd 'a\\b'"), Some("a\\b".to_string()));
}

#[test]
fn other_commands_lead_nowhere() {
    for cmd in [
        "", "ls", "cd", "cd -", "cd -P x", "cd $HOME", "cd `pwd`", "cd \"$X\"", "xcd /tmp",
        "; cd /tmp", "cdr /tmp", "ls; cd /tmp",
    ] {
        assert_eq!(extract_cd_target(cmd), None, "{:?}", cmd);
    }
}

#[test]
fn histories_are_joined() {
    let a = "cd /a\n: 1:0;echo x\\\ny\n";
    let b = ": 2:0;cd /b\n\nls";
    let whole = parse_zsh_history(&format!("{}{}", a, b));
    let mut parts = parse_zsh_history(a);
    parts.extend(parse_zsh_history(b));
    assert_eq!(whole, parts);
    assert_eq!(whole, vec!["cd /a", "echo x\ny", "cd /b", "ls"]);
}

#[test]
fn quoted_words_are_read_back() {
    let words = ["a b", "", "x\\y", "say \"hi\"", "plain", ";&|"];
    let quoted: Vec<String> = words.iter().map(|w| format!("'{}'", w)).collect();
    assert_eq!(shell_tokens(&quoted.join(" ")), words);
    assert!(shell_tokens("").is_empty());
    assert_eq!(shell_tokens("''"), vec![""]);
    assert_eq!(shell_tokens("  a\\ b  \"c d\"e "), vec!["a b", "c de"]);
}
