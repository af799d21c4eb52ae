//! Shell integration: the script for each shell, and which shell to pick.

use vstd::prelude::*;

use crate::render;
use crate::text;

verus! {

pub const BASH: &'static str = r#"# hop bash integration
# Session start — dirs visited after this get a recency bonus in scoring.
export HOP_SESSION="$(command date +%s)"
# bash has no chpwd hook, so PROMPT_COMMAND is used; record only when the
# directory actually changed, otherwise visit counts inflate per prompt.
__hop_chpwd() {
    if [[ "$PWD" != "${__hop_last:-}" ]]; then
        __hop_last=$PWD
        command hop add -- "$PWD" >/dev/null 2>&1
    fi
}
case ":${PROMPT_COMMAND:-}:" in
  *:__hop_chpwd:*) ;;
  *) PROMPT_COMMAND="__hop_chpwd${PROMPT_COMMAND:+;$PROMPT_COMMAND}" ;;
esac

unalias h 2>/dev/null || true

h() {
    local dir
    dir=$(command hop "$@")
    [[ -n "$dir" ]] && builtin cd -- "$dir"
}
"#;

pub const ZSH: &'static str = r#"# hop zsh integration
# Session start — dirs visited after this get a recency bonus in scoring.
export HOP_SESSION="$(command date +%s)"
autoload -U add-zsh-hook
__hop_chpwd() { command hop add -- "$PWD" >/dev/null 2>&1 }
add-zsh-hook chpwd __hop_chpwd

unalias h 2>/dev/null || true

h() {
    local dir
    dir=$(command hop "$@")
    [[ -n "$dir" ]] && builtin cd -- "$dir"
}
"#;

// There is deliberately no `abbr h=hop` here. An abbreviation would expand `h`
// to `hop` before the function is looked up, so the function (which performs
// the actual `cd`) would never run, and fish >= 4 rejects the `h=hop` form
// outright with a startup error.
pub const FISH: &'static str = r#"# hop fish integration
# Session start — dirs visited after this get a recency bonus in scoring.
set -gx HOP_SESSION (command date +%s)

function __hop_chpwd --on-variable PWD
    command hop add -- "$PWD" >/dev/null 2>&1
end

functions -e h 2>/dev/null; function h
    set -l dir (command hop $argv)
    [ -n "$dir" ] && cd -- "$dir"
end
"#;

/// The integration script of a shell.
pub open spec fn script(shell: Seq<char>) -> Option<Seq<char>> {
    if shell == "bash"@ {
        Some(BASH@)
    } else if shell == "zsh"@ {
        Some(ZSH@)
    } else if shell == "fish"@ {
        Some(FISH@)
    } else {
        None
    }
}

/// Whether there is an integration script for a shell.
pub open spec fn is_known(shell: Seq<char>) -> bool {
    shell == "bash"@ || shell == "zsh"@ || shell == "fish"@
}

/// The integration script of a shell.
pub fn script_for(shell: &str) -> (r: Option<String>)
    ensures
        r is Some <==> is_known(shell@),
        r matches Some(s) ==> script(shell@) == Some(s@),
{
    if text::same_text(shell, "bash") {
        Some(BASH.to_string())
    } else if text::same_text(shell, "zsh") {
        Some(ZSH.to_string())
    } else if text::same_text(shell, "fish") {
        Some(FISH.to_string())
    } else {
        None
    }
}

/// The shell that the value of `$SHELL` ends in.
pub open spec fn detected(variable: Option<Seq<char>>) -> Option<Seq<char>> {
    match variable {
        Some(path) => if text::ends_with(path, "zsh"@) {
            Some("zsh"@)
        } else if text::ends_with(path, "bash"@) {
            Some("bash"@)
        } else if text::ends_with(path, "fish"@) {
            Some("fish"@)
        } else {
            None
        },
        None => None,
    }
}

/// Detects the user's shell from the value of `$SHELL`.
pub fn detect_shell(variable: Option<&str>) -> (r: Option<&'static str>)
    ensures
        text::maybe_str(r) == detected(text::maybe_str(variable)),
{
    let path: &str = match variable {
        Some(path) => path,
        None => {
            return None;
        },
    };
    if text::finishes_with(path, "zsh") {
        Some("zsh")
    } else if text::finishes_with(path, "bash") {
        Some("bash")
    } else if text::finishes_with(path, "fish") {
        Some("fish")
    } else {
        None
    }
}

/// What was found of the user's shell integration, line by line.
pub struct VerifyReport {
    pub ok: bool,
    pub lines: Vec<String>,
}

/// How to wire the script of a shell up.
pub open spec fn hint(shell: Seq<char>) -> Seq<char> {
    if shell == "bash"@ {
        "add to ~/.bashrc:    eval \"$(hop init bash)\""@
    } else if shell == "zsh"@ {
        "add to ~/.zshrc:     eval \"$(hop init zsh)\""@
    } else {
        "add to ~/.config/fish/config.fish:   hop init fish | source"@
    }
}

/// What is reported of the shell that was detected.
pub open spec fn report_lines(shell: Option<Seq<char>>) -> Seq<Seq<char>> {
    match shell {
        Some(shell) => seq![
            "✓ detected shell: "@ + shell,
            "✓ init script available for "@ + shell,
            "→ "@ + hint(shell),
            "  then open a new shell and run: hop doctor"@,
        ],
        None => seq![
            "✗ could not detect shell from $SHELL"@,
            "  pick one manually: hop init bash|zsh|fish"@,
        ],
    }
}

/// Checks the user's shell integration without loading it: detects the shell
/// from the value of `$SHELL`, for which there is always a script, and says how
/// to wire it up.
pub fn verify(variable: Option<&str>) -> (r: VerifyReport)
    ensures
        r.ok == detected(text::maybe_str(variable)) is Some,
        text::views(r.lines@) == report_lines(detected(text::maybe_str(variable))),
{
    let mut lines: Vec<String> = Vec::new();
    match detect_shell(variable) {
        None => {
            lines.push("✗ could not detect shell from $SHELL".to_string());
            lines.push("  pick one manually: hop init bash|zsh|fish".to_string());
            assert(text::views(lines@) =~= report_lines(None));
            VerifyReport { ok: false, lines }
        },
        Some(shell) => {
            let hint: &'static str = if text::same_text(shell, "bash") {
                "add to ~/.bashrc:    eval \"$(hop init bash)\""
            } else if text::same_text(shell, "zsh") {
                "add to ~/.zshrc:     eval \"$(hop init zsh)\""
            } else {
                "add to ~/.config/fish/config.fish:   hop init fish | source"
            };
            lines.push(render::glue("✓ detected shell: ", shell));
            lines.push(render::glue("✓ init script available for ", shell));
            lines.push(render::glue("→ ", hint));
            lines.push("  then open a new shell and run: hop doctor".to_string());
            assert(text::views(lines@) =~= report_lines(Some(shell@)));
            VerifyReport { ok: true, lines }
        },
    }
}

/// The shell that was asked for, else the one that was detected.
pub open spec fn chosen(shell: Option<Seq<char>>, variable: Option<Seq<char>>) -> Option<
    Seq<char>,
> {
    if shell is Some {
        shell
    } else {
        detected(variable)
    }
}

/// The shell that was asked for, else the one that the value of `$SHELL` names.
pub fn choose_shell(shell: &Option<String>, variable: Option<&str>) -> (r: Option<String>)
    ensures
        text::maybe(r) == chosen(text::maybe(*shell), text::maybe_str(variable)),
{
    match shell {
        Some(name) => Some(name.clone()),
        None => match detect_shell(variable) {
            Some(name) => Some(name.to_string()),
            None => None,
        },
    }
}

/// There is a script for every shell that can be detected.
pub proof fn law_detected_has_script(variable: Option<Seq<char>>)
    ensures
        detected(variable) matches Some(shell) ==> is_known(shell),
{
}

/// There is a script exactly for the known shells.
pub proof fn law_known_has_script(shell: Seq<char>)
    ensures
        script(shell) is Some <==> is_known(shell),
{
}

/// The shell is the one that `$SHELL` ends in, and none where it ends in none of
/// them, or is not set.
pub proof fn law_shell_detected(before: Seq<char>, variable: Seq<char>)
    ensures
        detected(Some(before + seq!['z', 's', 'h'])) == Some("zsh"@),
        detected(Some(before + seq!['b', 'a', 's', 'h'])) == Some("bash"@),
        detected(Some(before + seq!['f', 'i', 's', 'h'])) == Some("fish"@),
        detected(None) is None,
        detected(Some(variable)) matches Some(shell) ==> text::ends_with(variable, shell),
        detected(Some(variable)) is None <==> !text::ends_with(variable, "zsh"@)
            && !text::ends_with(variable, "bash"@) && !text::ends_with(variable, "fish"@),
{
    reveal_strlit("zsh");
    reveal_strlit("bash");
    reveal_strlit("fish");
    assert("zsh"@ =~= seq!['z', 's', 'h']);
    assert("bash"@ =~= seq!['b', 'a', 's', 'h']);
    assert("fish"@ =~= seq!['f', 'i', 's', 'h']);
    text::law_ends_of_text("zsh"@, before, variable);
    text::law_ends_of_text("bash"@, before, variable);
    text::law_ends_of_text("fish"@, before, variable);
    let bash = before + "bash"@;
    let fish = before + "fish"@;
    if text::ends_with(bash, "zsh"@) {
        let n = bash.len() - 3;
        assert(bash.subrange(n, n + 3)[0] == bash[n]);
        assert(bash[n] == 'a');
    }
    if text::ends_with(fish, "zsh"@) {
        let n = fish.len() - 3;
        assert(fish.subrange(n, n + 3)[0] == fish[n]);
        assert(fish[n] == 'i');
    }
    if text::ends_with(fish, "bash"@) {
        let n = fish.len() - 4;
        assert(fish.subrange(n, n + 4)[0] == fish[n]);
        assert(fish[n] == 'f');
    }
}

/// Each shell has its own script, and the shell that is asked for counts before
/// the one that is detected.
pub proof fn law_scripts(shell: Seq<char>, variable: Option<Seq<char>>)
    ensures
        script("bash"@) == Some(BASH@),
        script("zsh"@) == Some(ZSH@),
        script("fish"@) == Some(FISH@),
        chosen(Some(shell), variable) == Some(shell),
        chosen(None, variable) == detected(variable),
{
    reveal_strlit("zsh");
    reveal_strlit("bash");
    reveal_strlit("fish");
    assert("zsh"@.len() == 3 && "bash"@.len() == 4 && "fish"@.len() == 4);
    assert("bash"@[0] == 'b' && "fish"@[0] == 'f');
}

/// A report on a shell names it, and tells which file is to be changed for it.
pub proof fn law_shell_reported(shell: Seq<char>)
    ensures
        report_lines(None).len() == 2,
        report_lines(Some(shell)).len() == 4,
        text::ends_with(report_lines(Some(shell))[0], shell),
        text::ends_with(report_lines(Some(shell))[1], shell),
        report_lines(Some("bash"@))[2] == "→ "@
            + "add to ~/.bashrc:    eval \"$(hop init bash)\""@,
        report_lines(Some("zsh"@))[2] == "→ "@ + "add to ~/.zshrc:     eval \"$(hop init zsh)\""@,
        report_lines(Some("fish"@))[2] == "→ "@
            + "add to ~/.config/fish/config.fish:   hop init fish | source"@,
{
    reveal_strlit("zsh");
    reveal_strlit("bash");
    reveal_strlit("fish");
    assert("zsh"@.len() == 3 && "bash"@.len() == 4 && "fish"@.len() == 4);
    assert("bash"@[0] == 'b' && "fish"@[0] == 'f');
    let a = report_lines(Some(shell))[0];
    let b = report_lines(Some(shell))[1];
    assert(a.subrange(a.len() - shell.len(), a.len() as int) =~= shell);
    assert(b.subrange(b.len() - shell.len(), b.len() as int) =~= shell);
}

} // verus!
