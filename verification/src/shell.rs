//! The shells for which there are completion scripts.
use vstd::prelude::*;
use vstd::string::*;

use crate::text;
use crate::text::{debug_string, same};

verus! {

/// A shell for which there is a completion script.
#[derive(Debug, Clone, Copy, PartialEq, Eq, Structural)]
pub enum Shell {
    Bash,
    Zsh,
    Fish,
}

/// The name of a shell, as it is written on the command line.
pub open spec fn shell_name(s: Shell) -> Seq<char> {
    match s {
        Shell::Bash => "bash"@,
        Shell::Zsh => "zsh"@,
        Shell::Fish => "fish"@,
    }
}

/// The shell with a name, if there is one.
pub open spec fn shell_named(name: Seq<char>) -> Option<Shell> {
    if name == "bash"@ {
        Some(Shell::Bash)
    } else if name == "zsh"@ {
        Some(Shell::Zsh)
    } else if name == "fish"@ {
        Some(Shell::Fish)
    } else {
        None
    }
}

/// The message about a name that is not that of a shell, given in quotes.
pub open spec fn unknown_shell(shown: Seq<char>) -> Seq<char> {
    "unknown shell "@ + shown + "; supported: bash, zsh, fish"@
}

/// The message about a name that is not that of a shell, given in quotes.
pub fn unknown_shell_text(shown: &str) -> (r: String)
    ensures
        r@ == unknown_shell(shown@),
        r@ == "unknown shell "@ + shown@ + "; supported: bash, zsh, fish"@,
{
    let mut r = "unknown shell ".to_string();
    r.append(shown);
    r.append("; supported: bash, zsh, fish");
    r
}

/// The completion script for a shell.
pub open spec fn script(s: Shell) -> Seq<char> {
    match s {
        Shell::Bash => COMPLETION_BASH@,
        Shell::Zsh => COMPLETION_ZSH@,
        Shell::Fish => COMPLETION_FISH@,
    }
}

impl Shell {
    /// Every supported shell.
    pub const ALL: [Shell; 3] = [Shell::Bash, Shell::Zsh, Shell::Fish];

    /// The name of the shell, as it is written on the command line.
    pub fn as_str(self) -> (r: &'static str)
        ensures
            r@ == shell_name(self),
    {
        match self {
            Shell::Bash => "bash",
            Shell::Zsh => "zsh",
            Shell::Fish => "fish",
        }
    }

    /// The shell with the name `arg`, or a message if there is none.
    pub fn parse(arg: &str) -> (r: Result<Shell, String>)
        ensures
            match r {
                Ok(s) => shell_named(arg@) == Some(s),
                Err(m) => shell_named(arg@) is None && m@ == unknown_shell(
                    text::debug_text(arg@),
                ),
            },
    {
        for i in 0..Self::ALL.len()
            invariant
                forall|j: int| 0 <= j < i ==> shell_name(#[trigger] Self::ALL@[j]) != arg@,
        {
            let s = Self::ALL[i];
            if same(s.as_str(), arg) {
                proof {
                    shells_are_found_by_name(s);
                }
                return Ok(s);
            }
        }
        assert(shell_name(Self::ALL@[0]) != arg@);
        assert(shell_name(Self::ALL@[1]) != arg@);
        assert(shell_name(Self::ALL@[2]) != arg@);
        Err(unknown_shell_text(debug_string(arg).as_str()))
    }

    /// The completion script for the shell.
    pub fn completion_script(self) -> (r: &'static str)
        ensures
            r@ == script(self),
    {
        match self {
            Shell::Bash => COMPLETION_BASH,
            Shell::Zsh => COMPLETION_ZSH,
            Shell::Fish => COMPLETION_FISH,
        }
    }
}

/// Every shell is found by its name.
pub proof fn shells_are_found_by_name(s: Shell)
    ensures
        shell_named(shell_name(s)) == Some(s),
{
    reveal_strlit("bash");
    reveal_strlit("zsh");
    reveal_strlit("fish");
    assert("bash"@[0] == 'b');
    assert("zsh"@[0] == 'z');
    assert("fish"@[0] == 'f');
}

/// Only the name of a shell finds it.
pub proof fn only_names_find_shells(name: Seq<char>)
    ensures
        shell_named(name) matches Some(s) ==> shell_name(s) == name,
{
}

/// The completion script for bash.
pub const COMPLETION_BASH: &'static str = r#"# bash completion for git-bulk-clean

_git_bulk_clean() {
    local cur prev
    _init_completion 2>/dev/null || {
        cur="${COMP_WORDS[COMP_CWORD]}"
        prev="${COMP_WORDS[COMP_CWORD-1]}"
    }

    if [[ "${prev}" == "--generate-completions" ]]; then
        COMPREPLY=($(compgen -W "bash zsh fish" -- "${cur}"))
        return 0
    fi

    COMPREPLY=($(compgen -W "
        --daemon
        --dry-run
        --list
        --version
        -V
        --help
        -h
        --generate-completions
    " -- "${cur}"))
}

complete -F _git_bulk_clean git-bulk-clean
"#;

/// The completion script for zsh.
pub const COMPLETION_ZSH: &'static str = r#"#compdef git-bulk-clean

_git_bulk_clean() {
    local -a opts
    opts=(
        '--daemon[loop forever, sleeping MAINTENANCE_INTERVAL between cycles]'
        '--dry-run[show what would run without executing git commands]'
        '--list[print discovered repositories and exit]'
        '--version[print version and exit]'
        '-V[print version and exit]'
        '--help[print this help and exit]'
        '-h[print this help and exit]'
        '--generate-completions[print shell completion script]:shell:(bash zsh fish)'
    )

    _arguments -s $opts
}

_git_bulk_clean "$@"
"#;

/// The completion script for fish.
pub const COMPLETION_FISH: &'static str = r#"# fish completion for git-bulk-clean

complete -c git-bulk-clean -f

complete -c git-bulk-clean -l daemon                -d 'Loop forever, sleeping MAINTENANCE_INTERVAL between cycles'
complete -c git-bulk-clean -l dry-run               -d 'Show what would run without executing git commands'
complete -c git-bulk-clean -l list                  -d 'Print discovered repositories and exit'
complete -c git-bulk-clean -l version               -d 'Print version and exit'
complete -c git-bulk-clean -s V                     -d 'Print version and exit'
complete -c git-bulk-clean -l help                  -d 'Print this help and exit'
complete -c git-bulk-clean -s h                     -d 'Print this help and exit'
complete -c git-bulk-clean -l generate-completions  -r -a 'bash zsh fish' -d 'Print shell completion script for given shell'
"#;

/// The names of the shells, both ways.
pub proof fn shells_go_by_these_names(name: Seq<char>)
    ensures
        shell_name(Shell::Bash) == "bash"@,
        shell_name(Shell::Zsh) == "zsh"@,
        shell_name(Shell::Fish) == "fish"@,
        shell_named(name) == Some(Shell::Bash) <==> name == "bash"@,
        shell_named(name) == Some(Shell::Zsh) <==> name == "zsh"@,
        shell_named(name) == Some(Shell::Fish) <==> name == "fish"@,
        shell_named(name) is None <==> name != "bash"@ && name != "zsh"@ && name != "fish"@,
{
    shells_are_found_by_name(Shell::Bash);
    shells_are_found_by_name(Shell::Zsh);
    shells_are_found_by_name(Shell::Fish);
}

/// Each shell has its own completion script.
pub proof fn shells_have_their_own_scripts()
    ensures
        script(Shell::Bash) == COMPLETION_BASH@,
        script(Shell::Zsh) == COMPLETION_ZSH@,
        script(Shell::Fish) == COMPLETION_FISH@,
{
}

} // verus!
