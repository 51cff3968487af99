use git_bulk_clean::cli::{help_text, parse_args, CliAction};
use git_bulk_clean::shell::{Shell, COMPLETION_BASH, COMPLETION_FISH, COMPLETION_ZSH};

fn strs(v: &[&str]) -> Vec<String> {
    v.iter().map(|s| s.to_string()).collect()
}

const ALL_FLAGS: &[&str] = &[
    "--daemon",
    "--dry-run",
    "--list",
    "--version",
    "--help",
    "--generate-completions",
];

#[test]
fn completion_bash_contains_all_flags() {
    for flag in ALL_FLAGS {
        assert!(
            COMPLETION_BASH.contains(flag),
            "bash completion missing {flag}"
        );
    }
}

#[test]
fn completion_zsh_contains_all_flags() {
    for flag in ALL_FLAGS {
        assert!(
            COMPLETION_ZSH.contains(flag),
            "zsh completion missing {flag}"
        );
    }
}

#[test]
fn completion_fish_contains_all_flags() {
    // fish uses `-l <name>` syntax, not `--<name>`
    const FISH_FLAGS: &[&str] = &[
        "-l daemon",
        "-l dry-run",
        "-l list",
        "-l version",
        "-l help",
        "-l generate-completions",
    ];
    for flag in FISH_FLAGS {
        assert!(
            COMPLETION_FISH.contains(flag),
            "fish completion missing {flag}"
        );
    }
}

#[test]
fn completion_bash_handles_generate_completions_subarg() {
    assert!(COMPLETION_BASH.contains("bash"));
    assert!(COMPLETION_BASH.contains("zsh"));
    assert!(COMPLETION_BASH.contains("fish"));
}

#[test]
fn completion_zsh_generate_completions_has_shell_choices() {
    assert!(COMPLETION_ZSH.contains("bash"));
    assert!(COMPLETION_ZSH.contains("zsh"));
    assert!(COMPLETION_ZSH.contains("fish"));
}

#[test]
fn completion_fish_generate_completions_requires_argument() {
    assert!(COMPLETION_FISH.contains("-r") || COMPLETION_FISH.contains("--require-parameter"));
}

#[test]
fn parse_args_empty_gives_run_defaults() {
    assert!(matches!(
        parse_args(&strs(&[])),
        Ok(CliAction::Run {
            daemon: false,
            dry_run: false
        })
    ));
}

#[test]
fn parse_args_help_short() {
    assert!(matches!(parse_args(&strs(&["-h"])), Ok(CliAction::Help)));
}

#[test]
fn parse_args_help_long() {
    assert!(matches!(
        parse_args(&strs(&["--help"])),
        Ok(CliAction::Help)
    ));
}

#[test]
fn parse_args_version_short() {
    assert!(matches!(parse_args(&strs(&["-V"])), Ok(CliAction::Version)));
}

#[test]
fn parse_args_version_long() {
    assert!(matches!(
        parse_args(&strs(&["--version"])),
        Ok(CliAction::Version)
    ));
}

#[test]
fn parse_args_generate_completions_bash() {
    let Ok(CliAction::GenerateCompletions(s)) =
        parse_args(&strs(&["--generate-completions", "bash"]))
    else {
        panic!("expected GenerateCompletions");
    };
    assert_eq!(s, Shell::Bash);
}

#[test]
fn parse_args_generate_completions_zsh() {
    let Ok(CliAction::GenerateCompletions(s)) =
        parse_args(&strs(&["--generate-completions", "zsh"]))
    else {
        panic!("expected GenerateCompletions");
    };
    assert_eq!(s, Shell::Zsh);
}

#[test]
fn parse_args_generate_completions_fish() {
    let Ok(CliAction::GenerateCompletions(s)) =
        parse_args(&strs(&["--generate-completions", "fish"]))
    else {
        panic!("expected GenerateCompletions");
    };
    assert_eq!(s, Shell::Fish);
}

#[test]
fn parse_args_generate_completions_unknown_shell() {
    let err = parse_args(&strs(&["--generate-completions", "powershell"])).unwrap_err();
    assert!(
        err.contains("powershell"),
        "error should name the unknown shell"
    );
}

#[test]
fn parse_args_generate_completions_missing_arg() {
    assert!(parse_args(&strs(&["--generate-completions"])).is_err());
}

#[test]
fn parse_args_list() {
    assert!(matches!(
        parse_args(&strs(&["--list"])),
        Ok(CliAction::List)
    ));
}

#[test]
fn parse_args_daemon_only() {
    assert!(matches!(
        parse_args(&strs(&["--daemon"])),
        Ok(CliAction::Run {
            daemon: true,
            dry_run: false
        })
    ));
}

#[test]
fn parse_args_dry_run_only() {
    assert!(matches!(
        parse_args(&strs(&["--dry-run"])),
        Ok(CliAction::Run {
            daemon: false,
            dry_run: true
        })
    ));
}

#[test]
fn parse_args_unknown_flag_is_an_error() {
    for bad in ["--deamon", "--force", "-x", "--dry_run"] {
        let err = parse_args(&strs(&[bad])).unwrap_err();
        assert!(err.contains(bad), "error should name the unknown flag");
    }
}

#[test]
fn parse_args_unknown_flag_rejected_even_with_valid_flags() {
    assert!(parse_args(&strs(&["--daemon", "--oops"])).is_err());
}

#[test]
fn parse_args_daemon_and_dry_run() {
    assert!(matches!(
        parse_args(&strs(&["--daemon", "--dry-run"])),
        Ok(CliAction::Run {
            daemon: true,
            dry_run: true
        })
    ));
}

#[test]
fn help_text_contains_all_flags_and_env_vars() {
    let text = help_text("git-bulk-clean");
    for flag in &[
        "--daemon",
        "--dry-run",
        "--list",
        "--version",
        "--help",
        "--generate-completions",
    ] {
        assert!(text.contains(flag), "help text missing flag {flag}");
    }
    for var in &[
        "MAINTENANCE_REPOS",
        "MAINTENANCE_GHQ_ENABLE",
        "MAINTENANCE_REFLOG_EXPIRE",
        "MAINTENANCE_AGGRESSIVE",
        "MAINTENANCE_INTERVAL",
        "MAINTENANCE_WORKERS",
        "MAINTENANCE_SKIP_SUBMODULES",
        "MAINTENANCE_SKIP_LFS",
        "MAINTENANCE_PRUNE_TAGS",
        "MAINTENANCE_PRUNE_BRANCHES",
        "MAINTENANCE_PROTECTED_BRANCHES",
    ] {
        assert!(text.contains(var), "help text missing env var {var}");
    }
}

#[test]
fn help_text_contains_new_env_vars() {
    let text = help_text("git-bulk-clean");
    assert!(
        text.contains("MAINTENANCE_PRUNE_BRANCHES"),
        "help text missing MAINTENANCE_PRUNE_BRANCHES"
    );
    assert!(
        text.contains("MAINTENANCE_PROTECTED_BRANCHES"),
        "help text missing MAINTENANCE_PROTECTED_BRANCHES"
    );
}

#[test]
fn shell_parse_accepts_supported_shells() {
    assert_eq!(Shell::parse("bash"), Ok(Shell::Bash));
    assert_eq!(Shell::parse("zsh"), Ok(Shell::Zsh));
    assert_eq!(Shell::parse("fish"), Ok(Shell::Fish));
}

#[test]
fn shell_parse_rejects_unknown_shell() {
    let err = Shell::parse("powershell").unwrap_err();
    assert!(err.contains("powershell"), "error should name the shell");
    assert!(err.contains("bash, zsh, fish"), "error should list choices");
}

#[test]
fn shell_as_str_roundtrips_through_parse() {
    for shell in Shell::ALL {
        assert_eq!(Shell::parse(shell.as_str()), Ok(shell));
    }
}

#[test]
fn shell_completion_script_is_shell_specific() {
    assert!(Shell::Bash.completion_script().contains("complete -F"));
    assert!(Shell::Zsh.completion_script().contains("#compdef"));
    assert!(Shell::Fish.completion_script().contains("complete -c"));
}
