use git_bulk_clean::cli::{
    error_text, help_text, parse_args, program_name, unknown_option_text, version_text, CliAction,
};
use git_bulk_clean::config::{expire_rejected_text, Config, VarError};
use git_bulk_clean::cycle::{daemon_mode, run_cycle, sleeping, worker_done, CycleStats};
use git_bulk_clean::repo::{RepoInfo, RepoKind};
use git_bulk_clean::shell::unknown_shell_text;

fn config(workers: &str) -> Config {
    Config::from_vars(|k: &str| match k {
        "MAINTENANCE_WORKERS" => Ok(workers.to_string()),
        _ => Err(VarError::NotPresent),
    })
}

fn repos(kinds: &[RepoKind]) -> Vec<RepoInfo> {
    kinds
        .iter()
        .enumerate()
        .map(|(i, kind)| RepoInfo { path: format!("/r{i}"), kind: *kind })
        .collect()
}

#[test]
fn empty_cycles_end_at_once() {
    let mut c = run_cycle(&config("3"), &Vec::new(), false);
    assert_eq!(c.opening(), "no repositories found");
    assert_eq!(c.workers(), 0);
    assert_eq!(c.take(), None);
    assert_eq!(c.closing(), None);
    assert_eq!(c.stats(), CycleStats { failed: 0, discovery_failed: false });
    assert_eq!(c.stats().exit_code(), 0);
}

#[test]
fn there_are_no_more_workers_than_repositories() {
    let one = repos(&[RepoKind::Normal]);
    let c = run_cycle(&config("5"), &one, false);
    assert_eq!(c.opening(), "starting cycle: 1 repositories (0 bare), 1 workers");
    assert_eq!(c.workers(), 1);
    let four = repos(&[RepoKind::Bare, RepoKind::Normal, RepoKind::Bare, RepoKind::Normal]);
    let c = run_cycle(&config("3"), &four, false);
    assert_eq!(c.opening(), "starting cycle: 4 repositories (2 bare), 3 workers");
    assert_eq!(c.workers(), 3);
}

#[test]
fn repositories_are_handed_out_in_order() {
    let three = repos(&[RepoKind::Normal, RepoKind::Bare, RepoKind::Normal]);
    let mut c = run_cycle(&config("2"), &three, false);
    assert_eq!(c.take(), Some(0));
    assert_eq!(c.take(), Some(1));
    c.finish(true);
    assert_eq!(c.take(), Some(2));
    c.finish(false);
    assert_eq!(c.take(), None);
    c.finish(true);
    assert_eq!(c.take(), None);
    assert_eq!(c.closing(), Some("cycle complete — 2/3 ok, 1 failed".to_string()));
    assert_eq!(c.stats().failed, 1);
    assert_eq!(c.stats().exit_code(), 1);
}

#[test]
fn clean_cycles_exit_with_zero() {
    let mut c = run_cycle(&config("1"), &repos(&[RepoKind::Normal]), false);
    assert_eq!(c.take(), Some(0));
    c.finish(true);
    assert_eq!(c.closing(), Some("cycle complete — 1/1 ok, 0 failed".to_string()));
    assert_eq!(c.stats().exit_code(), 0);
}

#[test]
fn failed_discovery_exits_with_one() {
    let c = run_cycle(&config("1"), &Vec::new(), true);
    assert_eq!(c.stats(), CycleStats { failed: 0, discovery_failed: true });
    assert_eq!(c.stats().exit_code(), 1);
}

#[test]
fn messages_name_numbers() {
    assert_eq!(worker_done(0), "worker 0: done");
    assert_eq!(sleeping(86400), "sleeping 86400s");
    assert_eq!(daemon_mode(&config("7")), "daemon mode — interval 86400s, 7 workers");
}

fn flags(v: &[&str]) -> Vec<String> {
    v.iter().map(|s| s.to_string()).collect()
}

#[test]
fn errors_in_arguments_are_described() {
    assert_eq!(
        parse_args(&flags(&["--list", "--de\"amon"])),
        Err("unknown option \"--de\\\"amon\" (see --help)".to_string())
    );
    assert_eq!(
        parse_args(&flags(&["--generate-completions", "power\tshell"])),
        Err("unknown shell \"power\\tshell\"; supported: bash, zsh, fish".to_string())
    );
    assert_eq!(
        parse_args(&flags(&["--list", "--generate-completions"])),
        Err("--generate-completions requires a shell argument (bash, zsh, fish)".to_string())
    );
}

#[test]
fn messages_take_quoted_texts() {
    assert_eq!(unknown_option_text("\"x\""), "unknown option \"x\" (see --help)");
    assert_eq!(unknown_shell_text("\"x\""), "unknown shell \"x\"; supported: bash, zsh, fish");
    assert_eq!(
        expire_rejected_text("\"now\""),
        "[git-bulk-clean] warning: MAINTENANCE_REFLOG_EXPIRE \"now\" rejected (dangerous value), using default"
    );
}

#[test]
fn the_argument_of_completions_is_not_an_option() {
    assert_eq!(
        parse_args(&flags(&["--generate-completions", "oops", "--help"])),
        Ok(CliAction::Help)
    );
    assert_eq!(
        parse_args(&flags(&["--generate-completions", "--version"])),
        Ok(CliAction::Version)
    );
    assert!(parse_args(&flags(&["--generate-completions", "bash", "oops"])).is_err());
    assert!(
        parse_args(&flags(&["--generate-completions", "--generate-completions"]))
            .unwrap_err()
            .contains("unknown shell")
    );
}

#[test]
fn options_have_an_order_of_precedence() {
    assert_eq!(parse_args(&flags(&["--list", "-V", "-h"])), Ok(CliAction::Help));
    assert_eq!(parse_args(&flags(&["--daemon", "--list", "-V"])), Ok(CliAction::Version));
    assert_eq!(parse_args(&flags(&["--daemon", "--list"])), Ok(CliAction::List));
}

#[test]
fn texts_for_the_user() {
    assert_eq!(version_text(), "git-bulk-clean 0.6.1");
    assert_eq!(error_text("no"), "error: no");
    assert_eq!(program_name(&flags(&["/bin/gbc", "-h"])), "/bin/gbc");
    assert_eq!(program_name(&[]), "git-bulk-clean");
    let help = help_text("gbc");
    assert!(help.starts_with("Usage: gbc [OPTIONS]\n\nOptions:\n  --daemon "));
    assert!(help.contains("Reflog cutoff (default: 30.days.ago)\n"));
    assert!(help.contains("Daemon sleep interval in seconds (default: 86400)\n"));
    assert!(help.contains("Parallel workers (default: 5)\n"));
    assert!(help.contains("MAINTENANCE_PRUNE_WORKTREES"));
    assert!(help.contains("MAINTENANCE_CREDENTIAL_HELPERS"));
    assert!(help.ends_with("(if LFS configured)\n"));
}
