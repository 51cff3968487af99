use git_bulk_clean::call::{
    failure_message, failure_text, with_git_config, GitCall, Output, Profile, SCRUBBED_VARS,
};
use git_bulk_clean::config::{Config, VarError, Vars};
use git_bulk_clean::repo::{
    collect_repos, dedup_sorted, discover, ghq_repos, probe_repo, read_probe, Candidate, RepoInfo,
    RepoKind,
};

fn said(text: &str) -> Output {
    Output::Exited { success: true, stdout: text.as_bytes().to_vec(), stderr: Vec::new() }
}

fn failed(text: &str) -> Output {
    Output::Exited { success: false, stdout: Vec::new(), stderr: text.as_bytes().to_vec() }
}

fn not_run() -> Output {
    Output::NotRun { error: "No such file or directory (os error 2)".to_string() }
}

fn config(repos: &str, ghq: &str) -> Config {
    Config::from_vars(|k: &str| match k {
        "MAINTENANCE_REPOS" => Ok(repos.to_string()),
        "MAINTENANCE_GHQ_ENABLE" => Ok(ghq.to_string()),
        _ => Err(VarError::NotPresent),
    })
}

fn found(path: &str, kind: RepoKind, git_dir: &str) -> Candidate {
    Candidate { path: path.to_string(), probe: Some((kind, git_dir.to_string())) }
}

#[test]
fn ghq_paths_are_nonblank_lines() {
    assert_eq!(
        ghq_repos(&said("/g/a\n  /g/b \n\n")),
        Some(vec!["/g/a".to_string(), "/g/b".to_string()])
    );
    assert_eq!(ghq_repos(&failed("boom")), None);
    assert_eq!(ghq_repos(&not_run()), None);
}

#[test]
fn invalid_bytes_from_ghq_are_replaced() {
    let o = Output::Exited { success: true, stdout: b"/g/\xffa\n".to_vec(), stderr: Vec::new() };
    assert_eq!(ghq_repos(&o), Some(vec!["/g/\u{fffd}a".to_string()]));
}

#[test]
fn discovery_merges_both_sources() {
    let d = discover(&config("/z,/a,/z", "true"), &Some(said("/m\n/a\n")));
    assert_eq!(d.paths, ["/a", "/m", "/z"]);
    assert!(!d.failed);
}

#[test]
fn discovery_without_ghq_takes_the_settings_alone() {
    let d = discover(&config("/z,/a", "false"), &Some(said("/m\n")));
    assert_eq!(d.paths, ["/a", "/z"]);
    assert!(!d.failed);
    let d = discover(&config("/z,/a", "false"), &None);
    assert_eq!(d.paths, ["/a", "/z"]);
    assert!(!d.failed);
}

#[test]
fn discovery_fails_if_ghq_gives_no_answer() {
    for ghq in [Some(failed("")), Some(not_run()), None] {
        let d = discover(&config("/z,/a", "true"), &ghq);
        assert_eq!(d.paths, ["/a", "/z"]);
        assert!(d.failed);
    }
}

#[test]
fn merged_lists_do_not_depend_on_the_order() {
    let a = || vec!["/b".to_string(), "/é".to_string(), "/B".to_string()];
    let b = || vec!["/a b".to_string(), "/b".to_string(), "".to_string()];
    let one = dedup_sorted(vec![a(), b()]);
    let two = dedup_sorted(vec![b(), a(), a()]);
    assert_eq!(one, two);
    let mut expected: Vec<String> = a().into_iter().chain(b()).collect();
    expected.sort();
    expected.dedup();
    assert_eq!(one, expected);
}

#[test]
fn the_probe_asks_for_kind_and_place() {
    let c = probe_repo("/r");
    assert_eq!(c.dir, "/r");
    assert_eq!(
        c.shown(),
        "git rev-parse --path-format=absolute --is-bare-repository --git-common-dir"
    );
    assert_eq!(c.profile, Profile::Probe);
}

#[test]
fn probe_answers_are_read() {
    assert_eq!(
        read_probe(&said("false\n/r/.git\n")),
        Some((RepoKind::Normal, "/r/.git".to_string()))
    );
    assert_eq!(
        read_probe(&said(" true \r\n /r.git \nmore\n")),
        Some((RepoKind::Bare, "/r.git".to_string()))
    );
    assert_eq!(read_probe(&said("true\n")), None);
    assert_eq!(read_probe(&failed("fatal: not a git repository")), None);
    assert_eq!(read_probe(&not_run()), None);
    let o = Output::Exited { success: true, stdout: b"true\n/\xff\n".to_vec(), stderr: Vec::new() };
    assert_eq!(read_probe(&o), None);
}

#[test]
fn each_repository_is_collected_once() {
    let repos = collect_repos(vec![
        found("/a", RepoKind::Normal, "/a/.git"),
        Candidate { path: "/b".to_string(), probe: None },
        found("/c", RepoKind::Bare, "/c"),
        found("/d", RepoKind::Normal, "/a/.git"),
        found("/e", RepoKind::Normal, "/e/.git"),
    ]);
    let got: Vec<(&str, RepoKind)> = repos.iter().map(|r| (r.path.as_str(), r.kind)).collect();
    assert_eq!(
        got,
        [("/a", RepoKind::Normal), ("/c", RepoKind::Bare), ("/e", RepoKind::Normal)]
    );
}

#[test]
fn listed_repositories_show_their_kind() {
    let r = RepoInfo { path: "/r".to_string(), kind: RepoKind::Bare };
    assert_eq!(r.list_line(), "bare  /r");
    let r = RepoInfo { path: "/s".to_string(), kind: RepoKind::Normal };
    assert_eq!(r.list_line(), "norm  /s");
}

fn env_of(p: Profile) -> Vec<String> {
    with_git_config(p).into_iter().map(|(k, v)| format!("{k}={v}")).collect()
}

#[test]
fn questions_have_hooks_off() {
    assert_eq!(
        env_of(Profile::Probe),
        [
            "GIT_TERMINAL_PROMPT=0",
            "GIT_CONFIG_COUNT=1",
            "GIT_CONFIG_KEY_0=core.hooksPath",
            "GIT_CONFIG_VALUE_0=/dev/null",
        ]
    );
}

#[test]
fn maintenance_resets_credential_helpers() {
    assert_eq!(
        env_of(Profile::Hardened),
        [
            "GIT_TERMINAL_PROMPT=0",
            "GIT_CONFIG_COUNT=4",
            "GIT_CONFIG_KEY_0=core.hooksPath",
            "GIT_CONFIG_VALUE_0=/dev/null",
            "GIT_CONFIG_KEY_1=credential.helper",
            "GIT_CONFIG_VALUE_1=",
            "GIT_CONFIG_KEY_2=core.fsmonitor",
            "GIT_CONFIG_VALUE_2=false",
            "GIT_CONFIG_KEY_3=core.sshCommand",
            "GIT_CONFIG_VALUE_3=ssh",
        ]
    );
}

#[test]
fn leave_keeps_credential_helpers() {
    let env = GitCall::new("/r", &["fetch"], Profile::Helpers).env();
    assert!(env.iter().all(|(_, v)| v != "credential.helper"));
    assert_eq!(env[1], ("GIT_CONFIG_COUNT".to_string(), "3".to_string()));
    assert_eq!(env.len(), 8);
}

#[test]
fn redirections_and_programs_are_scrubbed() {
    for name in ["GIT_DIR", "GIT_WORK_TREE", "GIT_ASKPASS", "GIT_SSH_VARIANT", "GIT_TRACE_SHALLOW"] {
        assert!(SCRUBBED_VARS.contains(&name), "{name}");
    }
}

#[test]
fn nothing_is_both_scrubbed_and_set() {
    for p in [Profile::Probe, Profile::Hardened, Profile::Helpers] {
        let call = GitCall::new("/r", &["gc"], p);
        assert_eq!(call.unset(), SCRUBBED_VARS);
        for (name, _) in call.env() {
            assert!(!call.unset().contains(&name), "{name}");
        }
    }
}

#[test]
fn failures_are_described() {
    assert_eq!(
        failure_text("/r", "git gc", " a\nb "),
        Some("/r: `git gc` — a?b".to_string())
    );
    assert_eq!(failure_text("/r", "git gc", "\t"), None);
    assert_eq!(
        failure_message("/r\n", "git gc", &failed(" fatal:\tno \n")),
        Some("/r?: `git gc` — fatal:?no".to_string())
    );
    assert_eq!(failure_message("/r", "git gc", &failed("  \n")), None);
    assert_eq!(failure_message("/r", "git gc", &said("")), None);
    assert_eq!(
        failure_message("/r", "git gc", &not_run()),
        Some("/r: `git gc` — No such file or directory (os error 2)".to_string())
    );
}

#[test]
fn rejected_cutoffs_are_warned_about() {
    let vars = |v: &str| {
        let v = v.to_string();
        Vars::read(|k: &str| match k {
            "MAINTENANCE_REFLOG_EXPIRE" => Ok(v.clone()),
            _ => Err(VarError::NotPresent),
        })
    };
    assert_eq!(
        vars("no\"w").warning(),
        Some(
            "[git-bulk-clean] warning: MAINTENANCE_REFLOG_EXPIRE \"no\\\"w\" rejected (dangerous value), using default"
                .to_string()
        )
    );
    assert_eq!(vars("never").warning(), None);
    let none = Vars::read(|_k: &str| Err::<String, VarError>(VarError::NotUnicode));
    assert_eq!(none.warning(), None);
    assert_eq!(Config::from_values(&none).reflog_expire, "30.days.ago");
}
