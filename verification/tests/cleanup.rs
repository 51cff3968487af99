use git_bulk_clean::branches::{detect_mainline, doomed_branches, read_branch_name};
use git_bulk_clean::call::{GitCall, Output, Profile};
use git_bulk_clean::clean::{clean_repo, has_submodules, Action, Reply};
use git_bulk_clean::config::{CleanOptions, Config, VarError};
use git_bulk_clean::phases::{
    count_packs, phase_branches, phase_fetch, phase_refs, read_pack_count, read_packs, Step,
};
use git_bulk_clean::repo::{RepoInfo, RepoKind};
use git_bulk_clean::worktrees::{
    idle_for, read_link, read_worktrees, spare_worktrees, IDLE_SECS,
};

fn said(text: &str) -> Output {
    Output::Exited { success: true, stdout: text.as_bytes().to_vec(), stderr: Vec::new() }
}

fn failed(text: &str) -> Output {
    Output::Exited { success: false, stdout: Vec::new(), stderr: text.as_bytes().to_vec() }
}

fn options(vars: &[(&str, &str)]) -> CleanOptions {
    let cfg = Config::from_vars(|k: &str| {
        vars.iter()
            .find(|(name, _)| *name == k)
            .map(|(_, v)| v.to_string())
            .ok_or(VarError::NotPresent)
    });
    CleanOptions::from_config(&cfg)
}

fn repo(kind: RepoKind) -> RepoInfo {
    RepoInfo { path: "/r".to_string(), kind }
}

/// What a cleanup did: what it logged, the commands it ran, and how it ended.
struct Trace {
    logs: Vec<String>,
    commands: Vec<String>,
    calls: Vec<GitCall>,
    ok: bool,
}

/// Surroundings of a cleanup: the answers to commands, by their beginning, and
/// what is to be found in the file system. Other commands succeed silently.
struct World<'a> {
    answers: &'a [(&'a str, &'a dyn Fn() -> Output)],
    submodules: bool,
    idle: u64,
}

fn run(repo: &RepoInfo, opts: &CleanOptions, dry_run: bool, world: &World) -> Trace {
    let mut job = clean_repo(repo, opts, dry_run, 2, 3);
    let mut t = Trace { logs: Vec::new(), commands: Vec::new(), calls: Vec::new(), ok: false };
    loop {
        match job.action() {
            Action::Log(m) => {
                t.logs.push(m);
                job.reply(Reply::Logged);
            }
            Action::Run(c) => {
                let shown = c.shown();
                assert_eq!(c.dir, "/r");
                let o = world
                    .answers
                    .iter()
                    .find(|(start, _)| shown.starts_with(start))
                    .map(|(_, f)| f())
                    .unwrap_or_else(|| said(""));
                t.commands.push(shown);
                t.calls.push(c);
                job.reply(Reply::Ran(o));
            }
            Action::Exists { dir, name } => {
                assert_eq!((dir.as_str(), name.as_str()), ("/r", ".gitmodules"));
                job.reply(Reply::Exists(world.submodules));
            }
            Action::Idle(_) => job.reply(Reply::Idle(world.idle)),
            Action::Elapsed => job.reply(Reply::Elapsed(1234)),
            Action::Finish(ok) => {
                t.ok = ok;
                return t;
            }
        }
    }
}

fn no_lfs() -> Output {
    failed("")
}

fn no_packs() -> Output {
    said("packs: 0\n")
}

const QUIET: World = World {
    answers: &[("git config --local", &no_lfs), ("git count-objects", &no_packs)],
    submodules: false,
    idle: 0,
};

#[test]
fn the_pipeline_runs_in_order() {
    let t = run(&repo(RepoKind::Normal), &options(&[]), false, &QUIET);
    assert_eq!(
        t.commands,
        [
            "git fetch --all --prune",
            "git pack-refs --all",
            "git worktree prune",
            "git reflog expire --expire=30.days.ago --all",
            "git rerere gc",
            "git notes prune",
            "git maintenance run --task=loose-objects",
            "git count-objects -v",
            "git gc --auto",
            "git maintenance run --task=commit-graph",
            "git config --local --get-regexp filter\\.lfs\\.",
        ]
    );
    assert_eq!(t.logs, ["[2/3] cleaning: /r", "[2/3] /r: done in 1234ms (ok)"]);
    assert!(t.ok);
}

#[test]
fn packs_are_repacked_if_there_are_any() {
    let packs = || said("count: 0\nin-pack: 9\npacks: 2\n");
    let world = World { answers: &[("git count-objects", &packs)], submodules: true, idle: 0 };
    let t = run(&repo(RepoKind::Normal), &options(&[]), false, &world);
    assert_eq!(
        t.commands[7..],
        [
            "git count-objects -v",
            "git maintenance run --task=incremental-repack",
            "git gc --auto",
            "git maintenance run --task=commit-graph",
            "git submodule sync --recursive",
            "git submodule foreach --recursive git gc --auto",
            "git config --local --get-regexp filter\\.lfs\\.",
            "git lfs prune",
        ]
    );
    assert!(t.ok);
}

#[test]
fn pack_counts_are_read() {
    assert_eq!(read_packs(&said("packs: 1\n")), Some(1));
    assert_eq!(read_packs(&said("packs: 0\n")), Some(0));
    assert_eq!(read_packs(&said("in-packs: 4\n")), None);
    assert_eq!(read_packs(&said("packs: many\n")), None);
    assert_eq!(read_packs(&said("")), None);
    assert_eq!(read_packs(&failed("packs: 1\n")), None);
    assert_eq!(read_pack_count("count: 7\npacks:  3 \npacks: 0\n"), Some(3));
    assert_eq!(read_pack_count("count: 7\n"), None);
    assert_eq!(count_packs("/r").shown(), "git count-objects -v");
}

#[test]
fn a_failed_pack_count_is_a_failure_and_no_excuse() {
    let broken = || failed("bad index");
    let gone = || Output::NotRun { error: "gone".to_string() };
    let cases: [(&dyn Fn() -> Output, &str); 2] = [(&broken, "bad index"), (&gone, "gone")];
    for (answer, why) in cases {
        let world = World {
            answers: &[("git count-objects", answer), ("git config --local", &no_lfs)],
            submodules: false,
            idle: 0,
        };
        let t = run(&repo(RepoKind::Normal), &options(&[]), false, &world);
        assert_eq!(
            t.commands[7..10],
            [
                "git count-objects -v",
                "git maintenance run --task=incremental-repack",
                "git gc --auto",
            ]
        );
        assert_eq!(t.logs[1], format!("/r: `git count-objects -v` — {why}"));
        assert!(!t.ok);
    }
}

#[test]
fn a_pack_count_without_a_number_is_no_excuse() {
    let odd = || said("count: 0\nsize: 0\n");
    let world = World {
        answers: &[("git count-objects", &odd), ("git config --local", &no_lfs)],
        submodules: false,
        idle: 0,
    };
    let t = run(&repo(RepoKind::Normal), &options(&[]), false, &world);
    assert_eq!(t.commands[8], "git maintenance run --task=incremental-repack");
    assert_eq!(t.logs.len(), 2);
    assert!(t.ok);
}

#[test]
fn thorough_cleanups_repack_everything() {
    let opts = options(&[("MAINTENANCE_AGGRESSIVE", "true"), ("MAINTENANCE_SKIP_LFS", "true")]);
    let t = run(&repo(RepoKind::Normal), &opts, false, &QUIET);
    assert_eq!(
        t.commands[6..],
        [
            "git maintenance run --task=loose-objects",
            "git repack -a -d -f",
            "git gc --aggressive --prune=all",
            "git maintenance run --task=commit-graph",
        ]
    );
}

#[test]
fn bare_repositories_skip_what_needs_a_working_tree() {
    let opts = options(&[
        ("MAINTENANCE_PRUNE_BRANCHES", "true"),
        ("MAINTENANCE_PRUNE_WORKTREES", "true"),
    ]);
    let world = World { answers: &[], submodules: true, idle: u64::MAX };
    let t = run(&repo(RepoKind::Bare), &opts, false, &world);
    assert_eq!(t.logs[0], "[2/3] cleaning: /r (bare)");
    for c in &t.commands {
        for word in ["worktree", "branch", "submodule", "symbolic-ref"] {
            assert!(!c.contains(word), "{c}");
        }
    }
    assert!(t.commands.contains(&"git lfs prune".to_string()));
}

#[test]
fn failures_do_not_stop_a_cleanup() {
    let broken = || failed("no\nluck");
    let silent = || failed("");
    let gone = || Output::NotRun { error: "gone".to_string() };
    let world = World {
        answers: &[
            ("git fetch", &broken),
            ("git rerere", &silent),
            ("git gc", &gone),
            ("git count-objects", &no_packs),
            ("git config --local", &no_lfs),
        ],
        submodules: false,
        idle: 0,
    };
    let t = run(&repo(RepoKind::Normal), &options(&[]), false, &world);
    assert_eq!(t.commands.len(), 11);
    assert_eq!(
        t.logs,
        [
            "[2/3] cleaning: /r",
            "/r: `git fetch --all --prune` — no?luck",
            "/r: `git gc --auto` — gone",
            "[2/3] /r: done in 1234ms (some errors)",
        ]
    );
    assert!(!t.ok);
}

#[test]
fn merged_branches_are_deleted_but_not_protected_ones() {
    let head = || said("origin/trunk\n");
    let merged = || said("* current\n+ elsewhere\n  trunk\n  feature/x\n  keep\n  (no branch)\n  -D\n  y\n");
    let world = World {
        answers: &[
            ("git symbolic-ref", &head),
            ("git branch --merged trunk", &merged),
            ("git config --local", &no_lfs),
        ],
        submodules: false,
        idle: 0,
    };
    let opts = options(&[
        ("MAINTENANCE_PRUNE_BRANCHES", "true"),
        ("MAINTENANCE_PROTECTED_BRANCHES", "keep"),
    ]);
    let t = run(&repo(RepoKind::Normal), &opts, false, &world);
    assert_eq!(
        t.commands[6..9],
        [
            "git symbolic-ref --short refs/remotes/origin/HEAD",
            "git branch --merged trunk",
            "git branch -d -- feature/x y",
        ]
    );
    assert!(t.ok);
}

#[test]
fn nothing_is_deleted_when_nothing_is_merged() {
    let head = || said("origin/main\n");
    let merged = || said("* main\n");
    let world = World {
        answers: &[
            ("git symbolic-ref", &head),
            ("git branch --merged", &merged),
            ("git config --local", &no_lfs),
        ],
        submodules: false,
        idle: 0,
    };
    let opts = options(&[("MAINTENANCE_PRUNE_BRANCHES", "true")]);
    let t = run(&repo(RepoKind::Normal), &opts, false, &world);
    assert!(t.commands.iter().all(|c| !c.starts_with("git branch -d")));
    assert!(t.ok);
}

#[test]
fn a_failed_branch_listing_is_a_failure() {
    let head = || said("origin/ma\u{7}in\n");
    let broken = || failed("bad object");
    let world = World {
        answers: &[
            ("git symbolic-ref", &head),
            ("git branch --merged", &broken),
            ("git config --local", &no_lfs),
        ],
        submodules: false,
        idle: 0,
    };
    let opts = options(&[("MAINTENANCE_PRUNE_BRANCHES", "true")]);
    let t = run(&repo(RepoKind::Normal), &opts, false, &world);
    assert_eq!(t.logs[1], "/r: `git branch --merged ma?in` — bad object");
    assert!(!t.ok);
}

#[test]
fn without_a_mainline_branches_are_left_alone() {
    let no = || failed("fatal");
    let world = World {
        answers: &[
            ("git symbolic-ref", &no),
            ("git rev-parse --verify", &no),
            ("git config --local", &no_lfs),
        ],
        submodules: false,
        idle: 0,
    };
    let opts = options(&[("MAINTENANCE_PRUNE_BRANCHES", "true")]);
    let t = run(&repo(RepoKind::Normal), &opts, false, &world);
    assert_eq!(
        t.commands[6..9],
        [
            "git symbolic-ref --short refs/remotes/origin/HEAD",
            "git rev-parse --verify --quiet refs/heads/main",
            "git rev-parse --verify --quiet refs/heads/master",
        ]
    );
    assert_eq!(t.logs[1], "/r: no mainline branch found; skipping branch pruning");
    assert!(t.ok);
}

#[test]
fn mainlines_are_detected() {
    let no = failed("");
    let yes = said("");
    let found = |head: &str| detect_mainline(&said(head), &no, &no);
    assert_eq!(found("origin/main\n"), Some("main".to_string()));
    assert_eq!(found("origin/release/1.0\n"), Some("release/1.0".to_string()));
    assert_eq!(found("plain\n"), Some("plain".to_string()));
    assert_eq!(found("origin/\n"), None);
    assert_eq!(found("origin/-x\n"), None);
    assert_eq!(detect_mainline(&said("origin/-x\n"), &yes, &yes), Some("main".to_string()));
    assert_eq!(detect_mainline(&no, &yes, &yes), Some("main".to_string()));
    assert_eq!(detect_mainline(&no, &no, &yes), Some("master".to_string()));
    assert_eq!(detect_mainline(&no, &no, &no), None);
}

#[test]
fn branch_names_are_read() {
    assert_eq!(read_branch_name(" origin/a/b \n"), Some("a/b".to_string()));
    assert_eq!(read_branch_name("a"), Some("a".to_string()));
    assert_eq!(read_branch_name("origin/-f"), None);
    assert_eq!(read_branch_name(" \n"), None);
}

#[test]
fn branch_listings_are_read() {
    let listing = "* a\n+ b\n  c\n  (HEAD detached at 1234)\n  -d\n  main\n  kept\n\n  e \n";
    let got = doomed_branches(listing, "main", &vec!["kept".to_string()]);
    assert_eq!(got, ["c", "e"]);
}

const WORKTREES: &str = "worktree /r\nHEAD 111\nbranch refs/heads/main\n\n\
worktree /w/one\nHEAD 222\nbranch refs/heads/one\n\n\
worktree /w/locked\nHEAD 333\nbranch refs/heads/two\nlocked for now\n\n\
worktree /w/gone\nHEAD 444\ndetached\nprunable gitdir file points to non-existent location\n\n\
worktree /w/kept\nHEAD 555\nbranch refs/heads/keep\n\n\
worktree /w/loose\nHEAD 666\ndetached\n\n";

#[test]
fn worktree_listings_are_read() {
    let all = read_worktrees(WORKTREES);
    let paths: Vec<&str> = all.iter().map(|w| w.path.as_str()).collect();
    assert_eq!(paths, ["/r", "/w/one", "/w/locked", "/w/gone", "/w/kept", "/w/loose"]);
    assert_eq!((all[1].head.as_str(), all[1].branch.as_str()), ("222", "one"));
    assert!(all[2].locked && !all[2].prunable);
    assert!(all[3].prunable && all[3].branch.is_empty());
    let spare = spare_worktrees(WORKTREES, "/r", &vec!["keep".to_string()]);
    let paths: Vec<&str> = spare.iter().map(|w| w.path.as_str()).collect();
    assert_eq!(paths, ["/w/one", "/w/loose"]);
    assert!(spare_worktrees("", "/r", &Vec::new()).is_empty());
}

#[test]
fn idleness_counts_from_the_latest_change() {
    assert_eq!(idle_for(100, &vec![20, 70, 30]), 30);
    assert_eq!(idle_for(100, &vec![100]), 0);
    assert_eq!(idle_for(100, &vec![20, 101]), 0);
    assert_eq!(idle_for(100, &Vec::new()), 0);
    assert_eq!(idle_for(u64::MAX, &vec![0]), u64::MAX);
}

#[test]
fn worktree_links_are_read() {
    assert_eq!(read_link("gitdir: /r/.git/worktrees/w\n"), Some("/r/.git/worktrees/w".to_string()));
    assert_eq!(read_link("gitdir:x"), Some("x".to_string()));
    assert_eq!(read_link(" gitdir: x"), None);
    assert_eq!(read_link(""), None);
}

fn worktree_run(idle: u64) -> Trace {
    let head = || said("origin/main\n");
    let list = || said(WORKTREES);
    let no = || failed("");
    let world = World {
        answers: &[
            ("git symbolic-ref", &head),
            ("git worktree list", &list),
            ("git merge-base --is-ancestor 666", &no),
            ("git config --local", &no_lfs),
        ],
        submodules: false,
        idle,
    };
    let opts = options(&[
        ("MAINTENANCE_PRUNE_WORKTREES", "true"),
        ("MAINTENANCE_PROTECTED_BRANCHES", "keep"),
    ]);
    run(&repo(RepoKind::Normal), &opts, false, &world)
}

#[test]
fn merged_worktrees_are_removed() {
    let t = worktree_run(IDLE_SECS);
    assert_eq!(
        t.commands[6..11],
        [
            "git symbolic-ref --short refs/remotes/origin/HEAD",
            "git worktree list --porcelain",
            "git merge-base --is-ancestor 222 main",
            "git worktree remove -- /w/one",
            "git merge-base --is-ancestor 666 main",
        ]
    );
    assert!(!t.commands.contains(&"git worktree remove -- /w/loose".to_string()));
    assert!(t.ok);
}

#[test]
fn idle_worktrees_are_removed() {
    let t = worktree_run(IDLE_SECS + 1);
    assert!(t.commands.contains(&"git worktree remove -- /w/loose".to_string()));
    assert!(!t.commands.contains(&"git worktree remove -- /w/kept".to_string()));
    assert!(t.ok);
}

#[test]
fn without_a_mainline_only_idle_worktrees_go() {
    let no = || failed("");
    let list = || said(WORKTREES);
    let world = World {
        answers: &[
            ("git symbolic-ref", &no),
            ("git rev-parse --verify", &no),
            ("git worktree list", &list),
            ("git config --local", &no_lfs),
        ],
        submodules: false,
        idle: IDLE_SECS + 1,
    };
    let opts = options(&[("MAINTENANCE_PRUNE_WORKTREES", "true")]);
    let t = run(&repo(RepoKind::Normal), &opts, false, &world);
    let removed: Vec<&String> =
        t.commands.iter().filter(|c| c.starts_with("git worktree remove")).collect();
    assert_eq!(
        removed,
        [
            "git worktree remove -- /w/one",
            "git worktree remove -- /w/kept",
            "git worktree remove -- /w/loose",
        ]
    );
    assert!(t.commands.iter().all(|c| !c.starts_with("git merge-base")));
}

#[test]
fn a_failed_worktree_listing_is_a_failure() {
    let head = || said("origin/main\n");
    let broken = || failed("oops");
    let world = World {
        answers: &[("git symbolic-ref", &head), ("git worktree list", &broken)],
        submodules: false,
        idle: 0,
    };
    let opts = options(&[
        ("MAINTENANCE_PRUNE_WORKTREES", "true"),
        ("MAINTENANCE_SKIP_LFS", "true"),
    ]);
    let t = run(&repo(RepoKind::Normal), &opts, false, &world);
    assert_eq!(t.logs[1], "/r: `git worktree list --porcelain` — oops");
    assert!(!t.ok);
}

#[test]
fn dry_runs_only_look() {
    let head = || said("origin/main\n");
    let world = World { answers: &[("git symbolic-ref", &head)], submodules: true, idle: 0 };
    let opts = options(&[
        ("MAINTENANCE_PRUNE_TAGS", "true"),
        ("MAINTENANCE_PRUNE_BRANCHES", "true"),
        ("MAINTENANCE_PRUNE_WORKTREES", "true"),
    ]);
    let t = run(&repo(RepoKind::Normal), &opts, true, &world);
    assert_eq!(
        t.commands,
        [
            "git symbolic-ref --short refs/remotes/origin/HEAD",
            "git config --local --get-regexp filter\\.lfs\\.",
        ]
    );
    assert_eq!(
        t.logs,
        [
            "[2/3] cleaning: /r",
            "  (dry-run) git fetch --all --prune --prune-tags",
            "  (dry-run) git pack-refs --all",
            "  (dry-run) git worktree prune",
            "  (dry-run) git reflog expire --expire=30.days.ago --all",
            "  (dry-run) git rerere gc",
            "  (dry-run) git notes prune",
            "  (dry-run) git worktree remove -- (worktrees merged into mainline or idle 3+ days)",
            "  (dry-run) git branch --merged main | git branch -d -- (merged branches)",
            "  (dry-run) git maintenance run --task=loose-objects",
            "  (dry-run) git maintenance run --task=incremental-repack (if a pack is available)",
            "  (dry-run) git gc --auto",
            "  (dry-run) git maintenance run --task=commit-graph",
            "  (dry-run) git submodule sync --recursive",
            "  (dry-run) git submodule foreach --recursive git gc --auto",
            "  (dry-run) git lfs prune",
        ]
    );
    assert!(t.ok);
}

/// The commands of a run that are no questions.
fn changes(t: &Trace) -> Vec<String> {
    let questions = [
        "git symbolic-ref",
        "git rev-parse",
        "git branch --merged",
        "git worktree list",
        "git merge-base",
        "git count-objects",
        "git config",
    ];
    t.commands
        .iter()
        .filter(|c| questions.iter().all(|q| !c.starts_with(q)))
        .cloned()
        .collect()
}

#[test]
fn dry_runs_tell_what_runs_do() {
    let head = || said("origin/main\n");
    let merged = || said("  main\n  old\n");
    let list = || said(WORKTREES);
    let packs = || said("packs: 1\n");
    let world = World {
        answers: &[
            ("git symbolic-ref", &head),
            ("git branch --merged", &merged),
            ("git worktree list", &list),
            ("git count-objects", &packs),
        ],
        submodules: true,
        idle: 0,
    };
    let all = [
        ("MAINTENANCE_PRUNE_BRANCHES", "true"),
        ("MAINTENANCE_PRUNE_WORKTREES", "true"),
    ];
    for kind in [RepoKind::Normal, RepoKind::Bare] {
        for vars in [&all[..], &all[..1], &[]] {
            let dry = run(&repo(kind), &options(vars), true, &world);
            let live = run(&repo(kind), &options(vars), false, &world);
            let mut done = changes(&live).into_iter().peekable();
            for l in &dry.logs[1..] {
                let what = l.strip_prefix("  (dry-run) ").unwrap();
                if what.contains("(worktrees merged") {
                    let mut n = 0;
                    while done.next_if(|c| c.starts_with("git worktree remove -- ")).is_some() {
                        n += 1;
                    }
                    assert_eq!(n, 3);
                } else if what.contains("(merged branches)") {
                    assert_eq!(done.next().as_deref(), Some("git branch -d -- old"));
                } else {
                    let what = what.replace(" (if a pack is available)", "");
                    assert_eq!(done.next(), Some(what));
                }
            }
            assert_eq!(done.next(), None);
        }
    }
}

#[test]
fn dry_runs_of_bare_repositories_name_less() {
    let opts = options(&[
        ("MAINTENANCE_AGGRESSIVE", "true"),
        ("MAINTENANCE_REFLOG_EXPIRE", "never"),
        ("MAINTENANCE_SKIP_LFS", "true"),
        ("MAINTENANCE_PRUNE_BRANCHES", "true"),
    ]);
    let t = run(&repo(RepoKind::Bare), &opts, true, &QUIET);
    assert!(t.commands.is_empty());
    assert_eq!(
        t.logs,
        [
            "[2/3] cleaning: /r (bare)",
            "  (dry-run) git fetch --all --prune",
            "  (dry-run) git pack-refs --all",
            "  (dry-run) git reflog expire --expire=never --all",
            "  (dry-run) git rerere gc",
            "  (dry-run) git notes prune",
            "  (dry-run) git maintenance run --task=loose-objects",
            "  (dry-run) git repack -a -d -f",
            "  (dry-run) git gc --aggressive --prune=all",
            "  (dry-run) git maintenance run --task=commit-graph",
        ]
    );
    assert!(t.ok);
}

#[test]
fn dry_runs_say_when_branches_are_left_alone() {
    let no = || failed("");
    let world = World {
        answers: &[("git symbolic-ref", &no), ("git rev-parse", &no)],
        submodules: false,
        idle: 0,
    };
    let opts = options(&[("MAINTENANCE_PRUNE_BRANCHES", "true"), ("MAINTENANCE_SKIP_LFS", "true")]);
    let t = run(&repo(RepoKind::Normal), &opts, true, &world);
    assert!(
        t.logs
            .contains(&"  (dry-run) branch pruning skipped: no mainline branch found".to_string())
    );
    assert!(t.ok);
}

#[test]
fn only_remote_commands_use_credential_helpers() {
    let t = run(
        &repo(RepoKind::Normal),
        &options(&[("MAINTENANCE_CREDENTIAL_HELPERS", "true")]),
        false,
        &World { answers: &[], submodules: true, idle: 0 },
    );
    for c in &t.calls {
        let remote = c.args[0] == "fetch" || c.args == ["lfs", "prune"];
        assert_eq!(c.profile == Profile::Helpers, remote, "{}", c.shown());
    }
    let t = run(&repo(RepoKind::Normal), &options(&[]), false, &QUIET);
    assert!(t.calls.iter().all(|c| c.profile != Profile::Helpers));
}

#[test]
fn phases_are_lists_of_commands() {
    let shown = |steps: Vec<Step>| -> Vec<String> {
        steps
            .iter()
            .map(|s| match s {
                Step::Git(c) => c.shown(),
                other => format!("{other:?}"),
            })
            .collect()
    };
    assert_eq!(shown(phase_fetch("/r", false, false)), ["git fetch --all --prune"]);
    assert_eq!(shown(phase_fetch("/r", true, false)), ["git fetch --all --prune --prune-tags"]);
    assert_eq!(
        shown(phase_refs("/r", RepoKind::Bare, "2024-01-01")),
        [
            "git pack-refs --all",
            "git reflog expire --expire=2024-01-01 --all",
            "git rerere gc",
            "git notes prune",
        ]
    );
    assert_eq!(shown(phase_branches()), ["Origin(Branches)"]);
}

#[test]
fn submodules_are_looked_for_by_their_file() {
    assert!(matches!(
        has_submodules("/r"),
        Action::Exists { dir, name } if dir == "/r" && name == ".gitmodules"
    ));
}
