//! What follows from each reply that a cleanup gets.
use vstd::prelude::*;

use crate::branches;
use crate::call;
use crate::call::{CallView, Output, Profile};
use crate::clean;
use crate::clean::{ActionView, JobView, Reply};
use crate::clean_laws;
use crate::config::OptionsView;
use crate::phases;
use crate::phases::{Purpose, StepView, Trunk};
use crate::repo::RepoKind;
use crate::report;
use crate::text;
use crate::text_laws;
use crate::worktrees;

verus! {

// ── failures ─────────────────────────────────────────────────────────────────

/// A command that ran and failed is logged with what it left on standard
/// error, if that is more than white space; one that could not be run, with the
/// reason. One that succeeded is not logged, whatever it left there.
pub proof fn failures_are_logged(dir: Seq<char>, command: Seq<char>, o: Output)
    ensures
        match o {
            Output::Exited { success: true, .. } => clean::complaint(dir, command, o).len() == 0,
            Output::Exited { success: false, stderr, .. } => clean::complaint(dir, command, o) == (
            if text_laws::blank(text::decoded(stderr@)) {
                Seq::<StepView>::empty()
            } else {
                seq![
                    StepView::Log(
                        report::sanitized(dir) + ": `"@ + command + "` — "@ + report::sanitized(
                            text::trimmed(text::decoded(stderr@)),
                        ),
                    ),
                ]
            }),
            Output::NotRun { error } => clean::complaint(dir, command, o) == seq![
                StepView::Log(report::sanitized(dir) + ": `"@ + command + "` — "@ + error@),
            ],
        },
{
    if let Output::Exited { success: false, stderr, .. } = o {
        let t = text::decoded(stderr@);
        let none = Seq::<char>::empty();
        if text_laws::blank(t) {
            text_laws::trimming_takes_the_ends_off(t, none, none);
            assert(t + none + none =~= t);
        } else {
            let ends = text_laws::every_text_has_a_middle(t);
            if text::trimmed(t).len() == 0 {
                assert forall|i: int| 0 <= i < t.len() implies text::white_space(
                    #[trigger] t[i],
                ) by {
                    if i < ends.0.len() {
                        assert(t[i] == ends.0[i]);
                    } else {
                        assert(t[i] == ends.1[i - ends.0.len()]);
                    }
                }
            }
        }
    }
}

/// After a command the cleanup goes on with the rest, having logged a failure.
/// It is well only if the command ran and reported success.
pub proof fn commands_have_to_succeed(job: JobView, c: CallView, o: Output)
    requires
        job.agenda.len() > 0,
        job.agenda[0] == StepView::Git(c),
    ensures
        clean::next_action(job) == ActionView::Run(c),
        clean::after_reply(job, Reply::Ran(o)).agenda == clean::complaint(
            job.dir,
            "git "@ + text::joined(c.args, " "@),
            o,
        ) + job.agenda.drop_first(),
        clean::after_reply(job, Reply::Ran(o)).ok <==> job.ok && (o matches Output::Exited {
            success,
            ..
        } && success),
{
}

// ── mainline ─────────────────────────────────────────────────────────────────

/// What is done once it is known what the mainline is: merged branches are
/// listed, or it is said that there is no mainline; worktrees are listed either
/// way.
pub proof fn the_mainline_is_put_to_use(dir: Seq<char>, m: Option<Seq<char>>)
    ensures
        clean::with_mainline(dir, Purpose::Branches, m) == (match m {
            Some(b) => seq![StepView::Merged(b)],
            None => seq![
                StepView::Log(
                    report::sanitized(dir)
                        + ": no mainline branch found; skipping branch pruning"@,
                ),
            ],
        }),
        clean::with_mainline(dir, Purpose::Worktrees, m) == seq![StepView::Worktrees(m)],
        clean::with_mainline(dir, Purpose::Preview, m) == (match m {
            Some(b) => seq![
                StepView::Log(
                    "  (dry-run) "@ + ("git branch --merged "@ + report::sanitized(b)
                        + " | git branch -d -- (merged branches)"@),
                ),
            ],
            None => seq![
                StepView::Log(
                    "  (dry-run) "@ + "branch pruning skipped: no mainline branch found"@,
                ),
            ],
        }),
{
}

/// `origin` is asked for the mainline first. If it names none, "main" is looked
/// for, and if that does not exist, "master". None of these questions can go
/// wrong.
pub proof fn the_mainline_is_settled(job: JobView, p: Purpose, o: Output)
    requires
        job.agenda.len() > 0,
    ensures
        job.agenda[0] == StepView::Origin(p) ==> {
            let next = clean::after_reply(job, Reply::Ran(o));
            &&& clean::next_action(job) == ActionView::Run(
                CallView {
                    dir: job.dir,
                    args: seq!["symbolic-ref"@, "--short"@, "refs/remotes/origin/HEAD"@],
                    profile: Profile::Probe,
                },
            )
            &&& next.ok == job.ok
            &&& next.agenda == (match o {
                Output::Exited { success: true, stdout, .. } => match branches::branch_named(
                    text::decoded(stdout@),
                ) {
                    Some(b) => clean::with_mainline(job.dir, p, Some(b)),
                    None => seq![StepView::Fallback(p, Trunk::Main)],
                },
                _ => seq![StepView::Fallback(p, Trunk::Main)],
            }) + job.agenda.drop_first()
        },
        job.agenda[0] == StepView::Fallback(p, Trunk::Main) ==> {
            let next = clean::after_reply(job, Reply::Ran(o));
            &&& clean::next_action(job) == ActionView::Run(
                CallView {
                    dir: job.dir,
                    args: seq![
                        "rev-parse"@,
                        "--verify"@,
                        "--quiet"@,
                        "refs/heads/"@ + "main"@,
                    ],
                    profile: Profile::Probe,
                },
            )
            &&& next.ok == job.ok
            &&& next.agenda == (match o {
                Output::Exited { success: true, .. } => clean::with_mainline(
                    job.dir,
                    p,
                    Some("main"@),
                ),
                _ => seq![StepView::Fallback(p, Trunk::Master)],
            }) + job.agenda.drop_first()
        },
        job.agenda[0] == StepView::Fallback(p, Trunk::Master) ==> {
            let next = clean::after_reply(job, Reply::Ran(o));
            &&& clean::next_action(job) == ActionView::Run(
                CallView {
                    dir: job.dir,
                    args: seq![
                        "rev-parse"@,
                        "--verify"@,
                        "--quiet"@,
                        "refs/heads/"@ + "master"@,
                    ],
                    profile: Profile::Probe,
                },
            )
            &&& next.ok == job.ok
            &&& next.agenda == (match o {
                Output::Exited { success: true, .. } => clean::with_mainline(
                    job.dir,
                    p,
                    Some("master"@),
                ),
                _ => clean::with_mainline(job.dir, p, None),
            }) + job.agenda.drop_first()
        },
{
}

// ── branches ─────────────────────────────────────────────────────────────────

/// The branches merged into the mainline are listed, and those that may go are
/// deleted with one command; with none there is no command. A listing that
/// fails is logged, deletes nothing and is a failure.
pub proof fn merged_branches_go_at_once(job: JobView, m: Seq<char>, o: Output)
    requires
        job.agenda.len() > 0,
        job.agenda[0] == StepView::Merged(m),
    ensures
        clean::next_action(job) == ActionView::Run(
            CallView {
                dir: job.dir,
                args: seq!["branch"@, "--merged"@, m],
                profile: Profile::Hardened,
            },
        ),
        ({
            let next = clean::after_reply(job, Reply::Ran(o));
            match o {
                Output::Exited { success: true, stdout, .. } => {
                    let names = branches::doomed(
                        text::decoded(stdout@),
                        m,
                        job.opts.protected_branches,
                    );
                    &&& next.ok == job.ok
                    &&& next.agenda == (if names.len() == 0 {
                        Seq::<StepView>::empty()
                    } else {
                        seq![
                            StepView::Git(
                                CallView {
                                    dir: job.dir,
                                    args: seq!["branch"@, "-d"@, "--"@] + names,
                                    profile: Profile::Hardened,
                                },
                            ),
                        ]
                    }) + job.agenda.drop_first()
                },
                _ => {
                    &&& !next.ok
                    &&& next.agenda == clean::complaint(
                        job.dir,
                        "git branch --merged "@ + report::sanitized(m),
                        o,
                    ) + job.agenda.drop_first()
                },
            }
        }),
{
}

// ── worktrees ────────────────────────────────────────────────────────────────

/// Of the worktrees that are listed, each that may go is looked at in turn: at
/// whether it is merged, if there is a mainline, and else at whether it is idle.
/// A listing that fails is logged, removes nothing and is a failure.
pub proof fn spare_worktrees_are_looked_at(job: JobView, m: Option<Seq<char>>, o: Output)
    requires
        job.agenda.len() > 0,
        job.agenda[0] == StepView::Worktrees(m),
    ensures
        clean::next_action(job) == ActionView::Run(
            CallView {
                dir: job.dir,
                args: seq!["worktree"@, "list"@, "--porcelain"@],
                profile: Profile::Hardened,
            },
        ),
        ({
            let next = clean::after_reply(job, Reply::Ran(o));
            match o {
                Output::Exited { success: true, stdout, .. } => {
                    let ws = worktrees::spares(
                        worktrees::listed(text::line_texts(text::decoded(stdout@))),
                        job.dir,
                        job.opts.protected_branches,
                    );
                    &&& next.ok == job.ok
                    &&& next.agenda.len() == ws.len() + job.agenda.len() - 1
                    &&& next.agenda.skip(ws.len() as int) == job.agenda.drop_first()
                    &&& forall|i: int|
                        0 <= i < ws.len() ==> #[trigger] next.agenda[i] == (match m {
                            Some(b) => StepView::WorktreeMerged {
                                path: ws[i].path,
                                head: ws[i].head,
                                mainline: b,
                            },
                            None => StepView::WorktreeIdle(ws[i].path),
                        })
                },
                _ => {
                    &&& !next.ok
                    &&& next.agenda == clean::complaint(
                        job.dir,
                        "git "@ + text::joined(
                            seq!["worktree"@, "list"@, "--porcelain"@],
                            " "@,
                        ),
                        o,
                    ) + job.agenda.drop_first()
                },
            }
        }),
{
    if let Output::Exited { success: true, stdout, .. } = o {
        let next = clean::after_reply(job, Reply::Ran(o));
        let ws = worktrees::spares(
            worktrees::listed(text::line_texts(text::decoded(stdout@))),
            job.dir,
            job.opts.protected_branches,
        );
        assert(next.agenda == clean::worktree_steps(ws, m) + job.agenda.drop_first());
        assert(next.agenda.skip(ws.len() as int) =~= job.agenda.drop_first());
    }
}

/// A worktree is removed if its commit is contained in the mainline. If it is
/// not, or that is not known, it is looked at whether it is idle. Neither is a
/// failure.
pub proof fn merged_worktrees_are_removed(
    job: JobView,
    path: Seq<char>,
    head: Seq<char>,
    mainline: Seq<char>,
    o: Output,
)
    requires
        job.agenda.len() > 0,
        job.agenda[0] == (StepView::WorktreeMerged { path, head, mainline }),
    ensures
        clean::next_action(job) == ActionView::Run(
            CallView {
                dir: job.dir,
                args: seq!["merge-base"@, "--is-ancestor"@, head, mainline],
                profile: Profile::Probe,
            },
        ),
        clean::after_reply(job, Reply::Ran(o)).ok == job.ok,
        clean::after_reply(job, Reply::Ran(o)).agenda == seq![
            match o {
                Output::Exited { success: true, .. } => StepView::Git(
                    CallView {
                        dir: job.dir,
                        args: seq!["worktree"@, "remove"@, "--"@, path],
                        profile: Profile::Hardened,
                    },
                ),
                _ => StepView::WorktreeIdle(path),
            },
        ] + job.agenda.drop_first(),
{
}

/// A worktree is removed for being idle just if nothing happened in it for more
/// than three days.
pub proof fn idle_worktrees_are_removed(job: JobView, path: Seq<char>, secs: u64)
    requires
        job.agenda.len() > 0,
        job.agenda[0] == StepView::WorktreeIdle(path),
    ensures
        clean::next_action(job) == ActionView::Idle(path),
        clean::after_reply(job, Reply::Idle(secs)).ok == job.ok,
        clean::after_reply(job, Reply::Idle(secs)).agenda == (if secs > 3 * 24 * 60 * 60 {
            seq![
                StepView::Git(
                    CallView {
                        dir: job.dir,
                        args: seq!["worktree"@, "remove"@, "--"@, path],
                        profile: Profile::Hardened,
                    },
                ),
            ]
        } else {
            Seq::<StepView>::empty()
        }) + job.agenda.drop_first(),
{
}

// ── packs ────────────────────────────────────────────────────────────────────

/// The repository is repacked unless Git says that it has no pack. A count that
/// fails is logged and is a failure, and the repository is repacked then too.
pub proof fn packs_are_repacked(job: JobView, o: Output)
    requires
        job.agenda.len() > 0,
        job.agenda[0] == StepView::Packs,
    ensures
        clean::next_action(job) == ActionView::Run(
            CallView {
                dir: job.dir,
                args: seq!["count-objects"@, "-v"@],
                profile: Profile::Probe,
            },
        ),
        ({
            let next = clean::after_reply(job, Reply::Ran(o));
            let repack = StepView::Git(
                CallView {
                    dir: job.dir,
                    args: seq!["maintenance"@, "run"@, "--task=incremental-repack"@],
                    profile: Profile::Hardened,
                },
            );
            match o {
                Output::Exited { success: true, stdout, .. } => {
                    &&& next.ok == job.ok
                    &&& next.agenda == (if phases::packs_reported(text::decoded(stdout@)) == Some(
                        0nat,
                    ) {
                        Seq::<StepView>::empty()
                    } else {
                        seq![repack]
                    }) + job.agenda.drop_first()
                },
                _ => {
                    &&& !next.ok
                    &&& next.agenda == clean::complaint(
                        job.dir,
                        "git "@ + text::joined(seq!["count-objects"@, "-v"@], " "@),
                        o,
                    ) + seq![repack] + job.agenda.drop_first()
                },
            }
        }),
{
    let c = clean::complaint(
        job.dir,
        "git "@ + text::joined(seq!["count-objects"@, "-v"@], " "@),
        o,
    );
    let repack = StepView::Git(phases::incremental_repack(job.dir));
    failures_are_logged(
        job.dir,
        "git "@ + text::joined(seq!["count-objects"@, "-v"@], " "@),
        o,
    );
    assert(c.push(repack) =~= c + seq![repack]);
    if c.len() == 0 {
        assert(c + seq![repack] =~= seq![repack]);
    }
}

// ── submodules, large files ──────────────────────────────────────────────────

/// Submodules are seen to just if there is a file `.gitmodules`, and large files
/// just if support for them is configured. A dry run only says so.
pub proof fn optional_parts_depend_on_the_repository(job: JobView, yes: bool, o: Output)
    requires
        job.agenda.len() > 0,
    ensures
        job.agenda[0] is Submodules ==> {
            let next = clean::after_reply(job, Reply::Exists(yes));
            let sync = seq!["submodule"@, "sync"@, "--recursive"@];
            let each = seq!["submodule"@, "foreach"@, "--recursive"@, "git"@, "gc"@, "--auto"@];
            &&& clean::next_action(job) == (ActionView::Exists {
                dir: job.dir,
                name: ".gitmodules"@,
            })
            &&& next.ok == job.ok
            &&& next.agenda == (if !yes {
                Seq::<StepView>::empty()
            } else if job.dry_run {
                seq![
                    StepView::Log("  (dry-run) "@ + ("git "@ + text::joined(sync, " "@))),
                    StepView::Log("  (dry-run) "@ + ("git "@ + text::joined(each, " "@))),
                ]
            } else {
                seq![
                    StepView::Git(
                        CallView { dir: job.dir, args: sync, profile: Profile::Hardened },
                    ),
                    StepView::Git(
                        CallView { dir: job.dir, args: each, profile: Profile::Hardened },
                    ),
                ]
            }) + job.agenda.drop_first()
        },
        job.agenda[0] is Lfs ==> {
            let next = clean::after_reply(job, Reply::Ran(o));
            let prune = seq!["lfs"@, "prune"@];
            &&& clean::next_action(job) == ActionView::Run(
                CallView {
                    dir: job.dir,
                    args: seq!["config"@, "--local"@, "--get-regexp"@, "filter\\.lfs\\."@],
                    profile: Profile::Probe,
                },
            )
            &&& next.ok == job.ok
            &&& next.agenda == (match o {
                Output::Exited { success: true, .. } => if job.dry_run {
                    seq![StepView::Log("  (dry-run) "@ + ("git "@ + text::joined(prune, " "@)))]
                } else {
                    seq![
                        StepView::Git(
                            CallView {
                                dir: job.dir,
                                args: prune,
                                profile: if job.opts.credential_helpers {
                                    Profile::Helpers
                                } else {
                                    Profile::Hardened
                                },
                            },
                        ),
                    ]
                },
                _ => Seq::<StepView>::empty(),
            }) + job.agenda.drop_first()
        },
{
    let s = phases::submodule_steps(job.dir);
    assert(s.drop_last() =~= seq![s[0]]);
    assert(s.drop_last().drop_last() =~= Seq::<StepView>::empty());
    reveal_with_fuel(clean::previews, 3);
    assert(clean::previews(s) =~= seq![
        clean::would(call::shown(s[0]->Git_0)),
        clean::would(call::shown(s[1]->Git_0)),
    ]);
    let l = phases::lfs_steps(job.dir, job.opts.credential_helpers);
    assert(l.drop_last() =~= Seq::<StepView>::empty());
    assert(clean::previews(l) =~= seq![clean::would(call::shown(l[0]->Git_0))]);
}

/// Writing a message changes nothing but that it is written, and the end of a
/// run is logged with how it went.
pub proof fn messages_change_nothing(job: JobView, msg: Seq<char>, ms: u128)
    requires
        job.agenda.len() > 0,
    ensures
        job.agenda[0] == StepView::Log(msg) ==> {
            let next = clean::after_reply(job, Reply::Logged);
            &&& clean::next_action(job) == ActionView::Log(msg)
            &&& next.ok == job.ok
            &&& next.agenda == job.agenda.drop_first()
        },
        job.agenda[0] is Elapsed ==> {
            let next = clean::after_reply(job, Reply::Elapsed(ms));
            &&& clean::next_action(job) is Elapsed
            &&& next.ok == job.ok
            &&& next.agenda == seq![
                StepView::Log(
                    "["@ + text::decimal(job.n) + "/"@ + text::decimal(job.total) + "] "@
                        + report::sanitized(job.dir) + ": done in "@ + text::decimal(ms as nat)
                        + "ms ("@ + (if job.ok {
                        "ok"@
                    } else {
                        "some errors"@
                    }) + ")"@,
                ),
            ] + job.agenda.drop_first()
        },
{
    assert(Seq::<StepView>::empty() + job.agenda.drop_first() =~= job.agenda.drop_first());
}

/// A reply never changes what is cleaned or how.
pub proof fn replies_keep_the_settings(job: JobView, r: Reply)
    ensures
        clean::after_reply(job, r).dir == job.dir,
        clean::after_reply(job, r).kind == job.kind,
        clean::after_reply(job, r).opts == job.opts,
        clean::after_reply(job, r).dry_run == job.dry_run,
        clean::after_reply(job, r).n == job.n,
        clean::after_reply(job, r).total == job.total,
{
}

// ── pruning that was asked for ───────────────────────────────────────────────

/// Whether a step asks what the mainline is.
spec fn asks_for_mainline(s: StepView, p: Purpose) -> bool {
    s == StepView::Origin(p) || s == StepView::Fallback(p, Trunk::Main) || s
        == StepView::Fallback(p, Trunk::Master)
}

/// From the question for the mainline a run comes to what the mainline is
/// wanted for.
proof fn lemma_settles(job: JobView, p: Purpose, t: Seq<StepView>, rs: Seq<Reply>) -> (r: (
    int,
    Option<Seq<char>>,
))
    requires
        job.agenda.len() > 0,
        asks_for_mainline(job.agenda[0], p),
        job.agenda.drop_first() == t,
        clean_laws::follows(job, rs),
        clean_laws::run(job, rs).agenda.len() == 0,
    ensures
        0 < r.0 <= rs.len(),
        clean_laws::run(job, rs.take(r.0)).agenda == clean::with_mainline(job.dir, p, r.1) + t,
    decreases clean_laws::rank(job.agenda[0]),
{
    let f = job.agenda[0];
    let o = rs[0]->Ran_0;
    assert(rs[0] == Reply::Ran(o));
    let next = clean::after_reply(job, rs[0]);
    let one = rs.take(1);
    assert(one.drop_first() =~= Seq::<Reply>::empty());
    assert(one[0] == rs[0]);
    reveal_with_fuel(clean_laws::run, 2);
    assert(clean_laws::run(job, one) == next);
    the_mainline_is_settled(job, p, o);
    let well = match o {
        Output::Exited { success, .. } => success,
        _ => false,
    };
    if f == StepView::Origin(p) {
        let b = match o {
            Output::Exited { success: true, stdout, .. } => branches::branch_named(
                text::decoded(stdout@),
            ),
            _ => None,
        };
        if b is Some {
            assert(next.agenda == clean::with_mainline(job.dir, p, b) + t);
            (1, b)
        } else {
            let g = seq![StepView::Fallback(p, Trunk::Main)];
            assert((g + t).drop_first() =~= t);
            assert(next.agenda[0] == StepView::Fallback(p, Trunk::Main));
            let (k, m) = lemma_settles(next, p, t, rs.drop_first());
            assert(rs.take(k + 1).drop_first() =~= rs.drop_first().take(k));
            assert(rs.take(k + 1)[0] == rs[0]);
            (k + 1, m)
        }
    } else if f == StepView::Fallback(p, Trunk::Main) {
        if well {
            assert(next.agenda == clean::with_mainline(job.dir, p, Some("main"@)) + t);
            (1, Some("main"@))
        } else {
            let g = seq![StepView::Fallback(p, Trunk::Master)];
            assert((g + t).drop_first() =~= t);
            assert(next.agenda[0] == StepView::Fallback(p, Trunk::Master));
            let (k, m) = lemma_settles(next, p, t, rs.drop_first());
            assert(rs.take(k + 1).drop_first() =~= rs.drop_first().take(k));
            assert(rs.take(k + 1)[0] == rs[0]);
            (k + 1, m)
        }
    } else if well {
        assert(next.agenda == clean::with_mainline(job.dir, p, Some("master"@)) + t);
        (1, Some("master"@))
    } else {
        assert(next.agenda == clean::with_mainline(job.dir, p, None) + t);
        (1, None)
    }
}

/// A run with a step on its agenda that asks for the mainline comes to what it
/// is wanted for.
proof fn lemma_comes_to(job: JobView, p: Purpose, at: int, rs: Seq<Reply>) -> (r: (
    int,
    Option<Seq<char>>,
))
    requires
        0 <= at < job.agenda.len(),
        job.agenda[at] == StepView::Origin(p),
        clean_laws::follows(job, rs),
        clean_laws::run(job, rs).agenda.len() == 0,
    ensures
        0 <= r.0 < rs.len(),
        clean_laws::run(job, rs.take(r.0)).agenda == clean::with_mainline(job.dir, p, r.1)
            + job.agenda.skip(at + 1),
        clean_laws::run(job, rs.take(r.0)).dir == job.dir,
{
    let a = job.agenda.take(at);
    let t = job.agenda.skip(at);
    assert(job.agenda =~= a + t);
    let k = clean_laws::lemma_reaches(job, a, t, rs);
    clean_laws::lemma_run_split(job, rs, k);
    let mid = clean_laws::run(job, rs.take(k));
    clean_laws::lemma_run_keeps_settings(job, rs.take(k));
    assert(t.drop_first() =~= job.agenda.skip(at + 1));
    let (l, m) = lemma_settles(mid, p, t.drop_first(), rs.skip(k));
    clean_laws::lemma_run_split(job, rs, k + l);
    clean_laws::lemma_run_split(job, rs.take(k + l), k);
    assert(rs.take(k + l).take(k) =~= rs.take(k));
    assert(rs.take(k + l).skip(k) =~= rs.skip(k).take(l));
    clean_laws::lemma_run_keeps_settings(job, rs.take(k + l));
    let end = clean_laws::run(job, rs.take(k + l));
    assert(end.agenda.len() > 0) by {
        assert(end.agenda[0] == clean::with_mainline(job.dir, p, m)[0]);
    }
    if k + l == rs.len() {
        assert(rs.take(k + l) =~= rs);
    }
    (k + l, m)
}

/// With `MAINTENANCE_PRUNE_WORKTREES`, a run that is complete lists the
/// worktrees of a repository that is not bare.
pub proof fn worktrees_are_pruned_when_asked(
    dir: Seq<char>,
    o: OptionsView,
    n: nat,
    total: nat,
    rs: Seq<Reply>,
) -> (k: int)
    requires
        o.prune_worktrees,
        clean_laws::follows(clean::started(dir, RepoKind::Normal, o, false, n, total), rs),
        clean_laws::run(
            clean::started(dir, RepoKind::Normal, o, false, n, total),
            rs,
        ).agenda.len() == 0,
    ensures
        0 <= k < rs.len(),
        clean::next_action(
            clean_laws::run(
                clean::started(dir, RepoKind::Normal, o, false, n, total),
                rs.take(k),
            ),
        ) == ActionView::Run(
            CallView {
                dir,
                args: seq!["worktree"@, "list"@, "--porcelain"@],
                profile: Profile::Hardened,
            },
        ),
{
    let job = clean::started(dir, RepoKind::Normal, o, false, n, total);
    let fetch = phases::fetch_steps(dir, o.prune_tags, o.credential_helpers);
    let refs = phases::refs_steps(dir, RepoKind::Normal, o.reflog_expire);
    let i = 1 + fetch.len() + refs.len();
    assert(job.agenda[i as int] == StepView::Origin(Purpose::Worktrees));
    let (k, m) = lemma_comes_to(job, Purpose::Worktrees, i as int, rs);
    let mid = clean_laws::run(job, rs.take(k));
    assert(mid.agenda[0] == StepView::Worktrees(m));
    k
}

/// With `MAINTENANCE_PRUNE_BRANCHES`, a run that is complete asks which branches
/// are merged into the mainline of a repository that is not bare, or says that
/// there is no mainline.
pub proof fn branches_are_pruned_when_asked(
    dir: Seq<char>,
    o: OptionsView,
    n: nat,
    total: nat,
    rs: Seq<Reply>,
) -> (r: (int, Option<Seq<char>>))
    requires
        o.prune_branches,
        clean_laws::follows(clean::started(dir, RepoKind::Normal, o, false, n, total), rs),
        clean_laws::run(
            clean::started(dir, RepoKind::Normal, o, false, n, total),
            rs,
        ).agenda.len() == 0,
    ensures
        0 <= r.0 < rs.len(),
        clean::next_action(
            clean_laws::run(
                clean::started(dir, RepoKind::Normal, o, false, n, total),
                rs.take(r.0),
            ),
        ) == (match r.1 {
            Some(m) => ActionView::Run(
                CallView {
                    dir,
                    args: seq!["branch"@, "--merged"@, m],
                    profile: Profile::Hardened,
                },
            ),
            None => ActionView::Log(
                report::sanitized(dir) + ": no mainline branch found; skipping branch pruning"@,
            ),
        }),
{
    let job = clean::started(dir, RepoKind::Normal, o, false, n, total);
    let fetch = phases::fetch_steps(dir, o.prune_tags, o.credential_helpers);
    let refs = phases::refs_steps(dir, RepoKind::Normal, o.reflog_expire);
    let i = 1 + fetch.len() + refs.len() + (if o.prune_worktrees {
        1int
    } else {
        0int
    });
    assert(job.agenda[i as int] == StepView::Origin(Purpose::Branches));
    let (k, m) = lemma_comes_to(job, Purpose::Branches, i as int, rs);
    let mid = clean_laws::run(job, rs.take(k));
    assert(mid.agenda[0] == clean::with_mainline(dir, Purpose::Branches, m)[0]);
    (k, m)
}

} // verus!
