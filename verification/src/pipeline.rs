//! What a cleanup does, command by command and option by option.
use vstd::prelude::*;
use vstd::seq_lib::*;

use crate::branches;
use crate::call;
use crate::call::{CallView, Output, Profile};
use crate::clean;
use crate::clean::{ActionView, JobView, Reply};
use crate::clean_laws;
use crate::config::OptionsView;
use crate::dry_run;
use crate::dry_run::Findings;
use crate::phases;
use crate::phases::{Purpose, StepView};
use crate::repo::RepoKind;
use crate::report;
use crate::text;
use crate::worktrees;

verus! {

// ── words ────────────────────────────────────────────────────────────────────

/// The first words of the command lines are told apart by their length and two
/// of their letters.
proof fn lemma_words()
    ensures
        "fetch"@.len() == 5 && "fetch"@[0] == 'f' && "fetch"@[2] == 't',
        "pack-refs"@.len() == 9 && "pack-refs"@[0] == 'p' && "pack-refs"@[2] == 'c',
        "worktree"@.len() == 8 && "worktree"@[0] == 'w' && "worktree"@[2] == 'r',
        "reflog"@.len() == 6 && "reflog"@[0] == 'r' && "reflog"@[2] == 'f',
        "rerere"@.len() == 6 && "rerere"@[0] == 'r' && "rerere"@[2] == 'r',
        "notes"@.len() == 5 && "notes"@[0] == 'n' && "notes"@[2] == 't',
        "branch"@.len() == 6 && "branch"@[0] == 'b' && "branch"@[2] == 'a',
        "maintenance"@.len() == 11 && "maintenance"@[0] == 'm' && "maintenance"@[2] == 'i',
        "gc"@.len() == 2,
        "repack"@.len() == 6 && "repack"@[0] == 'r' && "repack"@[2] == 'p',
        "submodule"@.len() == 9 && "submodule"@[0] == 's' && "submodule"@[2] == 'b',
        "lfs"@.len() == 3 && "lfs"@[0] == 'l' && "lfs"@[2] == 's',
        "symbolic-ref"@.len() == 12 && "symbolic-ref"@[0] == 's' && "symbolic-ref"@[2] == 'm',
        "rev-parse"@.len() == 9 && "rev-parse"@[0] == 'r' && "rev-parse"@[2] == 'v',
        "merge-base"@.len() == 10 && "merge-base"@[0] == 'm' && "merge-base"@[2] == 'r',
        "count-objects"@.len() == 13 && "count-objects"@[0] == 'c' && "count-objects"@[2] == 'u',
        "config"@.len() == 6 && "config"@[0] == 'c' && "config"@[2] == 'n',
        "list"@.len() == 4 && "list"@[0] == 'l',
        "prune"@.len() == 5 && "prune"@[0] == 'p',
        "remove"@.len() == 6 && "remove"@[0] == 'r',
        "-d"@.len() == 2 && "-d"@[1] == 'd',
        "--merged"@.len() == 8,
        "--auto"@.len() == 6,
        "--aggressive"@.len() == 12,
        "--task=loose-objects"@.len() == 20,
        "--task=commit-graph"@.len() == 19,
        "--task=incremental-repack"@.len() == 25,
{
    reveal_strlit("fetch");
    reveal_strlit("pack-refs");
    reveal_strlit("worktree");
    reveal_strlit("reflog");
    reveal_strlit("rerere");
    reveal_strlit("notes");
    reveal_strlit("branch");
    reveal_strlit("maintenance");
    reveal_strlit("gc");
    reveal_strlit("repack");
    reveal_strlit("submodule");
    reveal_strlit("lfs");
    reveal_strlit("symbolic-ref");
    reveal_strlit("rev-parse");
    reveal_strlit("merge-base");
    reveal_strlit("count-objects");
    reveal_strlit("config");
    reveal_strlit("list");
    reveal_strlit("prune");
    reveal_strlit("remove");
    reveal_strlit("-d");
    reveal_strlit("--merged");
    reveal_strlit("--auto");
    reveal_strlit("--aggressive");
    reveal_strlit("--task=loose-objects");
    reveal_strlit("--task=commit-graph");
    reveal_strlit("--task=incremental-repack");
}

// ── every command that a cleanup may run ─────────────────────────────────────

/// Whether a cleanup may run a command to change something.
spec fn may_change(dir: Seq<char>, kind: RepoKind, o: OptionsView, c: CallView) -> bool {
    &&& c.dir == dir
    &&& c.args.len() > 0
    &&& c.profile == (if o.credential_helpers && (c.args[0] == "fetch"@ || c.args[0] == "lfs"@) {
        Profile::Helpers
    } else {
        Profile::Hardened
    })
    &&& may_change_with(kind, o, c.args)
}

/// Whether a cleanup may run `git` with `args` to change something.
spec fn may_change_with(kind: RepoKind, o: OptionsView, args: Seq<Seq<char>>) -> bool {
    ||| args == (if o.prune_tags {
        seq!["fetch"@, "--all"@, "--prune"@, "--prune-tags"@]
    } else {
        seq!["fetch"@, "--all"@, "--prune"@]
    })
    ||| args == seq!["pack-refs"@, "--all"@]
    ||| kind is Normal && args == seq!["worktree"@, "prune"@]
    ||| args == seq!["reflog"@, "expire"@, "--expire="@ + o.reflog_expire, "--all"@]
    ||| args == seq!["rerere"@, "gc"@]
    ||| args == seq!["notes"@, "prune"@]
    ||| kind is Normal && o.prune_worktrees && args.len() == 4 && args[0] == "worktree"@ && args[1]
        == "remove"@ && args[2] == "--"@
    ||| kind is Normal && o.prune_branches && args.len() > 3 && args[0] == "branch"@ && args[1]
        == "-d"@ && args[2] == "--"@
    ||| args == seq!["maintenance"@, "run"@, "--task=loose-objects"@]
    ||| !o.aggressive && args == seq!["maintenance"@, "run"@, "--task=incremental-repack"@]
    ||| !o.aggressive && args == seq!["gc"@, "--auto"@]
    ||| o.aggressive && args == seq!["repack"@, "-a"@, "-d"@, "-f"@]
    ||| o.aggressive && args == seq!["gc"@, "--aggressive"@, "--prune=all"@]
    ||| args == seq!["maintenance"@, "run"@, "--task=commit-graph"@]
    ||| kind is Normal && !o.skip_submodules && (args == seq![
        "submodule"@,
        "sync"@,
        "--recursive"@,
    ] || args == seq!["submodule"@, "foreach"@, "--recursive"@, "git"@, "gc"@, "--auto"@])
    ||| !o.skip_lfs && args == seq!["lfs"@, "prune"@]
}

/// Whether a cleanup may put a question.
spec fn may_ask(dir: Seq<char>, kind: RepoKind, o: OptionsView, c: CallView) -> bool {
    &&& c.dir == dir
    &&& c.args.len() > 0
    &&& c.profile == (if c.args[0] == "branch"@ || c.args[0] == "worktree"@ {
        Profile::Hardened
    } else {
        Profile::Probe
    })
    &&& may_ask_with(kind, o, c.args)
}

/// Whether a cleanup may put a question to `git` with `args`.
spec fn may_ask_with(kind: RepoKind, o: OptionsView, args: Seq<Seq<char>>) -> bool {
    ||| kind is Normal && (o.prune_branches || o.prune_worktrees) && (args == seq![
        "symbolic-ref"@,
        "--short"@,
        "refs/remotes/origin/HEAD"@,
    ] || args == seq!["rev-parse"@, "--verify"@, "--quiet"@, "refs/heads/"@ + "main"@] || args
        == seq!["rev-parse"@, "--verify"@, "--quiet"@, "refs/heads/"@ + "master"@])
    ||| kind is Normal && o.prune_branches && args.len() == 3 && args[0] == "branch"@ && args[1]
        == "--merged"@
    ||| kind is Normal && o.prune_worktrees && args == seq!["worktree"@, "list"@, "--porcelain"@]
    ||| kind is Normal && o.prune_worktrees && args.len() == 4 && args[0] == "merge-base"@
        && args[1] == "--is-ancestor"@
    ||| !o.aggressive && args == seq!["count-objects"@, "-v"@]
    ||| !o.skip_lfs && args == seq!["config"@, "--local"@, "--get-regexp"@, "filter\\.lfs\\."@]
}

/// Whether the mainline is wanted for a purpose.
spec fn wanted(o: OptionsView, p: Purpose) -> bool {
    match p {
        Purpose::Preview => o.prune_branches,
        Purpose::Branches => o.prune_branches,
        Purpose::Worktrees => o.prune_worktrees,
    }
}

/// Whether a step can come up in a cleanup.
spec fn can_come_up(dir: Seq<char>, kind: RepoKind, o: OptionsView, s: StepView) -> bool {
    match s {
        StepView::Log(_) => true,
        StepView::Elapsed => true,
        StepView::Git(c) => may_change(dir, kind, o, c),
        StepView::Origin(p) => kind is Normal && wanted(o, p),
        StepView::Fallback(p, _) => kind is Normal && wanted(o, p),
        StepView::Merged(_) => kind is Normal && o.prune_branches,
        StepView::Worktrees(_) => kind is Normal && o.prune_worktrees,
        StepView::WorktreeMerged { .. } => kind is Normal && o.prune_worktrees,
        StepView::WorktreeIdle(_) => kind is Normal && o.prune_worktrees,
        StepView::Packs => !o.aggressive,
        StepView::Submodules => kind is Normal && !o.skip_submodules,
        StepView::Lfs => !o.skip_lfs,
    }
}

spec fn all_can(dir: Seq<char>, kind: RepoKind, o: OptionsView, a: Seq<StepView>) -> bool {
    forall|i: int| 0 <= i < a.len() ==> can_come_up(dir, kind, o, #[trigger] a[i])
}

proof fn lemma_all_can_add(
    dir: Seq<char>,
    kind: RepoKind,
    o: OptionsView,
    a: Seq<StepView>,
    b: Seq<StepView>,
)
    requires
        all_can(dir, kind, o, a),
        all_can(dir, kind, o, b),
    ensures
        all_can(dir, kind, o, a + b),
{
    assert forall|i: int| 0 <= i < (a + b).len() implies can_come_up(
        dir,
        kind,
        o,
        #[trigger] (a + b)[i],
    ) by {
        if i < a.len() {
            assert((a + b)[i] == a[i]);
        } else {
            assert((a + b)[i] == b[i - a.len()]);
        }
    }
}

proof fn lemma_previews_can(dir: Seq<char>, kind: RepoKind, o: OptionsView, s: Seq<StepView>)
    requires
        all_can(dir, kind, o, s),
    ensures
        all_can(dir, kind, o, clean::previews(s)),
    decreases s.len(),
{
    if s.len() > 0 {
        let d = s.drop_last();
        assert forall|i: int| 0 <= i < d.len() implies can_come_up(dir, kind, o, #[trigger] d[i]) by {
            assert(d[i] == s[i]);
        }
        lemma_previews_can(dir, kind, o, d);
        assert(can_come_up(dir, kind, o, s[s.len() - 1]));
        lemma_all_can_add(dir, kind, o, clean::previews(d), clean::preview(s.last()));
    }
}

proof fn lemma_plan_can(dir: Seq<char>, kind: RepoKind, o: OptionsView)
    ensures
        all_can(dir, kind, o, clean::plan(dir, kind, o)),
{
    lemma_words();
    let s1 = phases::fetch_steps(dir, o.prune_tags, o.credential_helpers);
    let s2 = phases::refs_steps(dir, kind, o.reflog_expire);
    let s3 = clean::only_if(
        !(kind is Bare) && o.prune_worktrees,
        phases::worktree_removal_steps(),
    );
    let s4 = clean::only_if(!(kind is Bare) && o.prune_branches, phases::branch_steps());
    let s5 = if o.aggressive {
        phases::aggressive_object_steps(dir)
    } else {
        phases::normal_object_steps(dir)
    };
    let s6 = phases::index_steps(dir);
    let s7 = clean::only_if(!(kind is Bare) && !o.skip_submodules, seq![StepView::Submodules]);
    let s8 = clean::only_if(!o.skip_lfs, seq![StepView::Lfs]);
    assert(all_can(dir, kind, o, s1));
    assert(all_can(dir, kind, o, s2));
    assert(all_can(dir, kind, o, s5));
    assert(all_can(dir, kind, o, s6));
    lemma_all_can_add(dir, kind, o, s1, s2);
    lemma_all_can_add(dir, kind, o, s1 + s2, s3);
    lemma_all_can_add(dir, kind, o, s1 + s2 + s3, s4);
    lemma_all_can_add(dir, kind, o, s1 + s2 + s3 + s4, s5);
    lemma_all_can_add(dir, kind, o, s1 + s2 + s3 + s4 + s5, s6);
    lemma_all_can_add(dir, kind, o, s1 + s2 + s3 + s4 + s5 + s6, s7);
    lemma_all_can_add(dir, kind, o, s1 + s2 + s3 + s4 + s5 + s6 + s7, s8);
}

proof fn lemma_start_can(
    dir: Seq<char>,
    kind: RepoKind,
    o: OptionsView,
    dry_run: bool,
    n: nat,
    total: nat,
)
    ensures
        all_can(dir, kind, o, clean::started(dir, kind, o, dry_run, n, total).agenda),
{
    let steps = clean::plan(dir, kind, o);
    let head = seq![StepView::Log(clean::cleaning(dir, kind, n, total))];
    let last = seq![StepView::Elapsed];
    lemma_plan_can(dir, kind, o);
    lemma_previews_can(dir, kind, o, steps);
    lemma_all_can_add(dir, kind, o, head, clean::previews(steps));
    lemma_all_can_add(dir, kind, o, steps, last);
    assert(steps.push(StepView::Elapsed) =~= steps + last);
    lemma_all_can_add(dir, kind, o, head, steps + last);
}

proof fn lemma_follow_up_can(job: JobView, s: StepView, r: Reply)
    requires
        can_come_up(job.dir, job.kind, job.opts, s),
    ensures
        all_can(job.dir, job.kind, job.opts, clean::follow_up(job, s, r)),
{
    let (dir, kind, o) = (job.dir, job.kind, job.opts);
    lemma_words();
    let f = clean::follow_up(job, s, r);
    let sub = phases::submodule_steps(job.dir);
    let lfs = phases::lfs_steps(job.dir, o.credential_helpers);
    match (s, r) {
        (StepView::Submodules, Reply::Exists(_)) => {
            assert(all_can(dir, kind, o, sub));
            lemma_previews_can(dir, kind, o, sub);
        },
        (StepView::Lfs, Reply::Ran(_)) => {
            assert(all_can(dir, kind, o, lfs));
            lemma_previews_can(dir, kind, o, lfs);
        },
        _ => {
            assert(all_can(dir, kind, o, f));
        },
    }
}

proof fn lemma_run_can(job: JobView, rs: Seq<Reply>)
    requires
        all_can(job.dir, job.kind, job.opts, job.agenda),
        clean_laws::follows(job, rs),
    ensures
        all_can(job.dir, job.kind, job.opts, clean_laws::run(job, rs).agenda),
    decreases rs.len(),
{
    if rs.len() > 0 {
        let (dir, kind, o) = (job.dir, job.kind, job.opts);
        assert(job.agenda.len() > 0);
        let s = job.agenda[0];
        let rest = job.agenda.drop_first();
        assert(can_come_up(dir, kind, o, s));
        lemma_follow_up_can(job, s, rs[0]);
        assert forall|i: int| 0 <= i < rest.len() implies can_come_up(
            dir,
            kind,
            o,
            #[trigger] rest[i],
        ) by {
            assert(rest[i] == job.agenda[i + 1]);
        }
        lemma_all_can_add(dir, kind, o, clean::follow_up(job, s, rs[0]), rest);
        lemma_run_can(clean::after_reply(job, rs[0]), rs.drop_first());
    }
}

/// At any point of a cleanup, what comes up next is a step that can come up.
proof fn lemma_next_can(
    dir: Seq<char>,
    kind: RepoKind,
    o: OptionsView,
    dry_run: bool,
    n: nat,
    total: nat,
    rs: Seq<Reply>,
)
    requires
        clean_laws::follows(clean::started(dir, kind, o, dry_run, n, total), rs),
    ensures
        ({
            let at = clean_laws::run(clean::started(dir, kind, o, dry_run, n, total), rs);
            &&& at.dir == dir
            &&& at.agenda.len() > 0 ==> can_come_up(dir, kind, o, at.agenda[0])
        }),
{
    let job = clean::started(dir, kind, o, dry_run, n, total);
    lemma_start_can(dir, kind, o, dry_run, n, total);
    lemma_run_can(job, rs);
    clean_laws::lemma_run_keeps_settings(job, rs);
}

/// At any point of a cleanup, what Git is run for is one of the commands and
/// questions that the options allow.
proof fn lemma_next_call(
    dir: Seq<char>,
    kind: RepoKind,
    o: OptionsView,
    dry_run: bool,
    n: nat,
    total: nat,
    rs: Seq<Reply>,
)
    requires
        clean_laws::follows(clean::started(dir, kind, o, dry_run, n, total), rs),
    ensures
        clean::next_action(clean_laws::run(clean::started(dir, kind, o, dry_run, n, total), rs))
            matches ActionView::Run(c) ==> may_change(dir, kind, o, c) || may_ask(
            dir,
            kind,
            o,
            c,
        ),
{
    lemma_words();
    lemma_next_can(dir, kind, o, dry_run, n, total, rs);
}

// ── option by option ─────────────────────────────────────────────────────────

/// With `MAINTENANCE_SKIP_SUBMODULES`, and in a bare repository, submodules are
/// neither looked for nor touched, whatever the replies.
pub proof fn skipped_submodules_are_left_alone(
    dir: Seq<char>,
    kind: RepoKind,
    o: OptionsView,
    dry_run: bool,
    n: nat,
    total: nat,
    rs: Seq<Reply>,
)
    requires
        clean_laws::follows(clean::started(dir, kind, o, dry_run, n, total), rs),
        o.skip_submodules || kind is Bare,
    ensures
        match clean::next_action(clean_laws::run(clean::started(dir, kind, o, dry_run, n, total), rs)) {
            ActionView::Exists { .. } => false,
            ActionView::Run(c) => c.args.len() > 0 && c.args[0] != "submodule"@,
            _ => true,
        },
{
    lemma_words();
    lemma_next_can(dir, kind, o, dry_run, n, total, rs);
    lemma_next_call(dir, kind, o, dry_run, n, total, rs);
}

/// With `MAINTENANCE_SKIP_LFS` large files are neither asked about nor pruned,
/// whatever the replies.
pub proof fn skipped_large_files_are_left_alone(
    dir: Seq<char>,
    kind: RepoKind,
    o: OptionsView,
    dry_run: bool,
    n: nat,
    total: nat,
    rs: Seq<Reply>,
)
    requires
        clean_laws::follows(clean::started(dir, kind, o, dry_run, n, total), rs),
        o.skip_lfs,
    ensures
        match clean::next_action(clean_laws::run(clean::started(dir, kind, o, dry_run, n, total), rs)) {
            ActionView::Run(c) => c.args.len() > 0 && c.args[0] != "lfs"@ && c.args[0] != "config"@,
            _ => true,
        },
{
    lemma_words();
    lemma_next_can(dir, kind, o, dry_run, n, total, rs);
    lemma_next_call(dir, kind, o, dry_run, n, total, rs);
}

/// Without `MAINTENANCE_PRUNE_BRANCHES`, and in a bare repository, no command
/// about branches is run, whatever the replies.
pub proof fn branches_stay_unless_asked(
    dir: Seq<char>,
    kind: RepoKind,
    o: OptionsView,
    dry_run: bool,
    n: nat,
    total: nat,
    rs: Seq<Reply>,
)
    requires
        clean_laws::follows(clean::started(dir, kind, o, dry_run, n, total), rs),
        !o.prune_branches || kind is Bare,
    ensures
        match clean::next_action(clean_laws::run(clean::started(dir, kind, o, dry_run, n, total), rs)) {
            ActionView::Run(c) => c.args.len() > 0 && c.args[0] != "branch"@,
            _ => true,
        },
{
    lemma_words();
    lemma_next_can(dir, kind, o, dry_run, n, total, rs);
    lemma_next_call(dir, kind, o, dry_run, n, total, rs);
}

/// Without `MAINTENANCE_PRUNE_WORKTREES`, and in a bare repository, worktrees
/// are neither listed nor looked at nor removed, whatever the replies. The
/// records of those that are gone are still pruned where there is a working
/// tree, and only there.
pub proof fn worktrees_stay_unless_asked(
    dir: Seq<char>,
    kind: RepoKind,
    o: OptionsView,
    dry_run: bool,
    n: nat,
    total: nat,
    rs: Seq<Reply>,
)
    requires
        clean_laws::follows(clean::started(dir, kind, o, dry_run, n, total), rs),
        !o.prune_worktrees || kind is Bare,
    ensures
        match clean::next_action(clean_laws::run(clean::started(dir, kind, o, dry_run, n, total), rs)) {
            ActionView::Idle(_) => false,
            ActionView::Run(c) => c.args.len() > 0 && c.args[0] != "merge-base"@ && (c.args[0]
                == "worktree"@ ==> kind is Normal && c.args == seq!["worktree"@, "prune"@]),
            _ => true,
        },
{
    lemma_words();
    lemma_next_can(dir, kind, o, dry_run, n, total, rs);
    lemma_next_call(dir, kind, o, dry_run, n, total, rs);
}

/// Without anything to prune by it the mainline is not asked for, whatever the
/// replies.
pub proof fn nothing_is_asked_of_the_mainline_in_vain(
    dir: Seq<char>,
    kind: RepoKind,
    o: OptionsView,
    dry_run: bool,
    n: nat,
    total: nat,
    rs: Seq<Reply>,
)
    requires
        clean_laws::follows(clean::started(dir, kind, o, dry_run, n, total), rs),
        !o.prune_branches && !o.prune_worktrees || kind is Bare,
    ensures
        match clean::next_action(clean_laws::run(clean::started(dir, kind, o, dry_run, n, total), rs)) {
            ActionView::Run(c) => c.args.len() > 0 && c.args[0] != "symbolic-ref"@ && c.args[0]
                != "rev-parse"@,
            _ => true,
        },
{
    lemma_words();
    lemma_next_can(dir, kind, o, dry_run, n, total, rs);
    lemma_next_call(dir, kind, o, dry_run, n, total, rs);
}

/// Tags are pruned just if `MAINTENANCE_PRUNE_TAGS` asks for it; the reflog is
/// expired at the cutoff of the settings; and how objects are packed and
/// garbage is collected depends on `MAINTENANCE_AGGRESSIVE` alone.
pub proof fn commands_follow_the_settings(
    dir: Seq<char>,
    kind: RepoKind,
    o: OptionsView,
    dry_run: bool,
    n: nat,
    total: nat,
    rs: Seq<Reply>,
)
    requires
        clean_laws::follows(clean::started(dir, kind, o, dry_run, n, total), rs),
    ensures
        match clean::next_action(clean_laws::run(clean::started(dir, kind, o, dry_run, n, total), rs)) {
            ActionView::Run(c) => {
                &&& c.args.len() > 0
                &&& c.args[0] == "fetch"@ ==> c.args == (if o.prune_tags {
                    seq!["fetch"@, "--all"@, "--prune"@, "--prune-tags"@]
                } else {
                    seq!["fetch"@, "--all"@, "--prune"@]
                })
                &&& c.args[0] == "reflog"@ ==> c.args == seq![
                    "reflog"@,
                    "expire"@,
                    "--expire="@ + o.reflog_expire,
                    "--all"@,
                ]
                &&& c.args[0] == "gc"@ ==> c.args == (if o.aggressive {
                    seq!["gc"@, "--aggressive"@, "--prune=all"@]
                } else {
                    seq!["gc"@, "--auto"@]
                })
                &&& c.args[0] == "repack"@ ==> o.aggressive && c.args == seq![
                    "repack"@,
                    "-a"@,
                    "-d"@,
                    "-f"@,
                ]
                &&& c.args[0] == "count-objects"@ ==> !o.aggressive
                &&& c.args[0] == "maintenance"@ ==> c.args.len() == 3 && c.args[1] == "run"@ && (
                c.args[2] == "--task=loose-objects"@ || c.args[2] == "--task=commit-graph"@ || (
                !o.aggressive && c.args[2] == "--task=incremental-repack"@))
                &&& c.args[0] == "lfs"@ ==> c.args == seq!["lfs"@, "prune"@]
            },
            _ => true,
        },
{
    lemma_words();
    lemma_next_can(dir, kind, o, dry_run, n, total, rs);
    lemma_next_call(dir, kind, o, dry_run, n, total, rs);
}

/// Every command is run in the repository that is cleaned, and fully shielded
/// unless it is a question that Git answers from what is stored. The configured
/// credential helpers stay in force just for the fetch and for the pruning of
/// large files, and just if `MAINTENANCE_CREDENTIAL_HELPERS` asks for it.
pub proof fn commands_run_shielded(
    dir: Seq<char>,
    kind: RepoKind,
    o: OptionsView,
    dry_run: bool,
    n: nat,
    total: nat,
    rs: Seq<Reply>,
)
    requires
        clean_laws::follows(clean::started(dir, kind, o, dry_run, n, total), rs),
    ensures
        match clean::next_action(clean_laws::run(clean::started(dir, kind, o, dry_run, n, total), rs)) {
            ActionView::Run(c) => {
                &&& c.dir == dir
                &&& c.args.len() > 0
                &&& c.profile is Helpers <==> o.credential_helpers && (c.args[0] == "fetch"@
                    || c.args[0] == "lfs"@)
                &&& c.profile is Probe <==> c.args[0] == "symbolic-ref"@ || c.args[0]
                    == "rev-parse"@ || c.args[0] == "merge-base"@ || c.args[0]
                    == "count-objects"@ || c.args[0] == "config"@
            },
            _ => true,
        },
{
    lemma_words();
    lemma_next_can(dir, kind, o, dry_run, n, total, rs);
    lemma_next_call(dir, kind, o, dry_run, n, total, rs);
}

/// Git is run for nothing but these commands and questions.
pub proof fn every_command_is_a_known_one(
    dir: Seq<char>,
    kind: RepoKind,
    o: OptionsView,
    dry_run: bool,
    n: nat,
    total: nat,
    rs: Seq<Reply>,
)
    requires
        clean_laws::follows(clean::started(dir, kind, o, dry_run, n, total), rs),
    ensures
        match clean::next_action(clean_laws::run(clean::started(dir, kind, o, dry_run, n, total), rs)) {
            ActionView::Run(c) => {
                &&& c.args.len() > 0
                &&& {
                    ||| c.args[0] == "fetch"@
                    ||| c.args == seq!["pack-refs"@, "--all"@]
                    ||| c.args == seq!["worktree"@, "prune"@]
                    ||| c.args == seq!["worktree"@, "list"@, "--porcelain"@]
                    ||| c.args.len() == 4 && c.args[0] == "worktree"@ && c.args[1] == "remove"@
                        && c.args[2] == "--"@
                    ||| c.args[0] == "reflog"@
                    ||| c.args == seq!["rerere"@, "gc"@]
                    ||| c.args == seq!["notes"@, "prune"@]
                    ||| c.args.len() > 3 && c.args[0] == "branch"@ && c.args[1] == "-d"@ && c.args[2]
                        == "--"@
                    ||| c.args.len() == 3 && c.args[0] == "branch"@ && c.args[1] == "--merged"@
                    ||| c.args[0] == "maintenance"@
                    ||| c.args[0] == "gc"@
                    ||| c.args[0] == "repack"@
                    ||| c.args == seq!["submodule"@, "sync"@, "--recursive"@]
                    ||| c.args == seq![
                        "submodule"@,
                        "foreach"@,
                        "--recursive"@,
                        "git"@,
                        "gc"@,
                        "--auto"@,
                    ]
                    ||| c.args == seq!["lfs"@, "prune"@]
                    ||| c.args == seq!["symbolic-ref"@, "--short"@, "refs/remotes/origin/HEAD"@]
                    ||| c.args == seq![
                        "rev-parse"@,
                        "--verify"@,
                        "--quiet"@,
                        "refs/heads/"@ + "main"@,
                    ]
                    ||| c.args == seq![
                        "rev-parse"@,
                        "--verify"@,
                        "--quiet"@,
                        "refs/heads/"@ + "master"@,
                    ]
                    ||| c.args.len() == 4 && c.args[0] == "merge-base"@ && c.args[1]
                        == "--is-ancestor"@
                    ||| c.args == seq!["count-objects"@, "-v"@]
                    ||| c.args == seq![
                        "config"@,
                        "--local"@,
                        "--get-regexp"@,
                        "filter\\.lfs\\."@,
                    ]
                }
            },
            _ => true,
        },
{
    lemma_words();
    lemma_next_can(dir, kind, o, dry_run, n, total, rs);
    lemma_next_call(dir, kind, o, dry_run, n, total, rs);
}

/// A dry run puts no other questions to Git than for the mainline, and for
/// large files if they are not skipped, and runs no command at all.
pub proof fn dry_runs_only_ask(
    dir: Seq<char>,
    kind: RepoKind,
    o: OptionsView,
    n: nat,
    total: nat,
    rs: Seq<Reply>,
)
    requires
        clean_laws::follows(clean::started(dir, kind, o, true, n, total), rs),
    ensures
        match clean::next_action(
            clean_laws::run(clean::started(dir, kind, o, true, n, total), rs),
        ) {
            ActionView::Run(c) => {
                ||| kind is Normal && o.prune_branches && (c.args == seq![
                    "symbolic-ref"@,
                    "--short"@,
                    "refs/remotes/origin/HEAD"@,
                ] || c.args == seq!["rev-parse"@, "--verify"@, "--quiet"@, "refs/heads/"@ + "main"@]
                    || c.args == seq![
                    "rev-parse"@,
                    "--verify"@,
                    "--quiet"@,
                    "refs/heads/"@ + "master"@,
                ])
                ||| !o.skip_lfs && c.args == seq![
                    "config"@,
                    "--local"@,
                    "--get-regexp"@,
                    "filter\\.lfs\\."@,
                ]
            },
            ActionView::Idle(_) => false,
            ActionView::Finish(ok) => ok,
            _ => true,
        },
{
    let job = clean::started(dir, kind, o, true, n, total);
    let at = clean_laws::run(job, rs);
    lemma_next_can(dir, kind, o, true, n, total, rs);
    clean_laws::dry_run_changes_nothing(dir, kind, o, n, total, rs);
    clean_laws::lemma_starts_dry(dir, kind, o, n, total);
    clean_laws::lemma_stays_dry(job, rs);
    if at.agenda.len() > 0 {
        assert(clean_laws::only_looks(at.agenda[0]));
    }
}

/// Protected branches survive: no command that deletes branches names one of
/// them, and every name in it is one that cannot be taken for an option.
pub proof fn protected_branches_survive(
    dir: Seq<char>,
    kind: RepoKind,
    o: OptionsView,
    dry_run: bool,
    n: nat,
    total: nat,
    rs: Seq<Reply>,
    i: int,
    j: int,
)
    requires
        clean_laws::follows(clean::started(dir, kind, o, dry_run, n, total), rs),
        0 <= j < o.protected_branches.len(),
    ensures
        match clean::next_action(clean_laws::run(clean::started(dir, kind, o, dry_run, n, total), rs)) {
            ActionView::Run(c) => c.args[0] == "branch"@ && c.args[1] != "--merged"@ && 3 <= i
                < c.args.len() ==> {
                &&& c.args[2] == "--"@
                &&& c.args[i] != o.protected_branches[j]
                &&& c.args[i].len() > 0
                &&& c.args[i][0] != '-'
                &&& c.args[i][0] != '('
            },
            _ => true,
        },
{
    let job = clean::started(dir, kind, o, dry_run, n, total);
    lemma_words();
    lemma_next_call(dir, kind, o, dry_run, n, total, rs);
    clean_laws::cleanups_stay_within_bounds(dir, kind, o, dry_run, n, total, rs);
    if let ActionView::Run(c) = clean::next_action(clean_laws::run(job, rs)) {
        if c.args[0] == "branch"@ && c.args[1] != "--merged"@ && 3 <= i < c.args.len() {
            let p = o.protected_branches;
            let m = choose|m: Seq<char>| clean_laws::all_deletable(c.args.skip(3), m, p);
            assert(c.args.skip(3)[i - 3] == c.args[i]);
            assert(branches::deletable(c.args.skip(3)[i - 3], m, p));
            assert(p.contains(p[j]));
        }
    }
}

/// The repository that is cleaned is never removed as a worktree.
pub proof fn the_cleaned_directory_survives(
    dir: Seq<char>,
    kind: RepoKind,
    o: OptionsView,
    dry_run: bool,
    n: nat,
    total: nat,
    rs: Seq<Reply>,
)
    requires
        clean_laws::follows(clean::started(dir, kind, o, dry_run, n, total), rs),
    ensures
        match clean::next_action(clean_laws::run(clean::started(dir, kind, o, dry_run, n, total), rs)) {
            ActionView::Run(c) => c.args[0] == "worktree"@ && c.args[1] == "remove"@ ==> c.args.len()
                == 4 && c.args[3] != dir,
            _ => true,
        },
{
    let job = clean::started(dir, kind, o, dry_run, n, total);
    lemma_words();
    lemma_next_call(dir, kind, o, dry_run, n, total, rs);
    clean_laws::cleanups_stay_within_bounds(dir, kind, o, dry_run, n, total, rs);
    if let ActionView::Run(c) = clean::next_action(clean_laws::run(job, rs)) {
        if c.args[0] == "worktree"@ && c.args[1] == "remove"@ {
            let p = o.protected_branches;
            let (t, j) = choose|t: Seq<char>, j: int|
                0 <= j < clean_laws::spares_in(t, dir, p).len() && (#[trigger] clean_laws::spares_in(
                    t,
                    dir,
                    p,
                )[j]).path == c.args[3];
            worktrees::kept_worktrees(worktrees::listed(text::line_texts(t)), dir, p, j);
        }
    }
}

// ── success and failure ──────────────────────────────────────────────────────

/// A cleanup ends well just if every command that changes something, every
/// listing and the count of packs ran and reported success. Only the questions
/// for the mainline, for what is merged, and for large files may be answered
/// by failing.
pub proof fn every_failure_counts(
    dir: Seq<char>,
    kind: RepoKind,
    o: OptionsView,
    dry_run: bool,
    n: nat,
    total: nat,
    rs: Seq<Reply>,
)
    requires
        clean_laws::follows(clean::started(dir, kind, o, dry_run, n, total), rs),
        clean_laws::run(clean::started(dir, kind, o, dry_run, n, total), rs).agenda.len() == 0,
    ensures
        clean::next_action(clean_laws::run(clean::started(dir, kind, o, dry_run, n, total), rs))
            == ActionView::Finish(
            forall|k: int|
                0 <= k < rs.len() ==> match (
                    clean::next_action(
                        #[trigger] clean_laws::run(
                            clean::started(dir, kind, o, dry_run, n, total),
                            rs.take(k),
                        ),
                    ),
                    rs[k],
                ) {
                    (ActionView::Run(c), Reply::Ran(o)) => c.args[0] == "symbolic-ref"@ || c.args[0]
                        == "rev-parse"@ || c.args[0] == "merge-base"@ || c.args[0] == "config"@ || (
                    o matches Output::Exited { success, .. } && success),
                    _ => true,
                },
        ),
{
    let job = clean::started(dir, kind, o, dry_run, n, total);
    lemma_words();
    clean_laws::one_failure_is_remembered(job, rs);
    assert forall|k: int| 0 <= k < rs.len() implies (match (
        clean::next_action(#[trigger] clean_laws::run(job, rs.take(k))),
        rs[k],
    ) {
        (ActionView::Run(c), Reply::Ran(o)) => c.args[0] == "symbolic-ref"@ || c.args[0]
            == "rev-parse"@ || c.args[0] == "merge-base"@ || c.args[0] == "config"@ || (
        o matches Output::Exited { success, .. } && success),
        _ => true,
    }) == clean::went_well(clean_laws::run(job, rs.take(k)).agenda[0], rs[k]) by {
        clean_laws::lemma_run_split(job, rs, k);
        let at = clean_laws::run(job, rs.take(k));
        let back = rs.skip(k);
        assert(back[0] == rs[k]);
        lemma_next_can(dir, kind, o, dry_run, n, total, rs.take(k));
        assert(clean::answers(clean::next_action(at), rs[k]));
    }
}

// ── the whole of a run ───────────────────────────────────────────────────────

/// What steps do that come one after the other falls apart.
proof fn lemma_split_groups(
    f: Findings,
    dir: Seq<char>,
    helpers: bool,
    a: Seq<StepView>,
    b: Seq<StepView>,
    groups: Seq<Seq<CallView>>,
)
    requires
        dry_run::all_may_run(f, dir, helpers, a + b, groups),
    ensures
        dry_run::all_may_run(f, dir, helpers, a, groups.take(a.len() as int)),
        dry_run::all_may_run(f, dir, helpers, b, groups.skip(a.len() as int)),
        groups.flatten() == groups.take(a.len() as int).flatten() + groups.skip(
            a.len() as int,
        ).flatten(),
{
    let n = a.len() as int;
    let x = groups.take(n);
    let y = groups.skip(n);
    assert forall|i: int| 0 <= i < a.len() implies dry_run::may_run(
        f,
        dir,
        helpers,
        #[trigger] a[i],
        x[i],
    ) by {
        assert((a + b)[i] == a[i]);
    }
    assert forall|i: int| 0 <= i < b.len() implies dry_run::may_run(
        f,
        dir,
        helpers,
        #[trigger] b[i],
        y[i],
    ) by {
        assert((a + b)[i + n] == b[i]);
    }
    assert(groups =~= x + y);
    lemma_flatten_concat(x, y);
}

proof fn lemma_only_group(
    f: Findings,
    dir: Seq<char>,
    helpers: bool,
    s: StepView,
    groups: Seq<Seq<CallView>>,
)
    requires
        dry_run::all_may_run(f, dir, helpers, seq![s], groups),
    ensures
        dry_run::may_run(f, dir, helpers, s, groups.flatten()),
{
    dry_run::lemma_flatten_one(groups);
    assert(seq![s][0] == s);
}

spec fn object_steps(dir: Seq<char>, o: OptionsView) -> Seq<StepView> {
    if o.aggressive {
        phases::aggressive_object_steps(dir)
    } else {
        phases::normal_object_steps(dir)
    }
}

/// What a run does, phase by phase.
struct Done {
    w: Seq<CallView>,
    b: Seq<CallView>,
    objects: Seq<Seq<CallView>>,
    submodules: Seq<CallView>,
    lfs: Seq<CallView>,
}

/// What comes of a phase that is a single step or none.
spec fn part_fits(f: Findings, dir: Seq<char>, h: bool, on: bool, s: StepView, cs: Seq<CallView>) -> bool {
    if on {
        dry_run::may_run(f, dir, h, s, cs)
    } else {
        cs.len() == 0
    }
}

proof fn lemma_part(
    f: Findings,
    dir: Seq<char>,
    h: bool,
    on: bool,
    s: StepView,
    groups: Seq<Seq<CallView>>,
)
    requires
        dry_run::all_may_run(f, dir, h, clean::only_if(on, seq![s]), groups),
    ensures
        part_fits(f, dir, h, on, s, groups.flatten()),
{
    if on {
        lemma_only_group(f, dir, h, s, groups);
    } else {
        assert(groups.flatten() =~= Seq::<CallView>::empty());
    }
}

proof fn lemma_phases_of_a_run(
    f: Findings,
    dir: Seq<char>,
    kind: RepoKind,
    o: OptionsView,
    n: nat,
    total: nat,
    rs: Seq<Reply>,
) -> (d: Done)
    requires
        dry_run::complete(f, clean::started(dir, kind, o, false, n, total), rs),
    ensures
        dry_run::commands(clean::started(dir, kind, o, false, n, total), rs) == dry_run::git_calls(
            phases::fetch_steps(dir, o.prune_tags, o.credential_helpers),
        ) + dry_run::git_calls(phases::refs_steps(dir, kind, o.reflog_expire)) + d.w + d.b
            + d.objects.flatten() + dry_run::git_calls(phases::index_steps(dir)) + d.submodules
            + d.lfs,
        part_fits(
            f,
            dir,
            o.credential_helpers,
            !(kind is Bare) && o.prune_worktrees,
            StepView::Origin(Purpose::Worktrees),
            d.w,
        ),
        part_fits(
            f,
            dir,
            o.credential_helpers,
            !(kind is Bare) && o.prune_branches,
            StepView::Origin(Purpose::Branches),
            d.b,
        ),
        dry_run::all_may_run(f, dir, o.credential_helpers, object_steps(dir, o), d.objects),
        part_fits(
            f,
            dir,
            o.credential_helpers,
            !(kind is Bare) && !o.skip_submodules,
            StepView::Submodules,
            d.submodules,
        ),
        part_fits(f, dir, o.credential_helpers, !o.skip_lfs, StepView::Lfs, d.lfs),
{
    let job = clean::started(dir, kind, o, false, n, total);
    let h = o.credential_helpers;
    let s1 = phases::fetch_steps(dir, o.prune_tags, h);
    let s2 = phases::refs_steps(dir, kind, o.reflog_expire);
    let s3 = clean::only_if(
        !(kind is Bare) && o.prune_worktrees,
        phases::worktree_removal_steps(),
    );
    let s4 = clean::only_if(!(kind is Bare) && o.prune_branches, phases::branch_steps());
    let s5 = object_steps(dir, o);
    let s6 = phases::index_steps(dir);
    let s7 = clean::only_if(!(kind is Bare) && !o.skip_submodules, seq![StepView::Submodules]);
    let s8 = clean::only_if(!o.skip_lfs, seq![StepView::Lfs]);
    let head = seq![StepView::Log(clean::cleaning(dir, kind, n, total))];
    let last = seq![StepView::Elapsed];
    let steps = clean::plan(dir, kind, o);
    let all = dry_run::lemma_run_does(f, job, rs);
    assert(job.agenda =~= head + (steps + last));
    lemma_split_groups(f, dir, h, head, steps + last, all);
    lemma_only_group(f, dir, h, head[0], all.take(1));
    let g0 = all.skip(1);
    lemma_split_groups(f, dir, h, steps, last, g0);
    lemma_only_group(f, dir, h, last[0], g0.skip(steps.len() as int));
    let g = g0.take(steps.len() as int);
    assert(all.flatten() =~= g.flatten());
    // From the last phase to the first.
    let t7 = s1 + s2 + s3 + s4 + s5 + s6 + s7;
    lemma_split_groups(f, dir, h, t7, s8, g);
    let g8 = g.skip(t7.len() as int);
    let r7 = g.take(t7.len() as int);
    let t6 = s1 + s2 + s3 + s4 + s5 + s6;
    lemma_split_groups(f, dir, h, t6, s7, r7);
    let g7 = r7.skip(t6.len() as int);
    let r6 = r7.take(t6.len() as int);
    let t5 = s1 + s2 + s3 + s4 + s5;
    lemma_split_groups(f, dir, h, t5, s6, r6);
    let g6 = r6.skip(t5.len() as int);
    let r5 = r6.take(t5.len() as int);
    let t4 = s1 + s2 + s3 + s4;
    lemma_split_groups(f, dir, h, t4, s5, r5);
    let g5 = r5.skip(t4.len() as int);
    let r4 = r5.take(t4.len() as int);
    let t3 = s1 + s2 + s3;
    lemma_split_groups(f, dir, h, t3, s4, r4);
    let g4 = r4.skip(t3.len() as int);
    let r3 = r4.take(t3.len() as int);
    let t2 = s1 + s2;
    lemma_split_groups(f, dir, h, t2, s3, r3);
    let g3 = r3.skip(t2.len() as int);
    let r2 = r3.take(t2.len() as int);
    lemma_split_groups(f, dir, h, s1, s2, r2);
    let g2 = r2.skip(s1.len() as int);
    let g1 = r2.take(s1.len() as int);
    dry_run::lemma_flatten_calls(f, dir, h, s1, g1);
    dry_run::lemma_flatten_calls(f, dir, h, s2, g2);
    dry_run::lemma_flatten_calls(f, dir, h, s6, g6);
    lemma_part(
        f,
        dir,
        h,
        !(kind is Bare) && o.prune_worktrees,
        StepView::Origin(Purpose::Worktrees),
        g3,
    );
    lemma_part(
        f,
        dir,
        h,
        !(kind is Bare) && o.prune_branches,
        StepView::Origin(Purpose::Branches),
        g4,
    );
    lemma_part(f, dir, h, !(kind is Bare) && !o.skip_submodules, StepView::Submodules, g7);
    lemma_part(f, dir, h, !o.skip_lfs, StepView::Lfs, g8);
    Done {
        w: g3.flatten(),
        b: g4.flatten(),
        objects: g5,
        submodules: g7.flatten(),
        lfs: g8.flatten(),
    }
}

spec fn arg_lists(cs: Seq<CallView>) -> Seq<Seq<Seq<char>>> {
    cs.map_values(|c: CallView| c.args)
}

proof fn lemma_arg_lists_add(a: Seq<CallView>, b: Seq<CallView>)
    ensures
        arg_lists(a + b) == arg_lists(a) + arg_lists(b),
{
    assert(arg_lists(a + b) =~= arg_lists(a) + arg_lists(b));
}

proof fn lemma_fetch_and_refs(dir: Seq<char>, kind: RepoKind, o: OptionsView)
    ensures
        arg_lists(
            dry_run::git_calls(phases::fetch_steps(dir, o.prune_tags, o.credential_helpers))
                + dry_run::git_calls(phases::refs_steps(dir, kind, o.reflog_expire)),
        ) == seq![
            if o.prune_tags {
                seq!["fetch"@, "--all"@, "--prune"@, "--prune-tags"@]
            } else {
                seq!["fetch"@, "--all"@, "--prune"@]
            },
            seq!["pack-refs"@, "--all"@],
        ] + (if kind is Normal {
            seq![seq!["worktree"@, "prune"@]]
        } else {
            Seq::<Seq<Seq<char>>>::empty()
        }) + seq![
            seq!["reflog"@, "expire"@, "--expire="@ + o.reflog_expire, "--all"@],
            seq!["rerere"@, "gc"@],
            seq!["notes"@, "prune"@],
        ],
{
    let x = arg_lists(
        dry_run::git_calls(phases::fetch_steps(dir, o.prune_tags, o.credential_helpers))
            + dry_run::git_calls(phases::refs_steps(dir, kind, o.reflog_expire)),
    );
    let y = seq![
        if o.prune_tags {
            seq!["fetch"@, "--all"@, "--prune"@, "--prune-tags"@]
        } else {
            seq!["fetch"@, "--all"@, "--prune"@]
        },
        seq!["pack-refs"@, "--all"@],
    ] + (if kind is Normal {
        seq![seq!["worktree"@, "prune"@]]
    } else {
        Seq::<Seq<Seq<char>>>::empty()
    }) + seq![
        seq!["reflog"@, "expire"@, "--expire="@ + o.reflog_expire, "--all"@],
        seq!["rerere"@, "gc"@],
        seq!["notes"@, "prune"@],
    ];
    assert(x =~= y);
}

proof fn lemma_objects(
    f: Findings,
    dir: Seq<char>,
    o: OptionsView,
    groups: Seq<Seq<CallView>>,
) -> (p: Seq<CallView>)
    requires
        dry_run::all_may_run(f, dir, o.credential_helpers, object_steps(dir, o), groups),
    ensures
        arg_lists(groups.flatten()) == seq![
            seq!["maintenance"@, "run"@, "--task=loose-objects"@],
        ] + arg_lists(p) + (if o.aggressive {
            seq![
                seq!["repack"@, "-a"@, "-d"@, "-f"@],
                seq!["gc"@, "--aggressive"@, "--prune=all"@],
            ]
        } else {
            seq![seq!["gc"@, "--auto"@]]
        }),
        p.len() <= 1,
        p.len() > 0 ==> !o.aggressive && p[0].args == seq![
            "maintenance"@,
            "run"@,
            "--task=incremental-repack"@,
        ],
{
    let h = o.credential_helpers;
    let s = object_steps(dir, o);
    let cs = groups.flatten();
    if o.aggressive {
        dry_run::lemma_flatten_calls(f, dir, h, s, groups);
        let p = Seq::<CallView>::empty();
        assert(arg_lists(cs) =~= seq![seq!["maintenance"@, "run"@, "--task=loose-objects"@]]
            + arg_lists(p) + seq![
            seq!["repack"@, "-a"@, "-d"@, "-f"@],
            seq!["gc"@, "--aggressive"@, "--prune=all"@],
        ]);
        p
    } else {
        assert(dry_run::may_run(f, dir, h, s[0], groups[0]));
        assert(dry_run::may_run(f, dir, h, s[1], groups[1]));
        assert(dry_run::may_run(f, dir, h, s[2], groups[2]));
        let x = seq![groups[0]];
        let y = seq![groups[1], groups[2]];
        assert(groups =~= x + y);
        lemma_flatten_concat(x, y);
        dry_run::lemma_flatten_one(x);
        dry_run::lemma_flatten_two(y);
        let p = groups[1];
        assert(arg_lists(cs) =~= seq![seq!["maintenance"@, "run"@, "--task=loose-objects"@]]
            + arg_lists(p) + seq![seq!["gc"@, "--auto"@]]);
        p
    }
}

proof fn lemma_rest(
    f: Findings,
    dir: Seq<char>,
    kind: RepoKind,
    o: OptionsView,
    submodules: Seq<CallView>,
    lfs: Seq<CallView>,
)
    requires
        part_fits(
            f,
            dir,
            o.credential_helpers,
            !(kind is Bare) && !o.skip_submodules,
            StepView::Submodules,
            submodules,
        ),
        part_fits(f, dir, o.credential_helpers, !o.skip_lfs, StepView::Lfs, lfs),
    ensures
        arg_lists(dry_run::git_calls(phases::index_steps(dir))) == seq![
            seq!["maintenance"@, "run"@, "--task=commit-graph"@],
        ],
        arg_lists(submodules) == (if kind is Normal && !o.skip_submodules && f.submodules {
            seq![
                seq!["submodule"@, "sync"@, "--recursive"@],
                seq!["submodule"@, "foreach"@, "--recursive"@, "git"@, "gc"@, "--auto"@],
            ]
        } else {
            Seq::<Seq<Seq<char>>>::empty()
        }),
        arg_lists(lfs) == (if !o.skip_lfs && (f.lfs matches Output::Exited { success, .. }
            && success) {
            seq![seq!["lfs"@, "prune"@]]
        } else {
            Seq::<Seq<Seq<char>>>::empty()
        }),
{
    assert(arg_lists(dry_run::git_calls(phases::index_steps(dir))) =~= seq![
        seq!["maintenance"@, "run"@, "--task=commit-graph"@],
    ]);
    assert(arg_lists(submodules) =~= (if kind is Normal && !o.skip_submodules && f.submodules {
        seq![
            seq!["submodule"@, "sync"@, "--recursive"@],
            seq!["submodule"@, "foreach"@, "--recursive"@, "git"@, "gc"@, "--auto"@],
        ]
    } else {
        Seq::<Seq<Seq<char>>>::empty()
    }));
    assert(arg_lists(lfs) =~= (if !o.skip_lfs && (f.lfs matches Output::Exited { success, .. }
        && success) {
        seq![seq!["lfs"@, "prune"@]]
    } else {
        Seq::<Seq<Seq<char>>>::empty()
    }));
}

proof fn lemma_seven_arg_lists(
    a: Seq<CallView>,
    w: Seq<CallView>,
    b: Seq<CallView>,
    c: Seq<CallView>,
    e: Seq<CallView>,
    s: Seq<CallView>,
    l: Seq<CallView>,
    first: Seq<Seq<Seq<char>>>,
    second: Seq<Seq<Seq<char>>>,
    third: Seq<Seq<Seq<char>>>,
)
    requires
        arg_lists(c) == first + second + third,
    ensures
        arg_lists(a + w + b + c + e + s + l) == arg_lists(a) + arg_lists(w) + arg_lists(b) + first
            + second + third + arg_lists(e) + arg_lists(s) + arg_lists(l),
{
    lemma_arg_lists_add(a, w);
    lemma_arg_lists_add(a + w, b);
    lemma_arg_lists_add(a + w + b, c);
    lemma_arg_lists_add(a + w + b + c, e);
    lemma_arg_lists_add(a + w + b + c + e, s);
    lemma_arg_lists_add(a + w + b + c + e + s, l);
    let front = arg_lists(a) + arg_lists(w) + arg_lists(b);
    assert(front + (first + second + third) =~= front + first + second + third);
}

proof fn lemma_removals(dir: Seq<char>, w: Seq<CallView>)
    requires
        forall|i: int|
            0 <= i < w.len() ==> exists|path: Seq<char>| #[trigger] w[i] == #[trigger] worktrees::remove_call(dir, path),
    ensures
        forall|i: int|
            0 <= i < w.len() ==> (#[trigger] w[i]).args.len() == 4 && w[i].args[0] == "worktree"@
                && w[i].args[1] == "remove"@ && w[i].args[2] == "--"@,
{
    assert forall|i: int| 0 <= i < w.len() implies (#[trigger] w[i]).args.len() == 4 && w[i].args[0]
        == "worktree"@ && w[i].args[1] == "remove"@ && w[i].args[2] == "--"@ by {
        let path = choose|path: Seq<char>| w[i] == #[trigger] worktrees::remove_call(dir, path);
    }
}

/// A run that is complete issues these commands, in this order, and no others.
/// Three parts of it are known only from the replies: the worktrees that are
/// removed, the branches that are deleted, and whether there is something to
/// repack.
#[verifier::rlimit(40)]
pub proof fn runs_issue_the_whole_pipeline(
    f: Findings,
    dir: Seq<char>,
    kind: RepoKind,
    o: OptionsView,
    n: nat,
    total: nat,
    rs: Seq<Reply>,
) -> (parts: (Seq<CallView>, Seq<CallView>, Seq<CallView>))
    requires
        dry_run::complete(f, clean::started(dir, kind, o, false, n, total), rs),
    ensures
        ({
            let none = Seq::<Seq<Seq<char>>>::empty();
            let (w, b, p) = parts;
            &&& dry_run::commands(clean::started(dir, kind, o, false, n, total), rs).map_values(
                |c: CallView| c.args,
            ) == seq![
                if o.prune_tags {
                    seq!["fetch"@, "--all"@, "--prune"@, "--prune-tags"@]
                } else {
                    seq!["fetch"@, "--all"@, "--prune"@]
                },
                seq!["pack-refs"@, "--all"@],
            ] + (if kind is Normal {
                seq![seq!["worktree"@, "prune"@]]
            } else {
                none
            }) + seq![
                seq!["reflog"@, "expire"@, "--expire="@ + o.reflog_expire, "--all"@],
                seq!["rerere"@, "gc"@],
                seq!["notes"@, "prune"@],
            ] + w.map_values(|c: CallView| c.args) + b.map_values(|c: CallView| c.args) + seq![
                seq!["maintenance"@, "run"@, "--task=loose-objects"@],
            ] + p.map_values(|c: CallView| c.args) + (if o.aggressive {
                seq![
                    seq!["repack"@, "-a"@, "-d"@, "-f"@],
                    seq!["gc"@, "--aggressive"@, "--prune=all"@],
                ]
            } else {
                seq![seq!["gc"@, "--auto"@]]
            }) + seq![seq!["maintenance"@, "run"@, "--task=commit-graph"@]] + (if kind is Normal
                && !o.skip_submodules && f.submodules {
                seq![
                    seq!["submodule"@, "sync"@, "--recursive"@],
                    seq!["submodule"@, "foreach"@, "--recursive"@, "git"@, "gc"@, "--auto"@],
                ]
            } else {
                none
            }) + (if !o.skip_lfs && (f.lfs matches Output::Exited { success, .. } && success) {
                seq![seq!["lfs"@, "prune"@]]
            } else {
                none
            })
            &&& w.len() > 0 ==> kind is Normal && o.prune_worktrees
            &&& forall|i: int|
                0 <= i < w.len() ==> (#[trigger] w[i]).args.len() == 4 && w[i].args[0]
                    == "worktree"@ && w[i].args[1] == "remove"@ && w[i].args[2] == "--"@
            &&& b.len() <= 1
            &&& b.len() > 0 ==> kind is Normal && o.prune_branches && b[0].args.len() >= 3
                && b[0].args[0] == "branch"@ && b[0].args[1] == "-d"@ && b[0].args[2] == "--"@
            &&& p.len() <= 1
            &&& p.len() > 0 ==> !o.aggressive && p[0].args == seq![
                "maintenance"@,
                "run"@,
                "--task=incremental-repack"@,
            ]
        }),
{
    let d = lemma_phases_of_a_run(f, dir, kind, o, n, total, rs);
    let p = lemma_objects(f, dir, o, d.objects);
    lemma_fetch_and_refs(dir, kind, o);
    lemma_rest(f, dir, kind, o, d.submodules, d.lfs);
    let a = dry_run::git_calls(phases::fetch_steps(dir, o.prune_tags, o.credential_helpers))
        + dry_run::git_calls(phases::refs_steps(dir, kind, o.reflog_expire));
    let c = d.objects.flatten();
    let e = dry_run::git_calls(phases::index_steps(dir));
    let loose = seq![seq!["maintenance"@, "run"@, "--task=loose-objects"@]];
    let gc = if o.aggressive {
        seq![
            seq!["repack"@, "-a"@, "-d"@, "-f"@],
            seq!["gc"@, "--aggressive"@, "--prune=all"@],
        ]
    } else {
        seq![seq!["gc"@, "--auto"@]]
    };
    lemma_seven_arg_lists(a, d.w, d.b, c, e, d.submodules, d.lfs, loose, arg_lists(p), gc);
    lemma_removals(dir, d.w);
    (d.w, d.b, p)
}

// ── the whole of a dry run ───────────────────────────────────────────────────

/// The line that names the command with these arguments.
spec fn named(args: Seq<Seq<char>>) -> Seq<char> {
    "  (dry-run) "@ + ("git "@ + text::joined(args, " "@))
}

spec fn named_all(lists: Seq<Seq<Seq<char>>>) -> Seq<Seq<char>> {
    lists.map_values(|args: Seq<Seq<char>>| named(args))
}

proof fn lemma_commands_are_named(
    f: Findings,
    dir: Seq<char>,
    h: bool,
    a: Seq<StepView>,
    lists: Seq<Seq<Seq<char>>>,
)
    requires
        forall|i: int| 0 <= i < a.len() ==> (#[trigger] a[i]) is Git,
        arg_lists(dry_run::git_calls(a)) == lists,
    ensures
        dry_run::all_say(f, dir, h, clean::previews(a)) == named_all(lists),
{
    let p = clean::previews(a);
    dry_run::lemma_git_previews_are_messages(a);
    assert forall|i: int| 0 <= i < p.len() implies (#[trigger] p[i]) is Log by {
        assert(p[i] == clean::would(call::shown(a[i]->Git_0)));
    }
    dry_run::lemma_messages_say(f, dir, h, p);
    assert forall|i: int| 0 <= i < p.len() implies #[trigger] dry_run::log_texts(p)[i]
        == named_all(lists)[i] by {
        assert(p[i] == clean::would(call::shown(a[i]->Git_0)));
        assert(lists[i] == a[i]->Git_0.args);
    }
    assert(lists.len() == a.len());
    assert(dry_run::log_texts(p) =~= named_all(lists));
}

proof fn lemma_previews_one(s: StepView)
    ensures
        clean::previews(seq![s]) == clean::preview(s),
{
    assert(seq![s].drop_last() =~= Seq::<StepView>::empty());
    assert(clean::previews(seq![s].drop_last()) =~= Seq::<StepView>::empty());
    assert(clean::previews(seq![s]) =~= clean::preview(s));
}

/// What is said of a phase that is a single step or none.
proof fn lemma_part_says(f: Findings, dir: Seq<char>, h: bool, on: bool, s: StepView, t: StepView)
    requires
        clean::preview(s) == seq![t],
    ensures
        dry_run::all_say(f, dir, h, clean::previews(clean::only_if(on, seq![s]))) == (if on {
            dry_run::says(f, dir, h, t)
        } else {
            Seq::<Seq<char>>::empty()
        }),
{
    if on {
        lemma_previews_one(s);
        dry_run::lemma_one_says(f, dir, h, t);
    } else {
        let none = Seq::<StepView>::empty();
        assert(clean::previews(none) =~= none);
        dry_run::lemma_messages_say(f, dir, h, none);
        assert(dry_run::log_texts(none) =~= Seq::<Seq<char>>::empty());
    }
}

proof fn lemma_objects_say(f: Findings, dir: Seq<char>, o: OptionsView)
    ensures
        dry_run::all_say(
            f,
            dir,
            o.credential_helpers,
            clean::previews(object_steps(dir, o)),
        ) == named_all(seq![seq!["maintenance"@, "run"@, "--task=loose-objects"@]]) + (
        if o.aggressive {
            named_all(
                seq![
                    seq!["repack"@, "-a"@, "-d"@, "-f"@],
                    seq!["gc"@, "--aggressive"@, "--prune=all"@],
                ],
            )
        } else {
            seq![
                "  (dry-run) "@
                    + "git maintenance run --task=incremental-repack (if a pack is available)"@,
            ] + named_all(seq![seq!["gc"@, "--auto"@]])
        }),
{
    let h = o.credential_helpers;
    let s = object_steps(dir, o);
    let x = seq![s[0]];
    assert(arg_lists(dry_run::git_calls(x)) =~= seq![
        seq!["maintenance"@, "run"@, "--task=loose-objects"@],
    ]);
    lemma_commands_are_named(
        f,
        dir,
        h,
        x,
        seq![seq!["maintenance"@, "run"@, "--task=loose-objects"@]],
    );
    if o.aggressive {
        let y = seq![s[1], s[2]];
        let ly = seq![
            seq!["repack"@, "-a"@, "-d"@, "-f"@],
            seq!["gc"@, "--aggressive"@, "--prune=all"@],
        ];
        assert(arg_lists(dry_run::git_calls(y)) =~= ly);
        lemma_commands_are_named(f, dir, h, y, ly);
        assert(s =~= x + y);
        clean_laws::lemma_previews_add(x, y);
        dry_run::lemma_all_say_add(f, dir, h, clean::previews(x), clean::previews(y));
    } else {
        let y = seq![s[1]];
        let z = seq![s[2]];
        let lz = seq![seq!["gc"@, "--auto"@]];
        assert(arg_lists(dry_run::git_calls(z)) =~= lz);
        lemma_commands_are_named(f, dir, h, z, lz);
        lemma_previews_one(s[1]);
        dry_run::lemma_one_says(f, dir, h, clean::preview(s[1])[0]);
        assert(clean::previews(y) =~= seq![clean::preview(s[1])[0]]);
        assert(s =~= x + y + z);
        clean_laws::lemma_previews_add(x + y, z);
        clean_laws::lemma_previews_add(x, y);
        dry_run::lemma_all_say_add(f, dir, h, clean::previews(x), clean::previews(y));
        dry_run::lemma_all_say_add(f, dir, h, clean::previews(x + y), clean::previews(z));
        let py = dry_run::all_say(f, dir, h, clean::previews(y));
        assert(py =~= seq![
            "  (dry-run) "@
                + "git maintenance run --task=incremental-repack (if a pack is available)"@,
        ]);
        let px = dry_run::all_say(f, dir, h, clean::previews(x));
        let pz = dry_run::all_say(f, dir, h, clean::previews(z));
        assert(px + py + pz =~= px + (py + pz));
    }
}

proof fn lemma_conditional_says(f: Findings, dir: Seq<char>, kind: RepoKind, o: OptionsView)
    ensures
        dry_run::all_say(
            f,
            dir,
            o.credential_helpers,
            clean::previews(
                clean::only_if(!(kind is Bare) && !o.skip_submodules, seq![StepView::Submodules]),
            ),
        ) == (if kind is Normal && !o.skip_submodules && f.submodules {
            named_all(
                seq![
                    seq!["submodule"@, "sync"@, "--recursive"@],
                    seq!["submodule"@, "foreach"@, "--recursive"@, "git"@, "gc"@, "--auto"@],
                ],
            )
        } else {
            Seq::<Seq<char>>::empty()
        }),
        dry_run::all_say(
            f,
            dir,
            o.credential_helpers,
            clean::previews(clean::only_if(!o.skip_lfs, seq![StepView::Lfs])),
        ) == (if !o.skip_lfs && (f.lfs matches Output::Exited { success, .. } && success) {
            named_all(seq![seq!["lfs"@, "prune"@]])
        } else {
            Seq::<Seq<char>>::empty()
        }),
{
    let h = o.credential_helpers;
    let sub = phases::submodule_steps(dir);
    let lfs = phases::lfs_steps(dir, h);
    let lsub = seq![
        seq!["submodule"@, "sync"@, "--recursive"@],
        seq!["submodule"@, "foreach"@, "--recursive"@, "git"@, "gc"@, "--auto"@],
    ];
    let llfs = seq![seq!["lfs"@, "prune"@]];
    assert(arg_lists(dry_run::git_calls(sub)) =~= lsub);
    assert(arg_lists(dry_run::git_calls(lfs)) =~= llfs);
    lemma_commands_are_named(f, dir, h, sub, lsub);
    lemma_commands_are_named(f, dir, h, lfs, llfs);
    dry_run::lemma_git_previews_are_messages(sub);
    dry_run::lemma_git_previews_are_messages(lfs);
    let ps = clean::previews(sub);
    let pl = clean::previews(lfs);
    assert forall|i: int| 0 <= i < ps.len() implies (#[trigger] ps[i]) is Log by {
        assert(ps[i] == clean::would(call::shown(sub[i]->Git_0)));
    }
    assert forall|i: int| 0 <= i < pl.len() implies (#[trigger] pl[i]) is Log by {
        assert(pl[i] == clean::would(call::shown(lfs[i]->Git_0)));
    }
    dry_run::lemma_messages_say(f, dir, h, ps);
    dry_run::lemma_messages_say(f, dir, h, pl);
    lemma_part_says(
        f,
        dir,
        h,
        !(kind is Bare) && !o.skip_submodules,
        StepView::Submodules,
        StepView::Submodules,
    );
    lemma_part_says(f, dir, h, !o.skip_lfs, StepView::Lfs, StepView::Lfs);
}

proof fn lemma_pruning_says(f: Findings, dir: Seq<char>, kind: RepoKind, o: OptionsView)
    ensures
        dry_run::all_say(
            f,
            dir,
            o.credential_helpers,
            clean::previews(
                clean::only_if(
                    !(kind is Bare) && o.prune_worktrees,
                    phases::worktree_removal_steps(),
                ),
            ),
        ) == (if kind is Normal && o.prune_worktrees {
            seq![
                "  (dry-run) "@
                    + "git worktree remove -- (worktrees merged into mainline or idle 3+ days)"@,
            ]
        } else {
            Seq::<Seq<char>>::empty()
        }),
        dry_run::all_say(
            f,
            dir,
            o.credential_helpers,
            clean::previews(
                clean::only_if(!(kind is Bare) && o.prune_branches, phases::branch_steps()),
            ),
        ) == (if kind is Normal && o.prune_branches {
            seq![
                match dry_run::mainline(f) {
                    Some(m) => "  (dry-run) "@ + ("git branch --merged "@ + report::sanitized(m)
                        + " | git branch -d -- (merged branches)"@),
                    None => "  (dry-run) "@ + "branch pruning skipped: no mainline branch found"@,
                },
            ]
        } else {
            Seq::<Seq<char>>::empty()
        }),
{
    let h = o.credential_helpers;
    let w = StepView::Origin(Purpose::Worktrees);
    let b = StepView::Origin(Purpose::Branches);
    lemma_part_says(
        f,
        dir,
        h,
        !(kind is Bare) && o.prune_worktrees,
        w,
        clean::preview(w)[0],
    );
    lemma_part_says(
        f,
        dir,
        h,
        !(kind is Bare) && o.prune_branches,
        b,
        StepView::Origin(Purpose::Preview),
    );
    let said = dry_run::says(f, dir, h, StepView::Origin(Purpose::Preview));
    assert(said =~= seq![
        match dry_run::mainline(f) {
            Some(m) => "  (dry-run) "@ + ("git branch --merged "@ + report::sanitized(m)
                + " | git branch -d -- (merged branches)"@),
            None => "  (dry-run) "@ + "branch pruning skipped: no mainline branch found"@,
        },
    ]);
}

spec fn first_lists(kind: RepoKind, o: OptionsView) -> Seq<Seq<Seq<char>>> {
    seq![
        if o.prune_tags {
            seq!["fetch"@, "--all"@, "--prune"@, "--prune-tags"@]
        } else {
            seq!["fetch"@, "--all"@, "--prune"@]
        },
        seq!["pack-refs"@, "--all"@],
    ] + (if kind is Normal {
        seq![seq!["worktree"@, "prune"@]]
    } else {
        Seq::<Seq<Seq<char>>>::empty()
    }) + seq![
        seq!["reflog"@, "expire"@, "--expire="@ + o.reflog_expire, "--all"@],
        seq!["rerere"@, "gc"@],
        seq!["notes"@, "prune"@],
    ]
}

proof fn lemma_first_lines(f: Findings, dir: Seq<char>, kind: RepoKind, o: OptionsView)
    ensures
        dry_run::all_say(
            f,
            dir,
            o.credential_helpers,
            clean::previews(
                phases::fetch_steps(dir, o.prune_tags, o.credential_helpers) + phases::refs_steps(
                    dir,
                    kind,
                    o.reflog_expire,
                ),
            ),
        ) == named_all(first_lists(kind, o)),
{
    let h = o.credential_helpers;
    let x = phases::fetch_steps(dir, o.prune_tags, h);
    let y = phases::refs_steps(dir, kind, o.reflog_expire);
    lemma_fetch_and_refs(dir, kind, o);
    lemma_calls_add(x, y);
    assert forall|i: int| 0 <= i < (x + y).len() implies (#[trigger] (x + y)[i]) is Git by {}
    lemma_commands_are_named(f, dir, h, x + y, first_lists(kind, o));
}

proof fn lemma_index_line(f: Findings, dir: Seq<char>, h: bool)
    ensures
        dry_run::all_say(f, dir, h, clean::previews(phases::index_steps(dir))) == named_all(
            seq![seq!["maintenance"@, "run"@, "--task=commit-graph"@]],
        ),
{
    let s = phases::index_steps(dir);
    assert(arg_lists(dry_run::git_calls(s)) =~= seq![
        seq!["maintenance"@, "run"@, "--task=commit-graph"@],
    ]);
    lemma_commands_are_named(
        f,
        dir,
        h,
        s,
        seq![seq!["maintenance"@, "run"@, "--task=commit-graph"@]],
    );
}

proof fn lemma_plan_is_said(
    f: Findings,
    dir: Seq<char>,
    kind: RepoKind,
    o: OptionsView,
    n: nat,
    total: nat,
    rs: Seq<Reply>,
)
    requires
        dry_run::complete(f, clean::started(dir, kind, o, true, n, total), rs),
    ensures
        dry_run::messages(clean::started(dir, kind, o, true, n, total), rs) == seq![
            clean::cleaning(dir, kind, n, total),
        ] + dry_run::all_say(
            f,
            dir,
            o.credential_helpers,
            clean::previews(clean::plan(dir, kind, o)),
        ),
{
    let job = clean::started(dir, kind, o, true, n, total);
    let h = o.credential_helpers;
    let head = StepView::Log(clean::cleaning(dir, kind, n, total));
    clean_laws::lemma_starts_dry(dir, kind, o, n, total);
    dry_run::lemma_dry_run_says(f, job, rs);
    dry_run::lemma_all_say_add(f, dir, h, seq![head], clean::previews(clean::plan(dir, kind, o)));
    dry_run::lemma_one_says(f, dir, h, head);
}

proof fn lemma_seven_say(
    f: Findings,
    dir: Seq<char>,
    h: bool,
    a: Seq<StepView>,
    b: Seq<StepView>,
    c: Seq<StepView>,
    d: Seq<StepView>,
    e: Seq<StepView>,
    g: Seq<StepView>,
    i: Seq<StepView>,
    first: Seq<char>,
)
    ensures
        seq![first] + dry_run::all_say(f, dir, h, clean::previews(a + b + c + d + e + g + i))
            == seq![first] + dry_run::all_say(f, dir, h, clean::previews(a)) + dry_run::all_say(
            f,
            dir,
            h,
            clean::previews(b),
        ) + dry_run::all_say(f, dir, h, clean::previews(c)) + dry_run::all_say(
            f,
            dir,
            h,
            clean::previews(d),
        ) + dry_run::all_say(f, dir, h, clean::previews(e)) + dry_run::all_say(
            f,
            dir,
            h,
            clean::previews(g),
        ) + dry_run::all_say(f, dir, h, clean::previews(i)),
{
    lemma_says_add(f, dir, h, a + b + c + d + e + g, i);
    lemma_says_add(f, dir, h, a + b + c + d + e, g);
    lemma_says_add(f, dir, h, a + b + c + d, e);
    lemma_says_add(f, dir, h, a + b + c, d);
    lemma_says_add(f, dir, h, a + b, c);
    lemma_says_add(f, dir, h, a, b);
    let pa = dry_run::all_say(f, dir, h, clean::previews(a));
    let pb = dry_run::all_say(f, dir, h, clean::previews(b));
    let pc = dry_run::all_say(f, dir, h, clean::previews(c));
    let pd = dry_run::all_say(f, dir, h, clean::previews(d));
    let pe = dry_run::all_say(f, dir, h, clean::previews(e));
    let pg = dry_run::all_say(f, dir, h, clean::previews(g));
    let pi = dry_run::all_say(f, dir, h, clean::previews(i));
    assert(seq![first] + (pa + pb + pc + pd + pe + pg + pi) =~= seq![first] + pa + pb + pc + pd + pe
        + pg + pi);
}

proof fn lemma_dry_lines(
    f: Findings,
    dir: Seq<char>,
    kind: RepoKind,
    o: OptionsView,
    n: nat,
    total: nat,
    rs: Seq<Reply>,
)
    requires
        dry_run::complete(f, clean::started(dir, kind, o, true, n, total), rs),
    ensures
        ({
            let h = o.credential_helpers;
            dry_run::messages(clean::started(dir, kind, o, true, n, total), rs) == seq![
                clean::cleaning(dir, kind, n, total),
            ] + named_all(first_lists(kind, o)) + dry_run::all_say(
                f,
                dir,
                h,
                clean::previews(
                    clean::only_if(
                        !(kind is Bare) && o.prune_worktrees,
                        phases::worktree_removal_steps(),
                    ),
                ),
            ) + dry_run::all_say(
                f,
                dir,
                h,
                clean::previews(
                    clean::only_if(!(kind is Bare) && o.prune_branches, phases::branch_steps()),
                ),
            ) + dry_run::all_say(f, dir, h, clean::previews(object_steps(dir, o))) + named_all(
                seq![seq!["maintenance"@, "run"@, "--task=commit-graph"@]],
            ) + dry_run::all_say(
                f,
                dir,
                h,
                clean::previews(
                    clean::only_if(
                        !(kind is Bare) && !o.skip_submodules,
                        seq![StepView::Submodules],
                    ),
                ),
            ) + dry_run::all_say(
                f,
                dir,
                h,
                clean::previews(clean::only_if(!o.skip_lfs, seq![StepView::Lfs])),
            )
        }),
{
    let h = o.credential_helpers;
    lemma_plan_is_said(f, dir, kind, o, n, total, rs);
    lemma_first_lines(f, dir, kind, o);
    lemma_index_line(f, dir, h);
    lemma_seven_say(
        f,
        dir,
        h,
        phases::fetch_steps(dir, o.prune_tags, h) + phases::refs_steps(dir, kind, o.reflog_expire),
        clean::only_if(!(kind is Bare) && o.prune_worktrees, phases::worktree_removal_steps()),
        clean::only_if(!(kind is Bare) && o.prune_branches, phases::branch_steps()),
        object_steps(dir, o),
        phases::index_steps(dir),
        clean::only_if(!(kind is Bare) && !o.skip_submodules, seq![StepView::Submodules]),
        clean::only_if(!o.skip_lfs, seq![StepView::Lfs]),
        clean::cleaning(dir, kind, n, total),
    );
}

/// A dry run that is complete says these lines, in this order, and no others.
pub proof fn dry_runs_say_the_whole_pipeline(
    f: Findings,
    dir: Seq<char>,
    kind: RepoKind,
    o: OptionsView,
    n: nat,
    total: nat,
    rs: Seq<Reply>,
)
    requires
        dry_run::complete(f, clean::started(dir, kind, o, true, n, total), rs),
    ensures
        ({
            let none = Seq::<Seq<char>>::empty();
            let say = |args: Seq<Seq<char>>|
                "  (dry-run) "@ + ("git "@ + text::joined(args, " "@));
            dry_run::messages(clean::started(dir, kind, o, true, n, total), rs) == seq![
                "["@ + text::decimal(n) + "/"@ + text::decimal(total) + "] "@ + "cleaning: "@
                    + report::sanitized(dir) + (if kind is Bare {
                    " (bare)"@
                } else {
                    ""@
                }),
            ] + (seq![
                if o.prune_tags {
                    seq!["fetch"@, "--all"@, "--prune"@, "--prune-tags"@]
                } else {
                    seq!["fetch"@, "--all"@, "--prune"@]
                },
                seq!["pack-refs"@, "--all"@],
            ] + (if kind is Normal {
                seq![seq!["worktree"@, "prune"@]]
            } else {
                Seq::<Seq<Seq<char>>>::empty()
            }) + seq![
                seq!["reflog"@, "expire"@, "--expire="@ + o.reflog_expire, "--all"@],
                seq!["rerere"@, "gc"@],
                seq!["notes"@, "prune"@],
            ]).map_values(say) + (if kind is Normal && o.prune_worktrees {
                seq![
                    "  (dry-run) "@
                        + "git worktree remove -- (worktrees merged into mainline or idle 3+ days)"@,
                ]
            } else {
                none
            }) + (if kind is Normal && o.prune_branches {
                seq![
                    match dry_run::mainline(f) {
                        Some(m) => "  (dry-run) "@ + ("git branch --merged "@ + report::sanitized(m)
                            + " | git branch -d -- (merged branches)"@),
                        None => "  (dry-run) "@
                            + "branch pruning skipped: no mainline branch found"@,
                    },
                ]
            } else {
                none
            }) + (seq![seq!["maintenance"@, "run"@, "--task=loose-objects"@]].map_values(say) + (
            if o.aggressive {
                seq![
                    seq!["repack"@, "-a"@, "-d"@, "-f"@],
                    seq!["gc"@, "--aggressive"@, "--prune=all"@],
                ].map_values(say)
            } else {
                seq![
                    "  (dry-run) "@
                        + "git maintenance run --task=incremental-repack (if a pack is available)"@,
                ] + seq![seq!["gc"@, "--auto"@]].map_values(say)
            })) + seq![seq!["maintenance"@, "run"@, "--task=commit-graph"@]].map_values(say) + (
            if kind is Normal && !o.skip_submodules && f.submodules {
                seq![
                    seq!["submodule"@, "sync"@, "--recursive"@],
                    seq!["submodule"@, "foreach"@, "--recursive"@, "git"@, "gc"@, "--auto"@],
                ].map_values(say)
            } else {
                none
            }) + (if !o.skip_lfs && (f.lfs matches Output::Exited { success, .. } && success) {
                seq![seq!["lfs"@, "prune"@]].map_values(say)
            } else {
                none
            })
        }),
{
    let say = |args: Seq<Seq<char>>| "  (dry-run) "@ + ("git "@ + text::joined(args, " "@));
    lemma_dry_lines(f, dir, kind, o, n, total, rs);
    lemma_pruning_says(f, dir, kind, o);
    lemma_objects_say(f, dir, o);
    lemma_conditional_says(f, dir, kind, o);
    assert forall|x: Seq<Seq<Seq<char>>>| #[trigger] x.map_values(say) == named_all(x) by {
        assert(x.map_values(say) =~= named_all(x));
    }
}

proof fn lemma_says_add(f: Findings, dir: Seq<char>, h: bool, a: Seq<StepView>, b: Seq<StepView>)
    ensures
        dry_run::all_say(f, dir, h, clean::previews(a + b)) == dry_run::all_say(
            f,
            dir,
            h,
            clean::previews(a),
        ) + dry_run::all_say(f, dir, h, clean::previews(b)),
{
    clean_laws::lemma_previews_add(a, b);
    dry_run::lemma_all_say_add(f, dir, h, clean::previews(a), clean::previews(b));
}

proof fn lemma_calls_add(a: Seq<StepView>, b: Seq<StepView>)
    ensures
        dry_run::git_calls(a + b) == dry_run::git_calls(a) + dry_run::git_calls(b),
{
    assert(dry_run::git_calls(a + b) =~= dry_run::git_calls(a) + dry_run::git_calls(b));
}

// ── messages ─────────────────────────────────────────────────────────────────

proof fn lemma_messages_split(job: JobView, rs: Seq<Reply>, k: int)
    requires
        0 <= k <= rs.len(),
    ensures
        dry_run::messages(job, rs) == dry_run::messages(job, rs.take(k)) + dry_run::messages(
            clean_laws::run(job, rs.take(k)),
            rs.skip(k),
        ),
    decreases k,
{
    if k == 0 {
        assert(rs.take(0) =~= Seq::<Reply>::empty());
        assert(rs.skip(0) =~= rs);
        assert(dry_run::messages(job, rs.take(0)) + dry_run::messages(job, rs)
            =~= dry_run::messages(job, rs));
    } else {
        let job1 = clean::after_reply(job, rs[0]);
        let rest = rs.drop_first();
        lemma_messages_split(job1, rest, k - 1);
        assert(rs.take(k).drop_first() =~= rest.take(k - 1));
        assert(rs.skip(k) =~= rest.skip(k - 1));
        assert(rs.take(k)[0] == rs[0]);
        assert(dry_run::messages(job, rs) =~= dry_run::messages(job, rs.take(k))
            + dry_run::messages(clean_laws::run(job, rs.take(k)), rs.skip(k)));
    }
}

/// The first message of a run says which repository is cleaned, and the last
/// one how long it took and how it ended: as the run itself ends.
pub proof fn runs_report_how_they_end(
    dir: Seq<char>,
    kind: RepoKind,
    o: OptionsView,
    n: nat,
    total: nat,
    rs: Seq<Reply>,
) -> (ms: nat)
    requires
        clean_laws::follows(clean::started(dir, kind, o, false, n, total), rs),
        clean_laws::run(clean::started(dir, kind, o, false, n, total), rs).agenda.len() == 0,
    ensures
        ({
            let said = dry_run::messages(clean::started(dir, kind, o, false, n, total), rs);
            let ok = clean::next_action(
                clean_laws::run(clean::started(dir, kind, o, false, n, total), rs),
            ) == ActionView::Finish(true);
            &&& said.len() >= 2
            &&& said[0] == "["@ + text::decimal(n) + "/"@ + text::decimal(total) + "] "@
                + "cleaning: "@ + report::sanitized(dir) + (if kind is Bare {
                " (bare)"@
            } else {
                ""@
            })
            &&& said.last() == "["@ + text::decimal(n) + "/"@ + text::decimal(total) + "] "@
                + report::sanitized(dir) + ": done in "@ + text::decimal(ms) + "ms ("@ + (if ok {
                "ok"@
            } else {
                "some errors"@
            }) + ")"@
            &&& exists|k: int|
                0 <= k < rs.len() && #[trigger] rs[k] is Elapsed && rs[k]->Elapsed_0 == ms
        }),
{
    let job = clean::started(dir, kind, o, false, n, total);
    let steps = clean::plan(dir, kind, o);
    let head = seq![StepView::Log(clean::cleaning(dir, kind, n, total))];
    let last = seq![StepView::Elapsed];
    assert(job.agenda =~= (head + steps) + last);
    let k = clean_laws::lemma_reaches(job, head + steps, last, rs);
    clean_laws::lemma_run_split(job, rs, k);
    lemma_messages_split(job, rs, k);
    let at = clean_laws::run(job, rs.take(k));
    clean_laws::lemma_run_keeps_settings(job, rs.take(k));
    lemma_run_keeps_place(job, rs.take(k));
    let back = rs.skip(k);
    assert(back.len() > 0);
    assert(back[0] == rs[k]);
    let ms = back[0]->Elapsed_0 as nat;
    let m = clean::done(dir, n, total, ms, at.ok);
    let at1 = clean::after_reply(at, back[0]);
    let back1 = back.drop_first();
    assert(at1.agenda =~= seq![StepView::Log(m)]);
    assert(clean_laws::follows(at1, back1));
    assert(clean_laws::run(at, back) == clean_laws::run(at1, back1));
    assert(back1.len() > 0);
    let at2 = clean::after_reply(at1, back1[0]);
    let back2 = back1.drop_first();
    assert(at2.agenda =~= Seq::<StepView>::empty());
    assert(clean_laws::follows(at2, back2));
    assert(back2.len() == 0);
    assert(clean_laws::run(at1, back1) == clean_laws::run(at2, back2));
    assert(dry_run::messages(at2, back2) =~= Seq::<Seq<char>>::empty());
    assert(dry_run::messages(at1, back1) =~= seq![m]);
    assert(dry_run::messages(at, back) =~= seq![m]);
    let front = rs.take(k);
    assert(front.len() > 0);
    let said = dry_run::messages(job, rs);
    assert(dry_run::message(job) =~= seq![clean::cleaning(dir, kind, n, total)]);
    assert(said[0] == clean::cleaning(dir, kind, n, total));
    assert(said.last() == m);
    ms
}

proof fn lemma_run_keeps_place(job: JobView, rs: Seq<Reply>)
    ensures
        clean_laws::run(job, rs).n == job.n,
        clean_laws::run(job, rs).total == job.total,
    decreases rs.len(),
{
    if rs.len() > 0 {
        lemma_run_keeps_place(clean::after_reply(job, rs[0]), rs.drop_first());
    }
}

} // verus!
