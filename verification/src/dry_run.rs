//! What a dry run says of the run that it stands for.
use vstd::prelude::*;
use vstd::seq_lib::*;

use crate::branches;
use crate::call;
use crate::call::{CallView, Output};
use crate::clean;
use crate::clean::{ActionView, JobView, Reply};
use crate::clean_laws;
use crate::config::OptionsView;
use crate::phases;
use crate::phases::{Purpose, StepView, Trunk};
use crate::repo::RepoKind;
use crate::worktrees;

verus! {

// ── what a run finds, says and does ──────────────────────────────────────────

/// What a cleanup finds when it looks at its repository: the answers to the
/// questions that a dry run and a run that is meant both put.
pub struct Findings {
    pub head: Output,
    pub main: Output,
    pub master: Output,
    pub submodules: bool,
    pub lfs: Output,
}

/// The mainline, if one is found.
pub open spec fn mainline(f: Findings) -> Option<Seq<char>> {
    branches::mainline(f.head, f.main, f.master)
}

/// Whether a reply to a step agrees with what there is to be found.
pub open spec fn agrees(f: Findings, s: StepView, r: Reply) -> bool {
    match s {
        StepView::Origin(_) => r == Reply::Ran(f.head),
        StepView::Fallback(_, t) => r == Reply::Ran(
            if t is Main {
                f.main
            } else {
                f.master
            },
        ),
        StepView::Submodules => r == Reply::Exists(f.submodules),
        StepView::Lfs => r == Reply::Ran(f.lfs),
        _ => true,
    }
}

/// Whether all of the replies agree with what there is to be found.
pub open spec fn all_agree(f: Findings, job: JobView, rs: Seq<Reply>) -> bool
    decreases rs.len(),
{
    rs.len() == 0 || (agrees(f, job.agenda[0], rs[0]) && all_agree(
        f,
        clean::after_reply(job, rs[0]),
        rs.drop_first(),
    ))
}

/// Whether `rs` are the replies of a run from its beginning to its end, in a
/// repository where `f` is found.
pub open spec fn complete(f: Findings, job: JobView, rs: Seq<Reply>) -> bool {
    &&& clean_laws::follows(job, rs)
    &&& clean_laws::run(job, rs).agenda.len() == 0
    &&& all_agree(f, job, rs)
}

/// The message that is written next, if that is what is done next.
pub open spec fn message(job: JobView) -> Seq<Seq<char>> {
    match clean::next_action(job) {
        ActionView::Log(m) => seq![m],
        _ => Seq::<Seq<char>>::empty(),
    }
}

/// The messages that are written, in order.
pub open spec fn messages(job: JobView, rs: Seq<Reply>) -> Seq<Seq<char>>
    decreases rs.len(),
{
    if rs.len() == 0 {
        Seq::<Seq<char>>::empty()
    } else {
        message(job) + messages(clean::after_reply(job, rs[0]), rs.drop_first())
    }
}

/// The command that a step runs to change something; a step that puts a
/// question runs none.
pub open spec fn command(s: StepView) -> Seq<CallView> {
    match s {
        StepView::Git(c) => seq![c],
        _ => Seq::<CallView>::empty(),
    }
}

/// The commands that are run to change something, in order.
pub open spec fn commands(job: JobView, rs: Seq<Reply>) -> Seq<CallView>
    decreases rs.len(),
{
    if rs.len() == 0 {
        Seq::<CallView>::empty()
    } else {
        command(job.agenda[0]) + commands(clean::after_reply(job, rs[0]), rs.drop_first())
    }
}

/// Whether `c` is one of the questions that a cleanup puts to Git.
pub open spec fn is_question(dir: Seq<char>, c: CallView) -> bool {
    ||| c == branches::origin_head_call(dir)
    ||| c == branches::branch_exists_call(dir, "main"@)
    ||| c == branches::branch_exists_call(dir, "master"@)
    ||| exists|m: Seq<char>| c == #[trigger] branches::merged_call(dir, m)
    ||| c == worktrees::list_call(dir)
    ||| exists|h: Seq<char>, m: Seq<char>| c == #[trigger] worktrees::is_merged_call(dir, h, m)
    ||| c == phases::packs_call(dir)
    ||| c == phases::lfs_call(dir)
}

/// Whatever Git is run for is a command of the step, or a question.
pub proof fn git_runs_commands_and_questions(job: JobView, c: CallView)
    requires
        clean::next_action(job) == ActionView::Run(c),
    ensures
        command(job.agenda[0]) == seq![c] || is_question(job.dir, c),
{
}

// ── lines and the commands they stand for ────────────────────────────────────

/// The line that names a command.
pub open spec fn line(what: Seq<char>) -> Seq<char> {
    "  (dry-run) "@ + what
}

/// Whether every one of the commands removes a worktree.
pub open spec fn removals(dir: Seq<char>, cs: Seq<CallView>) -> bool {
    forall|i: int|
        0 <= i < cs.len() ==> exists|path: Seq<char>|
            #[trigger] cs[i] == #[trigger] worktrees::remove_call(dir, path)
}

/// Whether the commands are one that deletes branches, or none.
pub open spec fn deletions(dir: Seq<char>, cs: Seq<CallView>) -> bool {
    cs.len() == 0 || exists|names: Seq<Seq<char>>|
        cs == seq![#[trigger] branches::delete_call(dir, names)]
}

/// Whether a line of a dry run stands for the commands `cs`. A line that names
/// a command stands for that one. What is repacked, removed or deleted is
/// known only when it is done, so that one line stands for all of it, be it
/// nothing.
pub open spec fn stands_for(f: Findings, dir: Seq<char>, l: Seq<char>, cs: Seq<CallView>) -> bool {
    ||| cs.len() == 1 && l == line(call::shown(cs[0]))
    ||| l == line("git maintenance run --task=incremental-repack (if a pack is available)"@) && (
    cs.len() == 0 || cs == seq![phases::incremental_repack(dir)])
    ||| l == line("git worktree remove -- (worktrees merged into mainline or idle 3+ days)"@)
        && removals(dir, cs)
    ||| clean::with_mainline(dir, Purpose::Preview, mainline(f)) == seq![StepView::Log(l)] && (
    if mainline(f) is Some {
        deletions(dir, cs)
    } else {
        cs.len() == 0
    })
}

/// Whether the lines stand for the commands: the commands fall into as many
/// groups as there are lines, in the same order, and each line stands for its
/// group.
pub open spec fn account_for(
    f: Findings,
    dir: Seq<char>,
    lines: Seq<Seq<char>>,
    cs: Seq<CallView>,
) -> bool {
    exists|groups: Seq<Seq<CallView>>| #[trigger] groups_fit(f, dir, lines, groups)
        && groups.flatten() == cs
}

/// Whether each of the lines stands for its group of commands.
pub open spec fn groups_fit(
    f: Findings,
    dir: Seq<char>,
    lines: Seq<Seq<char>>,
    groups: Seq<Seq<CallView>>,
) -> bool {
    &&& groups.len() == lines.len()
    &&& forall|i: int|
        0 <= i < lines.len() ==> stands_for(f, dir, #[trigger] lines[i], groups[i])
}

// ── what a dry run says ──────────────────────────────────────────────────────

/// The texts of steps that are all messages.
pub open spec fn log_texts(a: Seq<StepView>) -> Seq<Seq<char>> {
    a.map_values(|s: StepView| s->Log_0)
}

/// The mainline, if `origin` names none and the question is at branch `t`.
pub open spec fn local_mainline(f: Findings, t: Trunk) -> Option<Seq<char>> {
    if t is Main && call::succeeded(f.main) {
        Some("main"@)
    } else if call::succeeded(f.master) {
        Some("master"@)
    } else {
        None
    }
}

/// What a step of a dry run says, with all that follows from it.
pub open spec fn says(f: Findings, dir: Seq<char>, helpers: bool, s: StepView) -> Seq<Seq<char>> {
    match s {
        StepView::Log(m) => seq![m],
        StepView::Origin(p) => log_texts(clean::with_mainline(dir, p, mainline(f))),
        StepView::Fallback(p, t) => log_texts(clean::with_mainline(dir, p, local_mainline(f, t))),
        StepView::Submodules => if f.submodules {
            log_texts(clean::previews(phases::submodule_steps(dir)))
        } else {
            Seq::<Seq<char>>::empty()
        },
        StepView::Lfs => if call::succeeded(f.lfs) {
            log_texts(clean::previews(phases::lfs_steps(dir, helpers)))
        } else {
            Seq::<Seq<char>>::empty()
        },
        _ => Seq::<Seq<char>>::empty(),
    }
}

/// What steps of a dry run say, with all that follows from them.
pub open spec fn all_say(f: Findings, dir: Seq<char>, helpers: bool, a: Seq<StepView>) -> Seq<Seq<char>> {
    a.map_values(|s: StepView| says(f, dir, helpers, s)).flatten()
}

pub(crate) proof fn lemma_all_say_add(
    f: Findings,
    dir: Seq<char>,
    helpers: bool,
    a: Seq<StepView>,
    b: Seq<StepView>,
)
    ensures
        all_say(f, dir, helpers, a + b) == all_say(f, dir, helpers, a) + all_say(
            f,
            dir,
            helpers,
            b,
        ),
{
    let w = |s: StepView| says(f, dir, helpers, s);
    assert((a + b).map_values(w) =~= a.map_values(w) + b.map_values(w));
    lemma_flatten_concat(a.map_values(w), b.map_values(w));
}

pub(crate) proof fn lemma_one_says(f: Findings, dir: Seq<char>, helpers: bool, s: StepView)
    ensures
        all_say(f, dir, helpers, seq![s]) == says(f, dir, helpers, s),
{
    let w = |x: StepView| says(f, dir, helpers, x);
    assert(seq![s].map_values(w) =~= seq![says(f, dir, helpers, s)]);
    lemma_flatten_one(seq![says(f, dir, helpers, s)]);
}

pub(crate) proof fn lemma_flatten_one<A>(x: Seq<Seq<A>>)
    requires
        x.len() == 1,
    ensures
        x.flatten() == x[0],
{
    assert(x.drop_first() =~= Seq::<Seq<A>>::empty());
    assert(x.drop_first().flatten() =~= Seq::<A>::empty());
    assert(x.flatten() =~= x[0]);
}

pub(crate) proof fn lemma_flatten_two<A>(x: Seq<Seq<A>>)
    requires
        x.len() == 2,
    ensures
        x.flatten() == x[0] + x[1],
{
    lemma_flatten_one(x.drop_first());
}

pub(crate) proof fn lemma_messages_say(f: Findings, dir: Seq<char>, helpers: bool, a: Seq<StepView>)
    requires
        forall|i: int| 0 <= i < a.len() ==> (#[trigger] a[i]) is Log,
    ensures
        all_say(f, dir, helpers, a) == log_texts(a),
    decreases a.len(),
{
    if a.len() == 0 {
        let w = |x: StepView| says(f, dir, helpers, x);
        assert(a.map_values(w) =~= Seq::<Seq<Seq<char>>>::empty());
        assert(all_say(f, dir, helpers, a) =~= log_texts(a));
    } else {
        let h = seq![a[0]];
        let t = a.drop_first();
        assert forall|i: int| 0 <= i < t.len() implies (#[trigger] t[i]) is Log by {
            assert(t[i] == a[i + 1]);
        }
        lemma_messages_say(f, dir, helpers, t);
        lemma_one_says(f, dir, helpers, a[0]);
        lemma_all_say_add(f, dir, helpers, h, t);
        assert(a =~= h + t);
        assert(a[0] is Log);
        assert(log_texts(a) =~= seq![a[0]->Log_0] + log_texts(t));
    }
}

pub(crate) proof fn lemma_git_previews_are_messages(s: Seq<StepView>)
    requires
        forall|i: int| 0 <= i < s.len() ==> (#[trigger] s[i]) is Git,
    ensures
        clean::previews(s).len() == s.len(),
        forall|i: int|
            0 <= i < s.len() ==> #[trigger] clean::previews(s)[i] == clean::would(
                call::shown(s[i]->Git_0),
            ),
    decreases s.len(),
{
    if s.len() > 0 {
        let d = s.drop_last();
        assert forall|i: int| 0 <= i < d.len() implies (#[trigger] d[i]) is Git by {
            assert(d[i] == s[i]);
        }
        lemma_git_previews_are_messages(d);
        assert(s[s.len() - 1] is Git);
        assert forall|i: int| 0 <= i < s.len() implies #[trigger] clean::previews(s)[i]
            == clean::would(call::shown(s[i]->Git_0)) by {
            if i < d.len() {
                assert(clean::previews(s)[i] == clean::previews(d)[i]);
                assert(d[i] == s[i]);
            }
        }
    }
}

/// What a dry run has to say is what it says next and what it has to say then.
proof fn lemma_says_in_turn(f: Findings, job: JobView, r: Reply)
    requires
        clean_laws::dry(job),
        job.agenda.len() > 0,
        clean::answers(clean::next_action(job), r),
        agrees(f, job.agenda[0], r),
    ensures
        all_say(f, job.dir, job.opts.credential_helpers, job.agenda) == message(job) + all_say(
            f,
            job.dir,
            job.opts.credential_helpers,
            clean::after_reply(job, r).agenda,
        ),
{
    let (dir, helpers) = (job.dir, job.opts.credential_helpers);
    let s = job.agenda[0];
    let rest = job.agenda.drop_first();
    let next = clean::follow_up(job, s, r);
    assert(clean_laws::only_looks(s));
    assert(job.agenda =~= seq![s] + rest);
    lemma_all_say_add(f, dir, helpers, seq![s], rest);
    lemma_one_says(f, dir, helpers, s);
    lemma_all_say_add(f, dir, helpers, next, rest);
    lemma_git_previews_are_messages(phases::submodule_steps(dir));
    lemma_git_previews_are_messages(phases::lfs_steps(dir, helpers));
    assert(says(f, dir, helpers, s) =~= message(job) + all_say(f, dir, helpers, next)) by {
        if next.len() == 0 {
            lemma_messages_say(f, dir, helpers, next);
            assert(log_texts(next) =~= Seq::<Seq<char>>::empty());
        } else if next[0] is Log {
            lemma_messages_say(f, dir, helpers, next);
        } else {
            assert(next =~= seq![next[0]]);
            lemma_one_says(f, dir, helpers, next[0]);
        }
    }
    assert(all_say(f, dir, helpers, job.agenda) =~= message(job) + (all_say(f, dir, helpers, next)
        + all_say(f, dir, helpers, rest)));
}

pub(crate) proof fn lemma_dry_run_says(f: Findings, job: JobView, rs: Seq<Reply>)
    requires
        clean_laws::dry(job),
        complete(f, job, rs),
    ensures
        messages(job, rs) == all_say(f, job.dir, job.opts.credential_helpers, job.agenda),
    decreases rs.len(),
{
    if job.agenda.len() == 0 {
        lemma_messages_say(f, job.dir, job.opts.credential_helpers, job.agenda);
        assert(messages(job, rs) =~= log_texts(job.agenda));
    } else {
        lemma_says_in_turn(f, job, rs[0]);
        clean_laws::lemma_reply_keeps_dry(job, rs[0]);
        lemma_dry_run_says(f, clean::after_reply(job, rs[0]), rs.drop_first());
    }
}

// ── what a run does ──────────────────────────────────────────────────────────

/// The commands of steps that are all commands.
pub open spec fn git_calls(a: Seq<StepView>) -> Seq<CallView> {
    a.map_values(|s: StepView| s->Git_0)
}

/// Whether the commands `cs` may be what comes of a step, with all that follows
/// from it.
pub open spec fn may_run(f: Findings, dir: Seq<char>, helpers: bool, s: StepView, cs: Seq<CallView>) -> bool {
    match s {
        StepView::Git(c) => cs == seq![c],
        StepView::Origin(p) => mainline_may_run(dir, p, mainline(f), cs),
        StepView::Fallback(p, t) => mainline_may_run(dir, p, local_mainline(f, t), cs),
        StepView::Merged(_) => deletions(dir, cs),
        StepView::Worktrees(_) => removals(dir, cs),
        StepView::WorktreeMerged { .. } => removals(dir, cs),
        StepView::WorktreeIdle(_) => removals(dir, cs),
        StepView::Packs => cs.len() == 0 || cs == seq![phases::incremental_repack(dir)],
        StepView::Submodules => if f.submodules {
            cs == git_calls(phases::submodule_steps(dir))
        } else {
            cs.len() == 0
        },
        StepView::Lfs => if call::succeeded(f.lfs) {
            cs == git_calls(phases::lfs_steps(dir, helpers))
        } else {
            cs.len() == 0
        },
        StepView::Log(_) => cs.len() == 0,
        StepView::Elapsed => cs.len() == 0,
    }
}

/// Whether the commands `cs` may be what comes of looking for the mainline.
pub open spec fn mainline_may_run(
    dir: Seq<char>,
    p: Purpose,
    m: Option<Seq<char>>,
    cs: Seq<CallView>,
) -> bool {
    match p {
        Purpose::Preview => cs.len() == 0,
        Purpose::Branches => if m is Some {
            deletions(dir, cs)
        } else {
            cs.len() == 0
        },
        Purpose::Worktrees => removals(dir, cs),
    }
}

/// Whether each group of commands may be what comes of its step.
pub open spec fn all_may_run(
    f: Findings,
    dir: Seq<char>,
    helpers: bool,
    a: Seq<StepView>,
    groups: Seq<Seq<CallView>>,
) -> bool {
    &&& groups.len() == a.len()
    &&& forall|i: int| 0 <= i < a.len() ==> may_run(f, dir, helpers, #[trigger] a[i], groups[i])
}

proof fn lemma_flatten_removals(dir: Seq<char>, groups: Seq<Seq<CallView>>)
    requires
        forall|i: int| 0 <= i < groups.len() ==> removals(dir, #[trigger] groups[i]),
    ensures
        removals(dir, groups.flatten()),
    decreases groups.len(),
{
    if groups.len() > 0 {
        let t = groups.drop_first();
        assert forall|i: int| 0 <= i < t.len() implies removals(dir, #[trigger] t[i]) by {
            assert(t[i] == groups[i + 1]);
        }
        lemma_flatten_removals(dir, t);
        let all = groups.flatten();
        let h = groups[0];
        assert(all == h + t.flatten());
        assert forall|i: int| 0 <= i < all.len() implies exists|path: Seq<char>|
            #[trigger] all[i] == #[trigger] worktrees::remove_call(dir, path) by {
            if i < h.len() {
                assert(all[i] == h[i]);
            } else {
                assert(all[i] == t.flatten()[i - h.len()]);
            }
        }
    }
}

pub(crate) proof fn lemma_flatten_calls(
    f: Findings,
    dir: Seq<char>,
    helpers: bool,
    a: Seq<StepView>,
    groups: Seq<Seq<CallView>>,
)
    requires
        all_may_run(f, dir, helpers, a, groups),
        forall|i: int| 0 <= i < a.len() ==> (#[trigger] a[i]) is Git,
    ensures
        groups.flatten() == git_calls(a),
    decreases a.len(),
{
    if a.len() == 0 {
        assert(groups.flatten() =~= git_calls(a));
    } else {
        let t = a.drop_first();
        let gt = groups.drop_first();
        assert forall|i: int| 0 <= i < t.len() implies (#[trigger] t[i]) is Git && may_run(
            f,
            dir,
            helpers,
            t[i],
            gt[i],
        ) by {
            assert(t[i] == a[i + 1]);
        }
        lemma_flatten_calls(f, dir, helpers, t, gt);
        assert(a[0] is Git);
        assert(may_run(f, dir, helpers, a[0], groups[0]));
        assert(git_calls(a) =~= seq![a[0]->Git_0] + git_calls(t));
    }
}

proof fn lemma_flatten_nothing(
    f: Findings,
    dir: Seq<char>,
    helpers: bool,
    a: Seq<StepView>,
    groups: Seq<Seq<CallView>>,
)
    requires
        all_may_run(f, dir, helpers, a, groups),
        forall|i: int| 0 <= i < a.len() ==> (#[trigger] a[i]) is Log,
    ensures
        groups.flatten().len() == 0,
    decreases a.len(),
{
    if a.len() > 0 {
        let t = a.drop_first();
        let gt = groups.drop_first();
        assert forall|i: int| 0 <= i < t.len() implies (#[trigger] t[i]) is Log && may_run(
            f,
            dir,
            helpers,
            t[i],
            gt[i],
        ) by {
            assert(t[i] == a[i + 1]);
        }
        lemma_flatten_nothing(f, dir, helpers, t, gt);
        assert(a[0] is Log);
        assert(may_run(f, dir, helpers, a[0], groups[0]));
    }
}

/// What comes of a step is its command and what comes of the steps that
/// follow from it.
proof fn lemma_may_run_in_turn(f: Findings, job: JobView, r: Reply, groups: Seq<Seq<CallView>>)
    requires
        !job.dry_run,
        job.agenda.len() > 0,
        clean::answers(clean::next_action(job), r),
        agrees(f, job.agenda[0], r),
        all_may_run(
            f,
            job.dir,
            job.opts.credential_helpers,
            clean::follow_up(job, job.agenda[0], r),
            groups,
        ),
    ensures
        may_run(
            f,
            job.dir,
            job.opts.credential_helpers,
            job.agenda[0],
            command(job.agenda[0]) + groups.flatten(),
        ),
{
    let (dir, helpers) = (job.dir, job.opts.credential_helpers);
    let s = job.agenda[0];
    let next = clean::follow_up(job, s, r);
    let cs = groups.flatten();
    assert(command(s) + cs =~= (if s is Git {
        command(s) + cs
    } else {
        cs
    }));
    if next.len() == 0 {
        assert(cs.len() == 0);
        assert(command(s) + cs =~= command(s));
    } else if next.len() == 1 {
        lemma_flatten_one(groups);
        assert(may_run(f, dir, helpers, next[0], groups[0]));
    }
    match (s, r) {
        (StepView::Git(_), Reply::Ran(_)) => {
            lemma_flatten_nothing(f, dir, helpers, next, groups);
            assert(command(s) + cs =~= command(s));
        },
        (StepView::Merged(m), Reply::Ran(o)) => {
            if let Some(t) = call::printed(o) {
                let names = branches::doomed(t, m, job.opts.protected_branches);
                if names.len() > 0 {
                    assert(cs == seq![branches::delete_call(dir, names)]);
                }
            }
        },
        (StepView::Worktrees(m), Reply::Ran(o)) => {
            if call::printed(o) is Some {
                assert forall|i: int| 0 <= i < groups.len() implies removals(
                    dir,
                    #[trigger] groups[i],
                ) by {
                    assert(may_run(f, dir, helpers, next[i], groups[i]));
                }
                lemma_flatten_removals(dir, groups);
            }
        },
        (StepView::WorktreeMerged { path, .. }, Reply::Ran(_)) => {
            if next[0] is Git {
                assert(cs[0] == worktrees::remove_call(dir, path));
            }
        },
        (StepView::WorktreeIdle(path), Reply::Idle(_)) => {
            if next.len() == 1 {
                assert(cs[0] == worktrees::remove_call(dir, path));
            }
        },
        (StepView::Packs, Reply::Ran(_)) => {
            if next.len() == 2 {
                lemma_flatten_two(groups);
                assert(may_run(f, dir, helpers, next[0], groups[0]));
                assert(may_run(f, dir, helpers, next[1], groups[1]));
                assert(cs =~= seq![phases::incremental_repack(dir)]);
            }
        },
        (StepView::Submodules, Reply::Exists(_)) => {
            if f.submodules {
                lemma_flatten_calls(f, dir, helpers, next, groups);
            }
        },
        (StepView::Lfs, Reply::Ran(_)) => {
            if call::succeeded(f.lfs) {
                lemma_flatten_calls(f, dir, helpers, next, groups);
            }
        },
        _ => {},
    }
}

pub(crate) proof fn lemma_run_does(f: Findings, job: JobView, rs: Seq<Reply>) -> (groups: Seq<Seq<CallView>>)
    requires
        !job.dry_run,
        complete(f, job, rs),
    ensures
        all_may_run(f, job.dir, job.opts.credential_helpers, job.agenda, groups),
        groups.flatten() == commands(job, rs),
    decreases rs.len(),
{
    let (dir, helpers) = (job.dir, job.opts.credential_helpers);
    if job.agenda.len() == 0 {
        let none = Seq::<Seq<CallView>>::empty();
        assert(rs.len() == 0);
        assert(none.flatten() =~= commands(job, rs));
        none
    } else {
        let s = job.agenda[0];
        let rest = job.agenda.drop_first();
        let next = clean::follow_up(job, s, rs[0]);
        let job1 = clean::after_reply(job, rs[0]);
        let all = lemma_run_does(f, job1, rs.drop_first());
        let first = all.take(next.len() as int);
        let others = all.skip(next.len() as int);
        assert(all =~= first + others);
        lemma_flatten_concat(first, others);
        assert forall|i: int| 0 <= i < next.len() implies may_run(
            f,
            dir,
            helpers,
            #[trigger] next[i],
            first[i],
        ) by {
            assert(job1.agenda[i] == next[i]);
        }
        lemma_may_run_in_turn(f, job, rs[0], first);
        let own = command(s) + first.flatten();
        let groups = seq![own] + others;
        assert forall|i: int| 0 <= i < job.agenda.len() implies may_run(
            f,
            dir,
            helpers,
            #[trigger] job.agenda[i],
            groups[i],
        ) by {
            if i > 0 {
                let j = i - 1 + next.len();
                assert(job1.agenda[j] == job.agenda[i]);
                assert(groups[i] == all[j]);
            }
        }
        assert(groups.drop_first() =~= others);
        assert(groups.flatten() =~= own + others.flatten());
        assert(commands(job, rs) =~= command(s) + all.flatten());
        groups
    }
}

// ── the one and the other ────────────────────────────────────────────────────

/// Whether a step can stand in a plan.
spec fn plannable(s: StepView) -> bool {
    match s {
        StepView::Git(_) => true,
        StepView::Packs => true,
        StepView::Origin(p) => !(p is Preview),
        StepView::Submodules => true,
        StepView::Lfs => true,
        _ => false,
    }
}

spec fn all_plannable(a: Seq<StepView>) -> bool {
    forall|i: int| 0 <= i < a.len() ==> plannable(#[trigger] a[i])
}

proof fn lemma_plan_is_plannable(dir: Seq<char>, kind: RepoKind, o: OptionsView)
    ensures
        all_plannable(clean::plan(dir, kind, o)),
{
    let refs = phases::refs_steps(dir, kind, o.reflog_expire);
    assert(all_plannable(refs));
}

/// The lines for one step of a plan stand for what comes of it.
proof fn lemma_step_accounts(
    f: Findings,
    dir: Seq<char>,
    helpers: bool,
    s: StepView,
    cs: Seq<CallView>,
) -> (groups: Seq<Seq<CallView>>)
    requires
        plannable(s),
        may_run(f, dir, helpers, s, cs),
    ensures
        groups_fit(f, dir, all_say(f, dir, helpers, clean::preview(s)), groups),
        groups.flatten() == cs,
{
    let p = clean::preview(s);
    assert(p =~= seq![p[0]]);
    lemma_one_says(f, dir, helpers, p[0]);
    let said = all_say(f, dir, helpers, p);
    let sub = phases::submodule_steps(dir);
    let lfs = phases::lfs_steps(dir, helpers);
    lemma_git_previews_are_messages(sub);
    lemma_git_previews_are_messages(lfs);
    let one = seq![cs];
    lemma_flatten_one(one);
    let none = Seq::<Seq<CallView>>::empty();
    assert(none.flatten() =~= Seq::<CallView>::empty());
    match s {
        StepView::Git(c) => {
            assert(said[0] == line(call::shown(cs[0])));
            one
        },
        StepView::Submodules => if f.submodules {
            let groups = seq![seq![cs[0]], seq![cs[1]]];
            lemma_flatten_two(groups);
            assert(cs =~= groups.flatten());
            assert(said =~= log_texts(clean::previews(sub)));
            assert forall|i: int| 0 <= i < said.len() implies stands_for(
                f,
                dir,
                #[trigger] said[i],
                groups[i],
            ) by {
                assert(clean::previews(sub)[i] == clean::would(call::shown(sub[i]->Git_0)));
                assert(cs[i] == sub[i]->Git_0);
            }
            groups
        } else {
            assert(cs =~= Seq::<CallView>::empty());
            none
        },
        StepView::Lfs => if call::succeeded(f.lfs) {
            assert(said =~= log_texts(clean::previews(lfs)));
            assert(clean::previews(lfs)[0] == clean::would(call::shown(lfs[0]->Git_0)));
            assert(cs[0] == lfs[0]->Git_0);
            assert(said[0] == line(call::shown(cs[0])));
            one
        } else {
            assert(cs =~= Seq::<CallView>::empty());
            none
        },
        StepView::Origin(Purpose::Branches) => {
            assert(said[0] == clean::with_mainline(dir, Purpose::Preview, mainline(f))[0]->Log_0);
            assert(clean::with_mainline(dir, Purpose::Preview, mainline(f)) =~= seq![
                StepView::Log(said[0]),
            ]);
            one
        },
        _ => one,
    }
}

proof fn lemma_steps_account(
    f: Findings,
    dir: Seq<char>,
    helpers: bool,
    a: Seq<StepView>,
    run: Seq<Seq<CallView>>,
) -> (groups: Seq<Seq<CallView>>)
    requires
        all_plannable(a),
        all_may_run(f, dir, helpers, a, run),
    ensures
        groups_fit(f, dir, all_say(f, dir, helpers, clean::previews(a)), groups),
        groups.flatten() == run.flatten(),
    decreases a.len(),
{
    if a.len() == 0 {
        lemma_messages_say(f, dir, helpers, clean::previews(a));
        run
    } else {
        let d = a.drop_last();
        let rd = run.drop_last();
        assert forall|i: int| 0 <= i < d.len() implies plannable(#[trigger] d[i]) && may_run(
            f,
            dir,
            helpers,
            d[i],
            rd[i],
        ) by {
            assert(d[i] == a[i]);
        }
        let s = a.last();
        assert(s == a[a.len() - 1]);
        let before = lemma_steps_account(f, dir, helpers, d, rd);
        let last = lemma_step_accounts(f, dir, helpers, s, run.last());
        let groups = before + last;
        lemma_flatten_concat(before, last);
        lemma_flatten_concat(rd, seq![run.last()]);
        lemma_flatten_one(seq![run.last()]);
        assert(run =~= rd + seq![run.last()]);
        lemma_all_say_add(f, dir, helpers, clean::previews(d), clean::preview(s));
        let x = all_say(f, dir, helpers, clean::previews(d));
        let y = all_say(f, dir, helpers, clean::preview(s));
        let said = all_say(f, dir, helpers, clean::previews(a));
        assert(said == x + y);
        assert forall|i: int| 0 <= i < said.len() implies stands_for(
            f,
            dir,
            #[trigger] said[i],
            groups[i],
        ) by {
            if i < x.len() {
                assert(said[i] == x[i]);
            } else {
                assert(said[i] == y[i - x.len()]);
            }
        }
        groups
    }
}

/// A dry run tells what a run does. In a repository where both find the same,
/// a dry run says which repository it is about and then one line for each
/// thing that the run does to it: the lines stand for the commands that the
/// run issues, in the same order, none missing and none too many.
pub proof fn dry_runs_tell_what_runs_do(
    f: Findings,
    dir: Seq<char>,
    kind: RepoKind,
    o: OptionsView,
    n: nat,
    total: nat,
    dry: Seq<Reply>,
    live: Seq<Reply>,
)
    requires
        complete(f, clean::started(dir, kind, o, true, n, total), dry),
        complete(f, clean::started(dir, kind, o, false, n, total), live),
    ensures
        ({
            let said = messages(clean::started(dir, kind, o, true, n, total), dry);
            let done = commands(clean::started(dir, kind, o, false, n, total), live);
            &&& said.len() > 0
            &&& said[0] == clean::cleaning(dir, kind, n, total)
            &&& account_for(f, dir, said.drop_first(), done)
        }),
{
    let a = clean::started(dir, kind, o, true, n, total);
    let b = clean::started(dir, kind, o, false, n, total);
    let helpers = o.credential_helpers;
    let steps = clean::plan(dir, kind, o);
    let head = StepView::Log(clean::cleaning(dir, kind, n, total));
    clean_laws::lemma_starts_dry(dir, kind, o, n, total);
    lemma_dry_run_says(f, a, dry);
    lemma_all_say_add(f, dir, helpers, seq![head], clean::previews(steps));
    lemma_one_says(f, dir, helpers, head);
    let lines = all_say(f, dir, helpers, clean::previews(steps));
    let said = messages(a, dry);
    assert(said == seq![clean::cleaning(dir, kind, n, total)] + lines);
    assert(said.drop_first() =~= lines);
    let all = lemma_run_does(f, b, live);
    let m = steps.len() as int;
    assert(b.agenda.len() == m + 2);
    assert(may_run(f, dir, helpers, b.agenda[0], all[0]));
    assert(may_run(f, dir, helpers, b.agenda[m + 1], all[m + 1]));
    let mid = all.subrange(1, m + 1);
    assert forall|i: int| 0 <= i < m implies may_run(
        f,
        dir,
        helpers,
        #[trigger] steps[i],
        mid[i],
    ) by {
        assert(b.agenda[i + 1] == steps[i]);
    }
    let h = seq![all[0]];
    let t = seq![all[m + 1]];
    assert(all =~= h + mid + t);
    lemma_flatten_concat(h + mid, t);
    lemma_flatten_concat(h, mid);
    lemma_flatten_one(h);
    lemma_flatten_one(t);
    assert(all.flatten() =~= mid.flatten());
    lemma_plan_is_plannable(dir, kind, o);
    let groups = lemma_steps_account(f, dir, helpers, steps, mid);
    assert(groups_fit(f, dir, lines, groups));
}

} // verus!
