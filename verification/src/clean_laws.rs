//! What holds of every cleanup, whatever its surroundings reply.
use vstd::prelude::*;

use crate::branches;
use crate::call;
use crate::call::{CallView, Output, Profile};
use crate::clean;
use crate::clean::{ActionView, JobView, Reply};
use crate::config::OptionsView;
use crate::phases;
use crate::phases::{Purpose, StepView, Trunk};
use crate::repo::RepoKind;
use crate::report;
use crate::text;
use crate::worktrees;
use crate::worktrees::WorktreeView;

verus! {

// ── runs ─────────────────────────────────────────────────────────────────────

/// Whether `rs` are replies to the actions of `job`, one after the other.
pub open spec fn follows(job: JobView, rs: Seq<Reply>) -> bool
    decreases rs.len(),
{
    rs.len() == 0 || (clean::answers(clean::next_action(job), rs[0]) && follows(
        clean::after_reply(job, rs[0]),
        rs.drop_first(),
    ))
}

/// The cleanup after the replies `rs`.
pub open spec fn run(job: JobView, rs: Seq<Reply>) -> JobView
    decreases rs.len(),
{
    if rs.len() == 0 {
        job
    } else {
        run(clean::after_reply(job, rs[0]), rs.drop_first())
    }
}

pub(crate) proof fn lemma_run_split(job: JobView, rs: Seq<Reply>, k: int)
    requires
        0 <= k <= rs.len(),
        follows(job, rs),
    ensures
        follows(job, rs.take(k)),
        follows(run(job, rs.take(k)), rs.skip(k)),
        run(job, rs) == run(run(job, rs.take(k)), rs.skip(k)),
    decreases k,
{
    if k == 0 {
        assert(rs.skip(0) =~= rs);
    } else {
        let job1 = clean::after_reply(job, rs[0]);
        let rest = rs.drop_first();
        lemma_run_split(job1, rest, k - 1);
        assert(rs.take(k).drop_first() =~= rest.take(k - 1));
        assert(rs.skip(k) =~= rest.skip(k - 1));
        assert(rs.take(k)[0] == rs[0]);
    }
}

proof fn lemma_run_join(job: JobView, a: Seq<Reply>, b: Seq<Reply>)
    requires
        follows(job, a),
        follows(run(job, a), b),
    ensures
        follows(job, a + b),
        run(job, a + b) == run(run(job, a), b),
    decreases a.len(),
{
    if a.len() == 0 {
        assert(a + b =~= b);
    } else {
        lemma_run_join(clean::after_reply(job, a[0]), a.drop_first(), b);
        assert((a + b).drop_first() =~= a.drop_first() + b);
        assert((a + b)[0] == a[0]);
    }
}

// ── every step gets its turn ─────────────────────────────────────────────────

/// A finished cleanup has come to the point where just `t` was left, if its
/// agenda was `a` and then `t`.
pub(crate) proof fn lemma_reaches(job: JobView, a: Seq<StepView>, t: Seq<StepView>, rs: Seq<Reply>) -> (k: int)
    requires
        job.agenda == a + t,
        follows(job, rs),
        run(job, rs).agenda.len() == 0,
    ensures
        0 <= k <= rs.len(),
        run(job, rs.take(k)).agenda == t,
        a.len() > 0 ==> k > 0,
    decreases rs.len(),
{
    if a.len() == 0 {
        assert(a + t =~= t);
        assert(rs.take(0) =~= Seq::<Reply>::empty());
        0
    } else {
        assert(rs.len() > 0);
        let job1 = clean::after_reply(job, rs[0]);
        let f = clean::follow_up(job, job.agenda[0], rs[0]);
        let a1 = f + a.drop_first();
        assert(job1.agenda =~= a1 + t) by {
            assert((a + t).drop_first() =~= a.drop_first() + t);
        }
        let k1 = lemma_reaches(job1, a1, t, rs.drop_first());
        assert(rs.take(k1 + 1).drop_first() =~= rs.drop_first().take(k1));
        assert(rs.take(k1 + 1)[0] == rs[0]);
        k1 + 1
    }
}

/// Whether `ks` are the points of a run at which the steps of the agenda come
/// up, in their order.
pub open spec fn in_turn(job: JobView, rs: Seq<Reply>, ks: Seq<int>) -> bool {
    &&& ks.len() == job.agenda.len()
    &&& forall|i: int|
        0 <= i < ks.len() ==> 0 <= #[trigger] ks[i] < rs.len() && run(job, rs.take(ks[i])).agenda
            == job.agenda.skip(i)
    &&& forall|i: int, j: int| 0 <= i < j < ks.len() ==> #[trigger] ks[i] < #[trigger] ks[j]
}

/// Every step of the agenda is taken, in order, before a cleanup is finished,
/// whether or not earlier steps went well.
pub proof fn every_step_gets_its_turn(job: JobView, rs: Seq<Reply>)
    requires
        follows(job, rs),
        run(job, rs).agenda.len() == 0,
    ensures
        exists|ks: Seq<int>| in_turn(job, rs, ks),
    decreases job.agenda.len(),
{
    let a = job.agenda;
    if a.len() == 0 {
        assert(in_turn(job, rs, Seq::<int>::empty()));
    } else {
        let head = seq![a[0]];
        let tail = a.drop_first();
        assert(a =~= head + tail);
        let k = lemma_reaches(job, head, tail, rs);
        lemma_run_split(job, rs, k);
        let job1 = run(job, rs.take(k));
        let rs1 = rs.skip(k);
        every_step_gets_its_turn(job1, rs1);
        let ks1 = choose|ks: Seq<int>| in_turn(job1, rs1, ks);
        let ks = seq![0int] + ks1.map_values(|x: int| x + k);
        assert forall|i: int| 0 <= i < ks.len() implies 0 <= #[trigger] ks[i] < rs.len() && run(
            job,
            rs.take(ks[i]),
        ).agenda == a.skip(i) by {
            if i == 0 {
                assert(rs.take(0) =~= Seq::<Reply>::empty());
                assert(a.skip(0) =~= a);
                assert(rs.len() > 0);
            } else {
                let m = ks1[i - 1];
                assert(ks[i] == m + k);
                lemma_run_split(job, rs, m + k);
                lemma_run_split(job, rs.take(m + k), k);
                assert(rs.take(m + k).take(k) =~= rs.take(k));
                assert(rs.take(m + k).skip(k) =~= rs1.take(m));
                assert(tail.skip(i - 1) =~= a.skip(i));
            }
        }
        assert forall|i: int, j: int| 0 <= i < j < ks.len() implies #[trigger] ks[i]
            < #[trigger] ks[j] by {
            if i == 0 {
                assert(ks[j] == ks1[j - 1] + k);
            } else {
                assert(ks[i] == ks1[i - 1] + k && ks[j] == ks1[j - 1] + k);
            }
        }
        assert(in_turn(job, rs, ks));
    }
}

/// A cleanup went well just if every step of it did.
pub proof fn one_failure_is_remembered(job: JobView, rs: Seq<Reply>)
    requires
        follows(job, rs),
    ensures
        run(job, rs).ok <==> job.ok && forall|k: int|
            0 <= k < rs.len() ==> clean::went_well(
                (#[trigger] run(job, rs.take(k))).agenda[0],
                rs[k],
            ),
    decreases rs.len(),
{
    if rs.len() > 0 {
        let job1 = clean::after_reply(job, rs[0]);
        let rest = rs.drop_first();
        one_failure_is_remembered(job1, rest);
        assert(rs.take(0) =~= Seq::<Reply>::empty());
        assert(run(job, rs.take(0)) == job);
        assert forall|k: int| 0 < k < rs.len() implies #[trigger] run(job, rs.take(k)) == run(
            job1,
            rest.take(k - 1),
        ) by {
            assert(rs.take(k).drop_first() =~= rest.take(k - 1));
            assert(rs.take(k)[0] == rs[0]);
        }
        if run(job1, rest).ok {
            assert forall|k: int| 0 <= k < rs.len() implies clean::went_well(
                (#[trigger] run(job, rs.take(k))).agenda[0],
                rs[k],
            ) by {
                if k > 0 {
                    assert(run(job, rs.take(k)) == run(job1, rest.take(k - 1)));
                    assert(rest[k - 1] == rs[k]);
                }
            }
        }
        if job.ok && forall|k: int|
            0 <= k < rs.len() ==> clean::went_well(
                (#[trigger] run(job, rs.take(k))).agenda[0],
                rs[k],
            ) {
            assert(clean::went_well(run(job, rs.take(0)).agenda[0], rs[0]));
            assert forall|k: int| 0 <= k < rest.len() implies clean::went_well(
                (#[trigger] run(job1, rest.take(k))).agenda[0],
                rest[k],
            ) by {
                assert(run(job, rs.take(k + 1)) == run(job1, rest.take(k)));
            }
        }
    }
}

// ── every cleanup finishes ───────────────────────────────────────────────────

/// How much can still follow from a step: a step only ever leads to steps of a
/// lower rank.
pub open spec fn rank(s: StepView) -> nat {
    match s {
        StepView::Log(_) => 0,
        StepView::Git(_) => 1,
        StepView::WorktreeIdle(_) => 2,
        StepView::WorktreeMerged { .. } => 3,
        StepView::Merged(_) => 4,
        StepView::Worktrees(_) => 4,
        StepView::Packs => 4,
        StepView::Submodules => 4,
        StepView::Lfs => 4,
        StepView::Elapsed => 4,
        StepView::Fallback(_, t) => if t is Master {
            5
        } else {
            6
        },
        StepView::Origin(_) => 7,
    }
}

/// The number of steps of rank `r`.
pub open spec fn count(a: Seq<StepView>, r: nat) -> nat {
    a.filter(|s: StepView| rank(s) == r).len()
}

proof fn lemma_count_add(a: Seq<StepView>, b: Seq<StepView>, r: nat)
    ensures
        count(a + b, r) == count(a, r) + count(b, r),
{
    Seq::filter_distributes_over_add(a, b, |s: StepView| rank(s) == r);
}

proof fn lemma_count_none(a: Seq<StepView>, r: nat)
    requires
        forall|i: int| 0 <= i < a.len() ==> rank(#[trigger] a[i]) != r,
    ensures
        count(a, r) == 0,
{
    let p = |s: StepView| rank(s) == r;
    if a.filter(p).len() > 0 {
        a.lemma_filter_pred(p, 0);
        assert(a.filter(p).contains(a.filter(p)[0]));
        a.lemma_filter_contains_rev(p, a.filter(p)[0]);
        let i = choose|i: int| 0 <= i < a.len() && a[i] == a.filter(p)[0];
        assert(rank(a[i]) == r);
    }
}

proof fn lemma_count_one(s: StepView, r: nat)
    ensures
        count(seq![s], r) == (if rank(s) == r { 1nat } else { 0nat }),
{
    let p = |x: StepView| rank(x) == r;
    let none = Seq::<StepView>::empty();
    none.lemma_filter_push(s, p);
    assert(none.push(s) =~= seq![s]);
    assert(none.filter(p) =~= none);
}

proof fn lemma_previews_are_low(s: Seq<StepView>)
    requires
        forall|i: int| 0 <= i < s.len() ==> (#[trigger] s[i]) is Git,
    ensures
        forall|i: int| 0 <= i < clean::previews(s).len() ==> rank(#[trigger] clean::previews(s)[i]) == 0,
    decreases s.len(),
{
    if s.len() > 0 {
        let d = s.drop_last();
        assert forall|i: int| 0 <= i < d.len() implies (#[trigger] d[i]) is Git by {
            assert(d[i] == s[i]);
        }
        lemma_previews_are_low(d);
        assert(s[s.len() - 1] is Git);
        let all = clean::previews(s);
        let before = clean::previews(d);
        assert forall|i: int| 0 <= i < all.len() implies rank(#[trigger] all[i]) == 0 by {
            if i < before.len() {
                assert(all[i] == before[i]);
            }
        }
    }
}

proof fn lemma_follow_up_is_lower(job: JobView, s: StepView, r: Reply)
    ensures
        forall|i: int|
            0 <= i < clean::follow_up(job, s, r).len() ==> rank(
                #[trigger] clean::follow_up(job, s, r)[i],
            ) < rank(s),
{
    lemma_previews_are_low(phases::submodule_steps(job.dir));
    lemma_previews_are_low(phases::lfs_steps(job.dir, job.opts.credential_helpers));
}

/// A reply to a step of rank `r` leaves one step of rank `r` fewer, and as many
/// of each higher rank as there were.
proof fn lemma_reply_lowers(job: JobView, r: Reply, q: nat)
    requires
        job.agenda.len() > 0,
        q >= rank(job.agenda[0]),
    ensures
        count(clean::after_reply(job, r).agenda, q) + (if q == rank(job.agenda[0]) {
            1nat
        } else {
            0nat
        }) == count(job.agenda, q),
{
    let s = job.agenda[0];
    let f = clean::follow_up(job, s, r);
    let t = job.agenda.drop_first();
    lemma_follow_up_is_lower(job, s, r);
    lemma_count_none(f, q);
    lemma_count_add(f, t, q);
    assert(job.agenda =~= seq![s] + t);
    lemma_count_add(seq![s], t, q);
    lemma_count_one(s, q);
}

/// Whether the replies `rs` are those that `respond` gives, one after the
/// other.
pub open spec fn given_by(
    job: JobView,
    respond: spec_fn(JobView) -> Reply,
    rs: Seq<Reply>,
) -> bool {
    forall|k: int| 0 <= k < rs.len() ==> rs[k] == respond(#[trigger] run(job, rs.take(k)))
}

/// Every cleanup comes to its end: whatever the surroundings reply, after some
/// number of their replies nothing is left to do.
pub proof fn every_cleanup_finishes(job: JobView, respond: spec_fn(JobView) -> Reply)
    requires
        forall|j: JobView|
            j.agenda.len() > 0 ==> clean::answers(clean::next_action(j), #[trigger] respond(j)),
    ensures
        exists|rs: Seq<Reply>| #[trigger]
            given_by(job, respond, rs) && follows(job, rs) && run(job, rs).agenda.len() == 0,
    decreases
            count(job.agenda, 7),
            count(job.agenda, 6),
            count(job.agenda, 5),
            count(job.agenda, 4),
            count(job.agenda, 3),
            count(job.agenda, 2),
            count(job.agenda, 1),
            count(job.agenda, 0),
{
    if job.agenda.len() == 0 {
        let none = Seq::<Reply>::empty();
        assert(given_by(job, respond, none));
    } else {
        let r = respond(job);
        let job1 = clean::after_reply(job, r);
        let top = rank(job.agenda[0]);
        assert forall|q: nat| q >= top implies #[trigger] count(job1.agenda, q) + (if q == top {
            1nat
        } else {
            0nat
        }) == count(job.agenda, q) by {
            lemma_reply_lowers(job, r, q);
        }
        every_cleanup_finishes(job1, respond);
        let rs1 = choose|rs: Seq<Reply>| #[trigger]
            given_by(job1, respond, rs) && follows(job1, rs) && run(job1, rs).agenda.len() == 0;
        let rs = seq![r] + rs1;
        assert(rs.drop_first() =~= rs1);
        assert(rs[0] == r);
        assert(given_by(job, respond, rs)) by {
            assert forall|k: int| 0 <= k < rs.len() implies rs[k] == respond(
                #[trigger] run(job, rs.take(k)),
            ) by {
                if k == 0 {
                    assert(rs.take(0) =~= Seq::<Reply>::empty());
                } else {
                    assert(rs.take(k)[0] == r);
                    assert(rs.take(k).drop_first() =~= rs1.take(k - 1));
                    assert(rs1[k - 1] == respond(run(job1, rs1.take(k - 1))));
                }
            }
        }
        assert(follows(job, rs) && run(job, rs).agenda.len() == 0);
    }
}

/// Only a repository without packs is not repacked: a question for them that
/// failed, or an answer that does not give their number, is no excuse.
pub proof fn only_missing_packs_excuse_repacking(dir: Seq<char>, o: Output)
    ensures
        clean::repacking(dir, o).contains(StepView::Git(phases::incremental_repack(dir)))
            <==> phases::pack_count(o) != Some(0nat),
        !call::succeeded(o) ==> phases::pack_count(o) is None,
{
    let s = clean::repacking(dir, o);
    if s.len() > 0 {
        assert(s.last() == StepView::Git(phases::incremental_repack(dir)));
    }
}

// ── dry runs ─────────────────────────────────────────────────────────────────

/// A dry run of several steps is a dry run of each in turn, and for a command
/// it names that command: no step is left out and none is moved.
pub proof fn dry_run_names_commands_in_order(a: Seq<StepView>, c: CallView, b: Seq<StepView>)
    ensures
        clean::previews(a + seq![StepView::Git(c)] + b) == clean::previews(a) + seq![
            clean::would(call::shown(c)),
        ] + clean::previews(b),
{
    let g = seq![StepView::Git(c)];
    lemma_previews_add(a + g, b);
    lemma_previews_add(a, g);
    assert(g.drop_last() =~= Seq::<StepView>::empty());
    assert(clean::previews(g.drop_last()) =~= Seq::<StepView>::empty());
    assert(clean::previews(g) =~= seq![clean::would(call::shown(c))]);
}

pub(crate) proof fn lemma_previews_add(a: Seq<StepView>, b: Seq<StepView>)
    ensures
        clean::previews(a + b) == clean::previews(a) + clean::previews(b),
    decreases b.len(),
{
    if b.len() == 0 {
        assert(a + b =~= a);
        assert(clean::previews(a) + clean::previews(b) =~= clean::previews(a));
    } else {
        lemma_previews_add(a, b.drop_last());
        assert((a + b).drop_last() =~= a + b.drop_last());
        assert((a + b).last() == b.last());
        assert(clean::previews(a + b) =~= clean::previews(a) + clean::previews(b));
    }
}

/// A dry run names every command that the cleanup would certainly run.
pub proof fn dry_run_names_every_planned_command(
    dir: Seq<char>,
    kind: RepoKind,
    o: OptionsView,
    n: nat,
    total: nat,
    i: int,
)
    requires
        0 <= i < clean::plan(dir, kind, o).len(),
        clean::plan(dir, kind, o)[i] is Git,
    ensures
        clean::agenda(dir, kind, o, true, n, total).contains(
            clean::would(call::shown(clean::plan(dir, kind, o)[i]->Git_0)),
        ),
{
    let steps = clean::plan(dir, kind, o);
    let c = steps[i]->Git_0;
    let a = steps.take(i);
    let b = steps.skip(i + 1);
    assert(steps =~= a + seq![StepView::Git(c)] + b);
    dry_run_names_commands_in_order(a, c, b);
    let p = clean::previews(a).len() as int;
    assert(clean::previews(steps)[p] == clean::would(call::shown(c)));
    assert(clean::agenda(dir, kind, o, true, n, total)[p + 1] == clean::would(call::shown(c)));
}

/// Whether a step can stand on the agenda of a dry run.
pub open spec fn only_looks(s: StepView) -> bool {
    match s {
        StepView::Log(_) => true,
        StepView::Origin(p) => p is Preview,
        StepView::Fallback(p, _) => p is Preview,
        StepView::Submodules => true,
        StepView::Lfs => true,
        _ => false,
    }
}

proof fn lemma_previews_only_look(s: Seq<StepView>)
    ensures
        forall|i: int|
            0 <= i < clean::previews(s).len() ==> only_looks(#[trigger] clean::previews(s)[i]),
    decreases s.len(),
{
    if s.len() > 0 {
        lemma_previews_only_look(s.drop_last());
        let all = clean::previews(s);
        let before = clean::previews(s.drop_last());
        let last = clean::preview(s.last());
        assert forall|i: int| 0 <= i < all.len() implies only_looks(#[trigger] all[i]) by {
            if i < before.len() {
                assert(all[i] == before[i]);
            } else {
                assert(all[i] == last[i - before.len()]);
            }
        }
    }
}

/// Whether a job is a dry run in which nothing can have gone wrong.
pub open spec fn dry(job: JobView) -> bool {
    &&& job.dry_run
    &&& job.ok
    &&& forall|i: int| 0 <= i < job.agenda.len() ==> only_looks(#[trigger] job.agenda[i])
}

pub(crate) proof fn lemma_reply_keeps_dry(job: JobView, r: Reply)
    requires
        dry(job),
        job.agenda.len() > 0,
    ensures
        dry(clean::after_reply(job, r)),
{
    let s = job.agenda[0];
    let job1 = clean::after_reply(job, r);
    let f = clean::follow_up(job, s, r);
    assert(only_looks(s));
    lemma_previews_only_look(phases::submodule_steps(job.dir));
    lemma_previews_only_look(phases::lfs_steps(job.dir, job.opts.credential_helpers));
    assert forall|i: int| 0 <= i < f.len() implies only_looks(#[trigger] f[i]) by {}
    assert forall|i: int| 0 <= i < job1.agenda.len() implies only_looks(
        #[trigger] job1.agenda[i],
    ) by {
        if i < f.len() {
            assert(job1.agenda[i] == f[i]);
        } else {
            assert(job1.agenda[i] == job.agenda[i - f.len() + 1]);
        }
    }
}

pub(crate) proof fn lemma_stays_dry(job: JobView, rs: Seq<Reply>)
    requires
        dry(job),
        follows(job, rs),
    ensures
        dry(run(job, rs)),
        run(job, rs).dir == job.dir,
    decreases rs.len(),
{
    if rs.len() > 0 {
        lemma_reply_keeps_dry(job, rs[0]);
        lemma_stays_dry(clean::after_reply(job, rs[0]), rs.drop_first());
    }
}

pub(crate) proof fn lemma_starts_dry(
    dir: Seq<char>,
    kind: RepoKind,
    o: OptionsView,
    n: nat,
    total: nat,
)
    ensures
        dry(clean::started(dir, kind, o, true, n, total)),
{
    let job = clean::started(dir, kind, o, true, n, total);
    let steps = clean::plan(dir, kind, o);
    lemma_previews_only_look(steps);
    assert forall|i: int| 0 <= i < job.agenda.len() implies only_looks(
        #[trigger] job.agenda[i],
    ) by {
        if i > 0 {
            assert(job.agenda[i] == clean::previews(steps)[i - 1]);
        }
    }
}

/// Whether an action leaves the repository at `dir` as it is: it writes a
/// message, looks for a file, or puts one of the three questions that Git
/// answers from what is stored, or it is the end of a cleanup that went well.
pub open spec fn leaves_alone(dir: Seq<char>, a: ActionView) -> bool {
    match a {
        ActionView::Log(_) => true,
        ActionView::Exists { .. } => true,
        ActionView::Run(c) => {
            ||| c == branches::origin_head_call(dir)
            ||| c == branches::branch_exists_call(dir, "main"@)
            ||| c == branches::branch_exists_call(dir, "master"@)
            ||| c == phases::lfs_call(dir)
        },
        ActionView::Finish(ok) => ok,
        _ => false,
    }
}

/// A dry run changes nothing and cannot fail, at any point of it.
pub proof fn dry_run_changes_nothing(
    dir: Seq<char>,
    kind: RepoKind,
    o: OptionsView,
    n: nat,
    total: nat,
    rs: Seq<Reply>,
)
    requires
        follows(clean::started(dir, kind, o, true, n, total), rs),
    ensures
        leaves_alone(
            dir,
            clean::next_action(run(clean::started(dir, kind, o, true, n, total), rs)),
        ),
        run(clean::started(dir, kind, o, true, n, total), rs).ok,
{
    let job = clean::started(dir, kind, o, true, n, total);
    lemma_starts_dry(dir, kind, o, n, total);
    lemma_stays_dry(job, rs);
    let end = run(job, rs);
    if end.agenda.len() > 0 {
        assert(only_looks(end.agenda[0]));
    }
}

// ── what a cleanup may touch ─────────────────────────────────────────────────

/// Whether a command line is for what only a repository with a working tree
/// has.
pub open spec fn needs_working_tree(args: Seq<Seq<char>>) -> bool {
    args.len() > 0 && (args[0] == "worktree"@ || args[0] == "branch"@ || args[0] == "submodule"@)
}

/// Whether a command line talks to a remote.
pub open spec fn is_remote(args: Seq<Seq<char>>) -> bool {
    args.len() > 0 && (args[0] == "fetch"@ || args == seq!["lfs"@, "prune"@])
}

/// Whether all of the branches `names` may be deleted.
pub open spec fn all_deletable(
    names: Seq<Seq<char>>,
    mainline: Seq<char>,
    protected: Seq<Seq<char>>,
) -> bool {
    forall|i: int|
        0 <= i < names.len() ==> branches::deletable(#[trigger] names[i], mainline, protected)
}

/// Whether a command line that deletes branches deletes only some that may go,
/// in view of some mainline and of the protected branches.
pub open spec fn deletes_only_spares(args: Seq<Seq<char>>, protected: Seq<Seq<char>>) -> bool {
    args.len() > 0 && args[0] == "branch"@ && args[1] != "--merged"@ ==> {
        &&& args.len() > 3
        &&& args[1] == "-d"@ && args[2] == "--"@
        &&& exists|m: Seq<char>| all_deletable(args.skip(3), m, protected)
    }
}

/// The worktrees that may go, from a listing.
pub open spec fn spares_in(listing: Seq<char>, dir: Seq<char>, protected: Seq<Seq<char>>) -> Seq<
    WorktreeView,
> {
    worktrees::spares(worktrees::listed(text::line_texts(listing)), dir, protected)
}

/// Whether `path` is that of a worktree that some listing shows as one that
/// may go.
pub open spec fn is_spare_path(dir: Seq<char>, path: Seq<char>, protected: Seq<Seq<char>>) -> bool {
    exists|t: Seq<char>, j: int|
        0 <= j < spares_in(t, dir, protected).len() && (#[trigger] spares_in(
            t,
            dir,
            protected,
        )[j]).path == path
}

/// Whether a command line that removes a worktree removes one that may go.
pub open spec fn removes_only_spares(
    dir: Seq<char>,
    args: Seq<Seq<char>>,
    protected: Seq<Seq<char>>,
) -> bool {
    args.len() > 1 && args[0] == "worktree"@ && args[1] == "remove"@ ==> {
        &&& args.len() == 4
        &&& args[2] == "--"@
        &&& is_spare_path(dir, args[3], protected)
    }
}

/// Whether `name` can stand on a command line without being taken for an
/// option.
pub open spec fn plain(name: Seq<char>) -> bool {
    name.len() > 0 && !text::begins_with(name, '-')
}

/// Whether the mainline, where a command line names it, is a plain name.
pub open spec fn names_mainline_plainly(args: Seq<Seq<char>>) -> bool {
    &&& args.len() > 1 && args[0] == "branch"@ && args[1] == "--merged"@ ==> args.len() == 3
        && plain(args[2])
    &&& args.len() > 0 && args[0] == "merge-base"@ ==> args.len() == 4 && plain(args[3])
}

/// Whether a cleanup with these options may run a command.
pub open spec fn in_bounds(dir: Seq<char>, kind: RepoKind, o: OptionsView, c: CallView) -> bool {
    &&& c.dir == dir
    &&& kind is Bare ==> !needs_working_tree(c.args)
    &&& c.profile is Helpers ==> o.credential_helpers && is_remote(c.args)
    &&& names_mainline_plainly(c.args)
    &&& deletes_only_spares(c.args, o.protected_branches)
    &&& removes_only_spares(dir, c.args, o.protected_branches)
}

spec fn within(job: JobView, s: StepView) -> bool {
    match s {
        StepView::Git(c) => in_bounds(job.dir, job.kind, job.opts, c),
        StepView::Log(_) => true,
        StepView::Packs => true,
        StepView::Lfs => true,
        StepView::Elapsed => true,
        StepView::Merged(m) => !(job.kind is Bare) && plain(m),
        StepView::Worktrees(m) => !(job.kind is Bare) && (m matches Some(m) ==> plain(m)),
        StepView::WorktreeMerged { path, mainline, .. } => !(job.kind is Bare) && plain(mainline)
            && is_spare_path(job.dir, path, job.opts.protected_branches),
        StepView::WorktreeIdle(path) => !(job.kind is Bare) && is_spare_path(
            job.dir,
            path,
            job.opts.protected_branches,
        ),
        _ => !(job.kind is Bare),
    }
}

spec fn all_within(job: JobView, a: Seq<StepView>) -> bool {
    forall|i: int| 0 <= i < a.len() ==> within(job, #[trigger] a[i])
}

proof fn lemma_all_within_add(job: JobView, a: Seq<StepView>, b: Seq<StepView>)
    requires
        all_within(job, a),
        all_within(job, b),
    ensures
        all_within(job, a + b),
{
    assert forall|i: int| 0 <= i < (a + b).len() implies within(job, #[trigger] (a + b)[i]) by {
        if i < a.len() {
            assert((a + b)[i] == a[i]);
        } else {
            assert((a + b)[i] == b[i - a.len()]);
        }
    }
}

/// The first words of the command lines differ.
proof fn lemma_first_words()
    ensures
        "fetch"@ != "branch"@ && "fetch"@ != "worktree"@ && "fetch"@ != "submodule"@,
        "pack-refs"@ != "branch"@ && "pack-refs"@ != "worktree"@ && "pack-refs"@ != "submodule"@,
        "reflog"@ != "branch"@ && "reflog"@ != "worktree"@ && "reflog"@ != "submodule"@,
        "rerere"@ != "branch"@ && "rerere"@ != "worktree"@ && "rerere"@ != "submodule"@,
        "notes"@ != "branch"@ && "notes"@ != "worktree"@ && "notes"@ != "submodule"@,
        "maintenance"@ != "branch"@ && "maintenance"@ != "worktree"@ && "maintenance"@
            != "submodule"@,
        "gc"@ != "branch"@ && "gc"@ != "worktree"@ && "gc"@ != "submodule"@,
        "repack"@ != "branch"@ && "repack"@ != "worktree"@ && "repack"@ != "submodule"@,
        "lfs"@ != "branch"@ && "lfs"@ != "worktree"@ && "lfs"@ != "submodule"@,
        "symbolic-ref"@ != "branch"@ && "symbolic-ref"@ != "worktree"@,
        "rev-parse"@ != "branch"@ && "rev-parse"@ != "worktree"@,
        "merge-base"@ != "branch"@ && "merge-base"@ != "worktree"@,
        "count-objects"@ != "branch"@ && "count-objects"@ != "worktree"@ && "count-objects"@
            != "submodule"@,
        "config"@ != "branch"@ && "config"@ != "worktree"@ && "config"@ != "submodule"@,
        "submodule"@ != "branch"@ && "submodule"@ != "worktree"@,
        "branch"@ != "worktree"@,
        "fetch"@ != "merge-base"@,
        "pack-refs"@ != "merge-base"@,
        "reflog"@ != "merge-base"@,
        "rerere"@ != "merge-base"@,
        "notes"@ != "merge-base"@,
        "maintenance"@ != "merge-base"@,
        "gc"@ != "merge-base"@,
        "repack"@ != "merge-base"@,
        "lfs"@ != "merge-base"@,
        "symbolic-ref"@ != "merge-base"@,
        "rev-parse"@ != "merge-base"@,
        "count-objects"@ != "merge-base"@,
        "config"@ != "merge-base"@,
        "submodule"@ != "merge-base"@,
        "branch"@ != "merge-base"@,
        "worktree"@ != "merge-base"@,
        "list"@ != "remove"@,
        "-d"@ != "--merged"@,
        "remove"@ != "--merged"@,
        "prune"@ != "remove"@,
{
    reveal_strlit("fetch");
    reveal_strlit("branch");
    reveal_strlit("worktree");
    reveal_strlit("submodule");
    reveal_strlit("pack-refs");
    reveal_strlit("reflog");
    reveal_strlit("rerere");
    reveal_strlit("notes");
    reveal_strlit("maintenance");
    reveal_strlit("gc");
    reveal_strlit("repack");
    reveal_strlit("lfs");
    reveal_strlit("symbolic-ref");
    reveal_strlit("rev-parse");
    reveal_strlit("merge-base");
    reveal_strlit("count-objects");
    reveal_strlit("config");
    reveal_strlit("list");
    reveal_strlit("remove");
    reveal_strlit("prune");
    reveal_strlit("-d");
    reveal_strlit("--merged");
    assert("-d"@[1] == 'd');
    assert("--merged"@[0] == '-' && "--merged"@[1] == '-');
    assert("fetch"@[0] == 'f');
    assert("branch"@[0] == 'b');
    assert("worktree"@[0] == 'w');
    assert("submodule"@[0] == 's');
    assert("pack-refs"@[0] == 'p');
    assert("reflog"@[0] == 'r');
    assert("rerere"@[0] == 'r');
    assert("notes"@[0] == 'n');
    assert("maintenance"@[0] == 'm' && "maintenance"@[1] == 'a');
    assert("gc"@[0] == 'g');
    assert("repack"@[0] == 'r');
    assert("lfs"@[0] == 'l');
    assert("symbolic-ref"@[1] == 'y');
    assert("rev-parse"@[0] == 'r');
    assert("merge-base"@[0] == 'm' && "merge-base"@[1] == 'e');
    assert("count-objects"@[0] == 'c');
    assert("config"@[0] == 'c');
    assert("list"@[0] == 'l');
    assert("prune"@[0] == 'p');
    assert("remove"@[0] == 'r');
}

proof fn lemma_trunks_are_plain(t: Trunk)
    ensures
        plain(clean::trunk_name(t)),
{
    reveal_strlit("main");
    reveal_strlit("master");
    assert("main"@[0] == 'm');
    assert("master"@[0] == 'm');
}

proof fn lemma_plan_within(job: JobView)
    ensures
        all_within(job, clean::plan(job.dir, job.kind, job.opts)),
{
    lemma_first_words();
    let (d, k, o) = (job.dir, job.kind, job.opts);
    let a1 = phases::fetch_steps(d, o.prune_tags, o.credential_helpers);
    let a2 = phases::refs_steps(d, k, o.reflog_expire);
    let a3 = clean::only_if(
        !(k is Bare) && o.prune_worktrees,
        phases::worktree_removal_steps(),
    );
    let a4 = clean::only_if(
        !(k is Bare) && o.prune_branches,
        phases::branch_steps(),
    );
    let a5 = if o.aggressive {
        phases::aggressive_object_steps(d)
    } else {
        phases::normal_object_steps(d)
    };
    let a6 = phases::index_steps(d);
    let a7 = clean::only_if(!(k is Bare) && !o.skip_submodules, seq![StepView::Submodules]);
    let a8 = clean::only_if(!o.skip_lfs, seq![StepView::Lfs]);
    assert(all_within(job, a1));
    assert(all_within(job, a2)) by {
        let w = if k is Bare {
            Seq::<StepView>::empty()
        } else {
            seq![phases::git_step(d, seq!["worktree"@, "prune"@], Profile::Hardened)]
        };
        let first = seq![phases::git_step(d, seq!["pack-refs"@, "--all"@], Profile::Hardened)];
        let last = seq![
            phases::git_step(
                d,
                seq!["reflog"@, "expire"@, "--expire="@ + o.reflog_expire, "--all"@],
                Profile::Hardened,
            ),
            phases::git_step(d, seq!["rerere"@, "gc"@], Profile::Hardened),
            phases::git_step(d, seq!["notes"@, "prune"@], Profile::Hardened),
        ];
        assert(all_within(job, first));
        assert(all_within(job, w));
        assert(all_within(job, last));
        lemma_all_within_add(job, first, w);
        lemma_all_within_add(job, first + w, last);
    }
    assert(all_within(job, a5));
    assert(all_within(job, a6));
    lemma_all_within_add(job, a1, a2);
    lemma_all_within_add(job, a1 + a2, a3);
    lemma_all_within_add(job, a1 + a2 + a3, a4);
    lemma_all_within_add(job, a1 + a2 + a3 + a4, a5);
    lemma_all_within_add(job, a1 + a2 + a3 + a4 + a5, a6);
    lemma_all_within_add(job, a1 + a2 + a3 + a4 + a5 + a6, a7);
    lemma_all_within_add(job, a1 + a2 + a3 + a4 + a5 + a6 + a7, a8);
}

proof fn lemma_doomed_are_deletable(t: Seq<char>, m: Seq<char>, protected: Seq<Seq<char>>)
    ensures
        all_deletable(branches::doomed(t, m, protected), m, protected),
{
    let d = branches::doomed(t, m, protected);
    assert forall|i: int| 0 <= i < d.len() implies branches::deletable(
        #[trigger] d[i],
        m,
        protected,
    ) by {
        assert(d.contains(d[i]));
        branches::only_spare_branches_are_deleted(t, m, protected, d[i]);
    }
}

proof fn lemma_previews_within(job: JobView, s: Seq<StepView>)
    requires
        all_within(job, s),
    ensures
        all_within(job, clean::previews(s)),
    decreases s.len(),
{
    if s.len() > 0 {
        let d = s.drop_last();
        assert forall|i: int| 0 <= i < d.len() implies within(job, #[trigger] d[i]) by {
            assert(d[i] == s[i]);
        }
        lemma_previews_within(job, d);
        assert(within(job, s[s.len() - 1]));
        assert(all_within(job, clean::preview(s.last())));
        lemma_all_within_add(job, clean::previews(d), clean::preview(s.last()));
    }
}

proof fn lemma_follow_up_within(job: JobView, s: StepView, r: Reply)
    requires
        within(job, s),
    ensures
        all_within(job, clean::follow_up(job, s, r)),
{
    lemma_first_words();
    let f = clean::follow_up(job, s, r);
    let p = job.opts.protected_branches;
    match (s, r) {
        (StepView::Merged(m), Reply::Ran(o)) => {
            if let Some(t) = call::printed(o) {
                let names = branches::doomed(t, m, p);
                lemma_doomed_are_deletable(t, m, p);
                assert(branches::delete_call(job.dir, names).args.skip(3) =~= names);
            }
            assert(all_within(job, f));
        },
        (StepView::Worktrees(m), Reply::Ran(o)) => {
            if let Some(t) = call::printed(o) {
                let ws = spares_in(t, job.dir, p);
                assert forall|i: int| 0 <= i < f.len() implies within(job, #[trigger] f[i]) by {
                    assert(f[i] == clean::worktree_step(ws[i], m));
                    assert(is_spare_path(job.dir, ws[i].path, p));
                }
            }
            assert(all_within(job, f));
        },
        (StepView::Fallback(_, t), Reply::Ran(_)) => {
            lemma_trunks_are_plain(t);
            assert(all_within(job, f));
        },
        (StepView::Submodules, Reply::Exists(_)) => {
            assert(all_within(job, phases::submodule_steps(job.dir)));
            lemma_previews_within(job, phases::submodule_steps(job.dir));
        },
        (StepView::Lfs, Reply::Ran(_)) => {
            let steps = phases::lfs_steps(job.dir, job.opts.credential_helpers);
            assert(all_within(job, steps));
            lemma_previews_within(job, steps);
        },
        _ => {
            assert(all_within(job, f));
        },
    }
}

/// Whether two jobs are about the same repository, with the same options.
pub open spec fn same_job(a: JobView, b: JobView) -> bool {
    a.dir == b.dir && a.kind == b.kind && a.opts == b.opts
}

proof fn lemma_stays_within(job: JobView, rs: Seq<Reply>)
    requires
        all_within(job, job.agenda),
        follows(job, rs),
    ensures
        all_within(job, run(job, rs).agenda),
        same_job(job, run(job, rs)),
    decreases rs.len(),
{
    if rs.len() > 0 {
        assert(job.agenda.len() > 0);
        let s = job.agenda[0];
        let job1 = clean::after_reply(job, rs[0]);
        let rest = job.agenda.drop_first();
        lemma_follow_up_within(job, s, rs[0]);
        assert(all_within(job, rest)) by {
            assert forall|i: int| 0 <= i < rest.len() implies within(job, #[trigger] rest[i]) by {
                assert(rest[i] == job.agenda[i + 1]);
            }
        }
        lemma_all_within_add(job, clean::follow_up(job, s, rs[0]), rest);
        assert(all_within(job1, job1.agenda)) by {
            assert forall|i: int| 0 <= i < job1.agenda.len() implies within(
                job1,
                #[trigger] job1.agenda[i],
            ) by {
                assert(within(job, job1.agenda[i]));
            }
        }
        lemma_stays_within(job1, rs.drop_first());
        let end = run(job, rs).agenda;
        assert forall|i: int| 0 <= i < end.len() implies within(job, #[trigger] end[i]) by {
            assert(within(job1, end[i]));
        }
    }
}

/// Whatever its surroundings reply, a cleanup runs commands in its own
/// repository only; leaves what needs a working tree alone in a bare
/// repository; uses credential helpers only where that was asked for, and only
/// to reach a remote; never lets the name of a branch pass for an option; and
/// deletes no branch and removes no worktree that has to stay.
pub proof fn cleanups_stay_within_bounds(
    dir: Seq<char>,
    kind: RepoKind,
    o: OptionsView,
    dry_run: bool,
    n: nat,
    total: nat,
    rs: Seq<Reply>,
)
    requires
        follows(clean::started(dir, kind, o, dry_run, n, total), rs),
    ensures
        match clean::next_action(run(clean::started(dir, kind, o, dry_run, n, total), rs)) {
            ActionView::Run(c) => in_bounds(dir, kind, o, c),
            ActionView::Exists { dir: d, .. } => d == dir && !(kind is Bare),
            ActionView::Idle(path) => !(kind is Bare) && is_spare_path(
                dir,
                path,
                o.protected_branches,
            ),
            _ => true,
        },
{
    let job = clean::started(dir, kind, o, dry_run, n, total);
    let end = run(job, rs);
    lemma_first_words();
    let steps = clean::plan(dir, kind, o);
    lemma_plan_within(job);
    let head = seq![StepView::Log(clean::cleaning(dir, kind, n, total))];
    let last = seq![StepView::Elapsed];
    assert(steps.push(StepView::Elapsed) =~= steps + last);
    lemma_all_within_add(job, steps, last);
    lemma_all_within_add(job, head, steps + last);
    lemma_previews_within(job, steps);
    lemma_all_within_add(job, head, clean::previews(steps));
    lemma_stays_within(job, rs);
    if end.agenda.len() > 0 {
        assert(within(job, end.agenda[0]));
    }
}

// ── mainline ─────────────────────────────────────────────────────────────────

/// The replies with which a cleanup settles what the mainline is: it asks no
/// further when it has an answer.
pub open spec fn mainline_replies(head: Output, main: Output, master: Output) -> Seq<Reply> {
    if branches::origin_branch(head) is Some {
        seq![Reply::Ran(head)]
    } else if call::succeeded(main) {
        seq![Reply::Ran(head), Reply::Ran(main)]
    } else {
        seq![Reply::Ran(head), Reply::Ran(main), Reply::Ran(master)]
    }
}

/// A cleanup that needs the mainline goes on with the one that the answers of
/// Git give, and nothing else changes by asking.
pub proof fn cleanups_find_the_mainline(
    job: JobView,
    p: Purpose,
    head: Output,
    main: Output,
    master: Output,
)
    requires
        job.agenda.len() > 0,
        job.agenda[0] == StepView::Origin(p),
    ensures
        follows(job, mainline_replies(head, main, master)),
        run(job, mainline_replies(head, main, master)) == (JobView {
            agenda: clean::with_mainline(job.dir, p, branches::mainline(head, main, master))
                + job.agenda.drop_first(),
            ..job
        }),
{
    let rs = mainline_replies(head, main, master);
    let none = Seq::<Reply>::empty();
    let rest = job.agenda.drop_first();
    let job1 = clean::after_reply(job, rs[0]);
    let rs1 = rs.drop_first();
    assert(follows(job, rs) == follows(job1, rs1));
    assert(run(job, rs) == run(job1, rs1));
    if rs.len() == 1 {
        assert(rs1 =~= none);
    } else {
        assert(job1.agenda[0] == StepView::Fallback(p, Trunk::Main));
        assert(job1.agenda.drop_first() =~= rest);
        let job2 = clean::after_reply(job1, rs1[0]);
        let rs2 = rs1.drop_first();
        assert(follows(job1, rs1) == follows(job2, rs2));
        assert(run(job1, rs1) == run(job2, rs2));
        if rs.len() == 2 {
            assert(rs2 =~= none);
        } else {
            assert(job2.agenda[0] == StepView::Fallback(p, Trunk::Master));
            assert(job2.agenda.drop_first() =~= rest);
            let job3 = clean::after_reply(job2, rs2[0]);
            let rs3 = rs2.drop_first();
            assert(rs3 =~= none);
            assert(follows(job2, rs2) == follows(job3, rs3));
            assert(run(job2, rs2) == run(job3, rs3));
        }
    }
}

/// When there is a mainline, the branches phase deletes just the branches that
/// are merged into it and may go.
pub proof fn merged_branches_are_deleted(
    job: JobView,
    head: Output,
    main: Output,
    master: Output,
    merged: Output,
)
    requires
        job.agenda.len() > 0,
        job.agenda[0] == phases::branch_steps()[0],
        branches::mainline(head, main, master) is Some,
        call::succeeded(merged),
    ensures
        follows(job, mainline_replies(head, main, master).push(Reply::Ran(merged))),
        run(job, mainline_replies(head, main, master).push(Reply::Ran(merged))) == (JobView {
            agenda: clean::deletion(
                job.dir,
                branches::doomed(
                    call::printed(merged)->Some_0,
                    branches::mainline(head, main, master)->Some_0,
                    job.opts.protected_branches,
                ),
            ) + job.agenda.drop_first(),
            ..job
        }),
{
    let rs = mainline_replies(head, main, master);
    cleanups_find_the_mainline(job, Purpose::Branches, head, main, master);
    let mid = run(job, rs);
    let last = seq![Reply::Ran(merged)];
    let m = branches::mainline(head, main, master)->Some_0;
    let rest = job.agenda.drop_first();
    assert(mid.agenda =~= seq![StepView::Merged(m)] + rest);
    assert(mid.agenda.drop_first() =~= rest);
    assert(last.drop_first() =~= Seq::<Reply>::empty());
    let end = clean::after_reply(mid, last[0]);
    assert(follows(end, last.drop_first()));
    assert(run(end, last.drop_first()) == end);
    assert(follows(mid, last));
    assert(run(mid, last) == end);
    lemma_run_join(job, rs, last);
    assert(rs.push(Reply::Ran(merged)) =~= rs + last);
}

/// When there is no mainline, the branches phase is left out with a message,
/// which is not a failure.
pub proof fn no_mainline_is_no_failure(job: JobView, head: Output, main: Output, master: Output)
    requires
        job.agenda.len() > 0,
        job.agenda[0] == phases::branch_steps()[0],
        branches::mainline(head, main, master) is None,
    ensures
        follows(job, mainline_replies(head, main, master)),
        run(job, mainline_replies(head, main, master)).ok == job.ok,
        run(job, mainline_replies(head, main, master)).agenda == seq![
            StepView::Log(
                report::sanitized(job.dir)
                    + ": no mainline branch found; skipping branch pruning"@,
            ),
        ] + job.agenda.drop_first(),
{
    cleanups_find_the_mainline(job, Purpose::Branches, head, main, master);
}

// ── causes ───────────────────────────────────────────────────────────────────

/// Whether step `s` follows from one of the replies.
pub open spec fn follows_from_reply(job: JobView, rs: Seq<Reply>, s: StepView) -> bool {
    exists|k: int|
        0 <= k < rs.len() && clean::follow_up(
            #[trigger] run(job, rs.take(k)),
            run(job, rs.take(k)).agenda[0],
            rs[k],
        ).contains(s)
}

/// What a cleanup has to do was on its agenda from the beginning or follows
/// from a reply.
pub proof fn every_step_has_a_cause(job: JobView, rs: Seq<Reply>, i: int)
    requires
        follows(job, rs),
        0 <= i < run(job, rs).agenda.len(),
    ensures
        job.agenda.contains(run(job, rs).agenda[i]) || follows_from_reply(
            job,
            rs,
            run(job, rs).agenda[i],
        ),
    decreases rs.len(),
{
    if rs.len() == 0 {
        assert(job.agenda.contains(job.agenda[i]));
    } else {
        let k = rs.len() - 1;
        let front = rs.take(k);
        let back = rs.skip(k);
        lemma_run_split(job, rs, k);
        let mid = run(job, front);
        let end = clean::after_reply(mid, rs[k]);
        assert(back[0] == rs[k]);
        assert(back.drop_first() =~= Seq::<Reply>::empty());
        assert(run(end, back.drop_first()) == end);
        assert(run(mid, back) == end);
        assert(mid.agenda.len() > 0);
        let f = clean::follow_up(mid, mid.agenda[0], rs[k]);
        let s = end.agenda[i];
        if i < f.len() {
            assert(s == f[i]);
            assert(f.contains(s));
            assert(run(job, rs.take(k)) == mid);
            assert(follows_from_reply(job, rs, s));
        } else {
            let j = i - f.len() + 1;
            assert(s == mid.agenda[j]);
            every_step_has_a_cause(job, front, j);
            if follows_from_reply(job, front, s) {
                let m = choose|m: int|
                    0 <= m < front.len() && clean::follow_up(
                        #[trigger] run(job, front.take(m)),
                        run(job, front.take(m)).agenda[0],
                        front[m],
                    ).contains(s);
                assert(front.take(m) =~= rs.take(m));
                assert(run(job, rs.take(m)) == run(job, front.take(m)));
                assert(follows_from_reply(job, rs, s));
            }
        }
    }
}

/// Whether a step deletes a branch or removes a worktree.
spec fn is_deletion(s: StepView) -> bool {
    s matches StepView::Git(c) && c.args.len() > 1 && (c.args[0] == "branch"@ || (c.args[0]
        == "worktree"@ && c.args[1] == "remove"@))
}

spec fn no_deletion(a: Seq<StepView>) -> bool {
    forall|i: int| 0 <= i < a.len() ==> !is_deletion(#[trigger] a[i])
}

proof fn lemma_no_deletion_add(a: Seq<StepView>, b: Seq<StepView>)
    requires
        no_deletion(a),
        no_deletion(b),
    ensures
        no_deletion(a + b),
{
    assert forall|i: int| 0 <= i < (a + b).len() implies !is_deletion(#[trigger] (a + b)[i]) by {
        if i < a.len() {
            assert((a + b)[i] == a[i]);
        } else {
            assert((a + b)[i] == b[i - a.len()]);
        }
    }
}

proof fn lemma_previews_delete_nothing(s: Seq<StepView>)
    ensures
        no_deletion(clean::previews(s)),
    decreases s.len(),
{
    if s.len() > 0 {
        lemma_previews_delete_nothing(s.drop_last());
        lemma_no_deletion_add(clean::previews(s.drop_last()), clean::preview(s.last()));
    }
}

proof fn lemma_nothing_is_deleted_at_first(
    dir: Seq<char>,
    kind: RepoKind,
    o: OptionsView,
    dry_run: bool,
    n: nat,
    total: nat,
)
    ensures
        no_deletion(clean::agenda(dir, kind, o, dry_run, n, total)),
{
    lemma_first_words();
    let refs = phases::refs_steps(dir, kind, o.reflog_expire);
    let worktrees = clean::only_if(
        !(kind is Bare) && o.prune_worktrees,
        phases::worktree_removal_steps(),
    );
    let branches = clean::only_if(!(kind is Bare) && o.prune_branches, phases::branch_steps());
    let objects = if o.aggressive {
        phases::aggressive_object_steps(dir)
    } else {
        phases::normal_object_steps(dir)
    };
    let submodules = clean::only_if(
        !(kind is Bare) && !o.skip_submodules,
        seq![StepView::Submodules],
    );
    let lfs = clean::only_if(!o.skip_lfs, seq![StepView::Lfs]);
    let s1 = phases::fetch_steps(dir, o.prune_tags, o.credential_helpers);
    lemma_no_deletion_add(s1, refs);
    lemma_no_deletion_add(s1 + refs, worktrees);
    lemma_no_deletion_add(s1 + refs + worktrees, branches);
    let s4 = s1 + refs + worktrees + branches;
    lemma_no_deletion_add(s4, objects);
    lemma_no_deletion_add(s4 + objects, phases::index_steps(dir));
    let s6 = s4 + objects + phases::index_steps(dir);
    lemma_no_deletion_add(s6, submodules);
    lemma_no_deletion_add(s6 + submodules, lfs);
    let steps = clean::plan(dir, kind, o);
    let head = seq![StepView::Log(clean::cleaning(dir, kind, n, total))];
    let last = seq![StepView::Elapsed];
    assert(steps.push(StepView::Elapsed) =~= steps + last);
    lemma_no_deletion_add(steps, last);
    lemma_no_deletion_add(head, steps + last);
    lemma_previews_delete_nothing(steps);
    lemma_no_deletion_add(head, clean::previews(steps));
}

/// A deletion that comes up in a cleanup follows from a reply.
proof fn lemma_deletions_follow(
    dir: Seq<char>,
    kind: RepoKind,
    o: OptionsView,
    dry_run: bool,
    n: nat,
    total: nat,
    rs: Seq<Reply>,
    c: CallView,
) -> (k: int)
    requires
        follows(clean::started(dir, kind, o, dry_run, n, total), rs),
        clean::next_action(run(clean::started(dir, kind, o, dry_run, n, total), rs))
            == ActionView::Run(c),
        is_deletion(StepView::Git(c)),
        c.args[1] != "--merged"@,
    ensures
        0 <= k < rs.len(),
        ({
            let at = run(clean::started(dir, kind, o, dry_run, n, total), rs.take(k));
            &&& clean::follow_up(at, at.agenda[0], rs[k]).contains(StepView::Git(c))
            &&& at.dir == dir
            &&& at.opts == o
        }),
{
    let job = clean::started(dir, kind, o, dry_run, n, total);
    let end = run(job, rs);
    lemma_first_words();
    lemma_run_keeps_settings(job, rs);
    assert(end.agenda.len() > 0);
    assert(end.agenda[0] == StepView::Git(c));
    lemma_nothing_is_deleted_at_first(dir, kind, o, dry_run, n, total);
    every_step_has_a_cause(job, rs, 0);
    if job.agenda.contains(StepView::Git(c)) {
        let i = choose|i: int| 0 <= i < job.agenda.len() && job.agenda[i] == StepView::Git(c);
        assert(is_deletion(job.agenda[i]));
    }
    let k = choose|k: int|
        0 <= k < rs.len() && clean::follow_up(
            #[trigger] run(job, rs.take(k)),
            run(job, rs.take(k)).agenda[0],
            rs[k],
        ).contains(StepView::Git(c));
    lemma_run_split(job, rs, k);
    lemma_run_keeps_settings(job, rs.take(k));
    k
}

pub(crate) proof fn lemma_run_keeps_settings(job: JobView, rs: Seq<Reply>)
    ensures
        same_job(job, run(job, rs)),
    decreases rs.len(),
{
    if rs.len() > 0 {
        lemma_run_keeps_settings(clean::after_reply(job, rs[0]), rs.drop_first());
    }
}

/// Deletions follow only from what was found out about a worktree, and from a
/// listing of merged branches.
proof fn lemma_deletion_source(job: JobView, s: StepView, r: Reply, c: CallView)
    requires
        clean::follow_up(job, s, r).contains(StepView::Git(c)),
        is_deletion(StepView::Git(c)),
    ensures
        match (s, r) {
            (StepView::WorktreeMerged { path, .. }, Reply::Ran(o)) => call::succeeded(o) && c
                == worktrees::remove_call(job.dir, path),
            (StepView::WorktreeIdle(path), Reply::Idle(secs)) => secs > worktrees::IDLE_SECS && c
                == worktrees::remove_call(job.dir, path),
            (StepView::Merged(m), Reply::Ran(o)) => call::printed(o) is Some && c
                == branches::delete_call(
                job.dir,
                branches::doomed(call::printed(o)->Some_0, m, job.opts.protected_branches),
            ),
            _ => false,
        },
{
    let f = clean::follow_up(job, s, r);
    let i = choose|i: int| 0 <= i < f.len() && f[i] == StepView::Git(c);
    match (s, r) {
        (StepView::WorktreeMerged { .. }, Reply::Ran(_)) => {},
        (StepView::WorktreeIdle(_), Reply::Idle(_)) => {},
        (StepView::Merged(_), Reply::Ran(_)) => {},
        (StepView::Packs, Reply::Ran(_)) => {
            lemma_first_words();
            assert(c == phases::incremental_repack(job.dir));
            assert(c.args[0] == "maintenance"@);
        },
        (StepView::Submodules, Reply::Exists(_)) => {
            lemma_first_words();
            lemma_previews_delete_nothing(phases::submodule_steps(job.dir));
            assert(is_deletion(f[i]));
        },
        (StepView::Lfs, Reply::Ran(_)) => {
            lemma_first_words();
            lemma_previews_delete_nothing(
                phases::lfs_steps(job.dir, job.opts.credential_helpers),
            );
            assert(is_deletion(f[i]));
        },
        _ => {},
    }
}

/// Whether a reply says of the worktree at `path` that its commit is merged
/// into the mainline, or that nothing happened there for more than three days.
pub open spec fn lets_go(path: Seq<char>, s: StepView, r: Reply) -> bool {
    match (s, r) {
        (StepView::WorktreeMerged { path: p, .. }, Reply::Ran(o)) => p == path && call::succeeded(
            o,
        ),
        (StepView::WorktreeIdle(p), Reply::Idle(secs)) => p == path && secs
            > worktrees::IDLE_SECS,
        _ => false,
    }
}

/// A worktree is removed only after Git said that its commit is merged into
/// the mainline, or the file system that it was idle for more than three days.
pub proof fn worktrees_go_only_if_merged_or_idle(
    dir: Seq<char>,
    kind: RepoKind,
    o: OptionsView,
    dry_run: bool,
    n: nat,
    total: nat,
    rs: Seq<Reply>,
    path: Seq<char>,
)
    requires
        follows(clean::started(dir, kind, o, dry_run, n, total), rs),
        clean::next_action(run(clean::started(dir, kind, o, dry_run, n, total), rs))
            == ActionView::Run(worktrees::remove_call(dir, path)),
    ensures
        exists|k: int|
            0 <= k < rs.len() && lets_go(
                path,
                (#[trigger] run(clean::started(dir, kind, o, dry_run, n, total), rs.take(
                    k,
                ))).agenda[0],
                rs[k],
            ),
{
    let c = worktrees::remove_call(dir, path);
    lemma_first_words();
    let k = lemma_deletions_follow(dir, kind, o, dry_run, n, total, rs, c);
    let at = run(clean::started(dir, kind, o, dry_run, n, total), rs.take(k));
    let s = at.agenda[0];
    lemma_deletion_source(at, s, rs[k], c);
    assert(c.args[0] == "worktree"@);
    assert(c.args[3] == path);
    match (s, rs[k]) {
        (StepView::WorktreeMerged { path: p, .. }, Reply::Ran(_)) => {
            assert(worktrees::remove_call(dir, p).args[3] == p);
        },
        (StepView::WorktreeIdle(p), Reply::Idle(_)) => {
            assert(worktrees::remove_call(dir, p).args[3] == p);
        },
        (StepView::Merged(m), Reply::Ran(_)) => {
            assert(c.args[0] == "branch"@);
        },
        _ => {},
    }
    assert(lets_go(path, s, rs[k]));
}

/// Whether a reply lists branches as merged into a mainline, and `names` are
/// those of them that may go.
pub open spec fn lists_as_merged(
    names: Seq<Seq<char>>,
    protected: Seq<Seq<char>>,
    s: StepView,
    r: Reply,
) -> bool {
    match (s, r) {
        (StepView::Merged(m), Reply::Ran(o)) => match call::printed(o) {
            Some(t) => names == branches::doomed(t, m, protected),
            None => false,
        },
        _ => false,
    }
}

/// Branches are deleted only after Git listed them as merged into the
/// mainline.
pub proof fn branches_go_only_if_merged(
    dir: Seq<char>,
    kind: RepoKind,
    o: OptionsView,
    dry_run: bool,
    n: nat,
    total: nat,
    rs: Seq<Reply>,
    names: Seq<Seq<char>>,
)
    requires
        follows(clean::started(dir, kind, o, dry_run, n, total), rs),
        clean::next_action(run(clean::started(dir, kind, o, dry_run, n, total), rs))
            == ActionView::Run(branches::delete_call(dir, names)),
    ensures
        exists|k: int|
            0 <= k < rs.len() && lists_as_merged(
                names,
                o.protected_branches,
                (#[trigger] run(clean::started(dir, kind, o, dry_run, n, total), rs.take(
                    k,
                ))).agenda[0],
                rs[k],
            ),
{
    let c = branches::delete_call(dir, names);
    lemma_first_words();
    let k = lemma_deletions_follow(dir, kind, o, dry_run, n, total, rs, c);
    let at = run(clean::started(dir, kind, o, dry_run, n, total), rs.take(k));
    let s = at.agenda[0];
    lemma_deletion_source(at, s, rs[k], c);
    assert(c.args[0] == "branch"@);
    assert(c.args.skip(3) =~= names);
    match (s, rs[k]) {
        (StepView::Merged(m), Reply::Ran(out)) => {
            if let Some(t) = call::printed(out) {
                let d = branches::doomed(t, m, o.protected_branches);
                assert(branches::delete_call(dir, d).args.skip(3) =~= d);
            }
        },
        _ => {
            assert(c.args[0] == "worktree"@);
        },
    }
    assert(lists_as_merged(names, o.protected_branches, s, rs[k]));
}

} // verus!
